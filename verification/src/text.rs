//! Text: the characters of a string, blank text, decimal numbers and reference names.
use crate::error::{fault, outcome, Error, ErrorCode, Fault};
use vstd::prelude::*;
use vstd::string::*;
use vstd::utf8::encode_utf8;

verus! {

/// Whether `c` is a control character: the Unicode category `Cc`.
pub open spec fn control_char(c: char) -> bool {
    c as u32 <= 0x1f || 0x7f <= c as u32 <= 0x9f
}

/// Whether `c` has the Unicode property `White_Space`.
pub open spec fn white_space(c: char) -> bool {
    let v = c as u32;
    ||| 0x9 <= v <= 0xd
    ||| v == 0x20
    ||| v == 0x85
    ||| v == 0xa0
    ||| v == 0x1680
    ||| 0x2000 <= v <= 0x200a
    ||| v == 0x2028
    ||| v == 0x2029
    ||| v == 0x202f
    ||| v == 0x205f
    ||| v == 0x3000
}

/// Whether nothing is left of `text` once white space is cut off both ends.
pub open spec fn blank(text: Seq<char>) -> bool {
    forall|i: int| 0 <= i < text.len() ==> white_space(#[trigger] text[i])
}

/// The characters of `text`.
pub fn chars_of(text: &str) -> (r: Vec<char>)
    ensures
        r@ == text@,
{
    let mut out: Vec<char> = Vec::new();
    for c in it: text.chars()
        invariant
            it.seq() == text@,
            out@ == it.seq().take(it.index()),
    {
        out.push(c);
    }
    assert(out@ =~= text@);
    out
}

/// Whether the text is empty or white space throughout.
pub fn is_blank(text: &str) -> (r: bool)
    ensures
        r == blank(text@),
{
    let chars = chars_of(text);
    let mut i: usize = 0;
    while i < chars.len()
        invariant
            chars@ == text@,
            i <= chars.len(),
            forall|j: int| 0 <= j < i ==> white_space(#[trigger] text@[j]),
        decreases chars.len() - i,
    {
        let v: u32 = chars[i] as u32;
        let white = (0x9 <= v && v <= 0xd) || v == 0x20 || v == 0x85 || v == 0xa0 || v == 0x1680
            || (0x2000 <= v && v <= 0x200a) || v == 0x2028 || v == 0x2029 || v == 0x202f || v
            == 0x205f || v == 0x3000;
        if !white {
            assert(!white_space(text@[i as int]));
            return false;
        }
        i += 1;
    }
    true
}

/// Whether two characters stand next to each other in `text`.
pub open spec fn has_pair(text: Seq<char>, a: char, b: char) -> bool {
    exists|i: int| #![trigger text[i]] 0 <= i < text.len() - 1 && text[i] == a && text[i + 1] == b
}

/// Whether no reference name may hold `c`.
pub open spec fn forbidden_in_name(c: char) -> bool {
    control_char(c) || c == ' ' || c == '~' || c == '^' || c == ':' || c == '?' || c == '*' || c
        == '[' || c == '\\'
}

/// Whether `text[i..j]` stands between two slashes, or between a slash and an end.
pub open spec fn is_part(text: Seq<char>, i: int, j: int) -> bool {
    &&& 0 <= i <= j <= text.len()
    &&& i == 0 || text[i - 1] == '/'
    &&& j == text.len() || text[j] == '/'
    &&& forall|k: int| i <= k < j ==> text[k] != '/'
}

/// Whether one part of a reference name is acceptable.
pub open spec fn good_part(part: Seq<char>) -> bool {
    &&& part.len() > 0
    &&& part != seq!['.']
    &&& part != seq!['.', '.']
    &&& !(part.len() >= 5 && part.subrange(part.len() - 5, part.len() as int) == seq![
        '.',
        'l',
        'o',
        'c',
        'k',
    ])
}

/// Whether `name` may name a branch.
pub open spec fn valid_branch(name: Seq<char>) -> bool {
    &&& name.len() > 0
    &&& encode_utf8(name).len() <= 255
    &&& name != seq!['H', 'E', 'A', 'D']
    &&& name[0] != '/'
    &&& name.last() != '/'
    &&& name.last() != '.'
    &&& !has_pair(name, '/', '/')
    &&& !has_pair(name, '.', '.')
    &&& !has_pair(name, '@', '{')
    &&& forall|i: int| 0 <= i < name.len() ==> !forbidden_in_name(#[trigger] name[i])
    &&& forall|i: int, j: int| #[trigger] is_part(name, i, j) ==> good_part(name.subrange(i, j))
}

fn is_forbidden(c: char) -> (r: bool)
    ensures
        r == forbidden_in_name(c),
{
    let v: u32 = c as u32;
    v <= 0x1f || (0x7f <= v && v <= 0x9f) || c == ' ' || c == '~' || c == '^' || c == ':' || c
        == '?' || c == '*' || c == '[' || c == '\\'
}

/// Whether the part `name[start..end]` is acceptable.
fn check_part(name: &Vec<char>, start: usize, end: usize) -> (r: bool)
    requires
        start <= end <= name.len(),
    ensures
        r == good_part(name@.subrange(start as int, end as int)),
{
    let ghost part = name@.subrange(start as int, end as int);
    let len: usize = end - start;
    if len == 0 {
        return false;
    }
    if len == 1 && name[start] == '.' {
        assert(part =~= seq!['.']);
        return false;
    }
    if len == 2 && name[start] == '.' && name[start + 1] == '.' {
        assert(part =~= seq!['.', '.']);
        return false;
    }
    if len >= 5 && name[end - 5] == '.' && name[end - 4] == 'l' && name[end - 3] == 'o' && name[end
        - 2] == 'c' && name[end - 1] == 'k' {
        assert(part.subrange(part.len() - 5, part.len() as int) =~= seq!['.', 'l', 'o', 'c', 'k']);
        return false;
    }
    proof {
        if part == seq!['.'] {
            assert(part[0] == '.');
        }
        if part == seq!['.', '.'] {
            assert(part[0] == '.' && part[1] == '.');
        }
        if part.len() >= 5 {
            let tail = part.subrange(part.len() - 5, part.len() as int);
            assert(tail[0] == name@[end - 5]);
            assert(tail[1] == name@[end - 4]);
            assert(tail[2] == name@[end - 3]);
            assert(tail[3] == name@[end - 2]);
            assert(tail[4] == name@[end - 1]);
        }
    }
    true
}

fn check_name(name: &Vec<char>) -> (r: bool)
    requires
        name.len() > 0,
    ensures
        r == (name@ != seq!['H', 'E', 'A', 'D'] && name@[0] != '/' && name@.last() != '/'
            && name@.last() != '.' && !has_pair(name@, '/', '/') && !has_pair(name@, '.', '.')
            && !has_pair(name@, '@', '{') && (forall|i: int|
            0 <= i < name@.len() ==> !forbidden_in_name(#[trigger] name@[i])) && (forall|
            i: int,
            j: int,
        | #[trigger]
            is_part(name@, i, j) ==> good_part(name@.subrange(i, j)))),
{
    let len: usize = name.len();
    if name[0] == '/' || name[len - 1] == '/' || name[len - 1] == '.' {
        return false;
    }
    if len == 4 && name[0] == 'H' && name[1] == 'E' && name[2] == 'A' && name[3] == 'D' {
        assert(name@ =~= seq!['H', 'E', 'A', 'D']);
        return false;
    }
    proof {
        if name@ == seq!['H', 'E', 'A', 'D'] {
            assert(name@[0] == 'H' && name@[1] == 'E' && name@[2] == 'A' && name@[3] == 'D');
        }
    }
    let mut start: usize = 0;
    let mut i: usize = 0;
    while i < len
        invariant
            len == name.len(),
            start <= i <= len,
            start == 0 || name@[start - 1] == '/',
            forall|k: int| start <= k < i ==> name@[k] != '/',
            forall|k: int| 0 <= k < i ==> !forbidden_in_name(#[trigger] name@[k]),
            forall|k: int|
                0 <= k < i - 1 ==> !(#[trigger] name@[k] == '/' && name@[k + 1] == '/') && !(name@[k]
                    == '.' && name@[k + 1] == '.') && !(name@[k] == '@' && name@[k + 1] == '{'),
            forall|a: int, b: int|
                b < i && #[trigger] is_part(name@, a, b) ==> good_part(name@.subrange(a, b)),
        decreases len - i,
    {
        let c = name[i];
        if is_forbidden(c) {
            return false;
        }
        if i > 0 {
            let p = name[i - 1];
            if p == '/' && c == '/' {
                assert(name@[i - 1] == '/');
                assert(has_pair(name@, '/', '/'));
                return false;
            }
            if p == '.' && c == '.' {
                assert(name@[i - 1] == '.');
                assert(has_pair(name@, '.', '.'));
                return false;
            }
            if p == '@' && c == '{' {
                assert(name@[i - 1] == '@');
                assert(has_pair(name@, '@', '{'));
                return false;
            }
        }
        if c == '/' {
            assert(is_part(name@, start as int, i as int));
            if !check_part(name, start, i) {
                return false;
            }
            assert forall|a: int, b: int|
                b < i + 1 && #[trigger] is_part(name@, a, b) implies good_part(
                name@.subrange(a, b),
            ) by {
                if b == i {
                    if a < start {
                        assert(name@[start - 1] == '/');
                    } else if a > start {
                        assert(name@[a - 1] == '/');
                    }
                    assert(a == start);
                }
            }
            start = i + 1;
        }
        i += 1;
    }
    assert(is_part(name@, start as int, len as int));
    if !check_part(name, start, len) {
        return false;
    }
    assert forall|a: int, b: int| #[trigger] is_part(name@, a, b) implies good_part(
        name@.subrange(a, b),
    ) by {
        if b == len {
            if a < start {
                assert(name@[start - 1] == '/');
            } else if a > start {
                assert(name@[a - 1] == '/');
            }
            assert(a == start);
        }
    }
    true
}

/// Accepts exactly the names that `valid_branch` describes.
pub fn validate_branch(branch: &str) -> (r: Result<(), Error>)
    ensures
        outcome(r) == if valid_branch(branch@) {
            Ok::<(), Fault>(())
        } else {
            Err(fault(ErrorCode::InvalidBranch, "branch name violates the canonical ref contract"))
        },
{
    let chars = chars_of(branch);
    if chars.len() == 0 || branch.as_bytes().len() > 255 || !check_name(&chars) {
        return Err(
            Error::new(ErrorCode::InvalidBranch, "branch name violates the canonical ref contract"),
        );
    }
    Ok(())
}

/// A slash in a valid name stands between two characters that are no slashes.
pub proof fn law_slash_separates_parts(name: Seq<char>, i: int)
    requires
        valid_branch(name),
        0 <= i < name.len(),
        name[i] == '/',
    ensures
        0 < i < name.len() - 1,
        name[i - 1] != '/',
        name[i + 1] != '/',
{
    if name[i + 1] == '/' {
        assert(has_pair(name, '/', '/'));
    }
    if i > 0 && name[i - 1] == '/' {
        assert(has_pair(name, '/', '/'));
    }
}

/// The decimal digits of `value`, without leading zeros.
pub open spec fn decimal(value: nat) -> Seq<char>
    decreases value,
{
    if value < 10 {
        seq![(48 + value) as char]
    } else {
        decimal(value / 10).push((48 + value % 10) as char)
    }
}

/// The last `width` decimal digits of `value`, with leading zeros.
pub open spec fn decimal_padded(value: nat, width: nat) -> Seq<char>
    decreases width,
{
    if width == 0 {
        Seq::empty()
    } else {
        decimal_padded(value / 10, (width - 1) as nat).push((48 + value % 10) as char)
    }
}

fn digit(value: u64) -> (r: &'static str)
    requires
        value < 10,
    ensures
        r@ == seq![(48 + value) as char],
{
    proof {
        reveal_strlit("0");
        reveal_strlit("1");
        reveal_strlit("2");
        reveal_strlit("3");
        reveal_strlit("4");
        reveal_strlit("5");
        reveal_strlit("6");
        reveal_strlit("7");
        reveal_strlit("8");
        reveal_strlit("9");
    }
    let r = if value == 0 {
        "0"
    } else if value == 1 {
        "1"
    } else if value == 2 {
        "2"
    } else if value == 3 {
        "3"
    } else if value == 4 {
        "4"
    } else if value == 5 {
        "5"
    } else if value == 6 {
        "6"
    } else if value == 7 {
        "7"
    } else if value == 8 {
        "8"
    } else {
        "9"
    };
    assert(r@ =~= seq![(48 + value) as char]);
    r
}

/// The decimal text of `value`.
pub fn decimal_text(value: u64) -> (r: String)
    ensures
        r@ == decimal(value as nat),
    decreases value,
{
    if value < 10 {
        return digit(value).to_owned();
    }
    let mut out = decimal_text(value / 10);
    out.append(digit(value % 10));
    assert(out@ =~= decimal((value / 10) as nat).push((48 + value % 10) as char));
    out
}

/// The decimal text of `value` in `width` digits.
pub fn decimal_text_padded(value: u64, width: u64) -> (r: String)
    ensures
        r@ == decimal_padded(value as nat, width as nat),
    decreases width,
{
    if width == 0 {
        let out = String::new();
        assert(out@ =~= Seq::<char>::empty());
        return out;
    }
    let mut out = decimal_text_padded(value / 10, width - 1);
    out.append(digit(value % 10));
    assert(out@ =~= decimal_padded((value / 10) as nat, (width - 1) as nat).push(
        (48 + value % 10) as char,
    ));
    out
}

/// Whether every character is a decimal digit, and there is at least one.
pub open spec fn all_digits(text: Seq<char>) -> bool {
    text.len() > 0 && forall|i: int| 0 <= i < text.len() ==> '0' <= #[trigger] text[i] <= '9'
}

/// The number that decimal digits stand for.
pub open spec fn digits_value(text: Seq<char>) -> nat
    decreases text.len(),
{
    if text.len() == 0 {
        0
    } else {
        (digits_value(text.drop_last()) * 10 + (text.last() as u32 - 48)) as nat
    }
}

/// The digits of a number that may have a plus sign in front.
pub open spec fn unsigned_digits(text: Seq<char>) -> Seq<char> {
    if text.len() > 0 && text[0] == '+' {
        text.drop_first()
    } else {
        text
    }
}

/// The unsigned number that text stands for, if it stands for one that fits.
pub open spec fn parsed_u64(text: Seq<char>) -> Option<u64> {
    let digits = unsigned_digits(text);
    if all_digits(digits) && digits_value(digits) <= u64::MAX {
        Some(digits_value(digits) as u64)
    } else {
        None
    }
}

proof fn lemma_digits_grow(text: Seq<char>, n: int)
    requires
        0 <= n <= text.len(),
        forall|i: int| 0 <= i < text.len() ==> '0' <= #[trigger] text[i] <= '9',
    ensures
        digits_value(text.take(n)) <= digits_value(text),
    decreases text.len(),
{
    if n == text.len() {
        assert(text.take(n) =~= text);
    } else {
        lemma_digits_grow(text.drop_last(), n);
        assert(text.drop_last().take(n) =~= text.take(n));
        assert('0' <= text[text.len() - 1]);
    }
}

/// The unsigned number that characters stand for, if they stand for one that fits.
pub fn parse_u64(text: &Vec<char>) -> (r: Option<u64>)
    ensures
        r == parsed_u64(text@),
{
    let start: usize = if text.len() > 0 && text[0] == '+' {
        1
    } else {
        0
    };
    let ghost digits = unsigned_digits(text@);
    assert(digits =~= text@.skip(start as int));
    if start >= text.len() {
        return None;
    }
    let mut value: u64 = 0;
    let mut i: usize = start;
    assert(digits.take(0) =~= Seq::<char>::empty());
    while i < text.len()
        invariant
            start <= i <= text@.len(),
            digits == text@.skip(start as int),
            digits == unsigned_digits(text@),
            digits.len() > 0,
            forall|j: int| 0 <= j < i - start ==> '0' <= #[trigger] digits[j] <= '9',
            value == digits_value(digits.take(i - start)),
        decreases text.len() - i,
    {
        let c = text[i];
        assert(c == digits[i - start]);
        if c < '0' || c > '9' {
            return None;
        }
        let digit: u64 = (c as u32 - 48) as u64;
        proof {
            let n = i - start;
            assert(digits.take(n + 1).drop_last() =~= digits.take(n));
            assert(digits.take(n + 1).last() == c);
            if all_digits(digits) {
                lemma_digits_grow(digits, n + 1);
            }
        }
        let scaled = match value.checked_mul(10) {
            Some(scaled) => scaled,
            None => {
                return None;
            },
        };
        value = match scaled.checked_add(digit) {
            Some(sum) => sum,
            None => {
                return None;
            },
        };
        i += 1;
    }
    assert(digits.take(digits.len() as int) =~= digits);
    Some(value)
}

/// Reading padded digits gives back the number, as long as it has no more digits than the padding.
pub proof fn law_padded_digits_read_back(value: nat, width: nat, limit: nat)
    requires
        value < limit,
        limit == pow10(width),
        width > 0,
    ensures
        all_digits(decimal_padded(value, width)),
        decimal_padded(value, width).len() == width,
        digits_value(decimal_padded(value, width)) == value,
    decreases width,
{
    let text = decimal_padded(value, width);
    let rest = (width - 1) as nat;
    assert(text.last() as u32 - 48 == value % 10);
    assert(text.drop_last() =~= decimal_padded(value / 10, rest));
    if rest > 0 {
        assert(value / 10 < pow10(rest)) by (nonlinear_arith)
            requires
                value < 10 * pow10(rest),
        ;
        law_padded_digits_read_back(value / 10, rest, pow10(rest));
        assert forall|i: int| 0 <= i < text.len() implies '0' <= #[trigger] text[i] <= '9' by {
            if i < rest {
                assert(text[i] == decimal_padded(value / 10, rest)[i]);
            }
        }
    } else {
        assert(pow10(1) == 10) by {
            reveal_with_fuel(pow10, 2);
        }
        assert(decimal_padded(value / 10, 0) =~= Seq::<char>::empty());
        assert(digits_value(Seq::<char>::empty()) == 0);
    }
}

/// Ten raised to `n`.
pub open spec fn pow10(n: nat) -> nat
    decreases n,
{
    if n == 0 {
        1
    } else {
        10 * pow10((n - 1) as nat)
    }
}

/// What no name of a branch may have: a character that is refused, a slash at an end or two in a row, a dot at the
/// end or two in a row, the pair that stands for a reference, the name that stands for the default branch, more than
/// the longest text, or a part between slashes that stands for a directory or a lock.
pub proof fn law_refused_branch_names(name: Seq<char>, i: int, j: int)
    requires
        valid_branch(name),
    ensures
        1 <= name.len(),
        encode_utf8(name).len() <= 255,
        name != seq!['H', 'E', 'A', 'D'],
        name[0] != '/',
        name.last() != '/',
        name.last() != '.',
        0 <= i < name.len() ==> {
            let c = name[i];
            &&& c as u32 > 0x1f && c != ' ' && !(0x7f <= c as u32 <= 0x9f)
            &&& c != '~' && c != '^' && c != ':' && c != '?' && c != '*' && c != '[' && c != '\\'
        },
        0 <= i < name.len() - 1 ==> {
            &&& !(name[i] == '.' && name[i + 1] == '.')
            &&& !(name[i] == '/' && name[i + 1] == '/')
            &&& !(name[i] == '@' && name[i + 1] == '{')
        },
        0 <= i <= j <= name.len() && (i == 0 || name[i - 1] == '/') && (j == name.len() || name[j] == '/')
            && (forall|k: int| i <= k < j ==> name[k] != '/') ==> {
            let part = name.subrange(i, j);
            &&& part.len() > 0
            &&& part != seq!['.']
            &&& part != seq!['.', '.']
            &&& part.len() >= 5 ==> part.skip(part.len() - 5) != seq!['.', 'l', 'o', 'c', 'k']
        },
{
    if 0 <= i < name.len() {
        assert(!forbidden_in_name(name[i]));
    }
    if 0 <= i < name.len() - 1 {
        assert(!has_pair(name, '.', '.'));
        assert(!has_pair(name, '/', '/'));
        assert(!has_pair(name, '@', '{'));
        assert(name[i] == name[i]);
    }
    if 0 <= i <= j <= name.len() && (i == 0 || name[i - 1] == '/') && (j == name.len() || name[j] == '/')
        && (forall|k: int| i <= k < j ==> name[k] != '/') {
        assert(is_part(name, i, j));
        let part = name.subrange(i, j);
        assert(good_part(part));
        if part.len() >= 5 {
            assert(part.skip(part.len() - 5) =~= part.subrange(part.len() - 5, part.len() as int));
        }
    }
}

/// A name without slashes, dots, braces or anything else that is refused names a branch, if it is neither empty nor
/// too long nor the name that stands for the default branch.
pub proof fn law_plain_names_are_branches(name: Seq<char>)
    requires
        0 < name.len(),
        encode_utf8(name).len() <= 255,
        name != seq!['H', 'E', 'A', 'D'],
        forall|i: int|
            0 <= i < name.len() ==> ({
                let c = #[trigger] name[i];
                &&& c as u32 > 0x1f && c != ' ' && !(0x7f <= c as u32 <= 0x9f)
                &&& c != '~' && c != '^' && c != ':' && c != '?' && c != '*' && c != '[' && c != '\\'
                &&& c != '/' && c != '.' && c != '{'
            }),
    ensures
        valid_branch(name),
{
    assert forall|i: int| 0 <= i < name.len() implies !forbidden_in_name(#[trigger] name[i]) by {}
    assert forall|i: int, j: int| #[trigger] is_part(name, i, j) implies good_part(
        name.subrange(i, j),
    ) by {
        let part = name.subrange(i, j);
        if i > 0 {
            assert(name[i - 1] != '/');
        }
        if j < name.len() {
            assert(name[j] != '/');
        }
        assert(part =~= name);
        if part == seq!['.'] {
            assert(name[0] == '.');
        }
        if part == seq!['.', '.'] {
            assert(name[0] == '.');
        }
        if part.len() >= 5 && part.subrange(part.len() - 5, part.len() as int) == seq![
            '.',
            'l',
            'o',
            'c',
            'k',
        ] {
            assert(part.subrange(part.len() - 5, part.len() as int)[0] == name[name.len() - 5]);
        }
    }
    if has_pair(name, '/', '/') || has_pair(name, '.', '.') || has_pair(name, '@', '{') {
        let i = choose|i: int|
            #![trigger name[i]]
            0 <= i < name.len() - 1 && ((name[i] == '/' && name[i + 1] == '/') || (name[i] == '.'
                && name[i + 1] == '.') || (name[i] == '@' && name[i + 1] == '{'));
        assert(name[i + 1] != '{');
        assert(name[i] != '/');
    }
}

/// Text is blank exactly where nothing in it can be seen: any letter, digit or sign of plain text makes it more.
pub proof fn law_blank_text_has_only_white_space(text: Seq<char>, i: int)
    requires
        0 <= i < text.len(),
    ensures
        0x21 <= text[i] as u32 <= 0x7e ==> !blank(text),
        (forall|k: int| 0 <= k < text.len() ==> (#[trigger] text[k]) == ' ' || text[k] == '\t' || text[k]
            == '\n' || text[k] == '\r') ==> blank(text),
        blank(Seq::empty()),
{
    if blank(text) {
        assert(white_space(text[i]));
    }
}

/// Reading the digits of a number gives back the number.
pub proof fn law_decimal_text_reads_back(value: nat)
    ensures
        all_digits(decimal(value)),
        digits_value(decimal(value)) == value,
        value > 0 ==> decimal(value)[0] != '0',
        value <= u64::MAX ==> parsed_u64(decimal(value)) == Some(value as u64),
    decreases value,
{
    let text = decimal(value);
    if value < 10 {
        assert(text.drop_last() =~= Seq::<char>::empty());
        assert(digits_value(text.drop_last()) == 0);
    } else {
        law_decimal_text_reads_back(value / 10);
        assert(text.drop_last() =~= decimal(value / 10));
        assert forall|i: int| 0 <= i < text.len() implies '0' <= #[trigger] text[i] <= '9' by {
            if i < text.len() - 1 {
                assert(text[i] == decimal(value / 10)[i]);
            }
        }
    }
    assert(text[0] != '+');
}

} // verus!
