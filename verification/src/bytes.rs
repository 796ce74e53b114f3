//! Byte strings: equality, prefixes, lexicographic order and big-endian integers.
use vstd::prelude::*;

verus! {

/// Whether `a` sorts strictly before `b` in byte-wise lexicographic order.
pub open spec fn lex_lt(a: Seq<u8>, b: Seq<u8>) -> bool
    decreases a.len(),
{
    if b.len() == 0 {
        false
    } else if a.len() == 0 {
        true
    } else if a[0] != b[0] {
        a[0] < b[0]
    } else {
        lex_lt(a.drop_first(), b.drop_first())
    }
}

/// Whether `bytes` begins with `prefix`.
pub open spec fn has_prefix(bytes: Seq<u8>, prefix: Seq<u8>) -> bool {
    prefix.len() <= bytes.len() && bytes.subrange(0, prefix.len() as int) == prefix
}

/// The big-endian bytes of `value`, `len` of them.
pub open spec fn be_bytes(value: nat, len: nat) -> Seq<u8>
    decreases len,
{
    if len == 0 {
        Seq::empty()
    } else {
        be_bytes(value / 256, (len - 1) as nat).push((value % 256) as u8)
    }
}

/// The number that big-endian `bytes` stand for.
pub open spec fn be_value(bytes: Seq<u8>) -> nat
    decreases bytes.len(),
{
    if bytes.len() == 0 {
        0
    } else {
        be_value(bytes.drop_last()) * 256 + bytes.last() as nat
    }
}

/// `256` raised to `len`.
pub open spec fn pow256(len: nat) -> nat
    decreases len,
{
    if len == 0 {
        1
    } else {
        256 * pow256((len - 1) as nat)
    }
}

pub proof fn lemma_be_bytes_len(value: nat, len: nat)
    ensures
        be_bytes(value, len).len() == len,
    decreases len,
{
    if len > 0 {
        lemma_be_bytes_len(value / 256, (len - 1) as nat);
    }
}

/// Decoding the big-endian encoding of a number that fits gives the number back.
pub proof fn lemma_be_round_trip(value: nat, len: nat)
    requires
        value < pow256(len),
    ensures
        be_value(be_bytes(value, len)) == value,
    decreases len,
{
    if len > 0 {
        let rest = (len - 1) as nat;
        assert(value / 256 < pow256(rest)) by (nonlinear_arith)
            requires
                value < 256 * pow256(rest),
        ;
        lemma_be_round_trip(value / 256, rest);
        assert(be_bytes(value, len).drop_last() =~= be_bytes(value / 256, rest));
    }
}

/// Big-endian encodings of one width sort as the numbers do.
pub proof fn lemma_be_order(a: nat, b: nat, len: nat)
    requires
        a < pow256(len),
        b < pow256(len),
    ensures
        lex_lt(be_bytes(a, len), be_bytes(b, len)) <==> a < b,
    decreases len,
{
    lemma_be_bytes_len(a, len);
    lemma_be_bytes_len(b, len);
    if len > 0 {
        let rest = (len - 1) as nat;
        lemma_be_bytes_len(a / 256, rest);
        lemma_be_bytes_len(b / 256, rest);
        assert(a / 256 < pow256(rest) && b / 256 < pow256(rest)) by (nonlinear_arith)
            requires
                a < 256 * pow256(rest),
                b < 256 * pow256(rest),
        ;
        lemma_be_order(a / 256, b / 256, rest);
        lemma_be_order(b / 256, a / 256, rest);
        let x = be_bytes(a / 256, rest);
        let y = be_bytes(b / 256, rest);
        let p = seq![(a % 256) as u8];
        let q = seq![(b % 256) as u8];
        assert(be_bytes(a, len) =~= x + p);
        assert(be_bytes(b, len) =~= y + q);
        lemma_lex_append(x, y, p, q);
        if a / 256 == b / 256 {
            assert(lex_lt(p, q) <==> a % 256 < b % 256) by {
                reveal_with_fuel(lex_lt, 2);
                assert(p.drop_first() =~= Seq::<u8>::empty());
                assert(q.drop_first() =~= Seq::<u8>::empty());
            }
        } else {
            lemma_be_injective(a / 256, b / 256, rest);
        }
    }
}

/// Two numbers that fit in `len` bytes and have one encoding are equal.
pub proof fn lemma_be_injective(a: nat, b: nat, len: nat)
    requires
        a < pow256(len),
        b < pow256(len),
    ensures
        be_bytes(a, len) == be_bytes(b, len) <==> a == b,
{
    lemma_be_round_trip(a, len);
    lemma_be_round_trip(b, len);
}

pub proof fn lemma_pow256_values()
    ensures
        pow256(4) == 0x1_0000_0000,
        pow256(8) == 0x1_0000_0000_0000_0000,
        pow256(16) == 0x1_0000_0000_0000_0000_0000_0000_0000_0000,
{
    reveal_with_fuel(pow256, 17);
}

/// Appending to two byte strings of one length compares the heads first, then the tails.
pub proof fn lemma_lex_append(a: Seq<u8>, b: Seq<u8>, x: Seq<u8>, y: Seq<u8>)
    requires
        a.len() == b.len(),
    ensures
        a == b ==> (lex_lt(a + x, b + y) <==> lex_lt(x, y)),
        a != b ==> (lex_lt(a + x, b + y) <==> lex_lt(a, b)),
    decreases a.len(),
{
    if a.len() == 0 {
        assert(a + x =~= x);
        assert(b + y =~= y);
        assert(a =~= b);
    } else {
        lemma_lex_append(a.drop_first(), b.drop_first(), x, y);
        assert((a + x).drop_first() =~= a.drop_first() + x);
        assert((b + y).drop_first() =~= b.drop_first() + y);
        if a[0] == b[0] {
            if a.drop_first() == b.drop_first() {
                assert(a =~= seq![a[0]] + a.drop_first());
                assert(b =~= seq![b[0]] + b.drop_first());
            }
        }
    }
}

pub proof fn lemma_lex_irreflexive(a: Seq<u8>)
    ensures
        !lex_lt(a, a),
    decreases a.len(),
{
    if a.len() > 0 {
        lemma_lex_irreflexive(a.drop_first());
    }
}

pub proof fn lemma_lex_transitive(a: Seq<u8>, b: Seq<u8>, c: Seq<u8>)
    requires
        lex_lt(a, b),
        lex_lt(b, c),
    ensures
        lex_lt(a, c),
    decreases a.len(),
{
    if a.len() > 0 && b.len() > 0 && c.len() > 0 && a[0] == b[0] && b[0] == c[0] {
        lemma_lex_transitive(a.drop_first(), b.drop_first(), c.drop_first());
    }
}

pub proof fn lemma_lex_total(a: Seq<u8>, b: Seq<u8>)
    ensures
        lex_lt(a, b) || a == b || lex_lt(b, a),
    decreases a.len(),
{
    if a.len() == 0 && b.len() == 0 {
        assert(a =~= b);
    } else if a.len() > 0 && b.len() > 0 && a[0] == b[0] {
        lemma_lex_total(a.drop_first(), b.drop_first());
        if a.drop_first() == b.drop_first() {
            assert(a =~= seq![a[0]] + a.drop_first());
            assert(b =~= seq![b[0]] + b.drop_first());
        }
    }
}

/// A common head does not matter to the order.
pub proof fn lemma_lex_skip(a: Seq<u8>, b: Seq<u8>, k: int)
    requires
        0 <= k <= a.len(),
        k <= b.len(),
        a.subrange(0, k) == b.subrange(0, k),
    ensures
        lex_lt(a, b) == lex_lt(a.subrange(k, a.len() as int), b.subrange(k, b.len() as int)),
{
    let head = a.subrange(0, k);
    assert(a =~= head + a.subrange(k, a.len() as int));
    assert(b =~= b.subrange(0, k) + b.subrange(k, b.len() as int));
    lemma_lex_append(
        head,
        b.subrange(0, k),
        a.subrange(k, a.len() as int),
        b.subrange(k, b.len() as int),
    );
}

/// Whether the two byte strings are equal.
pub fn bytes_eq(a: &[u8], b: &[u8]) -> (r: bool)
    ensures
        r == (a@ == b@),
{
    if a.len() != b.len() {
        return false;
    }
    let mut i: usize = 0;
    while i < a.len()
        invariant
            a.len() == b.len(),
            i <= a.len(),
            forall|j: int| 0 <= j < i ==> a@[j] == b@[j],
        decreases a.len() - i,
    {
        if a[i] != b[i] {
            return false;
        }
        i += 1;
    }
    assert(a@ =~= b@);
    true
}

/// Whether `a` sorts strictly before `b`.
pub fn bytes_lt(a: &[u8], b: &[u8]) -> (r: bool)
    ensures
        r == lex_lt(a@, b@),
{
    let mut i: usize = 0;
    while i < a.len() && i < b.len()
        invariant
            i <= a.len(),
            i <= b.len(),
            a@.subrange(0, i as int) == b@.subrange(0, i as int),
        decreases a.len() - i,
    {
        if a[i] != b[i] {
            proof {
                lemma_lex_skip(a@, b@, i as int);
            }
            return a[i] < b[i];
        }
        proof {
            assert(a@.subrange(0, i + 1) =~= a@.subrange(0, i as int).push(a@[i as int]));
            assert(b@.subrange(0, i + 1) =~= b@.subrange(0, i as int).push(b@[i as int]));
        }
        i += 1;
    }
    proof {
        lemma_lex_skip(a@, b@, i as int);
    }
    i < b.len()
}

/// Whether `bytes` begins with `prefix`.
pub fn starts_with(bytes: &[u8], prefix: &[u8]) -> (r: bool)
    ensures
        r == has_prefix(bytes@, prefix@),
{
    if bytes.len() < prefix.len() {
        return false;
    }
    let mut i: usize = 0;
    while i < prefix.len()
        invariant
            prefix.len() <= bytes.len(),
            i <= prefix.len(),
            forall|j: int| 0 <= j < i ==> bytes@[j] == prefix@[j],
        decreases prefix.len() - i,
    {
        if bytes[i] != prefix[i] {
            assert(bytes@.subrange(0, prefix@.len() as int)[i as int] != prefix@[i as int]);
            return false;
        }
        i += 1;
    }
    assert(bytes@.subrange(0, prefix@.len() as int) =~= prefix@);
    true
}

/// `a` followed by `b`.
pub fn concat(a: &[u8], b: &[u8]) -> (r: Vec<u8>)
    ensures
        r@ == a@ + b@,
{
    let mut out = vstd::slice::slice_to_vec(a);
    append_slice(&mut out, b);
    out
}

/// Appends `more` to `out`.
pub fn append_slice(out: &mut Vec<u8>, more: &[u8])
    ensures
        final(out)@ == old(out)@ + more@,
{
    let mut i: usize = 0;
    while i < more.len()
        invariant
            i <= more.len(),
            out@ == old(out)@ + more@.subrange(0, i as int),
        decreases more.len() - i,
    {
        out.push(more[i]);
        proof {
            assert(more@.subrange(0, i + 1) =~= more@.subrange(0, i as int).push(more@[i as int]));
            assert(out@ =~= old(out)@ + more@.subrange(0, i + 1));
        }
        i += 1;
    }
    assert(more@.subrange(0, more@.len() as int) =~= more@);
}

/// A copy of `bytes`.
pub fn to_vec(bytes: &[u8]) -> (r: Vec<u8>)
    ensures
        r@ == bytes@,
{
    vstd::slice::slice_to_vec(bytes)
}

/// The eight big-endian bytes of `value`.
pub fn u64_be(value: u64) -> (r: [u8; 8])
    ensures
        r@ == be_bytes(value as nat, 8),
{
    let r: [u8; 8] = [
        ((value / 0x100_0000_0000_0000) % 256) as u8,
        ((value / 0x1_0000_0000_0000) % 256) as u8,
        ((value / 0x100_0000_0000) % 256) as u8,
        ((value / 0x1_0000_0000) % 256) as u8,
        ((value / 0x100_0000) % 256) as u8,
        ((value / 0x1_0000) % 256) as u8,
        ((value / 0x100) % 256) as u8,
        (value % 256) as u8,
    ];
    proof {
        reveal_with_fuel(be_bytes, 9);
        let v = value as nat;
        assert(v / 256 / 256 == v / 0x1_0000);
        assert(v / 0x1_0000 / 256 == v / 0x100_0000);
        assert(v / 0x100_0000 / 256 == v / 0x1_0000_0000);
        assert(v / 0x1_0000_0000 / 256 == v / 0x100_0000_0000);
        assert(v / 0x100_0000_0000 / 256 == v / 0x1_0000_0000_0000);
        assert(v / 0x1_0000_0000_0000 / 256 == v / 0x100_0000_0000_0000);
        assert(r@ =~= be_bytes(v, 8));
    }
    r
}

/// The four big-endian bytes of `value`.
pub fn u32_be(value: u32) -> (r: [u8; 4])
    ensures
        r@ == be_bytes(value as nat, 4),
{
    let r: [u8; 4] = [
        ((value / 0x100_0000) % 256) as u8,
        ((value / 0x1_0000) % 256) as u8,
        ((value / 0x100) % 256) as u8,
        (value % 256) as u8,
    ];
    proof {
        reveal_with_fuel(be_bytes, 5);
        let v = value as nat;
        assert(v / 256 / 256 == v / 0x1_0000);
        assert(v / 0x1_0000 / 256 == v / 0x100_0000);
        assert(r@ =~= be_bytes(v, 4));
    }
    r
}

/// The order of byte strings is decided at the first place where they differ: the one with the lower byte there
/// comes first, and one that ends there comes before the one that goes on. Strings that differ nowhere are equal
/// and neither comes first.
pub proof fn law_order_is_decided_at_the_first_difference(a: Seq<u8>, b: Seq<u8>, i: int)
    requires
        0 <= i <= a.len(),
        i <= b.len(),
        a.take(i) == b.take(i),
    ensures
        i < a.len() && i < b.len() && a[i] < b[i] ==> lex_lt(a, b) && !lex_lt(b, a),
        i == a.len() && i < b.len() ==> lex_lt(a, b) && !lex_lt(b, a),
        i == a.len() && i == b.len() ==> !lex_lt(a, b) && !lex_lt(b, a),
    decreases a.len(),
{
    if i > 0 {
        assert(a[0] == a.take(i)[0]);
        assert(b[0] == b.take(i)[0]);
        assert(a.drop_first().take(i - 1) =~= a.take(i).drop_first());
        assert(b.drop_first().take(i - 1) =~= b.take(i).drop_first());
        law_order_is_decided_at_the_first_difference(a.drop_first(), b.drop_first(), i - 1);
    }
}

/// A string begins with another exactly where it is no shorter and each byte of the other stands at its place.
pub proof fn law_prefix_agrees_byte_by_byte(bytes: Seq<u8>, prefix: Seq<u8>)
    ensures
        has_prefix(bytes, prefix) <==> prefix.len() <= bytes.len() && forall|i: int|
            0 <= i < prefix.len() ==> #[trigger] bytes[i] == prefix[i],
        forall|rest: Seq<u8>| has_prefix(#[trigger] (prefix + rest), prefix),
{
    if prefix.len() <= bytes.len() {
        let head = bytes.subrange(0, prefix.len() as int);
        if forall|i: int| 0 <= i < prefix.len() ==> #[trigger] bytes[i] == prefix[i] {
            assert(head =~= prefix);
        }
        if head == prefix {
            assert forall|i: int| 0 <= i < prefix.len() implies #[trigger] bytes[i] == prefix[i] by {
                assert(head[i] == bytes[i]);
            }
        }
    }
    assert forall|rest: Seq<u8>| has_prefix(#[trigger] (prefix + rest), prefix) by {
        assert((prefix + rest).subrange(0, prefix.len() as int) =~= prefix);
    }
}

/// The number that big-endian bytes stand for weighs each byte by its place from the end.
pub proof fn law_big_endian_puts_the_high_bytes_first(high: Seq<u8>, low: u8, value: nat, len: nat)
    ensures
        be_value(high.push(low)) == be_value(high) * 256 + low,
        be_value(Seq::empty()) == 0,
        be_bytes(value, len).len() == len,
        len > 0 ==> be_bytes(value, len).last() == value % 256,
        len > 0 ==> be_bytes(value, len).drop_last() == be_bytes(value / 256, (len - 1) as nat),
{
    assert(high.push(low).drop_last() =~= high);
    lemma_be_bytes_len(value, len);
    if len > 0 {
        assert(be_bytes(value, len).drop_last() =~= be_bytes(value / 256, (len - 1) as nat));
    }
}

} // verus!
