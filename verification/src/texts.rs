//! Named texts: what a writer attaches to an object, one text under each name.
use crate::bytes::{lemma_lex_irreflexive, lemma_lex_transitive, lex_lt};
use crate::ordered::{put_sorted, sorted, Keyed};
use vstd::prelude::*;
use vstd::utf8::encode_utf8;

verus! {

/// A text and its name.
#[derive(Clone, Debug, PartialEq, Eq)]
pub struct NamedText {
    pub name: String,
    pub text: String,
}

impl Keyed for NamedText {
    open spec fn sort_key(&self) -> Seq<u8> {
        encode_utf8(self.name@)
    }

    fn sort_bytes(&self) -> (r: &[u8]) {
        self.name.as_str().as_bytes()
    }
}

/// The contents of a list of named texts.
pub open spec fn texts_view(entries: Seq<NamedText>) -> Seq<(Seq<char>, Seq<char>)> {
    entries.map_values(|e: NamedText| (e.name@, e.text@))
}

/// The texts by their names. Where a name occurs twice, the later text counts.
pub open spec fn map_of(list: Seq<(Seq<char>, Seq<char>)>) -> Map<Seq<char>, Seq<char>>
    decreases list.len(),
{
    if list.len() == 0 {
        Map::empty()
    } else {
        map_of(list.drop_last()).insert(list.last().0, list.last().1)
    }
}

/// Whether the names of a list rise, so that none occurs twice.
pub open spec fn names_rise(list: Seq<(Seq<char>, Seq<char>)>) -> bool {
    forall|i: int, j: int|
        0 <= i < j < list.len() ==> lex_lt(
            encode_utf8((#[trigger] list[i]).0),
            encode_utf8((#[trigger] list[j]).0),
        )
}

/// The contents of a list of pairs.
pub open spec fn pairs_view(pairs: Seq<(String, String)>) -> Seq<(Seq<char>, Seq<char>)> {
    pairs.map_values(|pair: (String, String)| (pair.0@, pair.1@))
}

/// Texts by their names. The names are kept in the order of their bytes, each once, so that the same texts
/// under the same names are always kept, compared and stored alike.
#[derive(Debug, PartialEq, Eq)]
pub struct NamedTexts {
    entries: Vec<NamedText>,
}

impl View for NamedTexts {
    type V = Map<Seq<char>, Seq<char>>;

    closed spec fn view(&self) -> Map<Seq<char>, Seq<char>> {
        map_of(texts_view(self.entries@))
    }
}

/// The text of equal bytes is equal.
pub proof fn lemma_encoding_is_injective(a: Seq<char>, b: Seq<char>)
    requires
        encode_utf8(a) == encode_utf8(b),
    ensures
        a == b,
{
    vstd::utf8::encode_utf8_decode_utf8(a);
    vstd::utf8::encode_utf8_decode_utf8(b);
}

/// What a list with rising names holds is what it stands for.
proof fn lemma_map_of(list: Seq<(Seq<char>, Seq<char>)>)
    requires
        names_rise(list),
    ensures
        forall|name: Seq<char>, text: Seq<char>| #[trigger]
            map_of(list).contains_pair(name, text) <==> list.contains((name, text)),
    decreases list.len(),
{
    if list.len() > 0 {
        let fewer = list.drop_last();
        let last = list.last();
        let n = fewer.len() as int;
        assert(names_rise(fewer)) by {
            assert forall|i: int, j: int| 0 <= i < j < fewer.len() implies lex_lt(
                encode_utf8((#[trigger] fewer[i]).0),
                encode_utf8((#[trigger] fewer[j]).0),
            ) by {
                assert(fewer[i] == list[i] && fewer[j] == list[j]);
            }
        }
        lemma_map_of(fewer);
        assert forall|name: Seq<char>, text: Seq<char>| #[trigger]
            map_of(list).contains_pair(name, text) <==> list.contains((name, text)) by {
            assert(map_of(fewer).contains_pair(name, text) <==> fewer.contains((name, text)));
            if list.contains((name, text)) {
                let i = choose|i: int| 0 <= i < list.len() && list[i] == (name, text);
                if i < n {
                    assert(fewer[i] == (name, text));
                    assert(lex_lt(encode_utf8(list[i].0), encode_utf8(list[n].0)));
                    lemma_lex_irreflexive(encode_utf8(name));
                }
            }
            if fewer.contains((name, text)) {
                let i = choose|i: int| 0 <= i < fewer.len() && fewer[i] == (name, text);
                assert(list[i] == (name, text));
            }
            assert(list[n] == last);
        }
    } else {
        assert forall|name: Seq<char>, text: Seq<char>| #[trigger]
            map_of(list).contains_pair(name, text) <==> list.contains((name, text)) by {}
    }
}

/// Two lists with rising names that stand for the same texts are the same list.
proof fn lemma_same_map_same_list(a: Seq<(Seq<char>, Seq<char>)>, b: Seq<(Seq<char>, Seq<char>)>)
    requires
        names_rise(a),
        names_rise(b),
        map_of(a) == map_of(b),
    ensures
        a == b,
{
    lemma_map_of(a);
    lemma_map_of(b);
    assert forall|e: (Seq<char>, Seq<char>)| a.contains(e) <==> b.contains(e) by {
        let (name, text) = e;
        assert(e == (name, text));
        assert(map_of(a).contains_pair(name, text) <==> a.contains((name, text)));
        assert(map_of(b).contains_pair(name, text) <==> b.contains((name, text)));
    }
    lemma_same_members(a, b);
}

proof fn lemma_same_members(a: Seq<(Seq<char>, Seq<char>)>, b: Seq<(Seq<char>, Seq<char>)>)
    requires
        names_rise(a),
        names_rise(b),
        forall|e: (Seq<char>, Seq<char>)| a.contains(e) <==> b.contains(e),
    ensures
        a == b,
    decreases a.len(),
{
    if a.len() == 0 {
        if b.len() > 0 {
            assert(b.contains(b[0]));
        }
        assert(a =~= b);
    } else {
        assert(a.contains(a.last()));
        let j = choose|j: int| 0 <= j < b.len() && b[j] == a.last();
        assert(b.contains(b.last()));
        let i = choose|i: int| 0 <= i < a.len() && a[i] == b.last();
        let x = encode_utf8(a.last().0);
        let y = encode_utf8(b.last().0);
        lemma_lex_irreflexive(x);
        lemma_lex_irreflexive(y);
        if j < b.len() - 1 {
            assert(lex_lt(encode_utf8(b[j].0), encode_utf8(b[b.len() - 1].0)));
            if i < a.len() - 1 {
                assert(lex_lt(encode_utf8(a[i].0), encode_utf8(a[a.len() - 1].0)));
                lemma_lex_transitive(x, y, x);
            }
        }
        assert(a.last() == b.last());
        let fewer_a = a.drop_last();
        let fewer_b = b.drop_last();
        assert(names_rise(fewer_a)) by {
            assert forall|p: int, q: int| 0 <= p < q < fewer_a.len() implies lex_lt(
                encode_utf8((#[trigger] fewer_a[p]).0),
                encode_utf8((#[trigger] fewer_a[q]).0),
            ) by {
                assert(fewer_a[p] == a[p] && fewer_a[q] == a[q]);
            }
        }
        assert(names_rise(fewer_b)) by {
            assert forall|p: int, q: int| 0 <= p < q < fewer_b.len() implies lex_lt(
                encode_utf8((#[trigger] fewer_b[p]).0),
                encode_utf8((#[trigger] fewer_b[q]).0),
            ) by {
                assert(fewer_b[p] == b[p] && fewer_b[q] == b[q]);
            }
        }
        assert forall|e: (Seq<char>, Seq<char>)| fewer_a.contains(e) <==> fewer_b.contains(e) by {
            if fewer_a.contains(e) {
                let k = choose|k: int| 0 <= k < fewer_a.len() && fewer_a[k] == e;
                assert(a[k] == e);
                assert(a.contains(e));
                assert(lex_lt(encode_utf8(a[k].0), encode_utf8(a[a.len() - 1].0)));
                let m = choose|m: int| 0 <= m < b.len() && b[m] == e;
                assert(m < b.len() - 1);
                assert(fewer_b[m] == e);
            }
            if fewer_b.contains(e) {
                let k = choose|k: int| 0 <= k < fewer_b.len() && fewer_b[k] == e;
                assert(b[k] == e);
                assert(b.contains(e));
                assert(lex_lt(encode_utf8(b[k].0), encode_utf8(b[b.len() - 1].0)));
                let m = choose|m: int| 0 <= m < a.len() && a[m] == e;
                assert(m < a.len() - 1);
                assert(fewer_a[m] == e);
            }
        }
        lemma_same_members(fewer_a, fewer_b);
        assert(a =~= fewer_a.push(a.last()));
        assert(b =~= fewer_b.push(b.last()));
    }
}

/// Entries in order have rising names.
proof fn lemma_sorted_names_rise(entries: Seq<NamedText>)
    requires
        sorted(entries),
    ensures
        names_rise(texts_view(entries)),
{
    let list = texts_view(entries);
    assert forall|i: int, j: int| 0 <= i < j < list.len() implies lex_lt(
        encode_utf8((#[trigger] list[i]).0),
        encode_utf8((#[trigger] list[j]).0),
    ) by {
        assert(lex_lt(entries[i].sort_key(), entries[j].sort_key()));
    }
}

/// Putting a text in its place among others puts it under its name.
proof fn lemma_put_text(before: Seq<NamedText>, after: Seq<NamedText>, item: NamedText)
    requires
        sorted(before),
        sorted(after),
        forall|x: NamedText| #[trigger]
            after.contains(x) <==> x == item || (before.contains(x) && x.sort_key()
                != item.sort_key()),
    ensures
        map_of(texts_view(after)) == map_of(texts_view(before)).insert(item.name@, item.text@),
{
    let a = texts_view(before);
    let b = texts_view(after);
    lemma_sorted_names_rise(before);
    lemma_sorted_names_rise(after);
    lemma_map_of(a);
    lemma_map_of(b);
    let old = map_of(a);
    let new = map_of(b);
    let target = old.insert(item.name@, item.text@);
    assert forall|name: Seq<char>, text: Seq<char>| #[trigger] new.contains_pair(name, text)
        <==> target.contains_pair(name, text) by {
        if new.contains_pair(name, text) {
            assert(b.contains((name, text)));
            let i = choose|i: int| 0 <= i < b.len() && b[i] == (name, text);
            assert(after.contains(after[i]));
            if after[i] != item {
                let k = choose|k: int| 0 <= k < before.len() && before[k] == after[i];
                assert(a[k] == (name, text));
                assert(a.contains((name, text)));
                assert(old.contains_pair(name, text));
                assert(name != item.name@);
            }
        }
        if target.contains_pair(name, text) {
            if name == item.name@ {
                assert(after.contains(item));
                let i = choose|i: int| 0 <= i < after.len() && after[i] == item;
                assert(b[i] == (name, text));
            } else {
                assert(old.contains_pair(name, text));
                assert(a.contains((name, text)));
                let k = choose|k: int| 0 <= k < a.len() && a[k] == (name, text);
                assert(before.contains(before[k]));
                if before[k].sort_key() == item.sort_key() {
                    lemma_encoding_is_injective(name, item.name@);
                }
                assert(after.contains(before[k]));
                let i = choose|i: int| 0 <= i < after.len() && after[i] == before[k];
                assert(b[i] == (name, text));
            }
            assert(b.contains((name, text)));
        }
    }
    assert forall|name: Seq<char>|
        #![trigger new.contains_key(name)]
        #![trigger target.contains_key(name)]
        new.contains_key(name) == target.contains_key(name) && (new.contains_key(name) ==> new[name]
            == target[name]) by {
        if new.contains_key(name) {
            assert(new.contains_pair(name, new[name]));
        }
        if target.contains_key(name) {
            assert(target.contains_pair(name, target[name]));
            assert(new.contains_pair(name, target[name]));
        }
    }
    assert(new =~= target);
}

impl NamedTexts {
    #[verifier::type_invariant]
    closed spec fn in_order(&self) -> bool {
        sorted(self.entries@)
    }

    /// No texts.
    pub fn new() -> (r: Self)
        ensures
            r@ == Map::<Seq<char>, Seq<char>>::empty(),
    {
        let r = NamedTexts { entries: Vec::new() };
        assert(texts_view(r.entries@) =~= Seq::<(Seq<char>, Seq<char>)>::empty());
        r
    }

    /// The texts of a list of pairs. Where a name occurs twice, the later text counts.
    pub fn from_pairs(pairs: Vec<(String, String)>) -> (r: Self)
        ensures
            r@ == map_of(pairs_view(pairs@)),
    {
        let ghost all = pairs_view(pairs@);
        let mut entries: Vec<NamedText> = Vec::new();
        assert(texts_view(entries@) =~= Seq::<(Seq<char>, Seq<char>)>::empty());
        assert(all.take(0) =~= Seq::<(Seq<char>, Seq<char>)>::empty());
        for pair in it: pairs
            invariant
                it.seq() == pairs@,
                all == pairs_view(pairs@),
                sorted(entries@),
                map_of(texts_view(entries@)) == map_of(all.take(it.index())),
        {
            let ghost n = it.index();
            let ghost before = entries@;
            let (name, text) = pair;
            let item = NamedText { name, text };
            let ghost added = item;
            put_sorted(&mut entries, item);
            proof {
                lemma_put_text(before, entries@, added);
                assert(all.take(n + 1).drop_last() =~= all.take(n));
                assert(all.take(n + 1).last() == (added.name@, added.text@));
            }
        }
        assert(all.take(all.len() as int) =~= all);
        NamedTexts { entries }
    }

    /// The texts in the order of their names, each name once.
    pub fn entries(&self) -> (r: &Vec<NamedText>)
        ensures
            names_rise(texts_view(r@)),
            map_of(texts_view(r@)) == self@,
    {
        proof {
            use_type_invariant(self);
            lemma_sorted_names_rise(self.entries@);
        }
        &self.entries
    }

    /// Whether there are no texts.
    pub fn is_empty(&self) -> (r: bool)
        ensures
            r == (self@ == Map::<Seq<char>, Seq<char>>::empty()),
    {
        let r = self.entries.len() == 0;
        proof {
            let list = texts_view(self.entries@);
            if r {
                assert(list =~= Seq::<(Seq<char>, Seq<char>)>::empty());
            } else {
                assert(self@.contains_key(list.last().0));
            }
        }
        r
    }

    /// Whether the same texts stand under the same names.
    pub fn same(&self, other: &Self) -> (r: bool)
        ensures
            r == (self@ == other@),
    {
        let ghost left = texts_view(self.entries@);
        let ghost right = texts_view(other.entries@);
        proof {
            use_type_invariant(self);
            use_type_invariant(other);
            lemma_sorted_names_rise(self.entries@);
            lemma_sorted_names_rise(other.entries@);
            if self@ == other@ {
                lemma_same_map_same_list(left, right);
            }
        }
        if self.entries.len() != other.entries.len() {
            assert(left.len() != right.len());
            return false;
        }
        let mut i: usize = 0;
        while i < self.entries.len()
            invariant
                i <= self.entries@.len(),
                self.entries@.len() == other.entries@.len(),
                left == texts_view(self.entries@),
                right == texts_view(other.entries@),
                self@ == other@ ==> left == right,
                forall|j: int| 0 <= j < i ==> left[j] == right[j],
            decreases self.entries.len() - i,
        {
            if self.entries[i].name != other.entries[i].name || self.entries[i].text
                != other.entries[i].text {
                assert(left[i as int] != right[i as int]);
                return false;
            }
            i += 1;
        }
        assert(left =~= right);
        true
    }
}

impl Clone for NamedTexts {
    /// A copy of the texts.
    fn clone(&self) -> (r: Self)
        ensures
            r@ == self@,
    {
        proof {
            use_type_invariant(self);
        }
        let mut entries: Vec<NamedText> = Vec::new();
        let mut i: usize = 0;
        while i < self.entries.len()
            invariant
                i <= self.entries@.len(),
                entries@ == self.entries@.take(i as int),
            decreases self.entries.len() - i,
        {
            entries.push(
                NamedText {
                    name: self.entries[i].name.clone(),
                    text: self.entries[i].text.clone(),
                },
            );
            assert(entries@ =~= self.entries@.take(i + 1));
            i += 1;
        }
        assert(entries@ =~= self.entries@);
        NamedTexts { entries }
    }
}

/// In whatever order texts under different names are given, they come to the same.
pub proof fn law_order_of_texts_does_not_matter(
    a: Seq<(Seq<char>, Seq<char>)>,
    b: Seq<(Seq<char>, Seq<char>)>,
)
    requires
        forall|i: int, j: int|
            0 <= i < j < a.len() ==> (#[trigger] a[i]).0 != (#[trigger] a[j]).0,
        forall|i: int, j: int|
            0 <= i < j < b.len() ==> (#[trigger] b[i]).0 != (#[trigger] b[j]).0,
        forall|e: (Seq<char>, Seq<char>)| a.contains(e) <==> b.contains(e),
    ensures
        map_of(a) == map_of(b),
{
    lemma_distinct_names(a);
    lemma_distinct_names(b);
    let x = map_of(a);
    let y = map_of(b);
    assert forall|name: Seq<char>|
        #![trigger x.contains_key(name)]
        #![trigger y.contains_key(name)]
        x.contains_key(name) == y.contains_key(name) && (x.contains_key(name) ==> x[name] == y[name]) by {
        if x.contains_key(name) {
            assert(x.contains_pair(name, x[name]));
            assert(a.contains((name, x[name])));
            assert(y.contains_pair(name, x[name]));
        }
        if y.contains_key(name) {
            assert(y.contains_pair(name, y[name]));
            assert(b.contains((name, y[name])));
            assert(x.contains_pair(name, y[name]));
        }
    }
    assert(x =~= y);
}

/// What a list with different names holds is what it stands for.
proof fn lemma_distinct_names(list: Seq<(Seq<char>, Seq<char>)>)
    requires
        forall|i: int, j: int|
            0 <= i < j < list.len() ==> (#[trigger] list[i]).0 != (#[trigger] list[j]).0,
    ensures
        forall|name: Seq<char>, text: Seq<char>| #[trigger]
            map_of(list).contains_pair(name, text) <==> list.contains((name, text)),
    decreases list.len(),
{
    if list.len() > 0 {
        let fewer = list.drop_last();
        let n = fewer.len() as int;
        assert forall|i: int, j: int| 0 <= i < j < fewer.len() implies (#[trigger] fewer[i]).0 != (
        #[trigger] fewer[j]).0 by {
            assert(fewer[i] == list[i] && fewer[j] == list[j]);
        }
        lemma_distinct_names(fewer);
        assert forall|name: Seq<char>, text: Seq<char>| #[trigger]
            map_of(list).contains_pair(name, text) <==> list.contains((name, text)) by {
            assert(map_of(fewer).contains_pair(name, text) <==> fewer.contains((name, text)));
            if list.contains((name, text)) {
                let i = choose|i: int| 0 <= i < list.len() && list[i] == (name, text);
                if i < n {
                    assert(fewer[i] == (name, text));
                    assert(list[i].0 != list[n].0);
                }
            }
            if fewer.contains((name, text)) {
                let i = choose|i: int| 0 <= i < fewer.len() && fewer[i] == (name, text);
                assert(list[i] == (name, text));
            }
            assert(list[n] == list.last());
        }
    }
}

/// The last text that a list gives to a name is the one that counts, and a name that the list does not give has none.
pub proof fn law_last_text_of_a_name_counts(list: Seq<(Seq<char>, Seq<char>)>, name: Seq<char>, i: int)
    requires
        -1 <= i < list.len(),
        forall|j: int| i < j < list.len() ==> (#[trigger] list[j]).0 != name,
    ensures
        0 <= i && list[i].0 == name ==> map_of(list).contains_pair(name, list[i].1),
        i == -1 ==> !map_of(list).contains_key(name),
    decreases list.len(),
{
    if list.len() > 0 {
        let fewer = list.drop_last();
        let last = list[list.len() - 1];
        assert(list.last() == last);
        if i < list.len() - 1 {
            assert forall|j: int| i < j < fewer.len() implies (#[trigger] fewer[j]).0 != name by {
                assert(fewer[j] == list[j]);
            }
            assert(last.0 != name);
            law_last_text_of_a_name_counts(fewer, name, i);
        }
    }
}

} // verus!
