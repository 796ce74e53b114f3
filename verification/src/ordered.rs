//! Lists kept in the order of their byte keys, each key once.
use crate::bytes::{
    bytes_eq, bytes_lt, lemma_lex_irreflexive, lemma_lex_total, lemma_lex_transitive, lex_lt, to_vec,
};
use vstd::prelude::*;

verus! {

/// Something that is ordered by a byte key.
pub trait Keyed {
    /// The key.
    spec fn sort_key(&self) -> Seq<u8>;

    /// The key.
    fn sort_bytes(&self) -> (r: &[u8])
        ensures
            r@ == self.sort_key(),
    ;
}

/// Whether the keys of a list rise from each entry to the next.
pub open spec fn sorted<T: Keyed>(list: Seq<T>) -> bool {
    forall|i: int, j: int|
        0 <= i < j < list.len() ==> lex_lt(#[trigger] list[i].sort_key(), #[trigger] list[j].sort_key())
}

/// Whether some entry of a list has this key.
pub open spec fn has_key<T: Keyed>(list: Seq<T>, key: Seq<u8>) -> bool {
    exists|i: int| 0 <= i < list.len() && #[trigger] list[i].sort_key() == key
}

/// The place of the first entry whose key is not below `key`.
pub fn lower_bound<T: Keyed>(list: &Vec<T>, key: &[u8]) -> (r: usize)
    requires
        sorted(list@),
    ensures
        r <= list@.len(),
        forall|i: int| 0 <= i < r ==> lex_lt(#[trigger] list@[i].sort_key(), key@),
        forall|i: int| r <= i < list@.len() ==> !lex_lt(#[trigger] list@[i].sort_key(), key@),
{
    let mut low: usize = 0;
    let mut high: usize = list.len();
    while low < high
        invariant
            sorted(list@),
            low <= high <= list@.len(),
            forall|i: int| 0 <= i < low ==> lex_lt(#[trigger] list@[i].sort_key(), key@),
            forall|i: int| high <= i < list@.len() ==> !lex_lt(#[trigger] list@[i].sort_key(), key@),
        decreases high - low,
    {
        let middle: usize = low + (high - low) / 2;
        if bytes_lt(list[middle].sort_bytes(), key) {
            proof {
                assert forall|i: int| 0 <= i < middle + 1 implies lex_lt(
                    #[trigger] list@[i].sort_key(),
                    key@,
                ) by {
                    if i < middle {
                        lemma_lex_transitive(
                            list@[i].sort_key(),
                            list@[middle as int].sort_key(),
                            key@,
                        );
                    }
                }
            }
            low = middle + 1;
        } else {
            proof {
                assert forall|i: int| middle <= i < list@.len() implies !lex_lt(
                    #[trigger] list@[i].sort_key(),
                    key@,
                ) by {
                    if i > middle && lex_lt(list@[i].sort_key(), key@) {
                        lemma_lex_transitive(
                            list@[middle as int].sort_key(),
                            list@[i].sort_key(),
                            key@,
                        );
                    }
                }
            }
            high = middle;
        }
    }
    low
}

/// The place of the entry with this key.
pub fn find_key<T: Keyed>(list: &Vec<T>, key: &[u8]) -> (r: Option<usize>)
    requires
        sorted(list@),
    ensures
        match r {
            Some(i) => i < list@.len() && list@[i as int].sort_key() == key@,
            None => !has_key(list@, key@),
        },
{
    let at = lower_bound(list, key);
    if at < list.len() && bytes_eq(list[at].sort_bytes(), key) {
        return Some(at);
    }
    proof {
        if has_key(list@, key@) {
            let i = choose|i: int| 0 <= i < list@.len() && #[trigger] list@[i].sort_key() == key@;
            lemma_lex_irreflexive(key@);
            assert(i > at);
            assert(lex_lt(list@[at as int].sort_key(), list@[i].sort_key()));
        }
    }
    None
}

/// Puts an entry in its place, unless its key is taken.
pub fn insert_sorted<T: Keyed>(list: &mut Vec<T>, item: T) -> (r: bool)
    requires
        sorted(old(list)@),
    ensures
        r == !has_key(old(list)@, item.sort_key()),
        sorted(final(list)@),
        r ==> final(list)@.to_multiset() == old(list)@.to_multiset().insert(item),
        r ==> final(list)@.len() == old(list)@.len() + 1,
        !r ==> final(list)@ == old(list)@,
{
    let at = lower_bound(list, item.sort_bytes());
    let ghost before = list@;
    let ghost key = item.sort_key();
    if at < list.len() && bytes_eq(list[at].sort_bytes(), item.sort_bytes()) {
        assert(before[at as int].sort_key() == key);
        return false;
    }
    proof {
        if has_key(before, key) {
            let i = choose|i: int| 0 <= i < before.len() && #[trigger] before[i].sort_key() == key;
            lemma_lex_irreflexive(key);
            assert(i > at);
            assert(lex_lt(before[at as int].sort_key(), before[i].sort_key()));
        }
    }
    list.insert(at, item);
    proof {
        let after = list@;
        assert forall|i: int| at <= i < before.len() implies lex_lt(
            key,
            #[trigger] before[i].sort_key(),
        ) by {
            lemma_lex_total(key, before[i].sort_key());
            assert(!has_key(before, key));
        }
        assert forall|i: int, j: int| 0 <= i < j < after.len() implies lex_lt(
            #[trigger] after[i].sort_key(),
            #[trigger] after[j].sort_key(),
        ) by {
            let x = if i < at {
                i
            } else {
                i - 1
            };
            let y = if j < at {
                j
            } else {
                j - 1
            };
            if i == at {
                assert(after[j] == before[y]);
            } else if j == at {
                assert(after[i] == before[x]);
            } else {
                assert(after[i] == before[x] && after[j] == before[y]);
            }
        }
        vstd::seq_lib::to_multiset_insert(before, at as int, item);
    }
    true
}

/// Whether no key of a list is below the key before it.
pub open spec fn weakly_sorted<T: Keyed>(list: Seq<T>) -> bool {
    forall|i: int, j: int|
        0 <= i < j < list.len() ==> !lex_lt(
            #[trigger] list[j].sort_key(),
            #[trigger] list[i].sort_key(),
        )
}

/// Puts an entry behind every entry whose key is not above its own.
fn insert_weakly<T: Keyed>(list: &mut Vec<T>, item: T)
    requires
        weakly_sorted(old(list)@),
    ensures
        weakly_sorted(final(list)@),
        final(list)@.to_multiset() == old(list)@.to_multiset().insert(item),
        final(list)@.len() == old(list)@.len() + 1,
{
    let ghost before = list@;
    let ghost key = item.sort_key();
    let mut low: usize = 0;
    let mut high: usize = list.len();
    while low < high
        invariant
            weakly_sorted(before),
            list@ == before,
            key == item.sort_key(),
            low <= high <= before.len(),
            forall|i: int| 0 <= i < low ==> !lex_lt(key, #[trigger] before[i].sort_key()),
            forall|i: int| high <= i < before.len() ==> lex_lt(key, #[trigger] before[i].sort_key()),
        decreases high - low,
    {
        let middle: usize = low + (high - low) / 2;
        if bytes_lt(item.sort_bytes(), list[middle].sort_bytes()) {
            proof {
                assert forall|i: int| middle <= i < before.len() implies lex_lt(
                    key,
                    #[trigger] before[i].sort_key(),
                ) by {
                    let m = before[middle as int].sort_key();
                    lemma_lex_total(m, before[i].sort_key());
                    if lex_lt(m, before[i].sort_key()) {
                        lemma_lex_transitive(key, m, before[i].sort_key());
                    }
                }
            }
            high = middle;
        } else {
            proof {
                assert forall|i: int| 0 <= i < middle + 1 implies !lex_lt(
                    key,
                    #[trigger] before[i].sort_key(),
                ) by {
                    let m = before[middle as int].sort_key();
                    lemma_lex_total(before[i].sort_key(), m);
                    if lex_lt(key, before[i].sort_key()) && lex_lt(before[i].sort_key(), m) {
                        lemma_lex_transitive(key, before[i].sort_key(), m);
                    }
                }
            }
            low = middle + 1;
        }
    }
    list.insert(low, item);
    proof {
        let after = list@;
        lemma_lex_irreflexive(key);
        assert forall|i: int, j: int| 0 <= i < j < after.len() implies !lex_lt(
            #[trigger] after[j].sort_key(),
            #[trigger] after[i].sort_key(),
        ) by {
            let x = if i < low {
                i
            } else {
                i - 1
            };
            let y = if j < low {
                j
            } else {
                j - 1
            };
            if i == low {
                assert(after[j] == before[y]);
                lemma_lex_irreflexive(key);
                if lex_lt(before[y].sort_key(), key) {
                    lemma_lex_transitive(key, before[y].sort_key(), key);
                }
            } else if j == low {
                assert(after[i] == before[x]);
            } else {
                assert(after[i] == before[x] && after[j] == before[y]);
            }
        }
        vstd::seq_lib::to_multiset_insert(before, low as int, item);
    }
}

/// The entries of a list in the order of their keys.
pub fn sort_by_key<T: Keyed>(list: Vec<T>) -> (r: Vec<T>)
    ensures
        weakly_sorted(r@),
        r@.to_multiset() == list@.to_multiset(),
        r@.len() == list@.len(),
{
    let mut out: Vec<T> = Vec::new();
    assert(list@.take(0) =~= out@);
    for item in it: list
        invariant
            it.seq() == list@,
            weakly_sorted(out@),
            out@.to_multiset() == it.seq().take(it.index()).to_multiset(),
            out@.len() == it.index(),
    {
        proof {
            let n = it.index();
            assert(it.seq().take(n + 1) =~= it.seq().take(n).push(it.seq()[n]));
            vstd::seq_lib::to_multiset_build(it.seq().take(n), it.seq()[n]);
        }
        insert_weakly(&mut out, item);
    }
    assert(list@.take(list@.len() as int) =~= list@);
    out
}

/// Puts an entry in its place; one with the same key makes way.
pub fn put_sorted<T: Keyed>(list: &mut Vec<T>, item: T)
    requires
        sorted(old(list)@),
    ensures
        sorted(final(list)@),
        forall|x: T| #[trigger]
            final(list)@.contains(x) <==> x == item || (old(list)@.contains(x) && x.sort_key()
                != item.sort_key()),
{
    let ghost before = list@;
    match find_key(list, item.sort_bytes()) {
        Some(at) => {
            list.set(at, item);
            proof {
                let now = list@;
                assert(now =~= before.update(at as int, item));
                assert forall|x: T| #[trigger] now.contains(x) <==> x == item || (before.contains(x)
                    && x.sort_key() != item.sort_key()) by {
                    if now.contains(x) {
                        let i = choose|i: int| 0 <= i < now.len() && now[i] == x;
                        if i != at {
                            assert(before[i] == x);
                            if i < at {
                                assert(lex_lt(before[i].sort_key(), before[at as int].sort_key()));
                            } else {
                                assert(lex_lt(before[at as int].sort_key(), before[i].sort_key()));
                            }
                            lemma_lex_irreflexive(item.sort_key());
                        }
                    }
                    if x == item {
                        assert(now[at as int] == x);
                    } else if before.contains(x) && x.sort_key() != item.sort_key() {
                        let i = choose|i: int| 0 <= i < before.len() && before[i] == x;
                        assert(now[i] == x);
                    }
                }
            }
        },
        None => {
            insert_sorted(list, item);
            proof {
                let now = list@;
                before.to_multiset_ensures();
                now.to_multiset_ensures();
                assert forall|x: T| #[trigger] now.contains(x) <==> x == item || (before.contains(x)
                    && x.sort_key() != item.sort_key()) by {
                    assert(now.contains(x) <==> now.to_multiset().count(x) > 0);
                    assert(before.contains(x) <==> before.to_multiset().count(x) > 0);
                    if before.contains(x) {
                        let i = choose|i: int| 0 <= i < before.len() && before[i] == x;
                        assert(before[i].sort_key() == x.sort_key());
                    }
                }
            }
        },
    }
}

/// A key on its own.
#[derive(Debug)]
pub struct MetKey(pub Vec<u8>);

impl Keyed for MetKey {
    open spec fn sort_key(&self) -> Seq<u8> {
        self.0@
    }

    fn sort_bytes(&self) -> (r: &[u8]) {
        &self.0
    }
}

/// The keys of a list.
pub open spec fn met(list: Seq<MetKey>) -> Set<Seq<u8>> {
    Set::new(|key: Seq<u8>| has_key(list, key))
}

/// Remembers a key and says whether it is new.
pub fn remember(list: &mut Vec<MetKey>, key: &Vec<u8>) -> (r: bool)
    requires
        sorted(old(list)@),
    ensures
        sorted(final(list)@),
        r == !met(old(list)@).contains(key@),
        met(final(list)@) == met(old(list)@).insert(key@),
{
    let ghost before = list@;
    let item = MetKey(to_vec(key));
    let ghost added_item = item;
    let fresh = insert_sorted(list, item);
    proof {
        let now = list@;
        assert forall|k: Seq<u8>| has_key(now, k) == (has_key(before, k) || k == key@) by {
            if fresh {
                before.to_multiset_ensures();
                now.to_multiset_ensures();
                if has_key(now, k) {
                    let i = choose|i: int| 0 <= i < now.len() && #[trigger] now[i].sort_key() == k;
                    assert(now.contains(now[i]));
                    assert(now.to_multiset().count(now[i]) > 0);
                    if now[i] != added_item {
                        assert(before.to_multiset().count(now[i]) > 0);
                        assert(before.contains(now[i]));
                        let j = choose|j: int| 0 <= j < before.len() && before[j] == now[i];
                        assert(before[j].sort_key() == k);
                    }
                }
                if has_key(before, k) {
                    let i = choose|i: int|
                        0 <= i < before.len() && #[trigger] before[i].sort_key() == k;
                    assert(before.contains(before[i]));
                    assert(now.to_multiset().count(before[i]) > 0);
                    assert(now.contains(before[i]));
                    let j = choose|j: int| 0 <= j < now.len() && now[j] == before[i];
                    assert(now[j].sort_key() == k);
                }
                if k == key@ {
                    assert(now.to_multiset().count(added_item) > 0);
                    assert(now.contains(added_item));
                    let j = choose|j: int| 0 <= j < now.len() && now[j] == added_item;
                    assert(now[j].sort_key() == k);
                }
            }
        }
        assert(met(now) =~= met(before).insert(key@));
    }
    fresh
}

/// A list is in order where every key is above those before it; no key is then in it twice, and a key is found in it
/// exactly where an entry has it.
pub proof fn law_list_in_order_has_each_key_once<T: Keyed>(list: Seq<T>, i: int, j: int, key: Seq<u8>)
    requires
        0 <= i < j < list.len(),
    ensures
        sorted(list) ==> lex_lt(list[i].sort_key(), list[j].sort_key()) && list[i].sort_key()
            != list[j].sort_key(),
        weakly_sorted(list) ==> lex_lt(list[i].sort_key(), list[j].sort_key()) || list[i].sort_key()
            == list[j].sort_key(),
        list[i].sort_key() == key ==> has_key(list, key),
        (forall|k: int| 0 <= k < list.len() ==> (#[trigger] list[k]).sort_key() != key) ==> !has_key(
            list,
            key,
        ),
{
    lemma_lex_irreflexive(list[i].sort_key());
    lemma_lex_total(list[i].sort_key(), list[j].sort_key());
    if weakly_sorted(list) {
        assert(!lex_lt(list[j].sort_key(), list[i].sort_key()));
    }
    if has_key(list, key) {
        let k = choose|k: int| 0 <= k < list.len() && #[trigger] list[k].sort_key() == key;
        assert(list[k].sort_key() == key);
    }
}

/// The keys that were met are those of the list, all of them.
pub proof fn law_met_keys_are_those_of_the_list(list: Seq<MetKey>, key: Seq<u8>, i: int)
    ensures
        0 <= i < list.len() && list[i].0@ == key ==> met(list).contains(key),
        (forall|k: int| 0 <= k < list.len() ==> (#[trigger] list[k]).0@ != key) ==> !met(list).contains(
            key,
        ),
{
    if 0 <= i < list.len() && list[i].0@ == key {
        assert(list[i].sort_key() == key);
    }
    if met(list).contains(key) {
        let k = choose|k: int| 0 <= k < list.len() && #[trigger] list[k].sort_key() == key;
        assert(list[k].0@ == key);
    }
}

} // verus!
