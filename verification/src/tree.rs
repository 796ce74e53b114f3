//! Ordered trees as far as the library reads them: maps from byte keys to values, changed by lists
//! of mutations.
use vstd::prelude::*;

verus! {

/// One change to a tree.
#[derive(Clone, Debug)]
pub enum Mutation<V> {
    Upsert { key: Vec<u8>, val: V },
    Delete { key: Vec<u8> },
}

/// The contents of a mutation.
#[verifier::ext_equal]
pub enum Edit<V> {
    Upsert { key: Seq<u8>, val: V },
    Delete { key: Seq<u8> },
}

impl<V> View for Mutation<V> {
    type V = Edit<V>;

    open spec fn view(&self) -> Edit<V> {
        match *self {
            Mutation::Upsert { key, val } => Edit::Upsert { key: key@, val },
            Mutation::Delete { key } => Edit::Delete { key: key@ },
        }
    }
}

/// The contents of a list of mutations.
pub open spec fn edits<V>(mutations: Seq<Mutation<V>>) -> Seq<Edit<V>> {
    mutations.map_values(|m: Mutation<V>| m@)
}

/// A tree after one change.
pub open spec fn applied_one<V>(tree: Map<Seq<u8>, V>, edit: Edit<V>) -> Map<Seq<u8>, V> {
    match edit {
        Edit::Upsert { key, val } => tree.insert(key, val),
        Edit::Delete { key } => tree.remove(key),
    }
}

/// A tree after a list of changes, made in order.
pub open spec fn applied<V>(tree: Map<Seq<u8>, V>, changes: Seq<Edit<V>>) -> Map<Seq<u8>, V>
    decreases changes.len(),
{
    if changes.len() == 0 {
        tree
    } else {
        applied_one(applied(tree, changes.drop_last()), changes.last())
    }
}

/// Appending one mutation to a list appends its contents.
pub proof fn lemma_edits_push<V>(mutations: Seq<Mutation<V>>, m: Mutation<V>)
    ensures
        edits(mutations.push(m)) == edits(mutations).push(m@),
{
    assert(edits(mutations.push(m)) =~= edits(mutations).push(m@));
}

/// Changes made after others are made to what the others left.
pub proof fn lemma_applied_concat<V>(tree: Map<Seq<u8>, V>, a: Seq<Edit<V>>, b: Seq<Edit<V>>)
    ensures
        applied(tree, a + b) == applied(applied(tree, a), b),
    decreases b.len(),
{
    if b.len() == 0 {
        assert(a + b =~= a);
    } else {
        lemma_applied_concat(tree, a, b.drop_last());
        assert((a + b).drop_last() =~= a + b.drop_last());
        assert((a + b).last() == b.last());
    }
}

/// Whether every change of a list writes a key.
pub open spec fn only_upserts<V>(changes: Seq<Edit<V>>) -> bool {
    forall|i: int| 0 <= i < changes.len() ==> #[trigger] changes[i] is Upsert
}

/// Whether some change of a list writes `key`.
pub open spec fn writes_key<V>(changes: Seq<Edit<V>>, key: Seq<u8>) -> bool {
    exists|i: int| 0 <= i < changes.len() && #[trigger] changes[i]->Upsert_key == key
}

/// Writing keys adds these keys and no others.
pub proof fn lemma_upserts_add_keys<V>(tree: Map<Seq<u8>, V>, changes: Seq<Edit<V>>)
    requires
        only_upserts(changes),
    ensures
        forall|key: Seq<u8>| #[trigger]
            applied(tree, changes).contains_key(key) <==> tree.contains_key(key) || writes_key(
                changes,
                key,
            ),
    decreases changes.len(),
{
    if changes.len() > 0 {
        let fewer = changes.drop_last();
        let n = changes.len() - 1;
        assert(only_upserts(fewer)) by {
            assert forall|i: int| 0 <= i < fewer.len() implies #[trigger] fewer[i] is Upsert by {
                assert(fewer[i] == changes[i]);
            }
        }
        lemma_upserts_add_keys(tree, fewer);
        assert(changes[n] is Upsert);
        let before = applied(tree, fewer);
        assert(applied(tree, changes) == before.insert(changes[n]->Upsert_key, changes[n]->val));
        assert forall|key: Seq<u8>| #[trigger] applied(tree, changes).contains_key(key)
            <==> tree.contains_key(key) || writes_key(changes, key) by {
            assert(before.contains_key(key) <==> tree.contains_key(key) || writes_key(fewer, key));
            if writes_key(changes, key) {
                let i = choose|i: int| 0 <= i < changes.len() && #[trigger] changes[i]->Upsert_key == key;
                if i < n {
                    assert(fewer[i]->Upsert_key == key);
                }
            }
            if writes_key(fewer, key) {
                let i = choose|i: int| 0 <= i < fewer.len() && #[trigger] fewer[i]->Upsert_key == key;
                assert(changes[i]->Upsert_key == key);
            }
            if changes[n]->Upsert_key == key {
                assert(writes_key(changes, key));
            }
        }
    } else {
        assert forall|key: Seq<u8>| !#[trigger] writes_key(changes, key) by {}
    }
}

/// The last change of a key is what counts: after a list of changes a key that is written last holds what was written,
/// one that is deleted last is gone, and one that no change names is as it was.
pub proof fn law_last_change_of_a_key_counts<V>(
    tree: Map<Seq<u8>, V>,
    changes: Seq<Edit<V>>,
    key: Seq<u8>,
    i: int,
)
    requires
        forall|j: int|
            i < j < changes.len() && 0 <= j ==> (#[trigger] changes[j] matches Edit::Upsert { key: k, val } ==> k
                != key) && (changes[j] matches Edit::Delete { key: k } ==> k != key),
        i < changes.len(),
    ensures
        0 <= i && (changes[i] matches Edit::Upsert { key: k, val } && k == key) ==> applied(
            tree,
            changes,
        ).contains_pair(key, changes[i]->val),
        0 <= i && (changes[i] matches Edit::Delete { key: k } && k == key) ==> !applied(
            tree,
            changes,
        ).contains_key(key),
        i < 0 ==> applied(tree, changes).contains_key(key) == tree.contains_key(key) && applied(
            tree,
            changes,
        )[key] == tree[key],
    decreases changes.len(),
{
    if changes.len() > 0 {
        let fewer = changes.drop_last();
        let last = changes[changes.len() - 1];
        assert(changes.last() == last);
        assert forall|j: int| i < j < fewer.len() && 0 <= j implies (#[trigger] fewer[j] matches Edit::Upsert {
            key: k,
            val,
        } ==> k != key) && (fewer[j] matches Edit::Delete { key: k } ==> k != key) by {
            assert(fewer[j] == changes[j]);
        }
        if i < fewer.len() {
            law_last_change_of_a_key_counts(tree, fewer, key, i);
        }
    }
}

} // verus!
