//! Snapshots never change: what was read at a commit is read there again, whatever is published later.
use crate::ids::{CommitGeneration, CommitId, ObjectVersionId};
use crate::model::{ObjectVersion, StagedMutation};
use crate::ordered::sorted;
use crate::publish::{
    draft_of, drafted_kind, keys_of, law_a_read_gives_back_the_write, named_all, object_edit,
};
use crate::tree::applied;
use vstd::prelude::*;

verus! {

/// What the objects of each commit are, and what is stored at each path. Neither a commit nor a payload is
/// ever replaced: storing one under a name that is taken leaves what is there.
pub struct History {
    pub objects: Map<CommitId, Map<Seq<u8>, ObjectVersion>>,
    pub payloads: Map<Seq<char>, Seq<u8>>,
}

/// What a publication stores: a commit with its objects, and the payloads of its puts.
pub struct Stored {
    pub id: CommitId,
    pub objects: Map<Seq<u8>, ObjectVersion>,
    pub payloads: Map<Seq<char>, Seq<u8>>,
}

/// What is stored after one publication.
pub open spec fn after_one(history: History, stored: Stored) -> History {
    History {
        objects: if history.objects.contains_key(stored.id) {
            history.objects
        } else {
            history.objects.insert(stored.id, stored.objects)
        },
        payloads: stored.payloads.union_prefer_right(history.payloads),
    }
}

/// What is stored after a number of publications, one after the other.
pub open spec fn after_all(history: History, later: Seq<Stored>) -> History
    decreases later.len(),
{
    if later.len() == 0 {
        history
    } else {
        after_one(after_all(history, later.drop_last()), later.last())
    }
}

/// An object as it is read at a commit: its version and its bytes.
pub open spec fn read_at(history: History, snapshot: CommitId, key: Seq<u8>) -> Option<
    (ObjectVersion, Seq<u8>),
> {
    if history.objects.contains_key(snapshot) && history.objects[snapshot].contains_key(key) {
        let version = history.objects[snapshot][key];
        if version.binding is Some && history.payloads.contains_key(version.binding->0.path@) {
            Some((version, history.payloads[version.binding->0.path@]))
        } else {
            None
        }
    } else {
        None
    }
}

/// What is stored stays stored.
proof fn lemma_stored_stays(history: History, later: Seq<Stored>)
    ensures
        forall|id: CommitId| #[trigger]
            history.objects.contains_key(id) ==> after_all(history, later).objects.contains_pair(
                id,
                history.objects[id],
            ),
        forall|path: Seq<char>| #[trigger]
            history.payloads.contains_key(path) ==> after_all(history, later).payloads.contains_pair(
                path,
                history.payloads[path],
            ),
    decreases later.len(),
{
    if later.len() > 0 {
        lemma_stored_stays(history, later.drop_last());
        let before = after_all(history, later.drop_last());
        let after = after_all(history, later);
        assert forall|id: CommitId| #[trigger] history.objects.contains_key(id) implies after.objects.contains_pair(
            id,
            history.objects[id],
        ) by {
            assert(before.objects.contains_pair(id, history.objects[id]));
        }
        assert forall|path: Seq<char>| #[trigger] history.payloads.contains_key(path) implies after.payloads.contains_pair(
            path,
            history.payloads[path],
        ) by {
            assert(before.payloads.contains_pair(path, history.payloads[path]));
        }
    }
}

/// What is read at a commit is read there after any later publications too.
pub proof fn law_snapshots_never_change(
    history: History,
    later: Seq<Stored>,
    snapshot: CommitId,
    key: Seq<u8>,
)
    requires
        read_at(history, snapshot, key) is Some,
    ensures
        read_at(after_all(history, later), snapshot, key) == read_at(history, snapshot, key),
{
    lemma_stored_stays(history, later);
    let after = after_all(history, later);
    let version = history.objects[snapshot][key];
    assert(history.objects.contains_key(snapshot));
    assert(after.objects.contains_pair(snapshot, history.objects[snapshot]));
    assert(history.payloads.contains_key(version.binding->0.path@));
    assert(after.payloads.contains_pair(
        version.binding->0.path@,
        history.payloads[version.binding->0.path@],
    ));
}

/// The objects of a commit that makes these mutations on top of `base`.
pub open spec fn objects_after(
    base: Map<Seq<u8>, ObjectVersion>,
    mutations: Seq<StagedMutation>,
    ids: Seq<ObjectVersionId>,
    generation: CommitGeneration,
    now: u64,
) -> Map<Seq<u8>, ObjectVersion> {
    let drafts = Seq::new(mutations.len(), |j: int| draft_of(mutations[j], generation, j, now));
    let versions = named_all(drafts, ids);
    let keys = keys_of(mutations);
    applied(base, Seq::new(keys.len(), |j: int| object_edit(keys[j], versions[j])))
}

/// A put object is read back at the commit that put it, after any later puts, deletions and merges: the
/// version that the put was given, with what was put, and the bytes of its payload.
pub proof fn law_put_is_read_back_at_its_commit(
    history: History,
    id: CommitId,
    base: Map<Seq<u8>, ObjectVersion>,
    mutations: Seq<StagedMutation>,
    ids: Seq<ObjectVersionId>,
    generation: CommitGeneration,
    now: u64,
    i: int,
    bytes: Seq<u8>,
    later: Seq<Stored>,
)
    requires
        sorted(mutations),
        ids.len() == mutations.len(),
        0 <= i < mutations.len(),
        mutations[i] is Put,
        history.objects.contains_pair(id, objects_after(base, mutations, ids, generation, now)),
        history.payloads.contains_pair(mutations[i]->Put_0.binding.path@, bytes),
    ensures
        read_at(after_all(history, later), id, mutations[i].spec_key()) matches Some((version, read)) && {
            &&& read == bytes
            &&& version.id == ids[i]
            &&& version.body.kind == drafted_kind(mutations[i])
            &&& version.binding == Some(mutations[i]->Put_0.binding)
        },
{
    law_a_read_gives_back_the_write(base, mutations, ids, generation, now, i);
    law_snapshots_never_change(history, later, id, mutations[i].spec_key());
}

/// An object is read at a commit exactly where the commit holds it and its payload is there, and what is read is the
/// version that the commit holds with the bytes of that version's payload.
pub proof fn law_read_gives_the_version_of_its_commit(history: History, snapshot: CommitId, key: Seq<u8>)
    ensures
        read_at(history, snapshot, key) is Some <==> history.objects.contains_key(snapshot)
            && history.objects[snapshot].contains_key(key) && history.objects[snapshot][key].binding is Some
            && history.payloads.contains_key(history.objects[snapshot][key].binding->0.path@),
        read_at(history, snapshot, key) matches Some((version, bytes)) ==> version
            == history.objects[snapshot][key] && bytes == history.payloads[version.binding->0.path@],
{
}

} // verus!
