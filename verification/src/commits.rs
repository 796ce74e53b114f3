//! A commit in the making: the versions are drafted and get their names, the trees are changed, and the
//! commit is sealed over the new roots.
use crate::error::{fault, Error, ErrorCode};
use crate::ids::{CommitGeneration, CommitId, ObjectVersionId, OperationId};
use crate::model::{
    AuthorityStamp, BucketCommit, BucketState, CommitReceipt, NodePackRef, ObjectTransition,
    ObjectVersion, RootManifest, StagedMutation, TransitionView,
};
use crate::publish::{
    draft_of, keys_of, named_all, new_receipt, object_edit, place_delta, plan_commit, receipt_view,
    version_edit, CommitParts, ReceiptView, VersionDraft, INLINE_COMMIT_DELTA_LIMIT,
};
use crate::repository::Repository;
use crate::tree::{edits, Edit, Mutation};
use crate::version_key::version_key;
use vstd::prelude::*;

verus! {

/// What is to be committed, and in whose name.
#[derive(Debug)]
pub struct CommitRequest {
    pub branch: String,
    pub operation: OperationId,
    pub input_digest: [u8; 32],
    pub message: String,
    pub mutations: Vec<StagedMutation>,
    pub authority: AuthorityStamp,
    pub now: u64,
}

/// A commit whose versions are drafted.
#[derive(Debug)]
pub struct DraftedCommit {
    pub request: CommitRequest,
    pub parent: CommitId,
    pub generation: CommitGeneration,
    pub drafts: Vec<VersionDraft>,
}

/// What a commit changes in the trees: the current objects, all versions, and, where there are many
/// changes, a tree of the changes.
#[derive(Debug)]
pub struct TreeChanges {
    pub objects: Vec<Mutation<ObjectVersion>>,
    pub versions: Vec<Mutation<ObjectVersion>>,
    pub delta: Option<Vec<Mutation<ObjectTransition>>>,
}

/// A commit whose changes are known.
#[derive(Debug)]
pub struct PlannedCommit {
    pub request: CommitRequest,
    pub parent: CommitId,
    pub generation: CommitGeneration,
    pub inline: Vec<ObjectTransition>,
    pub change_count: u64,
    pub object_versions: Vec<ObjectVersionId>,
}

/// A commit that can be stored.
#[derive(Debug)]
pub struct SealedCommit {
    pub commit: BucketCommit,
    pub branch: String,
    pub operation: OperationId,
    pub object_versions: Vec<ObjectVersionId>,
}

impl DraftedCommit {
    /// There is one draft for each mutation, in order.
    pub open spec fn wf(self) -> bool {
        let mutations = self.request.mutations@;
        &&& self.drafts@.len() == mutations.len()
        &&& forall|i: int|
            0 <= i < mutations.len() ==> #[trigger] self.drafts@[i] == draft_of(
                mutations[i],
                self.generation,
                i,
                self.request.now,
            )
    }

    /// The versions that the commit writes, under these names.
    pub open spec fn versions(self, ids: Seq<ObjectVersionId>) -> Seq<ObjectVersion> {
        named_all(self.drafts@, ids)
    }
}

/// How a commit says what it does to its keys.
pub open spec fn transitions_of(
    keys: Seq<Seq<u8>>,
    versions: Seq<ObjectVersion>,
    previous: Seq<Option<ObjectVersionId>>,
) -> Seq<TransitionView> {
    Seq::new(
        keys.len(),
        |i: int|
            TransitionView {
                key: keys[i],
                previous: previous[i],
                next: versions[i].id,
                delete_marker: versions[i].body.kind is DeleteMarker,
            },
    )
}

/// The contents of a list of transitions.
pub open spec fn transition_views(list: Seq<ObjectTransition>) -> Seq<TransitionView> {
    list.map_values(|t: ObjectTransition| t@)
}

/// Whether these are the entries of a tree of changes: each change under its key.
pub open spec fn lists_changes(
    entries: Seq<Edit<ObjectTransition>>,
    transitions: Seq<TransitionView>,
) -> bool {
    &&& entries.len() == transitions.len()
    &&& forall|i: int|
        0 <= i < entries.len() ==> (#[trigger] entries[i] matches Edit::Upsert { key, val } && key
            == transitions[i].key && val@ == transitions[i])
}

/// Whether `changes` and `planned` are what a drafted commit comes to, with these names for its versions
/// and these versions under its keys before.
pub open spec fn comes_to(
    drafted: DraftedCommit,
    ids: Seq<ObjectVersionId>,
    previous: Seq<Option<ObjectVersionId>>,
    changes: TreeChanges,
    planned: PlannedCommit,
) -> bool {
    let keys = keys_of(drafted.request.mutations@);
    let versions = drafted.versions(ids);
    let transitions = transitions_of(keys, versions, previous);
    &&& planned.request == drafted.request
    &&& planned.parent == drafted.parent
    &&& planned.generation == drafted.generation
    &&& edits(changes.objects@) == Seq::new(keys.len(), |i: int| object_edit(keys[i], versions[i]))
    &&& edits(changes.versions@) == Seq::new(keys.len(), |i: int| version_edit(keys[i], versions[i]))
    &&& planned.object_versions@ == Seq::new(keys.len(), |i: int| versions[i].id)
    &&& if keys.len() <= INLINE_COMMIT_DELTA_LIMIT {
        &&& changes.delta is None
        &&& transition_views(planned.inline@) == transitions
        &&& planned.change_count == 0
    } else {
        &&& changes.delta matches Some(delta) && lists_changes(edits(delta@), transitions)
        &&& planned.inline@.len() == 0
        &&& planned.change_count == keys.len()
    }
}

impl Repository {
    /// Drafts a commit on top of `base`, the commit named `parent`.
    pub fn draft_commit(&self, request: CommitRequest, parent: CommitId, base: &BucketCommit) -> (r:
        Result<DraftedCommit, Error>)
        ensures
            match r {
                Ok(drafted) => {
                    &&& base.state.objects.format_digest == self.format.state_tree_digest
                    &&& base.state.versions.format_digest == self.format.state_tree_digest
                    &&& base.generation.0 < u64::MAX
                    &&& request.mutations@.len() <= u32::MAX + 1
                    &&& drafted.wf()
                    &&& drafted.request == request
                    &&& drafted.parent == parent
                    &&& drafted.generation == CommitGeneration((base.generation.0 + 1) as u64)
                },
                Err(error) => if base.state.objects.format_digest != self.format.state_tree_digest
                    || base.state.versions.format_digest != self.format.state_tree_digest {
                    error@ == fault(
                        ErrorCode::CorruptNode,
                        "repository state root uses another tree format",
                    )
                } else if base.generation.0 == u64::MAX {
                    error@ == fault(ErrorCode::InternalInvariant, "commit generation overflow")
                } else {
                    request.mutations@.len() > u32::MAX + 1 && error@ == fault(
                        ErrorCode::InvalidLimit,
                        "mutation ordinal overflow",
                    )
                },
            },
    {
        match self.begin_commit(base, &request.mutations, request.now) {
            Err(error) => Err(error),
            Ok((generation, drafts)) => Ok(DraftedCommit { request, parent, generation, drafts }),
        }
    }
}

impl DraftedCommit {
    /// What the commit changes, once its versions have names. `previous` holds the version under each
    /// key before.
    pub fn plan(
        self,
        ids: &Vec<ObjectVersionId>,
        previous: &Vec<Option<ObjectVersionId>>,
    ) -> (r: (TreeChanges, PlannedCommit))
        requires
            self.wf(),
            ids@.len() == self.request.mutations@.len(),
            previous@.len() == self.request.mutations@.len(),
        ensures
            comes_to(self, ids@, previous@, r.0, r.1),
    {
        let ghost keys = keys_of(self.request.mutations@);
        let ghost versions = self.versions(ids@);
        let ghost transitions = transitions_of(keys, versions, previous@);
        let plan = plan_commit(&self.request.mutations, self.drafts, ids, previous);
        let ghost listed = plan.transitions@;
        assert(transition_views(listed) =~= transitions);
        let placed = place_delta(plan.transitions);
        proof {
            if placed.external is Some {
                let entries = edits(placed.external->0@);
                assert forall|i: int| 0 <= i < entries.len() implies (
                #[trigger] entries[i] matches Edit::Upsert { key, val } && key
                    == transitions[i].key && val@ == transitions[i]) by {
                    assert(entries[i] == Edit::Upsert { key: listed[i].key@, val: listed[i] });
                    assert(transition_views(listed)[i] == transitions[i]);
                    assert(listed[i]@ == transitions[i]);
                }
            }
        }
        (
            TreeChanges {
                objects: plan.object_mutations,
                versions: plan.version_mutations,
                delta: placed.external,
            },
            PlannedCommit {
                request: self.request,
                parent: self.parent,
                generation: self.generation,
                inline: placed.inline,
                change_count: placed.change_count,
                object_versions: plan.object_versions,
            },
        )
    }
}

impl Repository {
    /// Seals a commit over the roots of its changed trees.
    pub fn seal_commit(
        &self,
        planned: PlannedCommit,
        state: BucketState,
        changes_root: Option<RootManifest>,
        node_pack: Option<NodePackRef>,
    ) -> (r: SealedCommit)
        ensures
            r.commit.state == state,
            r.commit.parents@ == seq![planned.parent],
            r.commit.generation == planned.generation,
            r.commit.delta.input_digest == planned.request.input_digest,
            r.commit.delta.changes == planned.inline,
            r.commit.delta.changes_root == changes_root,
            r.commit.delta.change_count == planned.change_count,
            r.commit.node_pack == node_pack,
            r.commit.authority == planned.request.authority,
            r.commit.author == self.options.writer,
            r.commit.message == Some(planned.request.message),
            r.commit.created_at_millis == planned.request.now,
            r.commit.metadata@.len() == 0,
            r.branch == planned.request.branch,
            r.operation == planned.request.operation,
            r.object_versions == planned.object_versions,
    {
        let parts = CommitParts {
            state,
            input_digest: planned.request.input_digest,
            changes: planned.inline,
            changes_root,
            change_count: planned.change_count,
            node_pack,
            authority: planned.request.authority,
            message: planned.request.message,
            created_at_millis: planned.request.now,
        };
        SealedCommit {
            commit: self.build_commit(planned.parent, planned.generation, parts),
            branch: planned.request.branch,
            operation: planned.request.operation,
            object_versions: planned.object_versions,
        }
    }
}

/// The first answer to a request that was published as a sealed commit.
pub open spec fn first_answer(sealed: SealedCommit, id: CommitId) -> ReceiptView {
    ReceiptView {
        id,
        operation: sealed.operation,
        branch: sealed.branch@,
        parents: sealed.commit.parents@,
        changed_keys: sealed.object_versions@.len() as int,
        object_versions: sealed.object_versions@,
        idempotent_replay: false,
    }
}

impl SealedCommit {
    /// The receipt of the commit, published under this name.
    pub fn receipt(self, id: CommitId) -> (r: CommitReceipt)
        ensures
            r.id == id,
            r.operation == self.operation,
            r.branch@ == self.branch@,
            r.parents == self.commit.parents,
            r.changed_keys == self.object_versions@.len(),
            r.object_versions == self.object_versions,
            !r.idempotent_replay,
            receipt_view(r) == first_answer(self, id),
    {
        new_receipt(id, self.operation, &self.branch, self.commit.parents, self.object_versions)
    }
}

/// Whether `sealed` came from a drafted commit, over these roots.
pub open spec fn seals(
    sealed: SealedCommit,
    planned: PlannedCommit,
    changes_root: Option<RootManifest>,
) -> bool {
    &&& sealed.commit.parents@ == seq![planned.parent]
    &&& sealed.commit.delta.input_digest == planned.request.input_digest
    &&& sealed.commit.delta.changes == planned.inline
    &&& sealed.commit.delta.changes_root == changes_root
    &&& sealed.commit.delta.change_count == planned.change_count
    &&& sealed.object_versions == planned.object_versions
}

/// A commit says what it changed, change by change: for each staged change the key, the version that the key had,
/// the version it has now, and whether that is a deletion. A few changes are listed in the commit itself and more
/// of them in a tree of their own, never in both.
pub proof fn law_commit_lists_every_change(
    drafted: DraftedCommit,
    ids: Seq<ObjectVersionId>,
    previous: Seq<Option<ObjectVersionId>>,
    changes: TreeChanges,
    planned: PlannedCommit,
    i: int,
)
    requires
        drafted.wf(),
        comes_to(drafted, ids, previous, changes, planned),
        ids.len() == drafted.request.mutations@.len(),
        0 <= i < drafted.request.mutations@.len(),
    ensures
        ({
            let mutation = drafted.request.mutations@[i];
            let deletes = mutation is Delete;
            let n = drafted.request.mutations@.len();
            &&& n <= 128 ==> {
                &&& changes.delta is None
                &&& planned.inline@.len() == n
                &&& planned.inline@[i]@.key == mutation.spec_key()
                &&& planned.inline@[i]@.previous == previous[i]
                &&& planned.inline@[i]@.next == ids[i]
                &&& planned.inline@[i]@.delete_marker == deletes
            }
            &&& n > 128 ==> {
                &&& planned.inline@.len() == 0
                &&& planned.change_count == n
                &&& changes.delta is Some
                &&& edits(changes.delta->0@).len() == n
                &&& edits(changes.delta->0@)[i] is Upsert
                &&& edits(changes.delta->0@)[i]->Upsert_key == mutation.spec_key()
                &&& edits(changes.delta->0@)[i]->val@.key == mutation.spec_key()
                &&& edits(changes.delta->0@)[i]->val@.previous == previous[i]
                &&& edits(changes.delta->0@)[i]->val@.next == ids[i]
                &&& edits(changes.delta->0@)[i]->val@.delete_marker == deletes
            }
            &&& planned.object_versions@.len() == n
            &&& planned.object_versions@[i] == ids[i]
            &&& edits(changes.objects@).len() == n
            &&& deletes ==> edits(changes.objects@)[i] == (Edit::<ObjectVersion>::Delete {
                key: mutation.spec_key(),
            })
            &&& !deletes ==> edits(changes.objects@)[i] is Upsert && edits(
                changes.objects@,
            )[i]->Upsert_key == mutation.spec_key() && edits(changes.objects@)[i]->val == (
            ObjectVersion {
                id: ids[i],
                body: drafted.drafts@[i].body,
                binding: drafted.drafts@[i].binding,
            })
            &&& edits(changes.versions@).len() == n
            &&& edits(changes.versions@)[i] is Upsert
            &&& edits(changes.versions@)[i]->Upsert_key == version_key(
                mutation.spec_key(),
                drafted.drafts@[i].body.order,
                ids[i],
            )
            &&& edits(changes.versions@)[i]->val == (ObjectVersion {
                id: ids[i],
                body: drafted.drafts@[i].body,
                binding: drafted.drafts@[i].binding,
            })
            &&& planned.request == drafted.request
            &&& planned.parent == drafted.parent
            &&& planned.generation == drafted.generation
        }),
{
    let keys = keys_of(drafted.request.mutations@);
    let versions = drafted.versions(ids);
    let transitions = transitions_of(keys, versions, previous);
    let mutation = drafted.request.mutations@[i];
    assert(keys[i] == mutation.spec_key());
    assert(drafted.drafts@[i] == draft_of(mutation, drafted.generation, i, drafted.request.now));
    assert(versions[i].id == ids[i]);
    assert((versions[i].body.kind is DeleteMarker) == (mutation is Delete));
    if keys.len() <= INLINE_COMMIT_DELTA_LIMIT {
        assert(transition_views(planned.inline@)[i] == transitions[i]);
        assert(transition_views(planned.inline@).len() == planned.inline@.len());
    } else {
        let delta = edits(changes.delta->0@);
        assert(lists_changes(delta, transitions));
        assert(delta[i] is Upsert);
    }
    assert(edits(changes.objects@)[i] == object_edit(keys[i], versions[i]));
    assert(edits(changes.versions@)[i] == version_edit(keys[i], versions[i]));
}

/// The first answer to an operation names its commit, what it stands on, and the version of each change, and is
/// no replay.
pub proof fn law_first_answer_names_its_commit(sealed: SealedCommit, id: CommitId)
    ensures
        first_answer(sealed, id).id == id,
        first_answer(sealed, id).operation == sealed.operation,
        first_answer(sealed, id).branch == sealed.branch@,
        first_answer(sealed, id).parents == sealed.commit.parents@,
        first_answer(sealed, id).object_versions == sealed.object_versions@,
        first_answer(sealed, id).changed_keys == sealed.object_versions@.len(),
        !first_answer(sealed, id).idempotent_replay,
{
}

} // verus!
