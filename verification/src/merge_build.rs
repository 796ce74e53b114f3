//! Building and publishing a merge: the planned changes become objects, versions and transitions.
use crate::bytes::{bytes_eq, to_vec};
use crate::error::{fault, outcome, Error, ErrorCode, Fault};
use crate::ids::{CommitGeneration, CommitId, ObjectVersionId, OperationId};
use crate::keys::{change_prefix, merge_change_key};
use crate::merge::{MergeCursor, MergePhase};
use crate::merge_plan::{MergePlanEntry, MergePolicy};
use crate::model::{
    AuthorityStamp, BucketCommit, BucketDelta, BucketState, LogicalObjectVersionBody,
    LogicalObjectVersionKind, ObjectTransition, ObjectVersion, RootManifest, TransitionView,
};
use crate::publish::VersionDraft;
use crate::repository::Repository;
use crate::tree::{edits, lemma_edits_push, Edit, Mutation};
use crate::version_key::{version_key, version_tree_key, ObjectVersionOrder};
use vstd::prelude::*;

verus! {

/// A planned change with the versions that its values name.
#[derive(Debug)]
pub struct MergeBuildRecord {
    pub entry: MergePlanEntry,
    /// The version that our side holds.
    pub previous: Option<ObjectVersionId>,
    /// The version that the merge selected, where it selected one.
    pub selected: Option<ObjectVersionId>,
}

/// Refuses a plan entry that is filed under another key than its own.
pub fn check_change_record(key: &[u8], entry: &MergePlanEntry) -> (r: Result<(), Error>)
    ensures
        outcome(r) == if key@ == change_prefix() + entry.key@ {
            Ok::<(), Fault>(())
        } else {
            Err(
                fault(
                    ErrorCode::CorruptCommit,
                    "merge-plan change key disagrees with its record",
                ),
            )
        },
{
    if !bytes_eq(&merge_change_key(&entry.key), key) {
        return Err(
            Error::new(
                ErrorCode::CorruptCommit,
                "merge-plan change key disagrees with its record",
            ),
        );
    }
    Ok(())
}

/// The generation of a merge of two commits.
pub fn merge_generation(ours: CommitGeneration, theirs: CommitGeneration) -> (r: Result<
    CommitGeneration,
    Error,
>)
    ensures
        ({
            let top = if ours.0 < theirs.0 {
                theirs.0
            } else {
                ours.0
            };
            outcome(r) == if top == u64::MAX {
                Err(fault(ErrorCode::InternalInvariant, "merge generation overflow"))
            } else {
                Ok(CommitGeneration((top + 1) as u64))
            }
        }),
{
    let top: u64 = if ours.0 < theirs.0 {
        theirs.0
    } else {
        ours.0
    };
    match top.checked_add(1) {
        Some(generation) => Ok(CommitGeneration(generation)),
        None => Err(Error::new(ErrorCode::InternalInvariant, "merge generation overflow")),
    }
}

/// The marker that a deletion leaves: the merge makes it, so it has a place in the merge's own commit.
pub open spec fn delete_draft(generation: CommitGeneration, ordinal: int, created_at_millis: u64) -> VersionDraft {
    VersionDraft {
        body: LogicalObjectVersionBody {
            order: ObjectVersionOrder {
                commit_generation: generation,
                mutation_ordinal: ordinal as u32,
            },
            created_at_millis,
            kind: LogicalObjectVersionKind::DeleteMarker,
        },
        binding: None,
    }
}

/// Whether some deletion among the first `n` records has no ordinal.
pub open spec fn ordinal_overflows(records: Seq<MergeBuildRecord>, built: u64) -> bool {
    exists|i: int|
        0 <= i < records.len() && (#[trigger] records[i]).entry.selected is None && built + i
            > u32::MAX
}

/// The markers of the deletions among the records, each at its record's place.
pub fn draft_merge_deletes(
    records: &Vec<MergeBuildRecord>,
    built_changes: u64,
    generation: CommitGeneration,
    created_at_millis: u64,
) -> (r: Result<Vec<Option<VersionDraft>>, Error>)
    ensures
        match r {
            Ok(drafts) => {
                &&& !ordinal_overflows(records@, built_changes)
                &&& drafts@.len() == records@.len()
                &&& forall|i: int|
                    0 <= i < records@.len() ==> #[trigger] drafts@[i] == if records@[i].entry.selected is None {
                        Some(delete_draft(generation, built_changes + i, created_at_millis))
                    } else {
                        None
                    }
            },
            Err(error) => ordinal_overflows(records@, built_changes) && error@ == fault(
                ErrorCode::InvalidLimit,
                "merge delete ordinal exceeds u32",
            ),
        },
{
    let mut drafts: Vec<Option<VersionDraft>> = Vec::new();
    let mut i: usize = 0;
    while i < records.len()
        invariant
            i <= records@.len(),
            drafts@.len() == i,
            forall|j: int|
                0 <= j < i ==> !((#[trigger] records@[j]).entry.selected is None && built_changes + j
                    > u32::MAX),
            forall|j: int|
                0 <= j < i ==> #[trigger] drafts@[j] == if records@[j].entry.selected is None {
                    Some(delete_draft(generation, built_changes + j, created_at_millis))
                } else {
                    None
                },
        decreases records.len() - i,
    {
        if records[i].entry.selected.is_none() {
            let ordinal: Option<u64> = built_changes.checked_add(i as u64);
            let fits = match ordinal {
                Some(value) => value <= u32::MAX as u64,
                None => false,
            };
            if !fits {
                assert(records@[i as int].entry.selected is None);
                return Err(
                    Error::new(ErrorCode::InvalidLimit, "merge delete ordinal exceeds u32"),
                );
            }
            let ordinal: u32 = (built_changes + i as u64) as u32;
            drafts.push(
                Some(
                    VersionDraft {
                        body: LogicalObjectVersionBody {
                            order: ObjectVersionOrder {
                                commit_generation: generation,
                                mutation_ordinal: ordinal,
                            },
                            created_at_millis,
                            kind: LogicalObjectVersionKind::DeleteMarker,
                        },
                        binding: None,
                    },
                ),
            );
        } else {
            drafts.push(None);
        }
        i += 1;
    }
    Ok(drafts)
}

/// What a page of planned changes does to the three trees of a merge.
#[derive(Debug)]
pub struct MergeBuildPage {
    pub object_mutations: Vec<Mutation<Vec<u8>>>,
    pub version_mutations: Vec<Mutation<ObjectVersion>>,
    pub transitions: Vec<ObjectTransition>,
}

/// The version that a deletion leaves.
pub open spec fn delete_version(draft: VersionDraft, id: ObjectVersionId) -> ObjectVersion {
    ObjectVersion { id, body: draft.body, binding: draft.binding }
}

/// The versions that a page's deletions leave, in order.
pub open spec fn delete_edits(
    records: Seq<MergeBuildRecord>,
    drafts: Seq<Option<VersionDraft>>,
    ids: Seq<ObjectVersionId>,
    n: int,
) -> Seq<Edit<ObjectVersion>>
    decreases n,
{
    if n <= 0 {
        Seq::empty()
    } else {
        let before = delete_edits(records, drafts, ids, n - 1);
        match drafts[n - 1] {
            Some(draft) => before.push(
                Edit::Upsert {
                    key: version_key(records[n - 1].entry.key@, draft.body.order, ids[n - 1]),
                    val: delete_version(draft, ids[n - 1]),
                },
            ),
            None => before,
        }
    }
}

/// Whether a mutation gives a key the selected value, or takes it away where none was selected.
pub open spec fn selects(mutation: Mutation<Vec<u8>>, entry: MergePlanEntry) -> bool {
    match (mutation, entry.selected) {
        (Mutation::Upsert { key, val }, Some(selected)) => key@ == entry.key@ && val@ == selected@,
        (Mutation::Delete { key }, None) => key@ == entry.key@,
        _ => false,
    }
}

/// Builds a page of planned changes. `ids` names the markers of the deletions, each at its record's
/// place; the other places are not read.
pub fn advance_merge_object_build(
    records: &Vec<MergeBuildRecord>,
    drafts: Vec<Option<VersionDraft>>,
    ids: &Vec<ObjectVersionId>,
) -> (r: MergeBuildPage)
    requires
        drafts@.len() == records@.len(),
        ids@.len() == records@.len(),
        forall|i: int|
            0 <= i < records@.len() ==> ((#[trigger] drafts@[i]) is Some
                <==> records@[i].entry.selected is None),
        forall|i: int|
            0 <= i < records@.len() ==> ((#[trigger] records@[i]).entry.selected is Some
                <==> records@[i].selected is Some),
    ensures
        r.object_mutations@.len() == records@.len(),
        forall|i: int|
            0 <= i < records@.len() ==> selects(
                #[trigger] r.object_mutations@[i],
                records@[i].entry,
            ),
        edits(r.version_mutations@) == delete_edits(
            records@,
            drafts@,
            ids@,
            records@.len() as int,
        ),
        r.transitions@.len() == records@.len(),
        forall|i: int|
            0 <= i < records@.len() ==> (#[trigger] r.transitions@[i])@ == (TransitionView {
                key: records@[i].entry.key@,
                previous: records@[i].previous,
                next: match records@[i].selected {
                    Some(id) => id,
                    None => ids@[i],
                },
                delete_marker: records@[i].entry.selected is None,
            }),
{
    let mut object_mutations: Vec<Mutation<Vec<u8>>> = Vec::new();
    let mut version_mutations: Vec<Mutation<ObjectVersion>> = Vec::new();
    let mut transitions: Vec<ObjectTransition> = Vec::new();
    let ghost all = drafts@;
    assert(edits(version_mutations@) =~= Seq::<Edit<ObjectVersion>>::empty());
    for draft in it: drafts
        invariant
            it.seq() == all,
            all.len() == records@.len(),
            ids@.len() == records@.len(),
            forall|i: int|
                0 <= i < records@.len() ==> ((#[trigger] all[i]) is Some
                    <==> records@[i].entry.selected is None),
            forall|i: int|
                0 <= i < records@.len() ==> ((#[trigger] records@[i]).entry.selected is Some
                    <==> records@[i].selected is Some),
            object_mutations@.len() == it.index(),
            transitions@.len() == it.index(),
            forall|i: int|
                0 <= i < it.index() ==> selects(#[trigger] object_mutations@[i], records@[i].entry),
            edits(version_mutations@) == delete_edits(records@, all, ids@, it.index()),
            forall|i: int|
                0 <= i < it.index() ==> (#[trigger] transitions@[i])@ == (TransitionView {
                    key: records@[i].entry.key@,
                    previous: records@[i].previous,
                    next: match records@[i].selected {
                        Some(id) => id,
                        None => ids@[i],
                    },
                    delete_marker: records@[i].entry.selected is None,
                }),
    {
        let ghost n = it.index();
        let i: usize = transitions.len();
        assert(all[n] == draft);
        assert(records@[i as int] == records@[n]);
        let record = &records[i];
        let delete_marker = record.entry.selected.is_none();
        match &record.entry.selected {
            Some(selected) => {
                object_mutations.push(
                    Mutation::Upsert { key: to_vec(&record.entry.key), val: to_vec(selected) },
                );
            },
            None => {
                object_mutations.push(Mutation::Delete { key: to_vec(&record.entry.key) });
            },
        }
        if let Some(draft) = draft {
            let version = ObjectVersion { id: ids[i], body: draft.body, binding: draft.binding };
            let m = Mutation::Upsert {
                key: version_tree_key(&record.entry.key, version.body.order, version.id),
                val: version,
            };
            proof {
                lemma_edits_push(version_mutations@, m);
            }
            version_mutations.push(m);
        }
        let next = match record.selected {
            Some(id) => id,
            None => ids[i],
        };
        transitions.push(
            ObjectTransition {
                key: to_vec(&record.entry.key),
                previous: record.previous,
                next,
                delete_marker,
            },
        );
    }
    MergeBuildPage { object_mutations, version_mutations, transitions }
}

/// Takes a page of the build into the cursor.
pub fn finish_build_page(
    cursor: &mut MergeCursor,
    objects: RootManifest,
    versions: RootManifest,
    delta: RootManifest,
    built: u64,
    last_key: Vec<u8>,
) -> (r: Result<(), Error>)
    ensures
        match r {
            Ok(_) => old(cursor).built_changes + built <= u64::MAX && *final(cursor) == (
            MergeCursor {
                final_objects: Some(objects),
                final_versions: Some(versions),
                delta_root: Some(delta),
                built_changes: (old(cursor).built_changes + built) as u64,
                build_after: Some(last_key),
                ..*old(cursor)
            }),
            Err(error) => old(cursor).built_changes + built > u64::MAX && *final(cursor) == *old(
                cursor,
            ) && error@ == fault(ErrorCode::InternalInvariant, "merge build count overflow"),
        },
{
    match cursor.built_changes.checked_add(built) {
        None => Err(Error::new(ErrorCode::InternalInvariant, "merge build count overflow")),
        Some(total) => {
            cursor.final_objects = Some(objects);
            cursor.final_versions = Some(versions);
            cursor.delta_root = Some(delta);
            cursor.built_changes = total;
            cursor.build_after = Some(last_key);
            Ok(())
        },
    }
}

/// No planned change is left: the merge is ready if every one was built.
pub fn finish_build(cursor: &mut MergeCursor) -> (r: Result<(), Error>)
    ensures
        ({
            let before = *old(cursor);
            if before.built_changes != before.planned_changes {
                *final(cursor) == before && outcome(r) == Err::<(), Fault>(
                    fault(
                        ErrorCode::CorruptCommit,
                        "merge build did not consume every planned change",
                    ),
                )
            } else {
                r is Ok && *final(cursor) == (MergeCursor {
                    delta_root: if before.built_changes == 0 {
                        None
                    } else {
                        before.delta_root
                    },
                    phase: MergePhase::ReadyToPublish,
                    ..before
                })
            }
        }),
{
    if cursor.built_changes != cursor.planned_changes {
        return Err(
            Error::new(
                ErrorCode::CorruptCommit,
                "merge build did not consume every planned change",
            ),
        );
    }
    if cursor.built_changes == 0 {
        cursor.delta_root = None;
    }
    cursor.phase = MergePhase::ReadyToPublish;
    Ok(())
}

/// What was merged: the answer to a merge.
#[derive(Clone, Debug, PartialEq, Eq)]
pub struct MergeReceipt {
    pub id: CommitId,
    pub operation: OperationId,
    pub branch: String,
    pub parents: [CommitId; 2],
    pub changed_keys: u64,
    pub conflicts: u64,
    pub idempotent_replay: bool,
}

/// Finds the base of a merge that may be published.
pub fn publishable_base(cursor: &MergeCursor) -> (r: Result<CommitId, Error>)
    ensures
        outcome(r) == if cursor.phase != MergePhase::ReadyToPublish {
            Err(fault(ErrorCode::PreconditionFailed, "merge plan is not ready to publish"))
        } else if cursor.policy == MergePolicy::Fail && cursor.conflicts != 0 {
            Err(fault(ErrorCode::MergeConflict, "merge plan contains unresolved conflicts"))
        } else {
            match cursor.selected_base {
                Some(base) => Ok(base),
                None => Err(fault(ErrorCode::InternalInvariant, "merge plan has no selected base")),
            }
        },
{
    if cursor.phase != MergePhase::ReadyToPublish {
        return Err(
            Error::new(ErrorCode::PreconditionFailed, "merge plan is not ready to publish"),
        );
    }
    if cursor.policy == MergePolicy::Fail && cursor.conflicts != 0 {
        return Err(
            Error::new(ErrorCode::MergeConflict, "merge plan contains unresolved conflicts"),
        );
    }
    match cursor.selected_base {
        Some(base) => Ok(base),
        None => Err(Error::new(ErrorCode::InternalInvariant, "merge plan has no selected base")),
    }
}

/// The base that a merge is planned against.
pub fn planning_base(cursor: &MergeCursor) -> (r: Result<CommitId, Error>)
    ensures
        outcome(r) == match cursor.selected_base {
            Some(base) => Ok(base),
            None => Err(fault(ErrorCode::InternalInvariant, "merge plan has no selected base")),
        },
{
    match cursor.selected_base {
        Some(base) => Ok(base),
        None => Err(Error::new(ErrorCode::InternalInvariant, "merge plan has no selected base")),
    }
}

/// The trees that a merge has built so far.
#[derive(Clone, Copy, Debug)]
pub struct BuildRoots {
    pub objects: RootManifest,
    pub versions: RootManifest,
    pub delta: RootManifest,
}

/// What is wrong with the trees that a merge has built so far: one is absent.
pub open spec fn absent_root(cursor: MergeCursor) -> Option<Fault> {
    if cursor.final_objects is None {
        Some(fault(ErrorCode::InternalInvariant, "merge object root is absent"))
    } else if cursor.final_versions is None {
        Some(fault(ErrorCode::InternalInvariant, "merge version root is absent"))
    } else if cursor.delta_root is None {
        Some(fault(ErrorCode::InternalInvariant, "merge delta root is absent"))
    } else {
        None
    }
}

/// The tree of versions that a merge has built so far.
pub fn union_root(cursor: &MergeCursor) -> (r: Result<RootManifest, Error>)
    ensures
        outcome(r) == match cursor.final_versions {
            Some(root) => Ok(root),
            None => Err(fault(ErrorCode::InternalInvariant, "merge version root is absent")),
        },
{
    match cursor.final_versions {
        Some(root) => Ok(root),
        None => Err(Error::new(ErrorCode::InternalInvariant, "merge version root is absent")),
    }
}

/// The trees that a merge has built so far.
pub fn build_roots(cursor: &MergeCursor) -> (r: Result<BuildRoots, Error>)
    ensures
        match r {
            Ok(roots) => {
                &&& absent_root(*cursor) is None
                &&& cursor.final_objects == Some(roots.objects)
                &&& cursor.final_versions == Some(roots.versions)
                &&& cursor.delta_root == Some(roots.delta)
            },
            Err(error) => absent_root(*cursor) == Some(error@),
        },
{
    let objects = match cursor.final_objects {
        None => {
            return Err(Error::new(ErrorCode::InternalInvariant, "merge object root is absent"));
        },
        Some(root) => root,
    };
    let versions = match union_root(cursor) {
        Err(error) => {
            return Err(error);
        },
        Ok(root) => root,
    };
    match cursor.delta_root {
        None => Err(Error::new(ErrorCode::InternalInvariant, "merge delta root is absent")),
        Some(delta) => Ok(BuildRoots { objects, versions, delta }),
    }
}

/// The error of a merge whose target has moved.
pub open spec fn merge_target_moved() -> Fault {
    fault(ErrorCode::RefConflict, "merge target moved after planning")
}

/// Refuses a head other than the one that a merge was planned against.
pub fn check_planned_head(ours: CommitId, head: CommitId) -> (r: Result<(), Error>)
    ensures
        outcome(r) == if head == ours {
            Ok::<(), Fault>(())
        } else {
            Err(merge_target_moved())
        },
{
    if head != ours {
        return Err(Error::new(ErrorCode::RefConflict, "merge target moved after planning"));
    }
    Ok(())
}

/// The byte that stands for a policy in the digest of a merge's input.
pub fn policy_byte(policy: MergePolicy) -> (r: u8)
    ensures
        r == match policy {
            MergePolicy::Fail => 0u8,
            MergePolicy::Ours => 1u8,
            MergePolicy::Theirs => 2u8,
        },
{
    match policy {
        MergePolicy::Fail => 0,
        MergePolicy::Ours => 1,
        MergePolicy::Theirs => 2,
    }
}

impl Repository {
    /// The commit of a merge: both heads are its parents.
    pub fn build_merge_commit(
        &self,
        cursor: &MergeCursor,
        generation: CommitGeneration,
        input_digest: [u8; 32],
        authority: AuthorityStamp,
    ) -> (r: Result<BucketCommit, Error>)
        ensures
            match r {
                Ok(commit) => {
                    &&& cursor.final_objects == Some(commit.state.objects)
                    &&& cursor.final_versions == Some(commit.state.versions)
                    &&& commit.parents@ == seq![cursor.ours, cursor.theirs]
                    &&& commit.generation == generation
                    &&& commit.delta.input_digest == input_digest
                    &&& commit.delta.changes@.len() == 0
                    &&& commit.delta.changes_root == cursor.delta_root
                    &&& commit.delta.change_count == cursor.built_changes
                    &&& commit.node_pack is None
                    &&& commit.authority == authority
                    &&& commit.author == self.options.writer
                    &&& commit.message == Some(cursor.message)
                    &&& commit.created_at_millis == cursor.created_at_millis
                    &&& commit.metadata@.len() == 0
                },
                Err(error) => if cursor.final_objects is None {
                    error@ == fault(ErrorCode::InternalInvariant, "merge object root is absent")
                } else {
                    cursor.final_versions is None && error@ == fault(
                        ErrorCode::InternalInvariant,
                        "merge version root is absent",
                    )
                },
            },
    {
        let objects = match cursor.final_objects {
            Some(root) => root,
            None => {
                return Err(
                    Error::new(ErrorCode::InternalInvariant, "merge object root is absent"),
                );
            },
        };
        let versions = match cursor.final_versions {
            Some(root) => root,
            None => {
                return Err(
                    Error::new(ErrorCode::InternalInvariant, "merge version root is absent"),
                );
            },
        };
        let mut parents: Vec<CommitId> = Vec::new();
        parents.push(cursor.ours);
        parents.push(cursor.theirs);
        assert(parents@ =~= seq![cursor.ours, cursor.theirs]);
        Ok(
            BucketCommit {
                state: BucketState { objects, versions },
                parents,
                generation,
                delta: BucketDelta {
                    input_digest,
                    changes: Vec::new(),
                    changes_root: cursor.delta_root,
                    change_count: cursor.built_changes,
                },
                node_pack: None,
                authority,
                author: self.options.writer.clone(),
                message: Some(cursor.message.clone()),
                created_at_millis: cursor.created_at_millis,
                metadata: Vec::new(),
            },
        )
    }
}

/// The receipt of a merge that was just published.
pub fn merge_receipt(cursor: &MergeCursor, id: CommitId) -> (r: MergeReceipt)
    ensures
        r == (MergeReceipt {
            id,
            operation: cursor.operation,
            branch: cursor.target_branch,
            parents: [cursor.ours, cursor.theirs],
            changed_keys: cursor.built_changes,
            conflicts: cursor.conflicts,
            idempotent_replay: false,
        }),
{
    MergeReceipt {
        id,
        operation: cursor.operation,
        branch: cursor.target_branch.clone(),
        parents: [cursor.ours, cursor.theirs],
        changed_keys: cursor.built_changes,
        conflicts: cursor.conflicts,
        idempotent_replay: false,
    }
}

/// Answers a merge that was published before: with its receipt when the input is the same, with an
/// error when it is not.
pub fn reconcile_merge_operation(
    cursor: &MergeCursor,
    input_digest: &[u8; 32],
    target: CommitId,
    commit: &BucketCommit,
) -> (r: Result<MergeReceipt, Error>)
    ensures
        ({
            let same = commit.delta.input_digest@ == input_digest@ && commit.parents@ == seq![
                cursor.ours,
                cursor.theirs,
            ];
            outcome(r) == if same {
                Ok(
                    MergeReceipt {
                        id: target,
                        operation: cursor.operation,
                        branch: cursor.target_branch,
                        parents: [cursor.ours, cursor.theirs],
                        changed_keys: commit.delta.logical_changes() as u64,
                        conflicts: cursor.conflicts,
                        idempotent_replay: true,
                    },
                )
            } else {
                Err(
                    fault(
                        ErrorCode::IdempotencyConflict,
                        "merge operation ID was reused with different input",
                    ).of_operation(cursor.operation),
                )
            }
        }),
{
    let same_parents = commit.parents.len() == 2 && commit.parents[0] == cursor.ours
        && commit.parents[1] == cursor.theirs;
    proof {
        let wanted = seq![cursor.ours, cursor.theirs];
        if same_parents {
            assert(commit.parents@ =~= wanted);
        } else if commit.parents@ == wanted {
            assert(wanted.len() == 2 && wanted[0] == cursor.ours && wanted[1] == cursor.theirs);
        }
    }
    if !bytes_eq(&commit.delta.input_digest, input_digest) || !same_parents {
        return Err(
            Error::new(
                ErrorCode::IdempotencyConflict,
                "merge operation ID was reused with different input",
            ).operation(cursor.operation),
        );
    }
    Ok(
        MergeReceipt {
            id: target,
            operation: cursor.operation,
            branch: cursor.target_branch.clone(),
            parents: [cursor.ours, cursor.theirs],
            changed_keys: commit.delta.logical_change_count(),
            conflicts: cursor.conflicts,
            idempotent_replay: true,
        },
    )
}

/// A merge that is published and one that is replayed answer alike: the commit that was built for a
/// merge with changes is recognised as its own.
pub proof fn law_merge_replay_answers_as_before(
    cursor: MergeCursor,
    commit: BucketCommit,
    first: MergeReceipt,
    replay: MergeReceipt,
)
    requires
        commit.delta.changes@.len() == 0,
        commit.delta.changes_root == cursor.delta_root,
        commit.delta.change_count == cursor.built_changes,
        cursor.delta_root is None <==> cursor.built_changes == 0,
        first == (MergeReceipt {
            id: first.id,
            operation: cursor.operation,
            branch: cursor.target_branch,
            parents: [cursor.ours, cursor.theirs],
            changed_keys: cursor.built_changes,
            conflicts: cursor.conflicts,
            idempotent_replay: false,
        }),
        replay == (MergeReceipt {
            id: first.id,
            operation: cursor.operation,
            branch: cursor.target_branch,
            parents: [cursor.ours, cursor.theirs],
            changed_keys: commit.delta.logical_changes() as u64,
            conflicts: cursor.conflicts,
            idempotent_replay: true,
        }),
    ensures
        replay == (MergeReceipt { idempotent_replay: true, ..first }),
{
}

/// What a merge does to a key is what its plan selected: it writes the value that was selected, and deletes the key
/// where the selection is that there is none.
pub proof fn law_merge_writes_what_was_selected(mutation: Mutation<Vec<u8>>, entry: MergePlanEntry)
    ensures
        selects(mutation, entry) && entry.selected is Some ==> (mutation matches Mutation::Upsert {
            key,
            val,
        } && key@ == entry.key@ && val@ == entry.selected->0@),
        selects(mutation, entry) && entry.selected is None ==> (mutation matches Mutation::Delete { key }
            && key@ == entry.key@),
{
}

/// A merge that deletes a key leaves a mark of it: a version without a payload, of the merge's generation and time,
/// under its own place.
pub proof fn law_merge_marks_its_deletions(
    generation: CommitGeneration,
    ordinal: int,
    created_at_millis: u64,
    id: ObjectVersionId,
)
    requires
        0 <= ordinal <= u32::MAX,
    ensures
        ({
            let draft = delete_draft(generation, ordinal, created_at_millis);
            let version = delete_version(draft, id);
            &&& draft.body.kind is DeleteMarker
            &&& draft.binding is None
            &&& draft.body.order.commit_generation == generation
            &&& draft.body.order.mutation_ordinal == ordinal
            &&& draft.body.created_at_millis == created_at_millis
            &&& version.id == id
            &&& version.body == draft.body
            &&& version.binding is None
        }),
{
}

/// The marks that a merge writes are those of the records that delete, each under the key of its record and version; a
/// merge that deletes nothing writes none.
pub proof fn law_merge_writes_every_mark(
    records: Seq<MergeBuildRecord>,
    drafts: Seq<Option<VersionDraft>>,
    ids: Seq<ObjectVersionId>,
    n: int,
    i: int,
)
    requires
        0 <= n <= drafts.len(),
        0 <= i < n,
    ensures
        drafts[i] matches Some(draft) ==> delete_edits(records, drafts, ids, n).contains(
            Edit::Upsert {
                key: version_key(records[i].entry.key@, draft.body.order, ids[i]),
                val: ObjectVersion { id: ids[i], body: draft.body, binding: draft.binding },
            },
        ),
        (forall|k: int| 0 <= k < n ==> (#[trigger] drafts[k]) is None) ==> delete_edits(
            records,
            drafts,
            ids,
            n,
        ).len() == 0,
    decreases n,
{
    let before = delete_edits(records, drafts, ids, n - 1);
    let after = delete_edits(records, drafts, ids, n);
    if forall|k: int| 0 <= k < n ==> (#[trigger] drafts[k]) is None {
        assert(drafts[n - 1] is None);
        if n > 1 {
            law_merge_writes_every_mark(records, drafts, ids, n - 1, 0);
        }
    }
    if drafts[i] is Some {
        let draft = drafts[i]->0;
        let edit = Edit::Upsert {
            key: version_key(records[i].entry.key@, draft.body.order, ids[i]),
            val: ObjectVersion { id: ids[i], body: draft.body, binding: draft.binding },
        };
        if i == n - 1 {
            assert(after[before.len() as int] == edit);
        } else {
            law_merge_writes_every_mark(records, drafts, ids, n - 1, i);
            let k = before.index_of(edit);
            assert(after[k] == edit);
        }
    }
}

/// A merge can be published only with all three of its trees.
pub proof fn law_merge_publishes_whole_trees(cursor: MergeCursor)
    ensures
        absent_root(cursor) is None <==> cursor.final_objects is Some && cursor.final_versions is Some
            && cursor.delta_root is Some,
{
}

/// A merge has too many deletions exactly where one of them would get a place that is too high to note.
pub proof fn law_merge_places_fit(records: Seq<MergeBuildRecord>, built: u64, i: int)
    ensures
        0 <= i < records.len() && records[i].entry.selected is None && built + i > u32::MAX
            ==> ordinal_overflows(records, built),
        built + records.len() <= u32::MAX ==> !ordinal_overflows(records, built),
        (forall|k: int| 0 <= k < records.len() ==> (#[trigger] records[k]).entry.selected is Some)
            ==> !ordinal_overflows(records, built),
{
}

} // verus!
