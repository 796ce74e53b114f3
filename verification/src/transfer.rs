//! History transfer: copies every commit that a branch of one repository reaches into another, parents
//! before children, under new names.
//!
//! The trees of a commit are rebuilt from its first parent's by its own transitions. A mapping tree
//! remembers which commit and which version stands for which.
use crate::bytes::{bytes_eq, to_vec};
use crate::closure::{
    acyclic, closure_cursor_sound, foreign_closure, is_reached, CommitClosureCursor,
};
use crate::closure_walk::{is_over, law_walk_emits_exactly_what_its_roots_reach, walk_holds, Walk};
use crate::counters::{added, checked_fsck_add};
use crate::error::{fault, outcome, Error, ErrorCode, Fault};
use crate::ids::{nil_bytes, CommitGeneration, CommitId, ObjectVersionId, OperationId, RepositoryId};
use crate::keys::{array_of_16, array_of_32};
use crate::merge::{union_edits, version_union, DiffCursor};
use crate::merge_plan::Diff;
use crate::model::{
    AuthorityStamp, BucketCommit, BucketDelta, BucketState, LogicalObjectVersionBody,
    LogicalObjectVersionKind, MetadataEntry, ObjectTransition, ObjectVersion, PayloadBinding,
    RootManifest, TransitionView,
};
use crate::ordered::{put_sorted, sorted, Keyed};
use crate::publish::{version_edit, VersionDraft};
use crate::repository::Repository;
use crate::text::{valid_branch, validate_branch};
use crate::tree::{applied_one, edits, Edit, Mutation};
use crate::version_key::{version_key, version_tree_key, ObjectVersionOrder};
use vstd::prelude::*;
use vstd::utf8::encode_utf8;

verus! {

/// How far the transfer of one commit has come.
#[derive(Clone, Copy, Debug, PartialEq, Eq, Structural)]
pub enum HistoryTransferPhase {
    UnionParentVersions,
    ApplyTransitions,
    FinalizeCommit,
}

/// A commit that is being rebuilt.
#[derive(Clone, Debug)]
pub struct PendingHistoryTransferCommit {
    pub source: CommitId,
    pub next_closure: CommitClosureCursor,
    pub mapped_parents: Vec<CommitId>,
    pub objects: RootManifest,
    pub versions: RootManifest,
    pub delta: RootManifest,
    pub phase: HistoryTransferPhase,
    pub union_parent_index: usize,
    pub union_base: Option<RootManifest>,
    pub union_diff: Option<DiffCursor>,
    pub inline_index: usize,
    pub external_after: Option<Vec<u8>>,
    pub transitions_applied: u64,
}

/// What a transfer has done so far.
#[derive(Clone, Copy, Debug, PartialEq, Eq, Structural)]
pub struct HistoryTransferReport {
    pub imported_commits: u64,
    pub rebound_versions: u64,
    pub copied_payloads: u64,
    pub copied_payload_bytes: u64,
}

/// Where a transfer stands. What it has to walk and what it has mapped live in trees.
#[derive(Clone, Debug)]
pub struct HistoryTransferCursor {
    pub source_repository: RepositoryId,
    pub destination_repository: RepositoryId,
    pub job: OperationId,
    pub source_branch: String,
    pub destination_branch: String,
    pub source_head: CommitId,
    pub expected_destination_head: CommitId,
    pub closure: CommitClosureCursor,
    pub mappings: RootManifest,
    pub pending: Option<PendingHistoryTransferCommit>,
    pub mapped_head: Option<CommitId>,
    pub report: HistoryTransferReport,
    pub complete: bool,
}

/// What one page of a transfer did.
#[derive(Clone, Debug)]
pub struct HistoryTransferPage {
    pub cursor: HistoryTransferCursor,
    pub traversal_steps: usize,
    pub mutation_steps: usize,
    pub imported_commits: usize,
    pub complete: bool,
}

/// A commit and the one that stands for it.
#[derive(Clone, Copy, Debug)]
pub struct HistoryTransferMapping {
    pub source: CommitId,
    pub destination: CommitId,
}

/// What a transfer does next.
#[derive(Clone, Copy, Debug, PartialEq, Eq, Structural)]
pub enum TransferWork {
    Idle,
    Discover,
    UnionParentVersions,
    ApplyTransitions,
    FinalizeCommit,
}

/// Whether the trees of a half-built commit were written with the repository's format.
pub open spec fn pending_trees_fit(repository: Repository, pending: PendingHistoryTransferCommit) -> bool {
    let digest = repository.format.state_tree_digest;
    &&& pending.objects.format_digest == digest
    &&& pending.versions.format_digest == digest
    &&& pending.delta.format_digest == digest
    &&& pending.union_base is Some ==> pending.union_base->0.format_digest == digest
}

/// What checking the cursor of a transfer says.
pub open spec fn transfer_cursor_outcome(
    destination: Repository,
    source: Repository,
    cursor: HistoryTransferCursor,
) -> Result<(), Fault> {
    if !valid_branch(cursor.source_branch@) || !valid_branch(cursor.destination_branch@) {
        Err(fault(ErrorCode::InvalidBranch, "branch name violates the canonical ref contract"))
    } else if !closure_cursor_sound(source, cursor.closure) {
        Err(foreign_closure())
    } else if cursor.source_repository != source.format.repository_id
        || cursor.destination_repository != destination.format.repository_id || cursor.job@
        == nil_bytes() || cursor.mappings.format_digest != destination.format.state_tree_digest {
        Err(
            fault(
                ErrorCode::InvalidContinuationToken,
                "history-transfer cursor belongs to another repository pair",
            ),
        )
    } else if cursor.pending is Some && !pending_trees_fit(destination, cursor.pending->0) {
        Err(fault(ErrorCode::CorruptNode, "repository state root uses another tree format"))
    } else {
        Ok(())
    }
}

impl Repository {
    /// Refuses a cursor that is not for this pair of repositories, or that is damaged.
    pub fn validate_history_transfer_cursor(&self, source: &Repository, cursor: &HistoryTransferCursor) -> (r:
        Result<(), Error>)
        ensures
            outcome(r) == transfer_cursor_outcome(*self, *source, *cursor),
    {
        if let Err(error) = validate_branch(&cursor.source_branch) {
            return Err(error);
        }
        if let Err(error) = validate_branch(&cursor.destination_branch) {
            return Err(error);
        }
        if let Err(error) = source.validate_commit_closure_cursor(&cursor.closure) {
            return Err(error);
        }
        if cursor.source_repository != source.format.repository_id || cursor.destination_repository
            != self.format.repository_id || cursor.job.is_nil() || cursor.mappings.format_digest
            != self.format.state_tree_digest {
            return Err(
                Error::new(
                    ErrorCode::InvalidContinuationToken,
                    "history-transfer cursor belongs to another repository pair",
                ),
            );
        }
        if let Some(pending) = &cursor.pending {
            if let Err(error) = self.tree_from_root(&pending.objects) {
                return Err(error);
            }
            if let Err(error) = self.tree_from_root(&pending.versions) {
                return Err(error);
            }
            if let Err(error) = self.tree_from_root(&pending.delta) {
                return Err(error);
            }
            if let Some(union_base) = &pending.union_base {
                if let Err(error) = self.tree_from_root(union_base) {
                    return Err(error);
                }
            }
        }
        Ok(())
    }

    /// The cursor of a transfer that has walked nothing yet.
    pub fn start_history_transfer_from(
        &self,
        source: &Repository,
        source_branch: &str,
        source_head: CommitId,
        destination_branch: &str,
        expected_destination_head: CommitId,
        job: OperationId,
        closure: CommitClosureCursor,
        mappings: RootManifest,
    ) -> (r: Result<HistoryTransferCursor, Error>)
        ensures
            match r {
                Ok(cursor) => {
                    &&& transfer_cursor_outcome(*self, *source, cursor) is Ok
                    &&& cursor.source_repository == source.format.repository_id
                    &&& cursor.destination_repository == self.format.repository_id
                    &&& cursor.job == job
                    &&& cursor.source_branch@ == source_branch@
                    &&& cursor.destination_branch@ == destination_branch@
                    &&& cursor.source_head == source_head
                    &&& cursor.expected_destination_head == expected_destination_head
                    &&& cursor.closure == closure
                    &&& cursor.mappings == mappings
                    &&& cursor.pending is None
                    &&& cursor.mapped_head is None
                    &&& cursor.report == nothing_transferred()
                    &&& !cursor.complete
                },
                Err(error) => error@ == if !valid_branch(source_branch@) || !valid_branch(
                    destination_branch@,
                ) {
                    fault(
                        ErrorCode::InvalidBranch,
                        "branch name violates the canonical ref contract",
                    )
                } else if !closure_cursor_sound(*source, closure) {
                    foreign_closure()
                } else {
                    fault(
                        ErrorCode::InvalidContinuationToken,
                        "history-transfer cursor belongs to another repository pair",
                    )
                },
            },
            r is Ok <==> valid_branch(source_branch@) && valid_branch(destination_branch@)
                && closure_cursor_sound(*source, closure) && job@ != nil_bytes()
                && mappings.format_digest == self.format.state_tree_digest,
    {
        let cursor = HistoryTransferCursor {
            source_repository: source.format.repository_id,
            destination_repository: self.format.repository_id,
            job,
            source_branch: source_branch.to_owned(),
            destination_branch: destination_branch.to_owned(),
            source_head,
            expected_destination_head,
            closure,
            mappings,
            pending: None,
            mapped_head: None,
            report: HistoryTransferReport {
                imported_commits: 0,
                rebound_versions: 0,
                copied_payloads: 0,
                copied_payload_bytes: 0,
            },
            complete: false,
        };
        match self.validate_history_transfer_cursor(source, &cursor) {
            Err(error) => Err(error),
            Ok(()) => Ok(cursor),
        }
    }

    /// Says what a transfer does next, and refuses what no page can be made of.
    pub fn advance_history_transfer_from(
        &self,
        source: &Repository,
        cursor: &HistoryTransferCursor,
        max_steps: usize,
    ) -> (r: Result<TransferWork, Error>)
        ensures
            outcome(r) == if !(1 <= max_steps <= 1_000) {
                Err(
                    fault(
                        ErrorCode::InvalidLimit,
                        "history-transfer page size must be between 1 and 1,000",
                    ),
                )
            } else {
                match transfer_cursor_outcome(*self, *source, *cursor) {
                    Err(error) => Err(error),
                    Ok(_) => Ok(
                        if cursor.complete {
                            TransferWork::Idle
                        } else {
                            match cursor.pending {
                                None => TransferWork::Discover,
                                Some(pending) => match pending.phase {
                                    HistoryTransferPhase::UnionParentVersions =>
                                        TransferWork::UnionParentVersions,
                                    HistoryTransferPhase::ApplyTransitions =>
                                        TransferWork::ApplyTransitions,
                                    HistoryTransferPhase::FinalizeCommit =>
                                        TransferWork::FinalizeCommit,
                                },
                            }
                        },
                    ),
                }
            },
    {
        if max_steps < 1 || max_steps > 1_000 {
            return Err(
                Error::new(
                    ErrorCode::InvalidLimit,
                    "history-transfer page size must be between 1 and 1,000",
                ),
            );
        }
        if let Err(error) = self.validate_history_transfer_cursor(source, cursor) {
            return Err(error);
        }
        if cursor.complete {
            return Ok(TransferWork::Idle);
        }
        Ok(
            match &cursor.pending {
                None => TransferWork::Discover,
                Some(pending) => match pending.phase {
                    HistoryTransferPhase::UnionParentVersions => TransferWork::UnionParentVersions,
                    HistoryTransferPhase::ApplyTransitions => TransferWork::ApplyTransitions,
                    HistoryTransferPhase::FinalizeCommit => TransferWork::FinalizeCommit,
                },
            },
        )
    }

    /// The commit that stands for a source commit, as far as one does.
    pub fn history_transfer_mapping(
        &self,
        cursor: &HistoryTransferCursor,
        source: CommitId,
        encoded: Option<&Vec<u8>>,
    ) -> (r: Result<Option<HistoryTransferMapping>, Error>)
        ensures
            match r {
                Ok(None) => encoded is None,
                Ok(Some(mapping)) => encoded matches Some(bytes) && mapping.source == source
                    && mapping.destination@ == bytes@,
                Err(error) => error@ == if cursor.destination_repository
                    != self.format.repository_id || cursor.job@ == nil_bytes() {
                    fault(
                        ErrorCode::InvalidContinuationToken,
                        "history-transfer cursor belongs to another destination",
                    )
                } else {
                    wrong_length()
                },
            },
            r is Ok <==> cursor.destination_repository == self.format.repository_id && cursor.job@
                != nil_bytes() && (encoded matches Some(bytes) ==> bytes@.len() == 32),
    {
        if cursor.destination_repository != self.format.repository_id || cursor.job.is_nil() {
            return Err(
                Error::new(
                    ErrorCode::InvalidContinuationToken,
                    "history-transfer cursor belongs to another destination",
                ),
            );
        }
        match encoded {
            None => Ok(None),
            Some(bytes) => match mapped_commit(bytes) {
                Err(error) => Err(error),
                Ok(destination) => Ok(Some(HistoryTransferMapping { source, destination })),
            },
        }
    }
}

/// A report of nothing transferred.
pub open spec fn nothing_transferred() -> HistoryTransferReport {
    HistoryTransferReport {
        imported_commits: 0,
        rebound_versions: 0,
        copied_payloads: 0,
        copied_payload_bytes: 0,
    }
}

/// Refuses to begin a transfer to a branch that is not where the caller believes it to be.
pub fn check_transfer_start(head: CommitId, expected: CommitId) -> (r: Result<(), Error>)
    ensures
        outcome(r) == if head == expected {
            Ok::<(), Fault>(())
        } else {
            Err(
                fault(
                    ErrorCode::PreconditionFailed,
                    "destination head does not match history-transfer expectation",
                ),
            )
        },
{
    if head != expected {
        return Err(
            Error::new(
                ErrorCode::PreconditionFailed,
                "destination head does not match history-transfer expectation",
            ),
        );
    }
    Ok(())
}

/// Refuses to go on with a transfer whose destination branch has moved.
pub fn check_transfer_head(cursor: &HistoryTransferCursor, head: CommitId) -> (r: Result<(), Error>)
    ensures
        outcome(r) == if head == cursor.expected_destination_head {
            Ok::<(), Fault>(())
        } else {
            Err(
                fault(
                    ErrorCode::PreconditionFailed,
                    "destination branch moved during history transfer",
                ),
            )
        },
{
    if head != cursor.expected_destination_head {
        return Err(
            Error::new(
                ErrorCode::PreconditionFailed,
                "destination branch moved during history transfer",
            ),
        );
    }
    Ok(())
}

/// The error of a mapping that does not hold the name of a commit.
pub open spec fn wrong_length() -> Fault {
    fault(ErrorCode::CorruptCommit, "mapped commit ID has wrong length")
}

/// The commit that a mapping names.
pub fn mapped_commit(encoded: &Vec<u8>) -> (r: Result<CommitId, Error>)
    ensures
        match r {
            Ok(id) => encoded@.len() == 32 && id@ == encoded@,
            Err(error) => encoded@.len() != 32 && error@ == wrong_length(),
        },
{
    if encoded.len() != 32 {
        return Err(Error::new(ErrorCode::CorruptCommit, "mapped commit ID has wrong length"));
    }
    Ok(CommitId::from_hash(array_of_32(encoded)))
}

/// What is wrong with a parent's mapping.
pub open spec fn parent_fault(encoded: Option<Vec<u8>>) -> Option<Fault> {
    match encoded {
        None => Some(
            fault(ErrorCode::MissingClosure, "parent commit was not mapped before its child"),
        ),
        Some(bytes) => if bytes@.len() != 32 {
            Some(wrong_length())
        } else {
            None
        },
    }
}

/// The commits that stand for the parents of a commit, in their order.
pub fn mapped_parents(encoded: &Vec<Option<Vec<u8>>>) -> (r: Result<Vec<CommitId>, Error>)
    ensures
        match r {
            Ok(parents) => {
                &&& parents@.len() == encoded@.len()
                &&& forall|i: int|
                    0 <= i < encoded@.len() ==> parent_fault(#[trigger] encoded@[i]) is None
                        && parents@[i]@ == encoded@[i]->0@
            },
            Err(error) => exists|i: int|
                0 <= i < encoded@.len() && parent_fault(#[trigger] encoded@[i]) == Some(error@) && (
                forall|j: int| 0 <= j < i ==> parent_fault(#[trigger] encoded@[j]) is None),
        },
{
    let mut parents: Vec<CommitId> = Vec::new();
    let mut i: usize = 0;
    while i < encoded.len()
        invariant
            i <= encoded@.len(),
            parents@.len() == i,
            forall|j: int|
                0 <= j < i ==> parent_fault(#[trigger] encoded@[j]) is None && parents@[j]@
                    == encoded@[j]->0@,
        decreases encoded.len() - i,
    {
        match &encoded[i] {
            None => {
                assert(parent_fault(encoded@[i as int]) is Some);
                return Err(
                    Error::new(
                        ErrorCode::MissingClosure,
                        "parent commit was not mapped before its child",
                    ),
                );
            },
            Some(bytes) => match mapped_commit(bytes) {
                Err(error) => {
                    assert(parent_fault(encoded@[i as int]) is Some);
                    return Err(error);
                },
                Ok(id) => {
                    parents.push(id);
                },
            },
        }
        i += 1;
    }
    Ok(parents)
}

/// Takes a page of the walk that met no commit into the cursor. The transfer is over when the walk is.
pub fn transfer_walk_went_on(
    cursor: &mut HistoryTransferCursor,
    closure: CommitClosureCursor,
    walk_complete: bool,
) -> (r: Result<(), Error>)
    ensures
        if walk_complete && old(cursor).mapped_head is None {
            outcome(r) == Err::<(), Fault>(
                fault(
                    ErrorCode::MissingClosure,
                    "history transfer completed without mapping its source head",
                ),
            ) && *final(cursor) == *old(cursor)
        } else {
            r is Ok && *final(cursor) == (HistoryTransferCursor {
                closure,
                complete: old(cursor).complete || walk_complete,
                ..*old(cursor)
            })
        },
{
    if walk_complete {
        if cursor.mapped_head.is_none() {
            return Err(
                Error::new(
                    ErrorCode::MissingClosure,
                    "history transfer completed without mapping its source head",
                ),
            );
        }
        cursor.complete = true;
    }
    cursor.closure = closure;
    Ok(())
}

/// Takes the half-built commit out of the cursor.
pub fn take_pending(cursor: &mut HistoryTransferCursor) -> (r: Result<
    PendingHistoryTransferCommit,
    Error,
>)
    ensures
        outcome(r) == match old(cursor).pending {
            Some(pending) => Ok(pending),
            None => Err(fault(ErrorCode::InternalInvariant, "transfer pending commit is absent")),
        },
        *final(cursor) == (HistoryTransferCursor { pending: None, ..*old(cursor) }),
{
    match cursor.pending.take() {
        Some(pending) => Ok(pending),
        None => Err(Error::new(ErrorCode::InternalInvariant, "transfer pending commit is absent")),
    }
}

/// The trees that a commit is rebuilt from: those of its first mapped parent, or empty ones.
pub fn transfer_start(first_parent: Option<BucketState>, empty_tree: RootManifest) -> (r: BucketState)
    ensures
        r == match first_parent {
            Some(state) => state,
            None => BucketState { objects: empty_tree, versions: empty_tree },
        },
{
    match first_parent {
        Some(state) => state,
        None => BucketState { objects: empty_tree, versions: empty_tree },
    }
}

/// Begins to rebuild a commit, from the trees of its first mapped parent or from empty ones. With more
/// than one parent, the versions of the others are added first.
pub fn begin_transfer_commit(
    source: CommitId,
    next_closure: CommitClosureCursor,
    mapped_parents: Vec<CommitId>,
    start: BucketState,
    empty_delta: RootManifest,
) -> (r: PendingHistoryTransferCommit)
    ensures
        r == (PendingHistoryTransferCommit {
            source,
            next_closure,
            mapped_parents,
            objects: start.objects,
            versions: start.versions,
            delta: empty_delta,
            phase: if mapped_parents@.len() > 1 {
                HistoryTransferPhase::UnionParentVersions
            } else {
                HistoryTransferPhase::ApplyTransitions
            },
            union_parent_index: 1,
            union_base: None,
            union_diff: None,
            inline_index: 0,
            external_after: None,
            transitions_applied: 0,
        }),
{
    let phase = if mapped_parents.len() > 1 {
        HistoryTransferPhase::UnionParentVersions
    } else {
        HistoryTransferPhase::ApplyTransitions
    };
    PendingHistoryTransferCommit {
        source,
        next_closure,
        mapped_parents,
        objects: start.objects,
        versions: start.versions,
        delta: empty_delta,
        phase,
        union_parent_index: 1,
        union_base: None,
        union_diff: None,
        inline_index: 0,
        external_after: None,
        transitions_applied: 0,
    }
}

/// The parent whose versions are added next, and the tree that it is compared with. None: there is no
/// further parent, and the transitions come next.
pub fn next_union_parent(pending: &mut PendingHistoryTransferCommit) -> (r: Option<
    (CommitId, RootManifest),
>)
    ensures
        ({
            let before = *old(pending);
            let base = match before.union_base {
                Some(root) => root,
                None => before.versions,
            };
            if before.union_parent_index >= before.mapped_parents@.len() {
                r is None && *final(pending) == (PendingHistoryTransferCommit {
                    phase: HistoryTransferPhase::ApplyTransitions,
                    ..before
                })
            } else {
                r == Some((before.mapped_parents@[before.union_parent_index as int], base))
                    && *final(pending) == (PendingHistoryTransferCommit {
                    union_base: Some(base),
                    ..before
                })
            }
        }),
{
    if pending.union_parent_index >= pending.mapped_parents.len() {
        pending.phase = HistoryTransferPhase::ApplyTransitions;
        return None;
    }
    let base = match pending.union_base {
        Some(root) => root,
        None => pending.versions,
    };
    pending.union_base = Some(base);
    Some((pending.mapped_parents[pending.union_parent_index], base))
}

/// What must be added to the versions of a commit so that it has those of a further parent.
pub fn advance_history_transfer_union(diffs: Vec<Diff>) -> (r: Result<Vec<Mutation<Vec<u8>>>, Error>)
    ensures
        match r {
            Ok(mutations) => {
                &&& forall|i: int| 0 <= i < diffs@.len() ==> !(#[trigger] diffs@[i] is Changed)
                &&& edits(mutations@) == union_edits(diffs@)
            },
            Err(error) => {
                &&& exists|i: int| 0 <= i < diffs@.len() && #[trigger] diffs@[i] is Changed
                &&& error@ == fault(
                    ErrorCode::CorruptCommit,
                    "mapped parent version trees disagree on an immutable version key",
                )
            },
        },
{
    version_union(diffs, "mapped parent version trees disagree on an immutable version key")
}

/// Takes a page of added versions into the half-built commit.
pub fn finish_transfer_union_page(
    pending: &mut PendingHistoryTransferCommit,
    versions: RootManifest,
    next: Option<DiffCursor>,
)
    requires
        old(pending).union_parent_index < old(pending).mapped_parents@.len(),
    ensures
        ({
            let paged = PendingHistoryTransferCommit {
                versions,
                union_diff: next,
                ..*old(pending)
            };
            let further = old(pending).union_parent_index + 1;
            *final(pending) == if next is Some {
                paged
            } else {
                PendingHistoryTransferCommit {
                    union_parent_index: further as usize,
                    union_base: None,
                    phase: if further >= paged.mapped_parents@.len() {
                        HistoryTransferPhase::ApplyTransitions
                    } else {
                        paged.phase
                    },
                    ..paged
                }
            }
        }),
{
    let parents: usize = pending.mapped_parents.len();
    pending.versions = versions;
    let done = next.is_none();
    pending.union_diff = next;
    if done {
        pending.union_parent_index = pending.union_parent_index + 1;
        pending.union_base = None;
        if pending.union_parent_index >= parents {
            pending.phase = HistoryTransferPhase::ApplyTransitions;
        }
    }
}

/// The next transitions that a commit lists itself, and whether they are the last.
pub fn inline_transitions(
    pending: &mut PendingHistoryTransferCommit,
    delta: &BucketDelta,
    max_steps: usize,
) -> (r: (Vec<ObjectTransition>, bool))
    requires
        old(pending).inline_index <= delta.changes@.len(),
    ensures
        ({
            let start = old(pending).inline_index as int;
            let end = if start + max_steps < delta.changes@.len() {
                start + max_steps
            } else {
                delta.changes@.len() as int
            };
            &&& r.0@.map_values(|t: ObjectTransition| t@) == delta.changes@.subrange(
                start,
                end,
            ).map_values(|t: ObjectTransition| t@)
            &&& r.1 == (end == delta.changes@.len())
            &&& *final(pending) == (PendingHistoryTransferCommit {
                inline_index: end as usize,
                ..*old(pending)
            })
        }),
{
    let start: usize = pending.inline_index;
    let left: usize = delta.changes.len() - start;
    let end: usize = if max_steps < left {
        start + max_steps
    } else {
        delta.changes.len()
    };
    let mut transitions: Vec<ObjectTransition> = Vec::new();
    let ghost wanted = delta.changes@.subrange(start as int, end as int).map_values(
        |t: ObjectTransition| t@,
    );
    let mut i: usize = start;
    while i < end
        invariant
            start <= i <= end <= delta.changes@.len(),
            wanted == delta.changes@.subrange(start as int, end as int).map_values(
                |t: ObjectTransition| t@,
            ),
            transitions@.len() == i - start,
            forall|j: int| 0 <= j < i - start ==> (#[trigger] transitions@[j])@ == wanted[j],
        decreases end - i,
    {
        let change = &delta.changes[i];
        transitions.push(
            ObjectTransition {
                key: to_vec(&change.key),
                previous: change.previous,
                next: change.next,
                delete_marker: change.delete_marker,
            },
        );
        i += 1;
    }
    assert(transitions@.map_values(|t: ObjectTransition| t@) =~= wanted);
    pending.inline_index = end;
    (transitions, end == delta.changes.len())
}

/// Refuses a transition that lies under another key than it names.
pub fn check_external_transition(key: &[u8], transition: &ObjectTransition) -> (r: Result<(), Error>)
    ensures
        outcome(r) == if transition.key@ == key@ {
            Ok::<(), Fault>(())
        } else {
            Err(misplaced_transition())
        },
{
    if !bytes_eq(&transition.key, key) {
        return Err(
            Error::new(
                ErrorCode::CorruptCommit,
                "external transfer delta key disagrees with its transition",
            ),
        );
    }
    Ok(())
}

/// The error of a transition that lies under another key than it names.
pub open spec fn misplaced_transition() -> Fault {
    fault(
        ErrorCode::CorruptCommit,
        "external transfer delta key disagrees with its transition",
    )
}

/// Whether every transition lies under the key that it names.
pub open spec fn well_placed(entries: Seq<(Vec<u8>, ObjectTransition)>) -> bool {
    forall|i: int| 0 <= i < entries.len() ==> (#[trigger] entries[i]).0@ == entries[i].1.key@
}

/// The next transitions that a commit lists in a tree, and whether they are the last: a page that could have
/// held more is. One that lies under another key than it names is refused.
pub fn external_transitions(
    pending: &mut PendingHistoryTransferCommit,
    entries: Vec<(Vec<u8>, ObjectTransition)>,
    max_steps: usize,
) -> (r: Result<(Vec<ObjectTransition>, bool), Error>)
    ensures
        match r {
            Err(error) => !well_placed(entries@) && error@ == misplaced_transition()
                && *final(pending) == *old(pending),
            Ok((transitions, complete)) => {
                &&& well_placed(entries@)
                &&& transitions@ == entries@.map_values(|e: (Vec<u8>, ObjectTransition)| e.1)
                &&& complete == (entries@.len() < max_steps)
                &&& *final(pending) == (PendingHistoryTransferCommit {
                    external_after: if entries@.len() > 0 {
                        Some(entries@.last().0)
                    } else {
                        old(pending).external_after
                    },
                    ..*old(pending)
                })
            },
        },
{
    let complete = entries.len() < max_steps;
    let ghost all = entries@;
    let mut after: Option<Vec<u8>> = None;
    let mut transitions: Vec<ObjectTransition> = Vec::new();
    for entry in it: entries
        invariant
            it.seq() == all,
            *pending == *old(pending),
            transitions@.len() == it.index(),
            forall|i: int| 0 <= i < it.index() ==> #[trigger] transitions@[i] == all[i].1,
            forall|i: int|
                0 <= i < it.index() ==> (#[trigger] all[i]).0@ == all[i].1.key@,
            after == if it.index() > 0 {
                Some(all[it.index() - 1].0)
            } else {
                None
            },
    {
        assert(all[it.index()] == entry);
        let (key, transition) = entry;
        if let Err(error) = check_external_transition(&key, &transition) {
            return Err(error);
        }
        after = Some(key);
        transitions.push(transition);
    }
    assert(transitions@ =~= all.map_values(|e: (Vec<u8>, ObjectTransition)| e.1));
    if let Some(key) = after {
        pending.external_after = Some(key);
    }
    Ok((transitions, complete))
}

/// Ends a page of transitions. After the last one the commit must have taken as many as its source has.
pub fn finish_transition_page(
    pending: &mut PendingHistoryTransferCommit,
    delta: &BucketDelta,
    complete: bool,
) -> (r: Result<(), Error>)
    ensures
        if complete && old(pending).transitions_applied != delta.logical_changes() {
            outcome(r) == Err::<(), Fault>(
                fault(
                    ErrorCode::CorruptCommit,
                    "history transfer did not consume the source commit delta exactly",
                ),
            ) && *final(pending) == *old(pending)
        } else {
            r is Ok && *final(pending) == (PendingHistoryTransferCommit {
                phase: if complete {
                    HistoryTransferPhase::FinalizeCommit
                } else {
                    old(pending).phase
                },
                ..*old(pending)
            })
        },
{
    if complete {
        if pending.transitions_applied != delta.logical_change_count() {
            return Err(
                Error::new(
                    ErrorCode::CorruptCommit,
                    "history transfer did not consume the source commit delta exactly",
                ),
            );
        }
        pending.phase = HistoryTransferPhase::FinalizeCommit;
    }
    Ok(())
}

/// The key under which the source keeps the version of a deletion: the place of the transition in its
/// commit is part of it.
pub fn source_delete_key(
    pending: &PendingHistoryTransferCommit,
    generation: CommitGeneration,
    transition: &ObjectTransition,
) -> (r: Result<Vec<u8>, Error>)
    ensures
        match r {
            Ok(key) => pending.transitions_applied <= u32::MAX && key@ == version_key(
                transition.key@,
                (ObjectVersionOrder {
                    commit_generation: generation,
                    mutation_ordinal: pending.transitions_applied as u32,
                }),
                transition.next,
            ),
            Err(error) => pending.transitions_applied > u32::MAX && error@ == ordinal_too_large(),
        },
{
    let ordinal: u32 = match transition_ordinal(pending) {
        Err(error) => {
            return Err(error);
        },
        Ok(ordinal) => ordinal,
    };
    Ok(
        version_tree_key(
            &transition.key,
            ObjectVersionOrder { commit_generation: generation, mutation_ordinal: ordinal },
            transition.next,
        ),
    )
}

/// The error of a commit with more transitions than can be numbered.
pub open spec fn ordinal_too_large() -> Fault {
    fault(ErrorCode::InvalidLimit, "history-transfer mutation ordinal exceeds u32")
}

/// The number of the next transition in its commit.
pub fn transition_ordinal(pending: &PendingHistoryTransferCommit) -> (r: Result<u32, Error>)
    ensures
        outcome(r) == if pending.transitions_applied <= u32::MAX {
            Ok(pending.transitions_applied as u32)
        } else {
            Err(ordinal_too_large())
        },
{
    if pending.transitions_applied > 4_294_967_295 {
        return Err(
            Error::new(
                ErrorCode::InvalidLimit,
                "history-transfer mutation ordinal exceeds u32",
            ),
        );
    }
    Ok(pending.transitions_applied as u32)
}

/// The version that a transition leads to, as the source holds it.
pub fn source_version(transition: &ObjectTransition, found: Option<ObjectVersion>) -> (r: Result<
    ObjectVersion,
    Error,
>)
    ensures
        outcome(r) == match found {
            None => Err(
                fault(
                    ErrorCode::MissingClosure,
                    if transition.delete_marker {
                        "source delete version is missing from its commit"
                    } else {
                        "source live version is missing from its commit"
                    },
                ),
            ),
            Some(version) => if version.id == transition.next {
                Ok(version)
            } else {
                Err(
                    fault(
                        ErrorCode::CorruptCommit,
                        "source transition and object version disagree",
                    ),
                )
            },
        },
{
    match found {
        None => {
            if transition.delete_marker {
                Err(
                    Error::new(
                        ErrorCode::MissingClosure,
                        "source delete version is missing from its commit",
                    ),
                )
            } else {
                Err(
                    Error::new(
                        ErrorCode::MissingClosure,
                        "source live version is missing from its commit",
                    ),
                )
            }
        },
        Some(version) => {
            if version.id != transition.next {
                return Err(
                    Error::new(
                        ErrorCode::CorruptCommit,
                        "source transition and object version disagree",
                    ),
                );
            }
            Ok(version)
        },
    }
}

/// The payload that must be copied for a version: none for a deletion.
pub fn payload_to_copy(version: &ObjectVersion) -> (r: Result<Option<PayloadBinding>, Error>)
    ensures
        outcome(r) == match version.body.kind {
            LogicalObjectVersionKind::DeleteMarker => Ok(None),
            LogicalObjectVersionKind::Live { .. } => match version.binding {
                Some(binding) => Ok(Some(binding)),
                None => Err(
                    fault(ErrorCode::CorruptCommit, "source live version has no payload binding"),
                ),
            },
        },
{
    match &version.body.kind {
        LogicalObjectVersionKind::DeleteMarker => Ok(None),
        LogicalObjectVersionKind::Live { .. } => match &version.binding {
            Some(binding) => Ok(Some(binding.copied())),
            None => Err(
                Error::new(ErrorCode::CorruptCommit, "source live version has no payload binding"),
            ),
        },
    }
}

/// The report after one more payload of `size` bytes.
pub open spec fn counted_payload(report: HistoryTransferReport, size: u64) -> Result<
    HistoryTransferReport,
    Fault,
> {
    match added(report.copied_payloads, 1, "fsck ", "history-transfer-payload") {
        Err(error) => Err(error),
        Ok(copied_payloads) => match added(
            report.copied_payload_bytes,
            size,
            "fsck ",
            "history-transfer-payload-byte",
        ) {
            Err(error) => Err(error),
            Ok(copied_payload_bytes) => Ok(
                HistoryTransferReport { copied_payloads, copied_payload_bytes, ..report },
            ),
        },
    }
}

/// Counts the payload of a live version, once its bytes are read.
pub fn count_payload(report: &mut HistoryTransferReport, size: u64, bytes: usize) -> (r: Result<(), Error>)
    ensures
        if bytes != size {
            outcome(r) == Err::<(), Fault>(
                fault(
                    ErrorCode::ChecksumMismatch,
                    "source payload length disagrees with its logical version",
                ),
            ) && *final(report) == *old(report)
        } else {
            match counted_payload(*old(report), size) {
                Err(error) => outcome(r) == Err::<(), Fault>(error) && *final(report) == *old(
                    report,
                ),
                Ok(counted) => r is Ok && *final(report) == counted,
            }
        },
{
    if bytes as u64 != size {
        return Err(
            Error::new(
                ErrorCode::ChecksumMismatch,
                "source payload length disagrees with its logical version",
            ),
        );
    }
    let payloads: u64 = match checked_fsck_add(
        report.copied_payloads,
        1,
        "history-transfer-payload",
    ) {
        Err(error) => {
            return Err(error);
        },
        Ok(sum) => sum,
    };
    let payload_bytes: u64 = match checked_fsck_add(
        report.copied_payload_bytes,
        size,
        "history-transfer-payload-byte",
    ) {
        Err(error) => {
            return Err(error);
        },
        Ok(sum) => sum,
    };
    report.copied_payloads = payloads;
    report.copied_payload_bytes = payload_bytes;
    Ok(())
}

/// The operation under which a version is renamed: the first half of a digest.
pub fn history_transfer_version_operation(digest: &[u8; 32]) -> (r: OperationId)
    ensures
        r@ == digest@.take(16),
{
    let mut half: Vec<u8> = Vec::new();
    let mut i: usize = 0;
    while i < 16
        invariant
            i <= 16,
            digest@.len() == 32,
            half@ == digest@.take(i as int),
        decreases 16 - i,
    {
        half.push(digest[i]);
        i += 1;
        assert(digest@.take(i as int).drop_last() =~= digest@.take(i - 1));
        assert(half@ =~= digest@.take(i as int));
    }
    OperationId::from_bytes(array_of_16(&half))
}

/// The version that stands for a source version, before it has a name: it says the same and is bound to
/// the copied bytes.
pub fn rebound_draft(source: &ObjectVersion, binding: Option<PayloadBinding>) -> (r: VersionDraft)
    ensures
        r == (VersionDraft { body: source.body, binding }),
{
    VersionDraft {
        body: LogicalObjectVersionBody {
            order: source.body.order,
            created_at_millis: source.body.created_at_millis,
            kind: source.body.kind.copied(),
        },
        binding,
    }
}

/// Takes a newly mapped version into the cursor.
pub fn mapped_new_version(cursor: &mut HistoryTransferCursor, mappings: RootManifest) -> (r: Result<
    (),
    Error,
>)
    ensures
        match added(old(cursor).report.rebound_versions, 1, "fsck ", "history-transfer-version") {
            Err(error) => outcome(r) == Err::<(), Fault>(error) && *final(cursor) == *old(cursor),
            Ok(rebound_versions) => r is Ok && *final(cursor) == (HistoryTransferCursor {
                mappings,
                report: HistoryTransferReport { rebound_versions, ..old(cursor).report },
                ..*old(cursor)
            }),
        },
{
    match checked_fsck_add(cursor.report.rebound_versions, 1, "history-transfer-version") {
        Err(error) => Err(error),
        Ok(sum) => {
            cursor.mappings = mappings;
            cursor.report.rebound_versions = sum;
            Ok(())
        },
    }
}

/// What one transition changes in the trees of the rebuilt commit.
#[derive(Debug)]
pub struct ImportedTransition {
    pub object: Mutation<ObjectVersion>,
    pub version: Mutation<ObjectVersion>,
    pub delta: ObjectTransition,
}

/// The change that a transition makes to the objects of the rebuilt commit.
pub open spec fn imported_object(key: Seq<u8>, delete_marker: bool, mapped: ObjectVersion) -> Edit<
    ObjectVersion,
> {
    if delete_marker {
        Edit::Delete { key }
    } else {
        Edit::Upsert { key, val: mapped }
    }
}

/// What a transition of the source changes in the trees of the rebuilt commit, given the version that
/// stands for its own and the one that the key held.
pub fn import_history_transition(
    transition: &ObjectTransition,
    mapped: &ObjectVersion,
    previous: Option<ObjectVersionId>,
) -> (r: ImportedTransition)
    ensures
        edits(seq![r.object]) == seq![
            imported_object(transition.key@, transition.delete_marker, *mapped),
        ],
        edits(seq![r.version]) == seq![version_edit(transition.key@, *mapped)],
        r.delta@ == (TransitionView {
            key: transition.key@,
            previous,
            next: mapped.id,
            delete_marker: transition.delete_marker,
        }),
{
    let object = if transition.delete_marker {
        Mutation::Delete { key: to_vec(&transition.key) }
    } else {
        Mutation::Upsert { key: to_vec(&transition.key), val: mapped.copied() }
    };
    let version = Mutation::Upsert {
        key: version_tree_key(&transition.key, mapped.body.order, mapped.id),
        val: mapped.copied(),
    };
    let delta = ObjectTransition {
        key: to_vec(&transition.key),
        previous,
        next: mapped.id,
        delete_marker: transition.delete_marker,
    };
    assert(edits(seq![object]) =~= seq![
        imported_object(transition.key@, transition.delete_marker, *mapped),
    ]);
    assert(edits(seq![version]) =~= seq![version_edit(transition.key@, *mapped)]);
    ImportedTransition { object, version, delta }
}

/// Takes the trees after one transition into the half-built commit.
pub fn finish_import(
    pending: &mut PendingHistoryTransferCommit,
    objects: RootManifest,
    versions: RootManifest,
    delta: RootManifest,
) -> (r: Result<(), Error>)
    ensures
        if old(pending).transitions_applied == u64::MAX {
            outcome(r) == Err::<(), Fault>(
                fault(
                    ErrorCode::EntityTooLarge,
                    "history-transfer transition counter overflow",
                ),
            ) && *final(pending) == *old(pending)
        } else {
            r is Ok && *final(pending) == (PendingHistoryTransferCommit {
                objects,
                versions,
                delta,
                transitions_applied: (old(pending).transitions_applied + 1) as u64,
                ..*old(pending)
            })
        },
{
    match pending.transitions_applied.checked_add(1) {
        None => Err(
            Error::new(
                ErrorCode::EntityTooLarge,
                "history-transfer transition counter overflow",
            ),
        ),
        Some(count) => {
            pending.objects = objects;
            pending.versions = versions;
            pending.delta = delta;
            pending.transitions_applied = count;
            Ok(())
        },
    }
}

/// The highest of some generations.
pub open spec fn newest(generations: Seq<u64>) -> u64
    decreases generations.len(),
{
    if generations.len() == 0 {
        0
    } else if newest(generations.drop_last()) > generations.last() {
        newest(generations.drop_last())
    } else {
        generations.last()
    }
}

/// Refuses a source commit whose generation is not one above its newest parent's, or zero without
/// parents.
pub fn check_transfer_generation(parents: &Vec<u64>, generation: CommitGeneration) -> (r: Result<
    (),
    Error,
>)
    ensures
        outcome(r) == if parents@.len() > 0 && newest(parents@) == u64::MAX {
            Err(fault(ErrorCode::InternalInvariant, "transfer generation overflow"))
        } else if generation.0 != (if parents@.len() == 0 {
            0
        } else {
            newest(parents@) + 1
        }) {
            Err(
                fault(
                    ErrorCode::CorruptCommit,
                    "source commit generation does not match its mapped parents",
                ),
            )
        } else {
            Ok::<(), Fault>(())
        },
{
    let mut expected: u64 = 0;
    if parents.len() > 0 {
        let mut highest: u64 = 0;
        let mut i: usize = 0;
        assert(parents@.take(0) =~= Seq::<u64>::empty());
        while i < parents.len()
            invariant
                i <= parents@.len(),
                highest == newest(parents@.take(i as int)),
            decreases parents.len() - i,
        {
            if parents[i] >= highest {
                highest = parents[i];
            }
            i += 1;
            assert(parents@.take(i as int).drop_last() =~= parents@.take(i - 1));
        }
        assert(parents@.take(parents@.len() as int) =~= parents@);
        expected = match highest.checked_add(1) {
            None => {
                return Err(
                    Error::new(ErrorCode::InternalInvariant, "transfer generation overflow"),
                );
            },
            Some(next) => next,
        };
    }
    if generation.0 != expected {
        return Err(
            Error::new(
                ErrorCode::CorruptCommit,
                "source commit generation does not match its mapped parents",
            ),
        );
    }
    Ok(())
}

/// Whether an entry records where a transferred commit came from.
pub open spec fn names_origin(entry: MetadataEntry) -> bool {
    entry.name@ == "prolly.transfer.source_repository"@ || entry.name@
        == "prolly.transfer.source_commit"@
}

/// Whether a transferred commit's metadata are those of its source, with its origin noted.
pub open spec fn metadata_with_origin(
    before: Seq<MetadataEntry>,
    after: Seq<MetadataEntry>,
    repository: RepositoryId,
    commit: CommitId,
) -> bool {
    &&& sorted(after)
    &&& forall|entry: MetadataEntry|
        !names_origin(entry) ==> (#[trigger] after.contains(entry) <==> before.contains(entry))
    &&& forall|entry: MetadataEntry|
        names_origin(entry) && #[trigger] after.contains(entry) ==> entry.value@ == if entry.name@
            == "prolly.transfer.source_commit"@ {
            commit@
        } else {
            repository@
        }
    &&& exists|entry: MetadataEntry|
        #![trigger after.contains(entry)]
        after.contains(entry) && entry.name@ == "prolly.transfer.source_repository"@
    &&& exists|entry: MetadataEntry|
        #![trigger after.contains(entry)]
        after.contains(entry) && entry.name@ == "prolly.transfer.source_commit"@
}

proof fn lemma_origin_names_differ()
    ensures
        encode_utf8("prolly.transfer.source_repository"@) != encode_utf8(
            "prolly.transfer.source_commit"@,
        ),
        "prolly.transfer.source_repository"@ != "prolly.transfer.source_commit"@,
{
    reveal_strlit("prolly.transfer.source_repository");
    reveal_strlit("prolly.transfer.source_commit");
    let a = "prolly.transfer.source_repository"@;
    let b = "prolly.transfer.source_commit"@;
    assert(a.len() != b.len());
    lemma_encoding_tells_apart(a, b);
}

proof fn lemma_encoding_tells_apart(a: Seq<char>, b: Seq<char>)
    requires
        a != b,
    ensures
        encode_utf8(a) != encode_utf8(b),
{
    vstd::utf8::encode_utf8_decode_utf8(a);
    vstd::utf8::encode_utf8_decode_utf8(b);
}

/// Notes in a commit's metadata where it came from.
pub fn note_origin(metadata: Vec<MetadataEntry>, repository: RepositoryId, commit: CommitId) -> (r: Vec<
    MetadataEntry,
>)
    requires
        sorted(metadata@),
    ensures
        metadata_with_origin(metadata@, r@, repository, commit),
{
    let ghost before = metadata@;
    let mut metadata = metadata;
    let from_repository = MetadataEntry {
        name: "prolly.transfer.source_repository".to_owned(),
        value: to_vec(repository.as_bytes()),
    };
    let from_commit = MetadataEntry {
        name: "prolly.transfer.source_commit".to_owned(),
        value: to_vec(commit.as_bytes()),
    };
    let ghost first = from_repository;
    let ghost second = from_commit;
    put_sorted(&mut metadata, from_repository);
    let ghost middle = metadata@;
    put_sorted(&mut metadata, from_commit);
    proof {
        lemma_origin_names_differ();
        let after = metadata@;
        assert forall|entry: MetadataEntry| !names_origin(entry) implies (
        #[trigger] after.contains(entry) <==> before.contains(entry)) by {
            lemma_encoding_tells_apart(entry.name@, first.name@);
            lemma_encoding_tells_apart(entry.name@, second.name@);
            assert(middle.contains(entry) <==> before.contains(entry));
        }
        assert(middle.contains(first));
        assert(after.contains(first));
        assert(after.contains(second));
        assert forall|entry: MetadataEntry| names_origin(entry) && #[trigger] after.contains(
            entry,
        ) implies entry.value@ == if entry.name@ == "prolly.transfer.source_commit"@ {
            commit@
        } else {
            repository@
        } by {
            if entry != second {
                assert(middle.contains(entry));
                assert(entry.sort_key() != second.sort_key());
            }
        }
    }
    metadata
}

impl Repository {
    /// The commit that stands for a source commit: rebuilt trees, mapped parents, and otherwise what the
    /// source commit says.
    pub fn finalize_history_transfer_commit(
        &self,
        source: RepositoryId,
        pending: PendingHistoryTransferCommit,
        commit: BucketCommit,
        input_digest: [u8; 32],
        authority: AuthorityStamp,
    ) -> (r: BucketCommit)
        requires
            sorted(commit.metadata@),
        ensures
            r.state == (BucketState { objects: pending.objects, versions: pending.versions }),
            r.parents == pending.mapped_parents,
            r.generation == commit.generation,
            r.delta.input_digest == input_digest,
            r.delta.changes@.len() == 0,
            r.delta.changes_root == if pending.transitions_applied == 0 {
                None
            } else {
                Some(pending.delta)
            },
            r.delta.change_count == pending.transitions_applied,
            r.node_pack is None,
            r.authority == authority,
            r.author@ == self.options.writer@,
            r.message == commit.message,
            r.created_at_millis == commit.created_at_millis,
            metadata_with_origin(commit.metadata@, r.metadata@, source, pending.source),
    {
        let metadata = note_origin(commit.metadata, source, pending.source);
        let changes_root = if pending.transitions_applied != 0 {
            Some(pending.delta)
        } else {
            None
        };
        BucketCommit {
            state: BucketState { objects: pending.objects, versions: pending.versions },
            parents: pending.mapped_parents,
            generation: commit.generation,
            delta: BucketDelta {
                input_digest,
                changes: Vec::new(),
                changes_root,
                change_count: pending.transitions_applied,
            },
            node_pack: None,
            authority,
            author: self.options.writer.clone(),
            message: commit.message,
            created_at_millis: commit.created_at_millis,
            metadata,
        }
    }
}

/// Takes a stored commit into the cursor. The one that stands for the source's head is remembered.
pub fn transferred_commit(
    cursor: &mut HistoryTransferCursor,
    source: CommitId,
    destination: CommitId,
    next_closure: CommitClosureCursor,
    mappings: RootManifest,
) -> (r: Result<(), Error>)
    ensures
        match added(old(cursor).report.imported_commits, 1, "fsck ", "history-transfer-commit") {
            Err(error) => outcome(r) == Err::<(), Fault>(error) && *final(cursor) == *old(cursor),
            Ok(imported_commits) => r is Ok && *final(cursor) == (HistoryTransferCursor {
                mappings,
                closure: next_closure,
                pending: None,
                mapped_head: if source == old(cursor).source_head {
                    Some(destination)
                } else {
                    old(cursor).mapped_head
                },
                report: HistoryTransferReport { imported_commits, ..old(cursor).report },
                ..*old(cursor)
            }),
        },
{
    match checked_fsck_add(cursor.report.imported_commits, 1, "history-transfer-commit") {
        Err(error) => Err(error),
        Ok(sum) => {
            cursor.report.imported_commits = sum;
            cursor.mappings = mappings;
            cursor.closure = next_closure;
            cursor.pending = None;
            if source == cursor.source_head {
                cursor.mapped_head = Some(destination);
            }
            Ok(())
        },
    }
}

/// Where a finished transfer moves the destination branch to.
pub fn publish_history_transfer(cursor: &HistoryTransferCursor) -> (r: Result<CommitId, Error>)
    ensures
        outcome(r) == if !cursor.complete || cursor.pending is Some {
            Err(fault(ErrorCode::PreconditionFailed, "history transfer is not complete"))
        } else {
            match cursor.mapped_head {
                Some(id) => Ok(id),
                None => Err(fault(ErrorCode::MissingClosure, "mapped source head is absent")),
            }
        },
{
    if !cursor.complete || cursor.pending.is_some() {
        return Err(Error::new(ErrorCode::PreconditionFailed, "history transfer is not complete"));
    }
    match cursor.mapped_head {
        Some(id) => Ok(id),
        None => Err(Error::new(ErrorCode::MissingClosure, "mapped source head is absent")),
    }
}

/// Whether the objects of a rebuilt commit are those of its source, each version replaced by the one that
/// stands for it.
pub open spec fn mirrors(
    source: Map<Seq<u8>, ObjectVersion>,
    rebuilt: Map<Seq<u8>, ObjectVersion>,
    mapping: spec_fn(ObjectVersionId) -> ObjectVersion,
) -> bool {
    forall|key: Seq<u8>|
        #![trigger source.contains_key(key)]
        #![trigger rebuilt.contains_key(key)]
        source.contains_key(key) == rebuilt.contains_key(key) && (source.contains_key(key)
            ==> rebuilt[key] == mapping(source[key].id))
}

/// A rebuilt commit stays the mirror of its source: if the trees mirror each other before a transition,
/// they do after it.
pub proof fn law_import_mirrors_the_source(
    source: Map<Seq<u8>, ObjectVersion>,
    rebuilt: Map<Seq<u8>, ObjectVersion>,
    mapping: spec_fn(ObjectVersionId) -> ObjectVersion,
    key: Seq<u8>,
    delete_marker: bool,
    version: ObjectVersion,
)
    requires
        mirrors(source, rebuilt, mapping),
    ensures
        mirrors(
            applied_one(source, imported_object(key, delete_marker, version)),
            applied_one(rebuilt, imported_object(key, delete_marker, mapping(version.id))),
            mapping,
        ),
{
}

/// Whether each commit of a path but the last has the next one among its parents.
pub open spec fn descends(parents: spec_fn(CommitId) -> Seq<CommitId>, path: Seq<CommitId>) -> bool {
    forall|i: int|
        0 <= i < path.len() - 1 ==> parents(#[trigger] path[i]).contains(path[i + 1])
}

/// Where every commit's mapped parents are its parents, mapped in their order, every path of the source's
/// history is a path of the transferred one.
pub proof fn law_transfer_keeps_every_path(
    parents: spec_fn(CommitId) -> Seq<CommitId>,
    mapped_parents: spec_fn(CommitId) -> Seq<CommitId>,
    mapping: spec_fn(CommitId) -> CommitId,
    path: Seq<CommitId>,
)
    requires
        forall|i: int|
            0 <= i < path.len() ==> mapped_parents(mapping(#[trigger] path[i])) == parents(
                path[i],
            ).map_values(mapping),
        descends(parents, path),
    ensures
        descends(mapped_parents, path.map_values(mapping)),
{
    let mapped = path.map_values(mapping);
    assert forall|i: int| 0 <= i < mapped.len() - 1 implies mapped_parents(
        #[trigger] mapped[i],
    ).contains(mapped[i + 1]) by {
        assert(mapped_parents(mapping(path[i])) == parents(path[i]).map_values(mapping));
        assert(parents(path[i]).contains(path[i + 1]));
        let list = parents(path[i]);
        let j = choose|j: int| 0 <= j < list.len() && list[j] == path[i + 1];
        assert(list.map_values(mapping)[j] == mapping(path[i + 1]));
    }
}

/// Which commit stands for which, once the first `n` commits of a walk are transferred.
pub open spec fn mapping_after(emitted: Seq<CommitId>, ids: Seq<CommitId>, n: int) -> Map<
    CommitId,
    CommitId,
>
    decreases n,
{
    if n <= 0 {
        Map::empty()
    } else {
        mapping_after(emitted, ids, n - 1).insert(emitted[n - 1], ids[n - 1])
    }
}

proof fn lemma_mapping_after(emitted: Seq<CommitId>, ids: Seq<CommitId>, n: int)
    requires
        emitted.no_duplicates(),
        ids.len() == emitted.len(),
        0 <= n <= emitted.len(),
    ensures
        forall|i: int|
            0 <= i < n ==> mapping_after(emitted, ids, n).contains_pair(
                #[trigger] emitted[i],
                ids[i],
            ),
        forall|c: CommitId| #[trigger]
            mapping_after(emitted, ids, n).contains_key(c) <==> emitted.take(n).contains(c),
    decreases n,
{
    if n > 0 {
        lemma_mapping_after(emitted, ids, n - 1);
        let before = mapping_after(emitted, ids, n - 1);
        let after = mapping_after(emitted, ids, n);
        assert(emitted.take(n) =~= emitted.take(n - 1).push(emitted[n - 1]));
        assert forall|i: int| 0 <= i < n implies after.contains_pair(#[trigger] emitted[i], ids[i]) by {
            if i < n - 1 {
                assert(before.contains_pair(emitted[i], ids[i]));
                assert(emitted[i] != emitted[n - 1]);
            }
        }
        assert forall|c: CommitId| #[trigger] after.contains_key(c) <==> emitted.take(n).contains(c) by {
            assert(before.contains_key(c) <==> emitted.take(n - 1).contains(c));
            let fewer = emitted.take(n - 1);
            let more = emitted.take(n);
            if more.contains(c) {
                let k = choose|k: int| 0 <= k < more.len() && more[k] == c;
                if k < n - 1 {
                    assert(fewer[k] == c);
                }
            }
            if fewer.contains(c) {
                let k = choose|k: int| 0 <= k < fewer.len() && fewer[k] == c;
                assert(more[k] == c);
            }
            assert(emitted.take(n)[n - 1] == emitted[n - 1]);
        }
    } else {
        assert(emitted.take(0) =~= Seq::<CommitId>::empty());
    }
}

/// Over a whole transfer each commit that the source's branch reaches is mapped, once, and no other; and when
/// a commit is transferred, all its parents are mapped already, to the commits that they stay mapped to.
pub proof fn law_transfer_maps_every_reached_commit_once(
    walk: Walk,
    roots: Set<CommitId>,
    parents: spec_fn(CommitId) -> Seq<CommitId>,
    ids: Seq<CommitId>,
)
    requires
        acyclic(parents),
        walk_holds(walk, roots, parents),
        is_over(walk),
        ids.len() == walk.emitted.len(),
    ensures
        ({
            let n = walk.emitted.len() as int;
            let mapping = mapping_after(walk.emitted, ids, n);
            &&& forall|c: CommitId| #[trigger]
                mapping.contains_key(c) <==> is_reached(roots, parents, c)
            &&& forall|i: int| 0 <= i < n ==> mapping.contains_pair(#[trigger] walk.emitted[i], ids[i])
            &&& forall|i: int, j: int|
                0 <= i < n && 0 <= j < parents(walk.emitted[i]).len() ==> mapping_after(
                    walk.emitted,
                    ids,
                    i,
                ).contains_pair(
                    #[trigger] parents(walk.emitted[i])[j],
                    mapping[parents(walk.emitted[i])[j]],
                )
        }),
{
    law_walk_emits_exactly_what_its_roots_reach(walk, roots, parents, 0);
    let emitted = walk.emitted;
    let n = emitted.len() as int;
    let mapping = mapping_after(emitted, ids, n);
    lemma_mapping_after(emitted, ids, n);
    assert(emitted.take(n) =~= emitted);
    assert forall|i: int, j: int| 0 <= i < n && 0 <= j < parents(emitted[i]).len() implies mapping_after(
        emitted,
        ids,
        i,
    ).contains_pair(#[trigger] parents(emitted[i])[j], mapping[parents(emitted[i])[j]]) by {
        let p = parents(emitted[i])[j];
        assert(emitted.take(i).contains(p));
        let head = emitted.take(i);
        let k = choose|k: int| 0 <= k < head.len() && head[k] == p;
        lemma_mapping_after(emitted, ids, i);
        assert(mapping_after(emitted, ids, i).contains_pair(emitted[k], ids[k]));
        assert(mapping.contains_pair(emitted[k], ids[k]));
    }
}

/// An imported transition puts the mapped version under its key, or takes the key away where the source deleted it.
pub proof fn law_import_puts_or_deletes(
    objects: Map<Seq<u8>, ObjectVersion>,
    key: Seq<u8>,
    delete_marker: bool,
    mapped: ObjectVersion,
)
    ensures
        delete_marker ==> applied_one(objects, imported_object(key, delete_marker, mapped))
            == objects.remove(key),
        !delete_marker ==> applied_one(objects, imported_object(key, delete_marker, mapped))
            == objects.insert(key, mapped),
{
}

/// The newest of some generations is one of them, and none is newer.
pub proof fn law_newest_is_the_highest(generations: Seq<u64>)
    ensures
        forall|i: int| 0 <= i < generations.len() ==> #[trigger] generations[i] <= newest(generations),
        generations.len() > 0 ==> generations.contains(newest(generations)),
        generations.len() == 0 ==> newest(generations) == 0,
    decreases generations.len(),
{
    if generations.len() > 0 {
        let fewer = generations.drop_last();
        law_newest_is_the_highest(fewer);
        assert forall|i: int| 0 <= i < generations.len() implies #[trigger] generations[i] <= newest(
            generations,
        ) by {
            if i < fewer.len() {
                assert(fewer[i] == generations[i]);
            }
        }
        if newest(fewer) > generations.last() {
            assert(fewer.len() > 0);
            let k = fewer.index_of(newest(fewer));
            assert(generations[k] == newest(generations));
        } else {
            assert(generations[generations.len() - 1] == newest(generations));
        }
    }
}

/// A transferred commit keeps its metadata and says where it came from: every entry under another name stays and
/// none is added, and the two names of origin hold the source's repository and commit.
pub proof fn law_transferred_commit_says_its_origin(
    before: Seq<MetadataEntry>,
    after: Seq<MetadataEntry>,
    repository: RepositoryId,
    commit: CommitId,
    entry: MetadataEntry,
)
    requires
        metadata_with_origin(before, after, repository, commit),
    ensures
        entry.name@ != "prolly.transfer.source_repository"@ && entry.name@
            != "prolly.transfer.source_commit"@ ==> (after.contains(entry) <==> before.contains(entry)),
        entry.name@ == "prolly.transfer.source_commit"@ && after.contains(entry) ==> entry.value@
            == commit@,
        entry.name@ == "prolly.transfer.source_repository"@ && after.contains(entry) ==> entry.value@
            == repository@,
        exists|e: MetadataEntry|
            #![trigger after.contains(e)]
            after.contains(e) && e.name@ == "prolly.transfer.source_commit"@ && e.value@ == commit@,
        exists|e: MetadataEntry|
            #![trigger after.contains(e)]
            after.contains(e) && e.name@ == "prolly.transfer.source_repository"@ && e.value@
                == repository@,
{
    reveal_strlit("prolly.transfer.source_repository");
    reveal_strlit("prolly.transfer.source_commit");
    assert("prolly.transfer.source_repository"@.len() != "prolly.transfer.source_commit"@.len());
}

/// A copied payload counts as one, with its bytes, and changes no other count.
pub proof fn law_transferred_payload_counts_once(report: HistoryTransferReport, size: u64)
    ensures
        counted_payload(report, size) is Ok <==> report.copied_payloads < u64::MAX
            && report.copied_payload_bytes + size <= u64::MAX,
        counted_payload(report, size) matches Ok(after) ==> {
            &&& after.copied_payloads == report.copied_payloads + 1
            &&& after.copied_payload_bytes == report.copied_payload_bytes + size
            &&& after.imported_commits == report.imported_commits
            &&& after.rebound_versions == report.rebound_versions
        },
{
}

/// A parent is found exactly where it was mapped before its child and its name is whole.
pub proof fn law_parents_are_mapped_first(encoded: Option<Vec<u8>>)
    ensures
        parent_fault(encoded) is None <==> encoded is Some && encoded->0@.len() == 32,
{
}

/// A transfer goes on with a cursor exactly where it is of this pair of repositories, over a closure of the source,
/// with every tree in the destination's format.
pub proof fn law_transfer_goes_on_with_its_own_cursor(
    destination: Repository,
    source: Repository,
    cursor: HistoryTransferCursor,
)
    ensures
        transfer_cursor_outcome(destination, source, cursor) is Ok <==> {
            &&& valid_branch(cursor.source_branch@)
            &&& valid_branch(cursor.destination_branch@)
            &&& closure_cursor_sound(source, cursor.closure)
            &&& cursor.source_repository == source.format.repository_id
            &&& cursor.destination_repository == destination.format.repository_id
            &&& cursor.job@ != nil_bytes()
            &&& cursor.mappings.format_digest == destination.format.state_tree_digest
            &&& cursor.pending matches Some(pending) ==> {
                &&& pending.objects.format_digest == destination.format.state_tree_digest
                &&& pending.versions.format_digest == destination.format.state_tree_digest
                &&& pending.delta.format_digest == destination.format.state_tree_digest
                &&& pending.union_base is Some ==> pending.union_base->0.format_digest
                    == destination.format.state_tree_digest
            }
        },
{
}

/// The entries of a list of changes are well placed exactly where each lies under the key that it changes.
pub proof fn law_transitions_lie_under_their_keys(entries: Seq<(Vec<u8>, ObjectTransition)>, i: int)
    requires
        0 <= i < entries.len(),
    ensures
        well_placed(entries) ==> entries[i].0@ == entries[i].1.key@,
        entries[i].0@ != entries[i].1.key@ ==> !well_placed(entries),
        nothing_transferred().imported_commits == 0 && nothing_transferred().rebound_versions == 0
            && nothing_transferred().copied_payloads == 0 && nothing_transferred().copied_payload_bytes
            == 0,
{
}

} // verus!
