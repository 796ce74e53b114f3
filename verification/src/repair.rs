//! Repair: makes the live objects of one repository's branch those of another's snapshot.
use crate::batches::{
    batch_end, batch_end_of, batch_room, batch_room_of, brings_to, changes_key,
    law_changes_turn_one_snapshot_into_the_other, live_after, same_at, BatchEnd,
};
use crate::counters::{added, checked_fsck_add};
use crate::error::{fault, outcome, Error, ErrorCode, Fault};
use crate::ids::{BatchId, CommitId, RepositoryId};
use crate::model::{
    CommitReceipt, KindView, LogicalObjectVersionKind, PayloadBinding, StagedMutation, StagedPut,
};
use crate::objects::ObjectData;
use crate::publish::drafted_kind;
use crate::repository::Repository;
use crate::session::CommitSessionCheckpoint;
use crate::text::{blank, is_blank, valid_branch, validate_branch};
use vstd::prelude::*;

verus! {

/// How long the sessions of a repair or a restore stay open.
pub const BATCH_SESSION_MILLIS: u64 = 86_400_000;

/// How far a repair has come.
#[derive(Clone, Copy, Debug, PartialEq, Eq, Structural)]
pub enum RepairPhase {
    CopySource,
    DeleteDestinationOnly,
    Complete,
}

/// What a repair has done so far.
#[derive(Clone, Copy, Debug, PartialEq, Eq, Structural)]
pub struct RepairReport {
    pub scanned_source_objects: u64,
    pub copied_objects: u64,
    pub copied_bytes: u64,
    pub scanned_destination_objects: u64,
    pub deleted_objects: u64,
    pub published_commits: u64,
}

impl RepairReport {
    /// A report of nothing done.
    pub fn new() -> (r: Self)
        ensures
            r == no_repairs(),
    {
        RepairReport {
            scanned_source_objects: 0,
            copied_objects: 0,
            copied_bytes: 0,
            scanned_destination_objects: 0,
            deleted_objects: 0,
            published_commits: 0,
        }
    }
}

/// A report of nothing done.
pub open spec fn no_repairs() -> RepairReport {
    RepairReport {
        scanned_source_objects: 0,
        copied_objects: 0,
        copied_bytes: 0,
        scanned_destination_objects: 0,
        deleted_objects: 0,
        published_commits: 0,
    }
}

/// Where a repair stands.
#[derive(Clone, Debug, PartialEq, Eq)]
pub struct RepairCursor {
    pub source_repository: RepositoryId,
    pub destination_repository: RepositoryId,
    pub source_branch: String,
    pub destination_branch: String,
    pub source_snapshot: CommitId,
    pub destination_snapshot: CommitId,
    pub expected_head: CommitId,
    pub source_after: Option<Vec<u8>>,
    pub destination_after: Option<Vec<u8>>,
    pub phase: RepairPhase,
    pub batch: BatchId,
    pub checkpoint_sequence: u64,
    pub message: String,
    pub report: RepairReport,
}

/// What one page of a repair did.
#[derive(Clone, Debug, PartialEq, Eq)]
pub struct RepairPage {
    pub cursor: RepairCursor,
    pub processed: usize,
    pub receipt: Option<CommitReceipt>,
    pub complete: bool,
}

/// What checking a request to repair says.
pub open spec fn repair_request_outcome(
    source_branch: Seq<char>,
    destination_branch: Seq<char>,
    message: Seq<char>,
) -> Result<(), Fault> {
    if !valid_branch(source_branch) || !valid_branch(destination_branch) {
        Err(fault(ErrorCode::InvalidBranch, "branch name violates the canonical ref contract"))
    } else if blank(message) {
        Err(fault(ErrorCode::InvalidRequest, "repair message must not be empty"))
    } else {
        Ok(())
    }
}

/// Refuses a request to repair that names no branch or gives no reason.
pub fn check_repair_request(source_branch: &str, destination_branch: &str, message: &str) -> (r: Result<
    (),
    Error,
>)
    ensures
        outcome(r) == repair_request_outcome(source_branch@, destination_branch@, message@),
{
    if let Err(error) = validate_branch(source_branch) {
        return Err(error);
    }
    if let Err(error) = validate_branch(destination_branch) {
        return Err(error);
    }
    if is_blank(message) {
        return Err(Error::new(ErrorCode::InvalidRequest, "repair message must not be empty"));
    }
    Ok(())
}

/// Whether a repair has work left, or why no page can be made of it.
pub open spec fn repair_page_outcome(
    repository: Repository,
    source: RepositoryId,
    cursor: RepairCursor,
    max_steps: usize,
) -> Result<bool, Fault> {
    if cursor.source_repository != source || cursor.destination_repository
        != repository.format.repository_id {
        Err(
            fault(
                ErrorCode::InvalidContinuationToken,
                "repair cursor belongs to another source or destination",
            ),
        )
    } else if cursor.phase == RepairPhase::Complete {
        Ok(false)
    } else if max_steps == 0 || max_steps > repository.format.canonical_limits.max_list_page {
        Err(
            fault(ErrorCode::InvalidLimit, "repair page size exceeds the canonical list limit"),
        )
    } else {
        Ok(true)
    }
}

/// How many objects a page of a repair may look at, given its batch.
pub open spec fn page_room(
    repository: Repository,
    cursor: RepairCursor,
    max_steps: usize,
    checkpoint: CommitSessionCheckpoint,
) -> Result<usize, Fault> {
    if checkpoint.sequence != cursor.checkpoint_sequence || checkpoint.session.base_commit
        != cursor.expected_head {
        Err(
            fault(
                ErrorCode::InvalidContinuationToken,
                "repair cursor is stale relative to its checkpoint",
            ),
        )
    } else {
        batch_room_of(
            checkpoint.mutations@.len(),
            repository.format.canonical_limits.max_mutations_per_commit,
            max_steps,
            "repair checkpoint exceeds its mutation limit",
            "repair checkpoint is full but unpublished",
        )
    }
}

/// The error of a listed object that is not there.
pub open spec fn vanished_source() -> Fault {
    fault(ErrorCode::CorruptCommit, "repair listing points to a missing source object")
}

/// The error of a repair whose branch has moved.
pub open spec fn moved_branch() -> Fault {
    fault(ErrorCode::PreconditionFailed, "destination branch moved during repair")
}

impl Repository {
    /// Refuses to begin a repair of a branch that is not where the caller believes it to be.
    pub fn check_repair_start(&self, head: CommitId, expected_head: CommitId) -> (r: Result<(), Error>)
        ensures
            outcome(r) == if head == expected_head {
                Ok::<(), Fault>(())
            } else {
                Err(
                    fault(
                        ErrorCode::PreconditionFailed,
                        "destination head does not match repair expectation",
                    ),
                )
            },
    {
        if head != expected_head {
            return Err(
                Error::new(
                    ErrorCode::PreconditionFailed,
                    "destination head does not match repair expectation",
                ),
            );
        }
        Ok(())
    }

    /// The cursor of a repair that begins with an open session on the destination branch.
    pub fn start_repair_from(
        &self,
        source: RepositoryId,
        source_branch: &str,
        source_snapshot: CommitId,
        destination_branch: &str,
        expected_head: CommitId,
        message: &str,
        checkpoint: &CommitSessionCheckpoint,
    ) -> (r: RepairCursor)
        ensures
            r.source_repository == source,
            r.destination_repository == self.format.repository_id,
            r.source_branch@ == source_branch@,
            r.destination_branch@ == destination_branch@,
            r.source_snapshot == source_snapshot,
            r.destination_snapshot == expected_head,
            r.expected_head == expected_head,
            r.source_after is None,
            r.destination_after is None,
            r.phase == RepairPhase::CopySource,
            r.batch == checkpoint.session.id,
            r.checkpoint_sequence == checkpoint.sequence,
            r.message@ == message@,
            r.report == no_repairs(),
    {
        RepairCursor {
            source_repository: source,
            destination_repository: self.format.repository_id,
            source_branch: source_branch.to_owned(),
            destination_branch: destination_branch.to_owned(),
            source_snapshot,
            destination_snapshot: expected_head,
            expected_head,
            source_after: None,
            destination_after: None,
            phase: RepairPhase::CopySource,
            batch: checkpoint.session.id,
            checkpoint_sequence: checkpoint.sequence,
            message: message.to_owned(),
            report: RepairReport::new(),
        }
    }

    /// Says whether a repair has work left, and refuses what no page can be made of.
    pub fn advance_repair_from(
        &self,
        source: RepositoryId,
        cursor: &RepairCursor,
        max_steps: usize,
    ) -> (r: Result<bool, Error>)
        ensures
            outcome(r) == repair_page_outcome(*self, source, *cursor, max_steps),
    {
        if cursor.source_repository != source || cursor.destination_repository
            != self.format.repository_id {
            return Err(
                Error::new(
                    ErrorCode::InvalidContinuationToken,
                    "repair cursor belongs to another source or destination",
                ),
            );
        }
        if cursor.phase == RepairPhase::Complete {
            return Ok(false);
        }
        if max_steps == 0 || max_steps > self.format.canonical_limits.max_list_page as usize {
            return Err(
                Error::new(
                    ErrorCode::InvalidLimit,
                    "repair page size exceeds the canonical list limit",
                ),
            );
        }
        Ok(true)
    }

    /// Says how many objects a page of a repair may look at, given its branch's head and its batch.
    pub fn repair_page_limit(
        &self,
        cursor: &RepairCursor,
        max_steps: usize,
        checkpoint: &CommitSessionCheckpoint,
    ) -> (r: Result<usize, Error>)
        ensures
            outcome(r) == page_room(*self, *cursor, max_steps, *checkpoint),
    {
        if checkpoint.sequence != cursor.checkpoint_sequence || checkpoint.session.base_commit
            != cursor.expected_head {
            return Err(
                Error::new(
                    ErrorCode::InvalidContinuationToken,
                    "repair cursor is stale relative to its checkpoint",
                ),
            );
        }
        batch_room(
            &checkpoint.mutations,
            self.format.canonical_limits.max_mutations_per_commit,
            max_steps,
            "repair checkpoint exceeds its mutation limit",
            "repair checkpoint is full but unpublished",
        )
    }

    /// Says what becomes of the batch of a repair at the end of a page.
    pub fn end_repair_batch(
        &self,
        cursor: &RepairCursor,
        mutations: &Vec<StagedMutation>,
        sequence: u64,
    ) -> (r: Result<BatchEnd, Error>)
        ensures
            outcome(r) == batch_end_of(
                mutations@.len(),
                self.format.canonical_limits.max_mutations_per_commit,
                cursor.phase == RepairPhase::Complete,
                sequence,
                "repair checkpoint sequence overflow",
            ),
    {
        batch_end(
            mutations,
            self.format.canonical_limits.max_mutations_per_commit,
            cursor.phase == RepairPhase::Complete,
            sequence,
            "repair checkpoint sequence overflow",
        )
    }
}

/// Refuses to go on with a repair whose branch has moved.
pub fn check_repair_head(cursor: &RepairCursor, head: CommitId) -> (r: Result<(), Error>)
    ensures
        outcome(r) == if head == cursor.expected_head {
            Ok::<(), Fault>(())
        } else {
            Err(moved_branch())
        },
{
    if head != cursor.expected_head {
        return Err(
            Error::new(ErrorCode::PreconditionFailed, "destination branch moved during repair"),
        );
    }
    Ok(())
}

/// Notes that a page of the source was listed.
pub fn begin_copy_page(cursor: &mut RepairCursor, objects: usize, last_key: Option<Vec<u8>>) -> (r: Result<
    (),
    Error,
>)
    ensures
        match added(
            old(cursor).report.scanned_source_objects,
            objects as u64,
            "fsck ",
            "repair-source-object",
        ) {
            Ok(scanned_source_objects) => r is Ok && *final(cursor) == (RepairCursor {
                source_after: last_key,
                report: RepairReport { scanned_source_objects, ..old(cursor).report },
                ..*old(cursor)
            }),
            Err(error) => outcome(r) == Err::<(), Fault>(error) && *final(cursor) == *old(cursor),
        },
{
    match checked_fsck_add(
        cursor.report.scanned_source_objects,
        objects as u64,
        "repair-source-object",
    ) {
        Err(error) => Err(error),
        Ok(sum) => {
            cursor.report.scanned_source_objects = sum;
            cursor.source_after = last_key;
            Ok(())
        },
    }
}

/// Whether the destination lacks an object of the source, or holds another in its place.
pub open spec fn needs_copy(
    source: LogicalObjectVersionKind,
    existing: Option<LogicalObjectVersionKind>,
) -> bool {
    !(existing matches Some(kind) && kind@ == source@)
}

/// Says whether an object must be copied.
pub fn must_copy(source: &LogicalObjectVersionKind, existing: Option<&LogicalObjectVersionKind>) -> (r: bool)
    ensures
        r == match existing {
            Some(kind) => needs_copy(*source, Some(*kind)),
            None => needs_copy(*source, None),
        },
{
    match existing {
        Some(kind) => !kind.same(source),
        None => true,
    }
}

/// The object that is to be copied and the length of its bytes.
pub fn repair_source(data: Option<ObjectData>) -> (r: Result<(ObjectData, u64), Error>)
    ensures
        outcome(r) == match data {
            Some(object) => Ok((object, object.bytes@.len() as u64)),
            None => Err(vanished_source()),
        },
{
    match data {
        None => Err(
            Error::new(
                ErrorCode::CorruptCommit,
                "repair listing points to a missing source object",
            ),
        ),
        Some(object) => {
            let size: u64 = object.bytes.len() as u64;
            Ok((object, size))
        },
    }
}

/// The staged copy of an object whose bytes lie at `binding`.
pub open spec fn copy_of(
    key: Vec<u8>,
    kind: LogicalObjectVersionKind,
    size: u64,
    binding: PayloadBinding,
) -> StagedMutation
    recommends
        kind is Live,
{
    StagedMutation::Put(
        StagedPut {
            key,
            size,
            logical_etag: kind->logical_etag,
            checksums: kind->checksums,
            attributes: kind->attributes,
            binding,
        },
    )
}

/// The report after one more copy.
pub open spec fn counted_copy(report: RepairReport, size: u64) -> Result<RepairReport, Fault> {
    match added(report.copied_objects, 1, "fsck ", "repair-copied-object") {
        Err(error) => Err(error),
        Ok(copied_objects) => match added(
            report.copied_bytes,
            size,
            "fsck ",
            "repair-copied-byte",
        ) {
            Err(error) => Err(error),
            Ok(copied_bytes) => Ok(RepairReport { copied_objects, copied_bytes, ..report }),
        },
    }
}

/// Stages the copy of an object whose bytes were stored at `binding`.
pub fn stage_copy(
    cursor: &mut RepairCursor,
    mutations: &mut Vec<StagedMutation>,
    key: Vec<u8>,
    kind: LogicalObjectVersionKind,
    size: u64,
    binding: PayloadBinding,
) -> (r: Result<(), Error>)
    ensures
        ({
            let counted = counted_copy(old(cursor).report, size);
            let failed = if kind is DeleteMarker {
                Some(
                    fault(
                        ErrorCode::CorruptCommit,
                        "repair source current object is a delete marker",
                    ),
                )
            } else {
                match counted {
                    Err(error) => Some(error),
                    Ok(_) => None,
                }
            };
            match failed {
                Some(error) => outcome(r) == Err::<(), Fault>(error) && *final(cursor) == *old(
                    cursor,
                ) && final(mutations)@ == old(mutations)@,
                None => r is Ok && *final(cursor) == (RepairCursor {
                    report: counted->Ok_0,
                    ..*old(cursor)
                }) && final(mutations)@ == old(mutations)@.push(copy_of(key, kind, size, binding)),
            }
        }),
{
    match kind {
        LogicalObjectVersionKind::DeleteMarker => Err(
            Error::new(
                ErrorCode::CorruptCommit,
                "repair source current object is a delete marker",
            ),
        ),
        LogicalObjectVersionKind::Live { size: _, logical_etag, checksums, attributes } => {
            let copied_objects: u64 = match checked_fsck_add(
                cursor.report.copied_objects,
                1,
                "repair-copied-object",
            ) {
                Err(error) => {
                    return Err(error);
                },
                Ok(sum) => sum,
            };
            let copied_bytes: u64 = match checked_fsck_add(
                cursor.report.copied_bytes,
                size,
                "repair-copied-byte",
            ) {
                Err(error) => {
                    return Err(error);
                },
                Ok(sum) => sum,
            };
            cursor.report.copied_objects = copied_objects;
            cursor.report.copied_bytes = copied_bytes;
            mutations.push(
                StagedMutation::Put(
                    StagedPut { key, size, logical_etag, checksums, attributes, binding },
                ),
            );
            Ok(())
        },
    }
}

/// Ends a page of copies: after the last one the objects of the destination are looked at.
pub fn end_copy_page(cursor: &mut RepairCursor, truncated: bool)
    ensures
        *final(cursor) == if truncated {
            *old(cursor)
        } else {
            RepairCursor {
                phase: RepairPhase::DeleteDestinationOnly,
                source_after: None,
                ..*old(cursor)
            }
        },
{
    if !truncated {
        cursor.phase = RepairPhase::DeleteDestinationOnly;
        cursor.source_after = None;
    }
}

/// Notes that a page of the destination was listed.
pub fn begin_removal_page(cursor: &mut RepairCursor, objects: usize, last_key: Option<Vec<u8>>) -> (r: Result<
    (),
    Error,
>)
    ensures
        match added(
            old(cursor).report.scanned_destination_objects,
            objects as u64,
            "fsck ",
            "repair-destination-object",
        ) {
            Ok(scanned_destination_objects) => r is Ok && *final(cursor) == (RepairCursor {
                destination_after: last_key,
                report: RepairReport { scanned_destination_objects, ..old(cursor).report },
                ..*old(cursor)
            }),
            Err(error) => outcome(r) == Err::<(), Fault>(error) && *final(cursor) == *old(cursor),
        },
{
    match checked_fsck_add(
        cursor.report.scanned_destination_objects,
        objects as u64,
        "repair-destination-object",
    ) {
        Err(error) => Err(error),
        Ok(sum) => {
            cursor.report.scanned_destination_objects = sum;
            cursor.destination_after = last_key;
            Ok(())
        },
    }
}

/// Stages the deletion of an object that the source does not have, and nothing for one that it has.
pub fn stage_removal(
    cursor: &mut RepairCursor,
    mutations: &mut Vec<StagedMutation>,
    key: Vec<u8>,
    in_source: bool,
) -> (r: Result<(), Error>)
    ensures
        if in_source {
            r is Ok && *final(cursor) == *old(cursor) && final(mutations)@ == old(mutations)@
        } else {
            match added(old(cursor).report.deleted_objects, 1, "fsck ", "repair-deleted-object") {
                Err(error) => outcome(r) == Err::<(), Fault>(error) && *final(cursor) == *old(
                    cursor,
                ) && final(mutations)@ == old(mutations)@,
                Ok(deleted_objects) => r is Ok && *final(cursor) == (RepairCursor {
                    report: RepairReport { deleted_objects, ..old(cursor).report },
                    ..*old(cursor)
                }) && final(mutations)@ == old(mutations)@.push(StagedMutation::Delete { key }),
            }
        },
{
    if in_source {
        return Ok(());
    }
    match checked_fsck_add(cursor.report.deleted_objects, 1, "repair-deleted-object") {
        Err(error) => Err(error),
        Ok(sum) => {
            cursor.report.deleted_objects = sum;
            mutations.push(StagedMutation::delete(key));
            Ok(())
        },
    }
}

/// Ends a page of deletions: after the last one the repair is complete.
pub fn end_removal_page(cursor: &mut RepairCursor, truncated: bool)
    ensures
        *final(cursor) == if truncated {
            *old(cursor)
        } else {
            RepairCursor {
                phase: RepairPhase::Complete,
                destination_after: None,
                ..*old(cursor)
            }
        },
{
    if !truncated {
        cursor.phase = RepairPhase::Complete;
        cursor.destination_after = None;
    }
}

/// Takes the publication of a batch into the cursor. The answer says whether the next batch needs a
/// session of its own.
pub fn published_repair_batch(cursor: &mut RepairCursor, receipt: &CommitReceipt) -> (r: Result<bool, Error>)
    ensures
        match added(old(cursor).report.published_commits, 1, "fsck ", "repair-published-commit") {
            Err(error) => outcome(r) == Err::<bool, Fault>(error) && *final(cursor) == *old(cursor),
            Ok(published_commits) => r == Ok::<bool, Error>(
                old(cursor).phase != RepairPhase::Complete,
            ) && *final(cursor) == (RepairCursor {
                expected_head: receipt.id,
                report: RepairReport { published_commits, ..old(cursor).report },
                ..*old(cursor)
            }),
        },
{
    match checked_fsck_add(cursor.report.published_commits, 1, "repair-published-commit") {
        Err(error) => Err(error),
        Ok(sum) => {
            cursor.expected_head = receipt.id;
            cursor.report.published_commits = sum;
            Ok(cursor.phase != RepairPhase::Complete)
        },
    }
}

/// Takes the session of the next batch, or the saved one, into the cursor.
pub fn next_repair_batch(cursor: &mut RepairCursor, checkpoint: &CommitSessionCheckpoint)
    ensures
        *final(cursor) == (RepairCursor {
            batch: checkpoint.session.id,
            checkpoint_sequence: checkpoint.sequence,
            ..*old(cursor)
        }),
{
    cursor.batch = checkpoint.session.id;
    cursor.checkpoint_sequence = checkpoint.sequence;
}

/// The copy of an object, staged with the length that its source records, brings its key to what the
/// source holds.
pub proof fn law_copy_brings_its_key_to_the_source(
    source: Map<Seq<u8>, KindView>,
    key: Vec<u8>,
    kind: LogicalObjectVersionKind,
    size: u64,
    binding: PayloadBinding,
)
    requires
        kind is Live,
        kind->size == size,
        source.contains_key(key@),
        source[key@] == kind@,
    ensures
        brings_to(source, copy_of(key, kind, size, binding)),
        copy_of(key, kind, size, binding).spec_key() == key@,
{
    assert(drafted_kind(copy_of(key, kind, size, binding)) == kind);
}

/// Once every object that differs was copied and every object that the source lacks was deleted, the
/// branch holds exactly the live objects of the source.
pub proof fn law_repaired_branch_holds_the_source(
    source: Map<Seq<u8>, KindView>,
    destination: Map<Seq<u8>, KindView>,
    mutations: Seq<StagedMutation>,
)
    requires
        forall|i: int| 0 <= i < mutations.len() ==> brings_to(source, #[trigger] mutations[i]),
        forall|key: Seq<u8>| #[trigger]
            source.contains_key(key) && !(destination.contains_key(key) && destination[key]
                == source[key]) ==> changes_key(mutations, key),
        forall|key: Seq<u8>| #[trigger]
            destination.contains_key(key) && !source.contains_key(key) ==> changes_key(
                mutations,
                key,
            ),
    ensures
        live_after(destination, mutations) == source,
{
    assert forall|key: Seq<u8>| #[trigger]
        same_at(destination, source, key) || changes_key(mutations, key) by {
        if source.contains_key(key) {
        }
        if destination.contains_key(key) {
        }
    }
    law_changes_turn_one_snapshot_into_the_other(destination, source, mutations);
}

/// An object is copied exactly where the destination does not hold it as the source does: where it is not there, or
/// where anything that is known of it differs.
pub proof fn law_only_what_differs_is_copied(
    source: LogicalObjectVersionKind,
    existing: Option<LogicalObjectVersionKind>,
)
    ensures
        existing is None ==> needs_copy(source, existing),
        existing is Some && existing->0@ == source@ ==> !needs_copy(source, existing),
        existing is Some && existing->0@ != source@ ==> needs_copy(source, existing),
        existing is Some && existing->0 is Live && source is Live && existing->0->size != source->size
            ==> needs_copy(source, existing),
        existing is Some && existing->0 is Live && source is Live && existing->0->logical_etag@
            != source->logical_etag@ ==> needs_copy(source, existing),
        existing is Some && existing->0 is Live && source is Live && existing->0->checksums
            != source->checksums ==> needs_copy(source, existing),
        existing is Some && existing->0 is Live && source is Live && existing->0->attributes@
            != source->attributes@ ==> needs_copy(source, existing),
{
}

/// The copy of an object has its key, tag, digests and attributes, the size that was read, and the payload that it
/// was given in the destination.
pub proof fn law_copy_is_the_object(
    key: Vec<u8>,
    kind: LogicalObjectVersionKind,
    size: u64,
    binding: PayloadBinding,
)
    requires
        kind is Live,
    ensures
        copy_of(key, kind, size, binding) matches StagedMutation::Put(put) && put.key == key && put.size
            == size && put.logical_etag == kind->logical_etag && put.checksums == kind->checksums
            && put.attributes == kind->attributes && put.binding == binding,
{
}

/// A copy counts as one, with its bytes, and changes no other count.
pub proof fn law_copy_counts_once(report: RepairReport, size: u64)
    ensures
        counted_copy(report, size) is Ok <==> report.copied_objects < u64::MAX && report.copied_bytes
            + size <= u64::MAX,
        counted_copy(report, size) matches Ok(after) ==> {
            &&& after.copied_objects == report.copied_objects + 1
            &&& after.copied_bytes == report.copied_bytes + size
            &&& after.scanned_source_objects == report.scanned_source_objects
            &&& after.scanned_destination_objects == report.scanned_destination_objects
            &&& after.deleted_objects == report.deleted_objects
            &&& after.published_commits == report.published_commits
        },
{
}

/// A page of a repair is made exactly where its cursor is of this pair of repositories, is not done, and asks for a
/// page that can be.
pub proof fn law_repair_goes_on_with_its_own_cursor(
    repository: Repository,
    source: RepositoryId,
    cursor: RepairCursor,
    max_steps: usize,
)
    ensures
        repair_page_outcome(repository, source, cursor, max_steps) == Ok::<bool, Fault>(false)
            <==> cursor.source_repository == source && cursor.destination_repository
            == repository.format.repository_id && cursor.phase == RepairPhase::Complete,
        repair_page_outcome(repository, source, cursor, max_steps) == Ok::<bool, Fault>(true)
            <==> cursor.source_repository == source && cursor.destination_repository
            == repository.format.repository_id && cursor.phase != RepairPhase::Complete && 1
            <= max_steps <= repository.format.canonical_limits.max_list_page,
{
}

/// A repair stages more only into the checkpoint that its cursor speaks of, on the commit it stands on, and never
/// beyond what a commit may change.
pub proof fn law_repair_stages_into_its_own_checkpoint(
    repository: Repository,
    cursor: RepairCursor,
    max_steps: usize,
    checkpoint: CommitSessionCheckpoint,
)
    ensures
        page_room(repository, cursor, max_steps, checkpoint) is Ok <==> checkpoint.sequence
            == cursor.checkpoint_sequence && checkpoint.session.base_commit == cursor.expected_head
            && checkpoint.mutations@.len()
            < repository.format.canonical_limits.max_mutations_per_commit,
        page_room(repository, cursor, max_steps, checkpoint) matches Ok(room) ==> {
            &&& room <= max_steps
            &&& checkpoint.mutations@.len() + room
                <= repository.format.canonical_limits.max_mutations_per_commit
            &&& room == max_steps || checkpoint.mutations@.len() + room
                == repository.format.canonical_limits.max_mutations_per_commit
        },
{
}

/// A repair is asked for exactly where both branches can be and there is something to say of it.
pub proof fn law_repair_is_between_branches(
    source_branch: Seq<char>,
    destination_branch: Seq<char>,
    message: Seq<char>,
)
    ensures
        repair_request_outcome(source_branch, destination_branch, message) is Ok <==> valid_branch(
            source_branch,
        ) && valid_branch(destination_branch) && !blank(message),
        no_repairs().scanned_source_objects == 0 && no_repairs().copied_objects == 0
            && no_repairs().copied_bytes == 0 && no_repairs().scanned_destination_objects == 0
            && no_repairs().deleted_objects == 0 && no_repairs().published_commits == 0,
{
}

} // verus!
