//! Moving a branch back: by its reference, or by a new commit with the objects of an old snapshot.
use crate::batches::{
    batch_end, batch_end_of, batch_room, batch_room_of, brings_to, changes_key,
    law_changes_turn_one_snapshot_into_the_other, live_after, live_after_one, same_at, BatchEnd,
};
use crate::diffs::{ObjectDiff, ObjectDiffCursor};
use crate::error::{fault, outcome, Error, ErrorCode, Fault};
use crate::ids::{BatchId, CommitId, OperationId, RefGeneration, RepositoryId};
use crate::model::{
    CommitReceipt, KindView, LogicalObjectVersionKind, ObjectVersion, StagedMutation, StagedPut,
};
use crate::publish::{drafted_kind, keys_of, object_edit};
use crate::repository::Repository;
use crate::session::CommitSessionCheckpoint;
use crate::text::{blank, is_blank, valid_branch, validate_branch};
use crate::tree::applied;
use vstd::prelude::*;

verus! {

/// What a movement of a branch did.
#[derive(Clone, Debug, PartialEq, Eq)]
pub struct RefMoveReceipt {
    pub branch: String,
    pub old_target: CommitId,
    pub new_target: CommitId,
    pub operation: OperationId,
    pub generation: RefGeneration,
}

/// Where a restore stands.
#[derive(Clone, Debug, PartialEq, Eq)]
pub struct RestoreCursor {
    pub repository: RepositoryId,
    pub branch: String,
    pub source: CommitId,
    pub original_head: CommitId,
    pub expected_head: CommitId,
    pub batch: BatchId,
    pub checkpoint_sequence: u64,
    pub diff: Option<ObjectDiffCursor>,
    pub message: String,
    pub complete: bool,
}

/// What one page of a restore did.
#[derive(Clone, Debug, PartialEq, Eq)]
pub struct RestorePage {
    pub cursor: RestoreCursor,
    pub processed: usize,
    pub receipt: Option<CommitReceipt>,
    pub complete: bool,
}

/// Whether a restore has work left, or why no page can be made of it.
pub open spec fn restore_page_outcome(
    repository: Repository,
    cursor: RestoreCursor,
    max_steps: usize,
) -> Result<bool, Fault> {
    if cursor.complete {
        Ok(false)
    } else if cursor.repository != repository.format.repository_id {
        Err(
            fault(
                ErrorCode::InvalidContinuationToken,
                "restore cursor belongs to another repository",
            ),
        )
    } else if !valid_branch(cursor.branch@) {
        Err(fault(ErrorCode::InvalidBranch, "branch name violates the canonical ref contract"))
    } else if max_steps == 0 || max_steps > repository.format.canonical_limits.max_list_page {
        Err(
            fault(ErrorCode::InvalidLimit, "restore page size exceeds the canonical list limit"),
        )
    } else {
        Ok(true)
    }
}

/// How many differences a page of a restore may take on, given its batch.
pub open spec fn restore_room(
    repository: Repository,
    cursor: RestoreCursor,
    max_steps: usize,
    checkpoint: CommitSessionCheckpoint,
) -> Result<usize, Fault> {
    if checkpoint.sequence != cursor.checkpoint_sequence || checkpoint.session.base_commit
        != cursor.expected_head {
        Err(
            fault(
                ErrorCode::InvalidContinuationToken,
                "restore cursor is stale relative to its durable checkpoint",
            ),
        )
    } else {
        batch_room_of(
            checkpoint.mutations@.len(),
            repository.format.canonical_limits.max_mutations_per_commit,
            max_steps,
            "restore checkpoint exceeds the canonical mutation limit",
            "restore checkpoint is full without having been published",
        )
    }
}

/// The error of a restore whose branch has moved.
pub open spec fn restored_branch_moved() -> Fault {
    fault(ErrorCode::PreconditionFailed, "branch moved while restore was in progress")
}

impl Repository {
    /// Refuses a movement of a branch that gives no reason, or where this process may not write.
    pub fn reset_branch(&self, branch: &str, reason: &str) -> (r: Result<(), Error>)
        ensures
            outcome(r) == if !self.writable {
                Err(fault(ErrorCode::PreconditionFailed, "repository is read-only"))
            } else if !valid_branch(branch@) {
                Err(
                    fault(
                        ErrorCode::InvalidBranch,
                        "branch name violates the canonical ref contract",
                    ),
                )
            } else if blank(reason@) {
                Err(
                    fault(
                        ErrorCode::InvalidRequest,
                        "administrative ref movement requires a non-empty reason",
                    ),
                )
            } else {
                Ok::<(), Fault>(())
            },
    {
        if let Err(error) = self.require_writable() {
            return Err(error);
        }
        if let Err(error) = validate_branch(branch) {
            return Err(error);
        }
        if is_blank(reason) {
            return Err(
                Error::new(
                    ErrorCode::InvalidRequest,
                    "administrative ref movement requires a non-empty reason",
                ),
            );
        }
        Ok(())
    }

    /// Refuses a request to restore that names no branch or gives no reason.
    pub fn check_restore_request(&self, branch: &str, message: &str) -> (r: Result<(), Error>)
        ensures
            outcome(r) == if !valid_branch(branch@) {
                Err(
                    fault(
                        ErrorCode::InvalidBranch,
                        "branch name violates the canonical ref contract",
                    ),
                )
            } else if blank(message@) {
                Err(fault(ErrorCode::InvalidRequest, "restore message must not be empty"))
            } else {
                Ok::<(), Fault>(())
            },
    {
        if let Err(error) = validate_branch(branch) {
            return Err(error);
        }
        if is_blank(message) {
            return Err(Error::new(ErrorCode::InvalidRequest, "restore message must not be empty"));
        }
        Ok(())
    }

    /// The cursor of a restore that begins with an open session on the branch.
    pub fn start_restore(
        &self,
        branch: &str,
        source: CommitId,
        expected_head: CommitId,
        message: &str,
        checkpoint: &CommitSessionCheckpoint,
    ) -> (r: RestoreCursor)
        ensures
            r.repository == self.format.repository_id,
            r.branch@ == branch@,
            r.source == source,
            r.original_head == expected_head,
            r.expected_head == expected_head,
            r.batch == checkpoint.session.id,
            r.checkpoint_sequence == checkpoint.sequence,
            r.diff is None,
            r.message@ == message@,
            !r.complete,
    {
        RestoreCursor {
            repository: self.format.repository_id,
            branch: branch.to_owned(),
            source,
            original_head: expected_head,
            expected_head,
            batch: checkpoint.session.id,
            checkpoint_sequence: checkpoint.sequence,
            diff: None,
            message: message.to_owned(),
            complete: false,
        }
    }

    /// Says whether a restore has work left, and refuses what no page can be made of.
    pub fn advance_restore(&self, cursor: &RestoreCursor, max_steps: usize) -> (r: Result<bool, Error>)
        ensures
            outcome(r) == restore_page_outcome(*self, *cursor, max_steps),
    {
        if cursor.complete {
            return Ok(false);
        }
        if cursor.repository != self.format.repository_id {
            return Err(
                Error::new(
                    ErrorCode::InvalidContinuationToken,
                    "restore cursor belongs to another repository",
                ),
            );
        }
        if let Err(error) = validate_branch(&cursor.branch) {
            return Err(error);
        }
        if max_steps == 0 || max_steps > self.format.canonical_limits.max_list_page as usize {
            return Err(
                Error::new(
                    ErrorCode::InvalidLimit,
                    "restore page size exceeds the canonical list limit",
                ),
            );
        }
        Ok(true)
    }

    /// Says how many differences a page of a restore may take on, given its batch.
    pub fn restore_page_limit(
        &self,
        cursor: &RestoreCursor,
        max_steps: usize,
        checkpoint: &CommitSessionCheckpoint,
    ) -> (r: Result<usize, Error>)
        ensures
            outcome(r) == restore_room(*self, *cursor, max_steps, *checkpoint),
    {
        if checkpoint.sequence != cursor.checkpoint_sequence || checkpoint.session.base_commit
            != cursor.expected_head {
            return Err(
                Error::new(
                    ErrorCode::InvalidContinuationToken,
                    "restore cursor is stale relative to its durable checkpoint",
                ),
            );
        }
        batch_room(
            &checkpoint.mutations,
            self.format.canonical_limits.max_mutations_per_commit,
            max_steps,
            "restore checkpoint exceeds the canonical mutation limit",
            "restore checkpoint is full without having been published",
        )
    }

    /// Takes the continuation of the comparison into the cursor and says what becomes of the batch.
    pub fn end_restore_page(
        &self,
        cursor: &mut RestoreCursor,
        continuation: Option<ObjectDiffCursor>,
        mutations: &Vec<StagedMutation>,
        sequence: u64,
    ) -> (r: Result<BatchEnd, Error>)
        ensures
            outcome(r) == batch_end_of(
                mutations@.len(),
                self.format.canonical_limits.max_mutations_per_commit,
                continuation is None,
                sequence,
                "restore checkpoint sequence overflow",
            ),
            *final(cursor) == (RestoreCursor {
                diff: continuation,
                complete: old(cursor).complete || r == Ok::<BatchEnd, Error>(BatchEnd::Abort),
                ..*old(cursor)
            }),
    {
        let finished = continuation.is_none();
        cursor.diff = continuation;
        let end = batch_end(
            mutations,
            self.format.canonical_limits.max_mutations_per_commit,
            finished,
            sequence,
            "restore checkpoint sequence overflow",
        );
        if let Ok(BatchEnd::Abort) = &end {
            cursor.complete = true;
        }
        end
    }
}

/// The error of a branch that is not where the caller believes it to be.
pub open spec fn unexpected_reset_head() -> Fault {
    fault(ErrorCode::PreconditionFailed, "branch head does not match reset expectation")
}

/// Refuses to move a branch that is not where the caller believes it to be.
pub fn check_reset_head(target: CommitId, expected_head: CommitId) -> (r: Result<(), Error>)
    ensures
        outcome(r) == if target == expected_head {
            Ok::<(), Fault>(())
        } else {
            Err(unexpected_reset_head())
        },
{
    if target != expected_head {
        return Err(
            Error::new(
                ErrorCode::PreconditionFailed,
                "branch head does not match reset expectation",
            ),
        );
    }
    Ok(())
}

/// The receipt of a movement.
pub fn ref_move_receipt(
    branch: &str,
    old_target: CommitId,
    new_target: CommitId,
    operation: OperationId,
    generation: RefGeneration,
) -> (r: RefMoveReceipt)
    ensures
        r.branch@ == branch@,
        r.old_target == old_target,
        r.new_target == new_target,
        r.operation == operation,
        r.generation == generation,
{
    RefMoveReceipt { branch: branch.to_owned(), old_target, new_target, operation, generation }
}

/// An entry of a branch's log, as far as recovery reads it.
#[derive(Clone, Copy, Debug)]
pub struct JournalEntry {
    pub id: [u8; 32],
    pub old_target: Option<CommitId>,
}

/// The place of the first entry with an identifier.
pub open spec fn entry_place(entries: Seq<JournalEntry>, id: Seq<u8>, i: int) -> bool {
    0 <= i < entries.len() && entries[i].id@ == id && forall|j: int|
        0 <= j < i ==> (#[trigger] entries[j]).id@ != id
}

/// Looks for an entry of the log in a page. None: it is not there. Some: where the branch stood before
/// the movement that the entry records.
pub fn find_in_reflog(entries: &Vec<JournalEntry>, id: &[u8; 32]) -> (r: Option<Option<CommitId>>)
    ensures
        match r {
            None => forall|j: int| 0 <= j < entries@.len() ==> (#[trigger] entries@[j]).id@ != id@,
            Some(target) => exists|i: int| #[trigger]
                entry_place(entries@, id@, i) && target == entries@[i].old_target,
        },
{
    let mut i: usize = 0;
    while i < entries.len()
        invariant
            i <= entries@.len(),
            forall|j: int| 0 <= j < i ==> (#[trigger] entries@[j]).id@ != id@,
        decreases entries.len() - i,
    {
        if crate::bytes::bytes_eq(&entries[i].id, id) {
            assert(entry_place(entries@, id@, i as int));
            return Some(entries[i].old_target);
        }
        i += 1;
    }
    None
}

/// Where recovery moves the branch to.
pub fn recover_branch(target: Option<CommitId>) -> (r: Result<CommitId, Error>)
    ensures
        outcome(r) == match target {
            Some(id) => Ok(id),
            None => Err(
                fault(
                    ErrorCode::InvalidRevision,
                    "selected reflog entry has no recoverable previous target",
                ),
            ),
        },
{
    match target {
        Some(id) => Ok(id),
        None => Err(
            Error::new(
                ErrorCode::InvalidRevision,
                "selected reflog entry has no recoverable previous target",
            ),
        ),
    }
}

/// Refuses to begin a restore of a branch that is not where the caller believes it to be.
pub fn check_restore_start(head: CommitId, expected_head: CommitId) -> (r: Result<(), Error>)
    ensures
        outcome(r) == if head == expected_head {
            Ok::<(), Fault>(())
        } else {
            Err(
                fault(
                    ErrorCode::PreconditionFailed,
                    "branch head does not match restore expectation",
                ),
            )
        },
{
    if head != expected_head {
        return Err(
            Error::new(
                ErrorCode::PreconditionFailed,
                "branch head does not match restore expectation",
            ),
        );
    }
    Ok(())
}

/// Refuses to go on with a restore whose branch has moved.
pub fn check_restore_head(cursor: &RestoreCursor, head: CommitId) -> (r: Result<(), Error>)
    ensures
        outcome(r) == if head == cursor.expected_head {
            Ok::<(), Fault>(())
        } else {
            Err(restored_branch_moved())
        },
{
    if head != cursor.expected_head {
        return Err(
            Error::new(
                ErrorCode::PreconditionFailed,
                "branch moved while restore was in progress",
            ),
        );
    }
    Ok(())
}

/// What is wrong with the object that a difference says the old snapshot holds.
pub open spec fn restore_fault(change: ObjectDiff, source: Option<ObjectVersion>) -> Option<Fault> {
    match source {
        None => Some(
            fault(ErrorCode::CorruptCommit, "restore diff points to a missing source object"),
        ),
        Some(version) => if change.to != Some(version.id) {
            Some(fault(ErrorCode::CorruptCommit, "restore diff and source object version disagree"))
        } else if version.body.kind is DeleteMarker {
            Some(
                fault(ErrorCode::CorruptCommit, "restore source current object is a delete marker"),
            )
        } else if version.binding is None {
            Some(fault(ErrorCode::CorruptCommit, "restore source object has no payload binding"))
        } else {
            None
        },
    }
}

/// The change that brings a key back: the deletion of an object that the old snapshot did not have, or
/// the object that it had, bound to the same bytes.
pub open spec fn restoring(change: ObjectDiff, source: Option<ObjectVersion>) -> StagedMutation {
    if change.to is None {
        StagedMutation::Delete { key: change.key }
    } else {
        let version = source->0;
        let kind = version.body.kind;
        StagedMutation::Put(
            StagedPut {
                key: change.key,
                size: kind->size,
                logical_etag: kind->logical_etag,
                checksums: kind->checksums,
                attributes: kind->attributes,
                binding: version.binding->0,
            },
        )
    }
}

/// Stages the change that brings a key back.
pub fn stage_restore(
    mutations: &mut Vec<StagedMutation>,
    change: ObjectDiff,
    source: Option<ObjectVersion>,
) -> (r: Result<(), Error>)
    ensures
        match if change.to is None {
            None
        } else {
            restore_fault(change, source)
        } {
            Some(error) => outcome(r) == Err::<(), Fault>(error) && final(mutations)@ == old(
                mutations,
            )@,
            None => r is Ok && final(mutations)@ == old(mutations)@.push(restoring(change, source)),
        },
{
    if change.to.is_none() {
        mutations.push(StagedMutation::delete(change.key));
        return Ok(());
    }
    let version = match source {
        None => {
            return Err(
                Error::new(
                    ErrorCode::CorruptCommit,
                    "restore diff points to a missing source object",
                ),
            );
        },
        Some(version) => version,
    };
    if change.to != Some(version.id) {
        return Err(
            Error::new(ErrorCode::CorruptCommit, "restore diff and source object version disagree"),
        );
    }
    match version.body.kind {
        LogicalObjectVersionKind::DeleteMarker => Err(
            Error::new(
                ErrorCode::CorruptCommit,
                "restore source current object is a delete marker",
            ),
        ),
        LogicalObjectVersionKind::Live { size, logical_etag, checksums, attributes } => {
            match version.binding {
                None => Err(
                    Error::new(
                        ErrorCode::CorruptCommit,
                        "restore source object has no payload binding",
                    ),
                ),
                Some(binding) => {
                    mutations.push(
                        StagedMutation::Put(
                            StagedPut {
                                key: change.key,
                                size,
                                logical_etag,
                                checksums,
                                attributes,
                                binding,
                            },
                        ),
                    );
                    Ok(())
                },
            }
        },
    }
}

/// Takes the publication of a batch into the cursor. The answer says whether the next batch needs a
/// session of its own.
pub fn published_restore_batch(cursor: &mut RestoreCursor, receipt: &CommitReceipt) -> (r: bool)
    ensures
        r == (old(cursor).diff is Some),
        *final(cursor) == (RestoreCursor {
            expected_head: receipt.id,
            complete: old(cursor).complete || old(cursor).diff is None,
            ..*old(cursor)
        }),
{
    cursor.expected_head = receipt.id;
    if cursor.diff.is_none() {
        cursor.complete = true;
    }
    cursor.diff.is_some()
}

/// Takes the session of the next batch, or the saved one, into the cursor.
pub fn next_restore_batch(cursor: &mut RestoreCursor, checkpoint: &CommitSessionCheckpoint)
    ensures
        *final(cursor) == (RestoreCursor {
            batch: checkpoint.session.id,
            checkpoint_sequence: checkpoint.sequence,
            ..*old(cursor)
        }),
{
    cursor.batch = checkpoint.session.id;
    cursor.checkpoint_sequence = checkpoint.sequence;
}

/// The live objects of a snapshot, by what each version says.
pub open spec fn live_objects(objects: Map<Seq<u8>, ObjectVersion>) -> Map<Seq<u8>, KindView> {
    Map::new(|key: Seq<u8>| objects.contains_key(key), |key: Seq<u8>| objects[key].body.kind@)
}

/// Publishing staged changes as one commit does to the live objects what the list of changes says.
pub proof fn law_a_commit_makes_its_changes(
    objects: Map<Seq<u8>, ObjectVersion>,
    mutations: Seq<StagedMutation>,
    versions: Seq<ObjectVersion>,
)
    requires
        versions.len() == mutations.len(),
        forall|i: int|
            0 <= i < mutations.len() ==> (#[trigger] versions[i]).body.kind == drafted_kind(
                mutations[i],
            ),
    ensures
        live_objects(
            applied(
                objects,
                Seq::new(
                    mutations.len(),
                    |i: int| object_edit(keys_of(mutations)[i], versions[i]),
                ),
            ),
        ) == live_after(live_objects(objects), mutations),
    decreases mutations.len(),
{
    let changes = Seq::new(
        mutations.len(),
        |i: int| object_edit(keys_of(mutations)[i], versions[i]),
    );
    let after = live_objects(applied(objects, changes));
    if mutations.len() == 0 {
        assert(after =~= live_after(live_objects(objects), mutations));
    } else {
        let fewer = mutations.drop_last();
        let named = versions.drop_last();
        law_a_commit_makes_its_changes(objects, fewer, named);
        let before = Seq::new(fewer.len(), |i: int| object_edit(keys_of(fewer)[i], named[i]));
        assert(changes.drop_last() =~= before);
        let n = mutations.len() - 1;
        assert(changes.last() == object_edit(mutations[n].spec_key(), versions[n]));
        assert(versions[n].body.kind == drafted_kind(mutations[n]));
        assert(after =~= live_after_one(live_objects(applied(objects, before)), mutations[n]));
    }
}

/// Whether a list of differences names every key on which two snapshots disagree, each with what the
/// second holds.
pub open spec fn is_difference(
    from: Map<Seq<u8>, ObjectVersion>,
    to: Map<Seq<u8>, ObjectVersion>,
    changes: Seq<ObjectDiff>,
) -> bool {
    &&& forall|i: int|
        0 <= i < changes.len() ==> (#[trigger] changes[i]).to == if to.contains_key(
            changes[i].key@,
        ) {
            Some(to[changes[i].key@].id)
        } else {
            None
        }
    &&& forall|key: Seq<u8>|
        #![trigger from.contains_key(key)]
        #![trigger to.contains_key(key)]
        (from.contains_key(key) != to.contains_key(key) || (from.contains_key(key) && from[key]
            != to[key])) ==> exists|i: int|
            0 <= i < changes.len() && (#[trigger] changes[i]).key@ == key
}

/// The changes that a restore stages for a list of differences.
pub open spec fn restoring_all(changes: Seq<ObjectDiff>, to: Map<Seq<u8>, ObjectVersion>) -> Seq<
    StagedMutation,
> {
    changes.map_values(
        |change: ObjectDiff|
            restoring(
                change,
                if to.contains_key(change.key@) {
                    Some(to[change.key@])
                } else {
                    None
                },
            ),
    )
}

/// A restore that goes through every difference to an old snapshot leaves the branch with exactly the
/// live objects of that snapshot.
pub proof fn law_restored_branch_holds_the_old_snapshot(
    from: Map<Seq<u8>, ObjectVersion>,
    to: Map<Seq<u8>, ObjectVersion>,
    changes: Seq<ObjectDiff>,
)
    requires
        is_difference(from, to, changes),
        forall|key: Seq<u8>| #[trigger]
            to.contains_key(key) ==> to[key].body.kind is Live && to[key].binding is Some,
    ensures
        live_after(live_objects(from), restoring_all(changes, to)) == live_objects(to),
{
    let mutations = restoring_all(changes, to);
    let target = live_objects(to);
    assert forall|i: int| 0 <= i < mutations.len() implies brings_to(
        target,
        #[trigger] mutations[i],
    ) by {
        let change = changes[i];
        if to.contains_key(change.key@) {
            let version = to[change.key@];
            assert(change.to == Some(version.id));
            assert(drafted_kind(mutations[i]) == version.body.kind);
        } else {
            assert(change.to is None);
        }
    }
    assert forall|key: Seq<u8>| #[trigger]
        same_at(live_objects(from), target, key) || changes_key(mutations, key) by {
        if !same_at(live_objects(from), target, key) {
            assert(from.contains_key(key) || to.contains_key(key));
            let i = choose|i: int| 0 <= i < changes.len() && (#[trigger] changes[i]).key@ == key;
            assert(mutations[i].spec_key() == key);
        }
    }
    law_changes_turn_one_snapshot_into_the_other(live_objects(from), target, mutations);
}

/// A key that the old snapshot lacks is deleted by a restore; a key that it holds is put back with the size, tag,
/// digests, attributes and payload of the version that it holds there.
pub proof fn law_restore_puts_back_what_was_there(change: ObjectDiff, source: Option<ObjectVersion>)
    ensures
        change.to is None ==> restoring(change, source) == (StagedMutation::Delete { key: change.key }),
        change.to is Some && restore_fault(change, source) is None ==> (source matches Some(version) && (
        version.body.kind matches LogicalObjectVersionKind::Live {
            size,
            logical_etag,
            checksums,
            attributes,
        } && version.id == change.to->0 && version.binding is Some && restoring(change, source)
            == StagedMutation::Put(
            StagedPut {
                key: change.key,
                size,
                logical_etag,
                checksums,
                attributes,
                binding: version.binding->0,
            },
        ))),
        restore_fault(change, source) is None <==> source is Some && change.to == Some(source->0.id)
            && source->0.body.kind is Live && source->0.binding is Some,
{
}

/// The live objects of a snapshot are those under its keys, each as its version says.
pub proof fn law_live_objects_are_those_of_the_tree(objects: Map<Seq<u8>, ObjectVersion>, key: Seq<u8>)
    ensures
        live_objects(objects).contains_key(key) == objects.contains_key(key),
        objects.contains_key(key) ==> live_objects(objects)[key] == objects[key].body.kind@,
{
}

/// A page of a restore is made exactly where its cursor is not done, is of this repository and a branch that can be,
/// and asks for a page that can be; one that is done is left alone.
pub proof fn law_restore_goes_on_with_its_own_cursor(
    repository: Repository,
    cursor: RestoreCursor,
    max_steps: usize,
)
    ensures
        restore_page_outcome(repository, cursor, max_steps) == Ok::<bool, Fault>(false)
            <==> cursor.complete,
        restore_page_outcome(repository, cursor, max_steps) == Ok::<bool, Fault>(true)
            <==> !cursor.complete && cursor.repository == repository.format.repository_id
            && valid_branch(cursor.branch@) && 1 <= max_steps
            <= repository.format.canonical_limits.max_list_page,
{
}

/// A restore stages more only into the checkpoint that its cursor speaks of, on the commit it stands on, and never
/// beyond what a commit may change.
pub proof fn law_restore_stages_into_its_own_checkpoint(
    repository: Repository,
    cursor: RestoreCursor,
    max_steps: usize,
    checkpoint: CommitSessionCheckpoint,
)
    ensures
        restore_room(repository, cursor, max_steps, checkpoint) is Ok <==> checkpoint.sequence
            == cursor.checkpoint_sequence && checkpoint.session.base_commit == cursor.expected_head
            && checkpoint.mutations@.len()
            < repository.format.canonical_limits.max_mutations_per_commit,
        restore_room(repository, cursor, max_steps, checkpoint) matches Ok(room) ==> {
            &&& room <= max_steps
            &&& checkpoint.mutations@.len() + room
                <= repository.format.canonical_limits.max_mutations_per_commit
            &&& room == max_steps || checkpoint.mutations@.len() + room
                == repository.format.canonical_limits.max_mutations_per_commit
        },
{
}

/// The place of an entry in a log is the first that has its name.
pub proof fn law_entry_is_found_where_it_first_stands(entries: Seq<JournalEntry>, id: Seq<u8>, i: int, j: int)
    ensures
        entry_place(entries, id, i) <==> 0 <= i < entries.len() && entries[i].id@ == id && (forall|k: int|
            0 <= k < i ==> (#[trigger] entries[k]).id@ != id),
        entry_place(entries, id, i) && entry_place(entries, id, j) ==> i == j,
{
    if entry_place(entries, id, i) && entry_place(entries, id, j) {
        if i < j {
            assert(entries[i].id@ != id);
        } else if j < i {
            assert(entries[j].id@ != id);
        }
    }
}

} // verus!
