//! Driving a merge: which part of it comes next, when a page is over, and cleaning up after it.
use crate::error::{fault, outcome, Error, ErrorCode, Fault};
use crate::ids::{nil_bytes, OperationId, RepositoryId};
use crate::merge::{merge_cursor_outcome, MergeCursor, MergePhase};
use crate::model::DeleteOutcome;
use crate::outside::uuid_text_of;
use crate::paths::administration_path;
use crate::repository::Repository;
use vstd::prelude::*;
use vstd::string::*;

verus! {

/// The part of a merge that comes next.
#[derive(Clone, Copy, Debug, PartialEq, Eq, Structural)]
pub enum MergeWork {
    FindBase,
    CollectBase,
    Plan,
    UniteVersions,
    BuildObjects,
    /// Nothing: the merge waits for its caller.
    Wait,
}

/// The part of a merge that comes next in a phase.
pub open spec fn merge_work_of(phase: MergePhase) -> MergeWork {
    match phase {
        MergePhase::DiscoveringBases => MergeWork::FindBase,
        MergePhase::CollectingBases => MergeWork::CollectBase,
        MergePhase::Planning => MergeWork::Plan,
        MergePhase::BuildingVersions => MergeWork::UniteVersions,
        MergePhase::BuildingObjects => MergeWork::BuildObjects,
        MergePhase::AwaitingBase => MergeWork::Wait,
        MergePhase::Conflicted => MergeWork::Wait,
        MergePhase::ReadyToPublish => MergeWork::Wait,
    }
}

/// The part of a merge that comes next in a phase.
pub fn merge_work(phase: MergePhase) -> (r: MergeWork)
    ensures
        r == merge_work_of(phase),
{
    match phase {
        MergePhase::DiscoveringBases => MergeWork::FindBase,
        MergePhase::CollectingBases => MergeWork::CollectBase,
        MergePhase::Planning => MergeWork::Plan,
        MergePhase::BuildingVersions => MergeWork::UniteVersions,
        MergePhase::BuildingObjects => MergeWork::BuildObjects,
        MergePhase::AwaitingBase => MergeWork::Wait,
        MergePhase::Conflicted => MergeWork::Wait,
        MergePhase::ReadyToPublish => MergeWork::Wait,
    }
}

/// A page of a merge in the making: how much it may do, and how much it has done.
#[derive(Clone, Copy, Debug, PartialEq, Eq, Structural)]
pub struct MergeRun {
    pub max_steps: usize,
    pub processed: usize,
}

impl MergeRun {
    /// How much the page may still do; zero ends it.
    pub fn left(&self) -> (r: usize)
        ensures
            r == if self.processed < self.max_steps {
                (self.max_steps - self.processed) as usize
            } else {
                0
            },
    {
        if self.processed < self.max_steps {
            self.max_steps - self.processed
        } else {
            0
        }
    }

    /// Counts a part that was done. The answer says whether the page goes on: it stops where nothing was
    /// done and nothing changed.
    pub fn step(&mut self, advanced: usize, before: MergePhase, after: MergePhase) -> (r: Result<
        bool,
        Error,
    >)
        ensures
            if old(self).processed + advanced > usize::MAX {
                outcome(r) == Err::<bool, Fault>(
                    fault(ErrorCode::InternalInvariant, "merge work counter overflow"),
                ) && *final(self) == *old(self)
            } else {
                *final(self) == (MergeRun {
                    processed: (old(self).processed + advanced) as usize,
                    ..*old(self)
                }) && r == Ok::<bool, Error>(
                    !(advanced == 0 && before == after) && final(self).processed
                        < final(self).max_steps,
                )
            },
    {
        match self.processed.checked_add(advanced) {
            None => Err(Error::new(ErrorCode::InternalInvariant, "merge work counter overflow")),
            Some(sum) => {
                self.processed = sum;
                Ok(!(advanced == 0 && before == after) && self.processed < self.max_steps)
            },
        }
    }
}

impl Repository {
    /// Begins a page of a merge.
    pub fn advance_merge(&self, cursor: &MergeCursor, max_steps: usize) -> (r: Result<MergeRun, Error>)
        ensures
            outcome(r) == if !(1 <= max_steps <= 10_000) {
                Err(
                    fault(
                        ErrorCode::InvalidLimit,
                        "merge advance must process 1 to 10,000 records",
                    ),
                )
            } else {
                match merge_cursor_outcome(*self, *cursor) {
                    Err(error) => Err(error),
                    Ok(_) => Ok(MergeRun { max_steps, processed: 0 }),
                }
            },
    {
        if max_steps < 1 || max_steps > 10_000 {
            return Err(
                Error::new(
                    ErrorCode::InvalidLimit,
                    "merge advance must process 1 to 10,000 records",
                ),
            );
        }
        match self.validate_merge_cursor(cursor) {
            Err(error) => Err(error),
            Ok(()) => Ok(MergeRun { max_steps, processed: 0 }),
        }
    }
}

/// Where the clean-up after a merge goes on.
#[derive(Clone, Debug, PartialEq, Eq)]
pub struct MergeCleanupCursor {
    pub repository: RepositoryId,
    pub job: OperationId,
    pub provider_continuation: String,
}

/// What a page of the clean-up after a merge did.
#[derive(Clone, Debug, PartialEq, Eq)]
pub struct MergeCleanupPage {
    pub deleted: usize,
    pub continuation: Option<MergeCleanupCursor>,
}

/// What checking a request to clean up says. The first page looks at the whole cursor; the others only at
/// what tells merges apart, for the plan that the cursor points to is going.
pub open spec fn cleanup_outcome(
    repository: Repository,
    cursor: MergeCursor,
    continuation: Option<MergeCleanupCursor>,
    limit: usize,
) -> Result<(), Fault> {
    let known = match continuation {
        None => merge_cursor_outcome(repository, cursor),
        Some(_) => if cursor.repository != repository.format.repository_id || cursor.job@
            == nil_bytes() {
            Err(
                fault(
                    ErrorCode::InvalidContinuationToken,
                    "merge cleanup cursor belongs to another repository",
                ),
            )
        } else {
            Ok(())
        },
    };
    match known {
        Err(error) => Err(error),
        Ok(_) => if !(1 <= limit <= 1_000) {
            Err(
                fault(
                    ErrorCode::InvalidLimit,
                    "merge cleanup page must contain 1 to 1,000 objects",
                ),
            )
        } else if continuation matches Some(place) && (place.repository != cursor.repository
            || place.job != cursor.job) {
            Err(
                fault(
                    ErrorCode::InvalidContinuationToken,
                    "merge cleanup cursor belongs to another job",
                ),
            )
        } else {
            Ok(())
        },
    }
}

impl Repository {
    /// Where the plan of a merge lies, as far as it may be cleaned up.
    pub fn cleanup_merge(
        &self,
        cursor: &MergeCursor,
        continuation: Option<&MergeCleanupCursor>,
        limit: usize,
    ) -> (r: Result<String, Error>)
        ensures
            ({
                let place = match continuation {
                    Some(value) => Some(*value),
                    None => None,
                };
                match r {
                    Ok(prefix) => cleanup_outcome(*self, *cursor, place, limit) is Ok && prefix@
                        == self.options.repository_prefix@ + "/administration/"@ + "merge"@ + "/"@
                        + uuid_text_of(cursor.job@) + "/"@ + "plan"@ + "/"@,
                    Err(error) => cleanup_outcome(*self, *cursor, place, limit) == Err::<(), Fault>(
                        error@,
                    ),
                }
            }),
    {
        match continuation {
            None => {
                if let Err(error) = self.validate_merge_cursor(cursor) {
                    return Err(error);
                }
            },
            Some(_) => {
                if cursor.repository != self.format.repository_id || cursor.job.is_nil() {
                    return Err(
                        Error::new(
                            ErrorCode::InvalidContinuationToken,
                            "merge cleanup cursor belongs to another repository",
                        ),
                    );
                }
            },
        }
        if limit < 1 || limit > 1_000 {
            return Err(
                Error::new(
                    ErrorCode::InvalidLimit,
                    "merge cleanup page must contain 1 to 1,000 objects",
                ),
            );
        }
        if let Some(place) = continuation {
            if place.repository != cursor.repository || place.job != cursor.job {
                return Err(
                    Error::new(
                        ErrorCode::InvalidContinuationToken,
                        "merge cleanup cursor belongs to another job",
                    ),
                );
            }
        }
        let path = administration_path(
            self.options.repository_prefix.as_str(),
            "merge",
            cursor.job,
            "plan",
        );
        Ok(path.concat("/"))
    }
}

/// Counts a plan object that was deleted or was gone.
pub fn cleaned_up(deleted: usize, deletion: DeleteOutcome) -> (r: Result<usize, Error>)
    requires
        deleted < usize::MAX,
    ensures
        outcome(r) == if deletion == DeleteOutcome::TokenMismatch {
            Err(fault(ErrorCode::RefConflict, "merge cleanup object changed concurrently"))
        } else {
            Ok((deleted + 1) as usize)
        },
{
    if deletion == DeleteOutcome::TokenMismatch {
        return Err(
            Error::new(ErrorCode::RefConflict, "merge cleanup object changed concurrently"),
        );
    }
    Ok(deleted + 1)
}

/// Ends a page of the clean-up.
pub fn finish_cleanup_page(cursor: &MergeCursor, deleted: usize, provider: Option<String>) -> (r:
    MergeCleanupPage)
    ensures
        r.deleted == deleted,
        r.continuation == match provider {
            Some(provider_continuation) => Some(
                MergeCleanupCursor {
                    repository: cursor.repository,
                    job: cursor.job,
                    provider_continuation,
                },
            ),
            None => None,
        },
{
    let continuation = match provider {
        Some(provider_continuation) => Some(
            MergeCleanupCursor {
                repository: cursor.repository,
                job: cursor.job,
                provider_continuation,
            },
        ),
        None => None,
    };
    MergeCleanupPage { deleted, continuation }
}

/// Each phase of a merge does its own work, and one that waits for somebody does none.
pub proof fn law_merge_phase_does_its_own_work(phase: MergePhase)
    ensures
        phase == MergePhase::DiscoveringBases ==> merge_work_of(phase) == MergeWork::FindBase,
        phase == MergePhase::CollectingBases ==> merge_work_of(phase) == MergeWork::CollectBase,
        phase == MergePhase::Planning ==> merge_work_of(phase) == MergeWork::Plan,
        phase == MergePhase::BuildingVersions ==> merge_work_of(phase) == MergeWork::UniteVersions,
        phase == MergePhase::BuildingObjects ==> merge_work_of(phase) == MergeWork::BuildObjects,
        merge_work_of(phase) == MergeWork::Wait <==> phase == MergePhase::AwaitingBase || phase
            == MergePhase::Conflicted || phase == MergePhase::ReadyToPublish,
{
}

/// A merge is cleaned up in pages that can be, and goes on only with its own place; the first page takes any merge
/// that could go on, and a later one only asks that the merge is of this repository and is named.
pub proof fn law_cleanup_goes_on_with_its_own_place(
    repository: Repository,
    cursor: MergeCursor,
    continuation: Option<MergeCleanupCursor>,
    limit: usize,
)
    ensures
        continuation is None ==> (cleanup_outcome(repository, cursor, continuation, limit) is Ok
            <==> merge_cursor_outcome(repository, cursor) is Ok && 1 <= limit <= 1_000),
        continuation matches Some(place) ==> (cleanup_outcome(repository, cursor, continuation, limit)
             is Ok <==> cursor.repository == repository.format.repository_id && cursor.job@
            != nil_bytes() && 1 <= limit <= 1_000 && place.repository == cursor.repository && place.job
            == cursor.job),
{
}

} // verus!
