//! Durable merges: the cursor that a merge is resumed from, and what each phase does to it.
use crate::bytes::{bytes_eq, has_prefix, to_vec};
use crate::error::{fault, outcome, Error, ErrorCode, Fault};
use crate::ids::{nil_bytes, Cid, CommitId, OperationId, RepositoryId};
use crate::keys::{
    base_candidate_prefix, base_result_prefix, commit_from_suffix, law_commit_keys_are_distinct,
    law_namespaces_are_disjoint, merge_base_candidate_prefix, merge_base_result_key,
    merge_base_result_prefix,
};
use crate::merge_base::{
    is_best_base, law_search_finds_every_best_base, search_invariant, MergeBaseCandidate,
    MergeBaseEntry, SearchState,
};
use crate::merge_plan::{Diff, MergePolicy};
use crate::model::{BucketState, RootManifest};
use crate::repository::Repository;
use crate::text::{blank, is_blank, valid_branch, validate_branch};
use crate::tree::{applied, edits, lemma_edits_push, Edit, Mutation};
use vstd::prelude::*;

verus! {

/// How far a merge has come.
#[derive(Clone, Copy, Debug, PartialEq, Eq, Structural)]
pub enum MergePhase {
    DiscoveringBases,
    CollectingBases,
    AwaitingBase,
    Planning,
    Conflicted,
    BuildingVersions,
    BuildingObjects,
    ReadyToPublish,
}

/// One subtree that a comparison of two trees has yet to look at.
#[derive(Clone, Debug, PartialEq, Eq)]
pub enum DiffMarker {
    Compare { base: Cid, other: Cid, span_end: Option<Vec<u8>> },
    Added { cid: Cid },
    Removed { cid: Cid },
}

/// Where a comparison of two trees stands: the subtrees that are left, and the differences that were
/// found but not handed out.
#[derive(Clone, Debug, PartialEq, Eq)]
pub struct DiffCursor {
    pub base_root: Option<Cid>,
    pub other_root: Option<Cid>,
    pub markers: Vec<DiffMarker>,
    pub pending: Vec<Diff>,
}

/// Where a merge stands.
#[derive(Clone, Debug, PartialEq, Eq)]
pub struct MergeCursor {
    pub repository: RepositoryId,
    pub job: OperationId,
    pub target_branch: String,
    pub source_branch: String,
    pub ours: CommitId,
    pub theirs: CommitId,
    pub requested_base: Option<CommitId>,
    pub selected_base: Option<CommitId>,
    pub policy: MergePolicy,
    pub operation: OperationId,
    pub message: String,
    pub created_at_millis: u64,
    pub phase: MergePhase,
    pub plan_root: RootManifest,
    pub ours_diff: Option<DiffCursor>,
    pub theirs_diff: Option<DiffCursor>,
    pub ours_pending: Option<Diff>,
    pub theirs_pending: Option<Diff>,
    pub ours_finished: bool,
    pub theirs_finished: bool,
    pub version_diff: Option<DiffCursor>,
    pub version_diff_finished: bool,
    pub build_after: Option<Vec<u8>>,
    pub final_objects: Option<RootManifest>,
    pub final_versions: Option<RootManifest>,
    pub delta_root: Option<RootManifest>,
    pub visited_commits: u64,
    pub best_base_count: u64,
    pub planned_changes: u64,
    pub conflicts: u64,
    pub built_changes: u64,
}

/// What checking a request to merge says.
pub open spec fn merge_request_outcome(target: Seq<char>, source: Seq<char>, message: Seq<char>) -> Result<
    (),
    Fault,
> {
    if !valid_branch(target) || !valid_branch(source) {
        Err(fault(ErrorCode::InvalidBranch, "branch name violates the canonical ref contract"))
    } else if target == source {
        Err(fault(ErrorCode::InvalidRequest, "merge source and target branches must differ"))
    } else if blank(message) {
        Err(fault(ErrorCode::InvalidRequest, "merge message is empty"))
    } else {
        Ok(())
    }
}

/// Checks a request to merge one branch into another.
pub fn check_merge_request(target: &String, source: &String, message: &str) -> (r: Result<(), Error>)
    ensures
        outcome(r) == merge_request_outcome(target@, source@, message@),
{
    if let Err(error) = validate_branch(target) {
        return Err(error);
    }
    if let Err(error) = validate_branch(source) {
        return Err(error);
    }
    if *target == *source {
        return Err(
            Error::new(ErrorCode::InvalidRequest, "merge source and target branches must differ"),
        );
    }
    if is_blank(message) {
        return Err(Error::new(ErrorCode::InvalidRequest, "merge message is empty"));
    }
    Ok(())
}

/// What a merge is asked to do.
#[derive(Debug)]
pub struct MergeRequest {
    pub target_branch: String,
    pub source_branch: String,
    pub ours: CommitId,
    pub theirs: CommitId,
    pub requested_base: Option<CommitId>,
    pub policy: MergePolicy,
    pub message: String,
}

/// Whether a cursor is that of a merge that has just begun.
pub open spec fn begins(
    cursor: MergeCursor,
    repository: RepositoryId,
    job: OperationId,
    operation: OperationId,
    request: MergeRequest,
    now: u64,
    plan_root: RootManifest,
) -> bool {
    cursor == (MergeCursor {
        repository,
        job,
        target_branch: request.target_branch,
        source_branch: request.source_branch,
        ours: request.ours,
        theirs: request.theirs,
        requested_base: request.requested_base,
        selected_base: None,
        policy: request.policy,
        operation,
        message: request.message,
        created_at_millis: now,
        phase: MergePhase::DiscoveringBases,
        plan_root,
        ours_diff: None,
        theirs_diff: None,
        ours_pending: None,
        theirs_pending: None,
        ours_finished: false,
        theirs_finished: false,
        version_diff: None,
        version_diff_finished: false,
        build_after: None,
        final_objects: None,
        final_versions: None,
        delta_root: None,
        visited_commits: 0,
        best_base_count: 0,
        planned_changes: 0,
        conflicts: 0,
        built_changes: 0,
    })
}

/// The error of a requested base that is none of the best.
pub open spec fn not_a_best_base() -> Fault {
    fault(ErrorCode::InvalidRevision, "requested merge base is not a best common ancestor")
}

/// Refuses a base that is not the one that was asked for.
pub fn validate_requested_merge_base(requested: Option<CommitId>, discovered: CommitId) -> (r: Result<
    (),
    Error,
>)
    ensures
        outcome(r) == if requested is Some && requested->0 != discovered {
            Err(not_a_best_base())
        } else {
            Ok::<(), Fault>(())
        },
{
    if let Some(requested) = requested {
        if requested != discovered {
            return Err(
                Error::new(
                    ErrorCode::InvalidRevision,
                    "requested merge base is not a best common ancestor",
                ),
            );
        }
    }
    Ok(())
}

impl Repository {
    /// The cursor of a merge that begins.
    pub fn start_merge(
        &self,
        job: OperationId,
        operation: OperationId,
        request: MergeRequest,
        now: u64,
        plan_root: RootManifest,
    ) -> (r: MergeCursor)
        ensures
            begins(r, self.format.repository_id, job, operation, request, now, plan_root),
    {
        MergeCursor {
            repository: self.format.repository_id,
            job,
            target_branch: request.target_branch,
            source_branch: request.source_branch,
            ours: request.ours,
            theirs: request.theirs,
            requested_base: request.requested_base,
            selected_base: None,
            policy: request.policy,
            operation,
            message: request.message,
            created_at_millis: now,
            phase: MergePhase::DiscoveringBases,
            plan_root,
            ours_diff: None,
            theirs_diff: None,
            ours_pending: None,
            theirs_pending: None,
            ours_finished: false,
            theirs_finished: false,
            version_diff: None,
            version_diff_finished: false,
            build_after: None,
            final_objects: None,
            final_versions: None,
            delta_root: None,
            visited_commits: 0,
            best_base_count: 0,
            planned_changes: 0,
            conflicts: 0,
            built_changes: 0,
        }
    }

    /// Checks what a merge cursor says of itself. Whether the merge's own plan agrees is another
    /// question.
    pub fn validate_merge_cursor(&self, cursor: &MergeCursor) -> (r: Result<(), Error>)
        ensures
            outcome(r) == merge_cursor_outcome(*self, *cursor),
    {
        if let Err(error) = validate_branch(&cursor.target_branch) {
            return Err(error);
        }
        if let Err(error) = validate_branch(&cursor.source_branch) {
            return Err(error);
        }
        if cursor.plan_root.format_digest != self.format.state_tree_digest {
            return Err(
                Error::new(
                    ErrorCode::InvalidContinuationToken,
                    "merge cursor uses another tree format",
                ),
            );
        }
        let discovering = cursor.phase == MergePhase::DiscoveringBases || cursor.phase
            == MergePhase::CollectingBases;
        let selected = cursor.phase == MergePhase::Planning || cursor.phase
            == MergePhase::BuildingVersions || cursor.phase == MergePhase::BuildingObjects
            || cursor.phase == MergePhase::Conflicted || cursor.phase == MergePhase::ReadyToPublish;
        if cursor.repository != self.format.repository_id || cursor.job.is_nil()
            || cursor.operation.is_nil() || cursor.target_branch == cursor.source_branch
            || is_blank(&cursor.message) || (cursor.best_base_count == 0 && !discovering) || (
        cursor.selected_base.is_none() && selected) {
            return Err(
                Error::new(
                    ErrorCode::InvalidContinuationToken,
                    "merge cursor is malformed or belongs to another repository",
                ),
            );
        }
        Ok(())
    }
}

/// Whether a merge in this phase still looks for bases.
pub open spec fn still_discovering(phase: MergePhase) -> bool {
    phase == MergePhase::DiscoveringBases || phase == MergePhase::CollectingBases
}

/// Whether a merge in this phase has chosen its base.
pub open spec fn base_chosen(phase: MergePhase) -> bool {
    !still_discovering(phase) && phase != MergePhase::AwaitingBase
}

/// Whether what a cursor says of itself is consistent, and about this repository.
pub open spec fn merge_cursor_sound(repository: Repository, cursor: MergeCursor) -> bool {
    &&& cursor.repository == repository.format.repository_id
    &&& cursor.job@ != nil_bytes()
    &&& cursor.operation@ != nil_bytes()
    &&& cursor.target_branch@ != cursor.source_branch@
    &&& !blank(cursor.message@)
    &&& still_discovering(cursor.phase) || cursor.best_base_count > 0
    &&& base_chosen(cursor.phase) ==> cursor.selected_base is Some
}

/// What checking a merge cursor says.
pub open spec fn merge_cursor_outcome(repository: Repository, cursor: MergeCursor) -> Result<
    (),
    Fault,
> {
    if !valid_branch(cursor.target_branch@) || !valid_branch(cursor.source_branch@) {
        Err(fault(ErrorCode::InvalidBranch, "branch name violates the canonical ref contract"))
    } else if cursor.plan_root.format_digest != repository.format.state_tree_digest {
        Err(fault(ErrorCode::InvalidContinuationToken, "merge cursor uses another tree format"))
    } else if !merge_cursor_sound(repository, cursor) {
        Err(
            fault(
                ErrorCode::InvalidContinuationToken,
                "merge cursor is malformed or belongs to another repository",
            ),
        )
    } else {
        Ok(())
    }
}

/// The form in which a plan keeps its cursor: without the root that the plan itself has.
pub fn normalized_merge_cursor(cursor: MergeCursor) -> (r: MergeCursor)
    ensures
        r == (MergeCursor {
            plan_root: RootManifest { root: None, ..cursor.plan_root },
            ..cursor
        }),
{
    let mut cursor = cursor;
    cursor.plan_root = RootManifest { root: None, format_digest: cursor.plan_root.format_digest };
    cursor
}

/// Refuses a cursor that is not the one its plan was left with. Both are given by the canonical bytes
/// of their normalized form.
pub fn check_sealed_cursor(stored: Option<&[u8]>, presented: &[u8]) -> (r: Result<(), Error>)
    ensures
        outcome(r) == match stored {
            None => Err(
                fault(
                    ErrorCode::InvalidContinuationToken,
                    "merge cursor is not anchored by its durable plan",
                ),
            ),
            Some(bytes) => if bytes@ == presented@ {
                Ok(())
            } else {
                Err(
                    fault(
                        ErrorCode::InvalidContinuationToken,
                        "merge cursor state disagrees with its durable plan",
                    ),
                )
            },
        },
{
    match stored {
        None => Err(
            Error::new(
                ErrorCode::InvalidContinuationToken,
                "merge cursor is not anchored by its durable plan",
            ),
        ),
        Some(bytes) => {
            if !bytes_eq(bytes, presented) {
                return Err(
                    Error::new(
                        ErrorCode::InvalidContinuationToken,
                        "merge cursor state disagrees with its durable plan",
                    ),
                );
            }
            Ok(())
        },
    }
}

/// The base that one head's history shows without a search: the head that the other one descends from by first
/// parents, ours before theirs.
pub fn fast_base(ours: CommitId, theirs: CommitId, ours_leads: bool, theirs_leads: bool) -> (r: Option<
    CommitId,
>)
    ensures
        r == if ours_leads {
            Some(ours)
        } else if theirs_leads {
            Some(theirs)
        } else {
            None
        },
{
    if ours_leads {
        Some(ours)
    } else if theirs_leads {
        Some(theirs)
    } else {
        None
    }
}

/// Chooses a base that one head's history shows without a search.
pub fn choose_fast_base(cursor: &mut MergeCursor, base: CommitId) -> (r: Result<
    Vec<Mutation<MergeBaseEntry>>,
    Error,
>)
    ensures
        match r {
            Ok(mutations) => {
                &&& !(old(cursor).requested_base is Some && old(cursor).requested_base->0 != base)
                &&& edits(mutations@) == seq![
                    Edit::Upsert {
                        key: base_result_prefix() + base@,
                        val: MergeBaseEntry::Base,
                    },
                ]
                &&& *final(cursor) == (MergeCursor {
                    best_base_count: 1,
                    selected_base: Some(base),
                    phase: MergePhase::Planning,
                    ..*old(cursor)
                })
            },
            Err(error) => old(cursor).requested_base is Some && old(cursor).requested_base->0
                != base && error@ == not_a_best_base() && *final(cursor) == *old(cursor),
        },
{
    if let Err(error) = validate_requested_merge_base(cursor.requested_base, base) {
        return Err(error);
    }
    let mut mutations: Vec<Mutation<MergeBaseEntry>> = Vec::new();
    mutations.push(
        Mutation::Upsert { key: merge_base_result_key(base), val: MergeBaseEntry::Base },
    );
    assert(edits(mutations@) =~= seq![
        Edit::Upsert { key: base_result_prefix() + base@, val: MergeBaseEntry::Base },
    ]);
    cursor.best_base_count = 1;
    cursor.selected_base = Some(base);
    cursor.phase = MergePhase::Planning;
    Ok(mutations)
}

/// Notes that a queued commit was visited.
pub fn count_visit(cursor: &mut MergeCursor) -> (r: Result<(), Error>)
    ensures
        match r {
            Ok(_) => old(cursor).visited_commits < u64::MAX && *final(cursor) == (MergeCursor {
                visited_commits: (old(cursor).visited_commits + 1) as u64,
                ..*old(cursor)
            }),
            Err(error) => old(cursor).visited_commits == u64::MAX && *final(cursor) == *old(cursor)
                && error@ == fault(ErrorCode::InternalInvariant, "merge visited count overflow"),
        },
{
    if cursor.visited_commits == u64::MAX {
        return Err(Error::new(ErrorCode::InternalInvariant, "merge visited count overflow"));
    }
    cursor.visited_commits = cursor.visited_commits + 1;
    Ok(())
}

/// The search is over: go on to collect what it found.
pub fn begin_collection(cursor: &mut MergeCursor)
    ensures
        *final(cursor) == (MergeCursor { phase: MergePhase::CollectingBases, ..*old(cursor) }),
{
    cursor.phase = MergePhase::CollectingBases;
}

/// Takes one candidate of the search: a base if it is not stale.
pub fn collect_merge_base_one(
    cursor: &mut MergeCursor,
    key: &[u8],
    candidate: &MergeBaseCandidate,
) -> (r: Result<Vec<Mutation<MergeBaseEntry>>, Error>)
    ensures
        match r {
            Ok(mutations) => exists|commit: CommitId|
                {
                    &&& key@ == base_candidate_prefix() + #[trigger] commit@
                    &&& edits(mutations@) == collection_edits(commit, candidate.stale)
                    &&& candidate.stale ==> *final(cursor) == *old(cursor)
                    &&& !candidate.stale ==> old(cursor).best_base_count < u64::MAX
                        && *final(cursor) == (MergeCursor {
                        best_base_count: (old(cursor).best_base_count + 1) as u64,
                        ..*old(cursor)
                    })
                },
            Err(error) => *final(cursor) == *old(cursor) && if !has_prefix(
                key@,
                base_candidate_prefix(),
            ) {
                error@ == fault(
                    ErrorCode::CorruptCommit,
                    "merge-state key uses the wrong namespace",
                )
            } else if key@.len() != 34 {
                error@ == fault(
                    ErrorCode::CorruptCommit,
                    "merge-state commit key has the wrong length",
                )
            } else {
                !candidate.stale && old(cursor).best_base_count == u64::MAX && error@ == fault(
                    ErrorCode::InternalInvariant,
                    "best-base count overflow",
                )
            },
        },
{
    let commit = match commit_from_suffix(key, &merge_base_candidate_prefix()) {
        Ok(commit) => commit,
        Err(error) => {
            return Err(error);
        },
    };
    proof {
        assert(key@.subrange(0, 2) =~= base_candidate_prefix());
    }
    let mut mutations: Vec<Mutation<MergeBaseEntry>> = Vec::new();
    mutations.push(Mutation::Delete { key: to_vec(key) });
    assert(edits(mutations@) =~= seq![Edit::<MergeBaseEntry>::Delete { key: key@ }]);
    if !candidate.stale {
        if cursor.best_base_count == u64::MAX {
            return Err(Error::new(ErrorCode::InternalInvariant, "best-base count overflow"));
        }
        mutations.push(
            Mutation::Upsert { key: merge_base_result_key(commit), val: MergeBaseEntry::Base },
        );
        assert(edits(mutations@) =~= seq![
            Edit::Delete { key: key@ },
            Edit::Upsert { key: base_result_prefix() + commit@, val: MergeBaseEntry::Base },
        ]);
        cursor.best_base_count = cursor.best_base_count + 1;
    }
    assert(key@ == base_candidate_prefix() + commit@);
    Ok(mutations)
}

/// Every candidate was taken: the base that was asked for is chosen if it is among the best, the only
/// one is chosen by itself, and of several one must be picked.
pub fn finish_base_collection(
    cursor: &mut MergeCursor,
    requested_is_best: bool,
    first_base: Option<&[u8]>,
) -> (r: Result<(), Error>)
    ensures
        ({
            let before = *old(cursor);
            let after = *final(cursor);
            if before.best_base_count == 0 {
                after == before && outcome(r) == Err::<(), Fault>(
                    fault(ErrorCode::NoMergeBase, "commits have no common ancestor"),
                )
            } else if before.requested_base is Some {
                if requested_is_best {
                    r is Ok && after == (MergeCursor {
                        selected_base: before.requested_base,
                        phase: MergePhase::Planning,
                        ..before
                    })
                } else {
                    after == before && outcome(r) == Err::<(), Fault>(not_a_best_base())
                }
            } else if before.best_base_count > 1 {
                r is Ok && after == (MergeCursor { phase: MergePhase::AwaitingBase, ..before })
            } else if first_base is None {
                after == before && outcome(r) == Err::<(), Fault>(
                    fault(ErrorCode::CorruptCommit, "best-base result is absent"),
                )
            } else {
                match r {
                    Ok(_) => exists|base: CommitId|
                        first_base->0@ == base_result_prefix() + #[trigger] base@ && after == (
                        MergeCursor {
                            selected_base: Some(base),
                            phase: MergePhase::Planning,
                            ..before
                        }),
                    Err(error) => after == before && if !has_prefix(
                        first_base->0@,
                        base_result_prefix(),
                    ) {
                        error@ == fault(
                            ErrorCode::CorruptCommit,
                            "merge-state key uses the wrong namespace",
                        )
                    } else {
                        first_base->0@.len() != 34 && error@ == fault(
                            ErrorCode::CorruptCommit,
                            "merge-state commit key has the wrong length",
                        )
                    },
                }
            }
        }),
{
    if cursor.best_base_count == 0 {
        return Err(Error::new(ErrorCode::NoMergeBase, "commits have no common ancestor"));
    }
    if cursor.requested_base.is_some() {
        if !requested_is_best {
            return Err(
                Error::new(
                    ErrorCode::InvalidRevision,
                    "requested merge base is not a best common ancestor",
                ),
            );
        }
        cursor.selected_base = cursor.requested_base;
        cursor.phase = MergePhase::Planning;
        return Ok(());
    }
    if cursor.best_base_count > 1 {
        cursor.phase = MergePhase::AwaitingBase;
        return Ok(());
    }
    match first_base {
        None => Err(Error::new(ErrorCode::CorruptCommit, "best-base result is absent")),
        Some(key) => match commit_from_suffix(key, &merge_base_result_prefix()) {
            Err(error) => Err(error),
            Ok(base) => {
                assert(key@ == base_result_prefix() + base@);
                cursor.selected_base = Some(base);
                cursor.phase = MergePhase::Planning;
                Ok(())
            },
        },
    }
}

/// Picks one of several best bases.
pub fn select_merge_base(cursor: &mut MergeCursor, base: CommitId, is_best: bool) -> (r: Result<
    (),
    Error,
>)
    ensures
        ({
            let before = *old(cursor);
            let after = *final(cursor);
            if before.phase != MergePhase::AwaitingBase {
                after == before && outcome(r) == Err::<(), Fault>(
                    fault(
                        ErrorCode::PreconditionFailed,
                        "merge is not awaiting an explicit merge base",
                    ),
                )
            } else if !is_best {
                after == before && outcome(r) == Err::<(), Fault>(
                    fault(
                        ErrorCode::InvalidRevision,
                        "selected merge base is not a best common ancestor",
                    ),
                )
            } else {
                r is Ok && after == (MergeCursor {
                    selected_base: Some(base),
                    phase: MergePhase::Planning,
                    ..before
                })
            }
        }),
{
    if cursor.phase != MergePhase::AwaitingBase {
        return Err(
            Error::new(
                ErrorCode::PreconditionFailed,
                "merge is not awaiting an explicit merge base",
            ),
        );
    }
    if !is_best {
        return Err(
            Error::new(
                ErrorCode::InvalidRevision,
                "selected merge base is not a best common ancestor",
            ),
        );
    }
    cursor.selected_base = Some(base);
    cursor.phase = MergePhase::Planning;
    Ok(())
}

/// The differences to plan with: the one that was put back, then those of the next page.
pub fn plan_buffer(pending: Option<Diff>, page: Vec<Diff>) -> (r: Vec<Diff>)
    ensures
        r@ == match pending {
            Some(diff) => seq![diff] + page@,
            None => page@,
        },
{
    match pending {
        None => page,
        Some(diff) => {
            let mut page = page;
            let mut out: Vec<Diff> = Vec::new();
            out.push(diff);
            let ghost whole = page@;
            out.append(&mut page);
            assert(out@ =~= seq![diff] + whole);
            out
        },
    }
}

/// The cursor of a comparison with differences put back in front of those that it still holds.
pub fn structural_cursor_with_pending(
    cursor: Option<DiffCursor>,
    base_root: Option<Cid>,
    other_root: Option<Cid>,
    pending: Vec<Diff>,
) -> (r: Option<DiffCursor>)
    ensures
        if pending@.len() == 0 {
            r == cursor
        } else {
            r matches Some(next) && match cursor {
                Some(before) => next.base_root == before.base_root && next.other_root
                    == before.other_root && next.markers == before.markers && next.pending@
                    == pending@ + before.pending@,
                None => next.base_root == base_root && next.other_root == other_root
                    && next.markers@.len() == 0 && next.pending@ == pending@,
            }
        },
{
    if pending.len() == 0 {
        return cursor;
    }
    let mut cursor = match cursor {
        Some(cursor) => cursor,
        None => DiffCursor { base_root, other_root, markers: Vec::new(), pending: Vec::new() },
    };
    let mut combined = pending;
    let ghost front = combined@;
    let ghost back = cursor.pending@;
    combined.append(&mut cursor.pending);
    assert(combined@ =~= front + back);
    cursor.pending = combined;
    Some(cursor)
}

/// Takes the page of a plan into the cursor. When both comparisons are done, the merge goes on to
/// build, or stops if the two sides are in conflict and the policy is to fail.
pub fn finish_plan_page(
    cursor: &mut MergeCursor,
    planned_changes: u64,
    conflicts: u64,
    ours_diff: Option<DiffCursor>,
    theirs_diff: Option<DiffCursor>,
    ours_state: BucketState,
    empty_delta: RootManifest,
)
    ensures
        ({
            let paged = MergeCursor {
                planned_changes,
                conflicts,
                ours_diff,
                theirs_diff,
                ours_pending: None,
                theirs_pending: None,
                ours_finished: ours_diff is None,
                theirs_finished: theirs_diff is None,
                ..*old(cursor)
            };
            *final(cursor) == if ours_diff is Some || theirs_diff is Some {
                paged
            } else if old(cursor).policy == MergePolicy::Fail && conflicts != 0 {
                MergeCursor { phase: MergePhase::Conflicted, ..paged }
            } else {
                MergeCursor {
                    final_objects: Some(ours_state.objects),
                    final_versions: Some(ours_state.versions),
                    delta_root: Some(empty_delta),
                    phase: MergePhase::BuildingVersions,
                    ..paged
                }
            }
        }),
{
    cursor.planned_changes = planned_changes;
    cursor.conflicts = conflicts;
    cursor.ours_finished = ours_diff.is_none();
    cursor.theirs_finished = theirs_diff.is_none();
    cursor.ours_diff = ours_diff;
    cursor.theirs_diff = theirs_diff;
    cursor.ours_pending = None;
    cursor.theirs_pending = None;
    if cursor.ours_finished && cursor.theirs_finished {
        if cursor.policy == MergePolicy::Fail && cursor.conflicts != 0 {
            cursor.phase = MergePhase::Conflicted;
        } else {
            cursor.final_objects = Some(ours_state.objects);
            cursor.final_versions = Some(ours_state.versions);
            cursor.delta_root = Some(empty_delta);
            cursor.phase = MergePhase::BuildingVersions;
        }
    }
}

/// The versions that only the other side has, out of the differences between the two version trees.
pub open spec fn union_edits(diffs: Seq<Diff>) -> Seq<Edit<Vec<u8>>>
    decreases diffs.len(),
{
    if diffs.len() == 0 {
        Seq::empty()
    } else {
        match diffs.last() {
            Diff::Added { key, val } => union_edits(diffs.drop_last()).push(
                Edit::Upsert { key: key@, val },
            ),
            _ => union_edits(diffs.drop_last()),
        }
    }
}

/// What must be added to a version tree so that it holds the versions of another too. A key that
/// both hold with different versions is an error: versions never change.
pub fn version_union(diffs: Vec<Diff>, disagreement: &str) -> (r: Result<Vec<Mutation<Vec<u8>>>, Error>)
    ensures
        match r {
            Ok(mutations) => {
                &&& forall|i: int| 0 <= i < diffs@.len() ==> !(#[trigger] diffs@[i] is Changed)
                &&& edits(mutations@) == union_edits(diffs@)
            },
            Err(error) => {
                &&& exists|i: int| 0 <= i < diffs@.len() && #[trigger] diffs@[i] is Changed
                &&& error@ == fault(ErrorCode::CorruptCommit, disagreement)
            },
        },
{
    let mut mutations: Vec<Mutation<Vec<u8>>> = Vec::new();
    let ghost all = diffs@;
    assert(edits(mutations@) =~= Seq::<Edit<Vec<u8>>>::empty());
    assert(all.take(0) =~= Seq::<Diff>::empty());
    for diff in it: diffs
        invariant
            it.seq() == all,
            edits(mutations@) == union_edits(all.take(it.index())),
            forall|i: int| 0 <= i < it.index() ==> !(#[trigger] all[i] is Changed),
    {
        let ghost n = it.index();
        proof {
            assert(all[n] == diff);
            assert(all.take(n + 1).drop_last() =~= all.take(n));
            assert(all.take(n + 1).last() == diff);
        }
        match diff {
            Diff::Added { key, val } => {
                let m = Mutation::Upsert { key, val };
                proof {
                    lemma_edits_push(mutations@, m);
                }
                mutations.push(m);
            },
            Diff::Removed { .. } => {},
            Diff::Changed { .. } => {
                assert(all[n] is Changed);
                return Err(Error::new(ErrorCode::CorruptCommit, disagreement));
            },
        }
    }
    assert(all.take(all.len() as int) =~= all);
    Ok(mutations)
}

/// What must be added to our version tree so that it holds the versions of both sides.
pub fn advance_merge_version_union(diffs: Vec<Diff>) -> (r: Result<Vec<Mutation<Vec<u8>>>, Error>)
    ensures
        match r {
            Ok(mutations) => {
                &&& forall|i: int| 0 <= i < diffs@.len() ==> !(#[trigger] diffs@[i] is Changed)
                &&& edits(mutations@) == union_edits(diffs@)
            },
            Err(error) => {
                &&& exists|i: int| 0 <= i < diffs@.len() && #[trigger] diffs@[i] is Changed
                &&& error@ == fault(
                    ErrorCode::CorruptCommit,
                    "same version-tree key has unequal immutable values",
                )
            },
        },
{
    version_union(diffs, "same version-tree key has unequal immutable values")
}

/// Whether a list of differences is what turns one version tree into another: it names each key that
/// only one of them holds, or that they hold with different values, and no other.
pub open spec fn differs_by(
    ours: Map<Seq<u8>, Seq<u8>>,
    theirs: Map<Seq<u8>, Seq<u8>>,
    diffs: Seq<Diff>,
) -> bool {
    &&& forall|i: int|
        0 <= i < diffs.len() ==> match #[trigger] diffs[i] {
            Diff::Added { key, val } => !ours.contains_key(key@) && theirs.contains_key(key@)
                && theirs[key@] == val@,
            Diff::Removed { key, val } => ours.contains_key(key@) && !theirs.contains_key(key@),
            Diff::Changed { key, old, new } => ours.contains_key(key@) && theirs.contains_key(key@)
                && ours[key@] != theirs[key@],
        }
    &&& forall|key: Seq<u8>|
        #![trigger ours.contains_key(key)]
        #![trigger theirs.contains_key(key)]
        ours.contains_key(key) != theirs.contains_key(key) || (ours.contains_key(key) && ours[key]
            != theirs[key]) ==> exists|i: int|
            0 <= i < diffs.len() && (#[trigger] diffs[i])@.key == key
}

/// A tree whose values are taken by their bytes.
pub open spec fn bytes_tree(tree: Map<Seq<u8>, Vec<u8>>) -> Map<Seq<u8>, Seq<u8>> {
    tree.map_values(|val: Vec<u8>| val@)
}

proof fn lemma_union_at(tree: Map<Seq<u8>, Vec<u8>>, diffs: Seq<Diff>, key: Seq<u8>)
    ensures
        ({
            let after = applied(tree, union_edits(diffs));
            if exists|i: int| 0 <= i < diffs.len() && adds(#[trigger] diffs[i], key) {
                after.contains_key(key) && exists|i: int|
                    0 <= i < diffs.len() && adds(#[trigger] diffs[i], key) && after[key]
                        == diffs[i]->Added_val
            } else {
                after.contains_key(key) == tree.contains_key(key) && (tree.contains_key(key)
                    ==> after[key] == tree[key])
            }
        }),
    decreases diffs.len(),
{
    if diffs.len() > 0 {
        let before = diffs.drop_last();
        lemma_union_at(tree, before, key);
        let last = diffs[diffs.len() - 1];
        let some = exists|i: int| 0 <= i < diffs.len() && adds(#[trigger] diffs[i], key);
        let some_before = exists|i: int| 0 <= i < before.len() && adds(#[trigger] before[i], key);
        if some_before {
            let i = choose|i: int|
                0 <= i < before.len() && adds(#[trigger] before[i], key) && applied(
                    tree,
                    union_edits(before),
                )[key] == before[i]->Added_val;
            assert(adds(diffs[i], key));
        }
        if some && !adds(last, key) {
            let i = choose|i: int| 0 <= i < diffs.len() && adds(#[trigger] diffs[i], key);
            assert(adds(before[i], key));
        }
        if last is Added {
            let edit: Edit<Vec<u8>> = Edit::Upsert { key: last->Added_key@, val: last->Added_val };
            let all = union_edits(diffs);
            assert(all.drop_last() =~= union_edits(before));
            assert(all.last() == edit);
        }
    }
}

/// Whether a difference adds a key.
pub open spec fn adds(diff: Diff, key: Seq<u8>) -> bool {
    diff matches Diff::Added { key: k, val } && k@ == key
}

/// Where no key is held with different values, the union holds what either tree holds, and nothing
/// else: every version of both sides is kept.
pub proof fn law_union_holds_both_sides(
    ours: Map<Seq<u8>, Vec<u8>>,
    theirs: Map<Seq<u8>, Seq<u8>>,
    diffs: Seq<Diff>,
)
    requires
        differs_by(bytes_tree(ours), theirs, diffs),
        forall|i: int| 0 <= i < diffs.len() ==> !(#[trigger] diffs[i] is Changed),
    ensures
        bytes_tree(applied(ours, union_edits(diffs))) == bytes_tree(ours).union_prefer_right(theirs),
{
    let after = bytes_tree(applied(ours, union_edits(diffs)));
    let before = bytes_tree(ours);
    let both = before.union_prefer_right(theirs);
    assert forall|key: Seq<u8>|
        #![trigger after.contains_key(key)]
        #![trigger both.contains_key(key)]
        after.contains_key(key) == both.contains_key(key) && (after.contains_key(key) ==> after[key]
            == both[key]) by {
        lemma_union_at(ours, diffs, key);
        assert(before.contains_key(key) == ours.contains_key(key));
        if exists|i: int| 0 <= i < diffs.len() && adds(#[trigger] diffs[i], key) {
            let i = choose|i: int|
                0 <= i < diffs.len() && adds(#[trigger] diffs[i], key) && applied(
                    ours,
                    union_edits(diffs),
                )[key] == diffs[i]->Added_val;
            assert(theirs.contains_key(key));
        } else if theirs.contains_key(key) {
            if !before.contains_key(key) || before[key] != theirs[key] {
                let i = choose|i: int| 0 <= i < diffs.len() && (#[trigger] diffs[i])@.key == key;
                assert(!(diffs[i] is Changed));
                assert(adds(diffs[i], key));
            }
        }
    }
    assert(after =~= both);
}

/// Takes a page of the version union into the cursor.
pub fn finish_union_page(
    cursor: &mut MergeCursor,
    versions: Option<RootManifest>,
    next: Option<DiffCursor>,
)
    ensures
        ({
            let before = *old(cursor);
            let paged = MergeCursor {
                final_versions: if versions is Some {
                    versions
                } else {
                    before.final_versions
                },
                version_diff: next,
                ..before
            };
            *final(cursor) == if next is Some {
                paged
            } else {
                MergeCursor {
                    version_diff_finished: true,
                    phase: MergePhase::BuildingObjects,
                    build_after: None,
                    ..paged
                }
            }
        }),
{
    if versions.is_some() {
        cursor.final_versions = versions;
    }
    let done = next.is_none();
    cursor.version_diff = next;
    if done {
        cursor.version_diff_finished = true;
        cursor.phase = MergePhase::BuildingObjects;
        cursor.build_after = None;
    }
}

/// The changes that taking one candidate makes.
pub open spec fn collection_edits(commit: CommitId, stale: bool) -> Seq<Edit<MergeBaseEntry>> {
    let taken = Edit::<MergeBaseEntry>::Delete { key: base_candidate_prefix() + commit@ };
    if stale {
        seq![taken]
    } else {
        seq![
            taken,
            Edit::Upsert { key: base_result_prefix() + commit@, val: MergeBaseEntry::Base },
        ]
    }
}

/// The tree of a search after some candidates were taken, each with whether it is stale.
pub open spec fn collected(
    tree: Map<Seq<u8>, MergeBaseEntry>,
    candidates: Seq<(CommitId, bool)>,
) -> Map<Seq<u8>, MergeBaseEntry>
    decreases candidates.len(),
{
    if candidates.len() == 0 {
        tree
    } else {
        let last = candidates.last();
        applied(collected(tree, candidates.drop_last()), collection_edits(last.0, last.1))
    }
}

/// The candidates that are bases, in their order.
pub open spec fn bases_of(candidates: Seq<(CommitId, bool)>) -> Seq<CommitId>
    decreases candidates.len(),
{
    if candidates.len() == 0 {
        Seq::empty()
    } else if candidates.last().1 {
        bases_of(candidates.drop_last())
    } else {
        bases_of(candidates.drop_last()).push(candidates.last().0)
    }
}

proof fn lemma_collection_edits(tree: Map<Seq<u8>, MergeBaseEntry>, commit: CommitId, stale: bool)
    ensures
        forall|c: CommitId|
            #![trigger base_result_prefix() + c@]
            applied(tree, collection_edits(commit, stale)).contains_key(base_result_prefix() + c@)
                <==> tree.contains_key(base_result_prefix() + c@) || (!stale && c == commit),
{
    let taken = Edit::<MergeBaseEntry>::Delete { key: base_candidate_prefix() + commit@ };
    let found = Edit::Upsert { key: base_result_prefix() + commit@, val: MergeBaseEntry::Base };
    assert(seq![taken].drop_last() =~= Seq::<Edit<MergeBaseEntry>>::empty());
    assert(seq![taken, found].drop_last() =~= seq![taken]);
    reveal_with_fuel(applied, 3);
    assert forall|c: CommitId|
        #![trigger base_result_prefix() + c@]
        applied(tree, collection_edits(commit, stale)).contains_key(base_result_prefix() + c@)
            <==> tree.contains_key(base_result_prefix() + c@) || (!stale && c == commit) by {
        law_namespaces_are_disjoint(commit@, c@);
        law_commit_keys_are_distinct(base_result_prefix(), c, commit);
    }
}

/// Once every candidate was taken, the bases that are kept are those of the candidates that are not stale,
/// each under its own key, and as many as were counted.
pub proof fn law_collection_keeps_every_base_once(
    tree: Map<Seq<u8>, MergeBaseEntry>,
    candidates: Seq<(CommitId, bool)>,
)
    requires
        forall|c: CommitId| !tree.contains_key(#[trigger] (base_result_prefix() + c@)),
        forall|i: int, j: int|
            0 <= i < j < candidates.len() ==> (#[trigger] candidates[i]).0 != (
            #[trigger] candidates[j]).0,
    ensures
        bases_of(candidates).no_duplicates(),
        forall|c: CommitId| #[trigger]
            bases_of(candidates).contains(c) <==> candidates.contains((c, false)),
        forall|c: CommitId|
            #![trigger base_result_prefix() + c@]
            collected(tree, candidates).contains_key(base_result_prefix() + c@) <==> bases_of(
                candidates,
            ).contains(c),
    decreases candidates.len(),
{
    if candidates.len() > 0 {
        let fewer = candidates.drop_last();
        let last = candidates.last();
        let n = fewer.len() as int;
        assert forall|i: int, j: int| 0 <= i < j < fewer.len() implies (#[trigger] fewer[i]).0 != (
        #[trigger] fewer[j]).0 by {
            assert(fewer[i] == candidates[i] && fewer[j] == candidates[j]);
        }
        law_collection_keeps_every_base_once(tree, fewer);
        lemma_collection_edits(collected(tree, fewer), last.0, last.1);
        let before = bases_of(fewer);
        let after = bases_of(candidates);
        assert(!fewer.contains((last.0, false))) by {
            if fewer.contains((last.0, false)) {
                let i = choose|i: int| 0 <= i < fewer.len() && fewer[i] == (last.0, false);
                assert(candidates[i].0 != candidates[n].0);
            }
        }
        assert(!before.contains(last.0));
        assert forall|c: CommitId| #[trigger] after.contains(c) <==> candidates.contains((c, false)) by {
            if after.contains(c) {
                let k = choose|k: int| 0 <= k < after.len() && after[k] == c;
                if !last.1 && k == before.len() {
                    assert(candidates[n] == (c, false));
                } else {
                    assert(before[k] == c);
                    assert(before.contains(c));
                    let i = choose|i: int| 0 <= i < fewer.len() && fewer[i] == (c, false);
                    assert(candidates[i] == (c, false));
                }
            }
            if candidates.contains((c, false)) {
                let i = choose|i: int| 0 <= i < candidates.len() && candidates[i] == (c, false);
                if i < n {
                    assert(fewer[i] == (c, false));
                    assert(fewer.contains((c, false)));
                    assert(before.contains(c));
                    let k = choose|k: int| 0 <= k < before.len() && before[k] == c;
                    assert(after[k] == c);
                } else {
                    assert(after[before.len() as int] == c);
                }
            }
        }
        assert forall|c: CommitId|
            #![trigger base_result_prefix() + c@]
            collected(tree, candidates).contains_key(base_result_prefix() + c@) <==> after.contains(
                c,
            ) by {
            assert(collected(tree, fewer).contains_key(base_result_prefix() + c@) <==> before.contains(
                c,
            ));
            if before.contains(c) {
                let k = choose|k: int| 0 <= k < before.len() && before[k] == c;
                assert(after[k] == c);
            }
            if after.contains(c) && !before.contains(c) {
                let k = choose|k: int| 0 <= k < after.len() && after[k] == c;
                if k < before.len() {
                    assert(before[k] == c);
                }
            }
            if !last.1 {
                assert(after[before.len() as int] == last.0);
            }
        }
    }
}

/// The bases that a finished search comes to are the best common ancestors, each once; their number is the
/// number that is counted.
pub proof fn law_bases_are_the_best_common_ancestors(
    state: SearchState,
    ours: CommitId,
    theirs: CommitId,
    parents: spec_fn(CommitId) -> Seq<CommitId>,
    tree: Map<Seq<u8>, MergeBaseEntry>,
    candidates: Seq<(CommitId, bool)>,
    c: CommitId,
)
    requires
        search_invariant(state, ours, theirs, parents),
        state.queue == Set::<CommitId>::empty(),
        forall|commit: CommitId| !tree.contains_key(#[trigger] (base_result_prefix() + commit@)),
        forall|i: int, j: int|
            0 <= i < j < candidates.len() ==> (#[trigger] candidates[i]).0 != (
            #[trigger] candidates[j]).0,
        forall|commit: CommitId, stale: bool| #[trigger]
            candidates.contains((commit, stale)) <==> state.candidates.contains_pair(commit, stale),
    ensures
        bases_of(candidates).no_duplicates(),
        bases_of(candidates).contains(c) <==> is_best_base(parents, ours, theirs, c),
        collected(tree, candidates).contains_key(base_result_prefix() + c@) <==> is_best_base(
            parents,
            ours,
            theirs,
            c,
        ),
{
    law_collection_keeps_every_base_once(tree, candidates);
    law_search_finds_every_best_base(state, ours, theirs, parents, c);
    assert(bases_of(candidates).contains(c) <==> candidates.contains((c, false)));
    assert(collected(tree, candidates).contains_key(base_result_prefix() + c@) <==> bases_of(
        candidates,
    ).contains(c));
}

/// A merge is asked for exactly where both branches can be, are not the same, and there is something to say of it.
pub proof fn law_merge_is_between_two_branches(target: Seq<char>, source: Seq<char>, message: Seq<char>)
    ensures
        merge_request_outcome(target, source, message) is Ok <==> valid_branch(target) && valid_branch(
            source,
        ) && target != source && !blank(message),
{
}

/// A merge that begins holds what was asked for: both branches and where they stand, the base if one was named, the
/// policy and the message. It has chosen no base, found nothing and counted nothing, and begins with the search for
/// bases.
pub proof fn law_merge_begins_with_what_was_asked(
    cursor: MergeCursor,
    repository: RepositoryId,
    job: OperationId,
    operation: OperationId,
    request: MergeRequest,
    now: u64,
    plan_root: RootManifest,
)
    requires
        begins(cursor, repository, job, operation, request, now, plan_root),
    ensures
        cursor.repository == repository,
        cursor.job == job,
        cursor.operation == operation,
        cursor.target_branch == request.target_branch,
        cursor.source_branch == request.source_branch,
        cursor.ours == request.ours,
        cursor.theirs == request.theirs,
        cursor.requested_base == request.requested_base,
        cursor.policy == request.policy,
        cursor.message == request.message,
        cursor.created_at_millis == now,
        cursor.plan_root == plan_root,
        cursor.phase == MergePhase::DiscoveringBases,
        cursor.selected_base is None,
        cursor.ours_pending is None && cursor.theirs_pending is None,
        !cursor.ours_finished && !cursor.theirs_finished && !cursor.version_diff_finished,
        cursor.final_objects is None && cursor.final_versions is None && cursor.delta_root is None,
        cursor.visited_commits == 0 && cursor.best_base_count == 0 && cursor.planned_changes == 0,
        cursor.conflicts == 0 && cursor.built_changes == 0,
{
}

/// A merge goes on with a cursor exactly where it is of this repository and its tree format, is between two different
/// branches, is named and has a message, and has found a base before it waits for one and chosen one before it plans.
pub proof fn law_merge_goes_on_with_its_own_cursor(repository: Repository, cursor: MergeCursor)
    ensures
        merge_cursor_outcome(repository, cursor) is Ok <==> {
            let searching = cursor.phase == MergePhase::DiscoveringBases || cursor.phase
                == MergePhase::CollectingBases;
            &&& valid_branch(cursor.target_branch@) && valid_branch(cursor.source_branch@)
            &&& cursor.plan_root.format_digest == repository.format.state_tree_digest
            &&& cursor.repository == repository.format.repository_id
            &&& cursor.job@ != nil_bytes()
            &&& cursor.operation@ != nil_bytes()
            &&& cursor.target_branch@ != cursor.source_branch@
            &&& !blank(cursor.message@)
            &&& !searching ==> cursor.best_base_count > 0
            &&& !searching && cursor.phase != MergePhase::AwaitingBase ==> cursor.selected_base is Some
        },
{
}

/// A union of versions only adds: each version that the other side has and we lack is written as it is there, and
/// nothing is written that the other side did not add.
pub proof fn law_union_adds_what_is_missing(diffs: Seq<Diff>)
    ensures
        forall|i: int|
            0 <= i < diffs.len() ==> (#[trigger] diffs[i] matches Diff::Added { key, val } ==> union_edits(
                diffs,
            ).contains(Edit::Upsert { key: key@, val })),
        forall|k: int|
            0 <= k < union_edits(diffs).len() ==> (#[trigger] union_edits(diffs)[k]) is Upsert && exists|
                i: int,
            |
                0 <= i < diffs.len() && (#[trigger] diffs[i]) is Added && diffs[i]->Added_key@
                    == union_edits(diffs)[k]->Upsert_key && diffs[i]->Added_val == union_edits(
                    diffs,
                )[k]->val,
    decreases diffs.len(),
{
    if diffs.len() > 0 {
        let fewer = diffs.drop_last();
        let n = fewer.len() as int;
        let before = union_edits(fewer);
        let after = union_edits(diffs);
        law_union_adds_what_is_missing(fewer);
        assert forall|i: int| 0 <= i < diffs.len() implies (#[trigger] diffs[i] matches Diff::Added {
            key,
            val,
        } ==> after.contains(Edit::Upsert { key: key@, val })) by {
            if diffs[i] is Added {
                let edit = Edit::Upsert { key: diffs[i]->Added_key@, val: diffs[i]->Added_val };
                if i < n {
                    assert(fewer[i] == diffs[i]);
                    assert(before.contains(edit));
                    let k = before.index_of(edit);
                    assert(after[k] == edit);
                } else {
                    assert(after[before.len() as int] == edit);
                }
            }
        }
        assert forall|k: int| 0 <= k < after.len() implies (#[trigger] after[k]) is Upsert && exists|
            i: int,
        |
            0 <= i < diffs.len() && (#[trigger] diffs[i]) is Added && diffs[i]->Added_key@
                == after[k]->Upsert_key && diffs[i]->Added_val == after[k]->val by {
            if k < before.len() {
                assert(after[k] == before[k]);
                let i = choose|i: int|
                    0 <= i < fewer.len() && (#[trigger] fewer[i]) is Added && fewer[i]->Added_key@
                        == before[k]->Upsert_key && fewer[i]->Added_val == before[k]->val;
                assert(diffs[i] == fewer[i]);
            } else {
                assert(diffs[n] is Added);
            }
        }
    }
}

} // verus!
