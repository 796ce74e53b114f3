//! The log of a branch: first parents, newest first, in pages that keep to a budget.
use crate::error::{fault, outcome, Error, ErrorCode, Fault};
use crate::ids::{CommitId, RepositoryId};
use crate::model::BucketCommit;
use crate::repository::Repository;
use crate::text::{valid_branch, validate_branch};
use vstd::prelude::*;

verus! {

/// How much a walk may do.
#[derive(Clone, Copy, Debug, PartialEq, Eq, Structural)]
pub struct TraversalBudget {
    pub max_commits: usize,
    pub max_decoded_bytes: u64,
    pub max_elapsed_nanos: u128,
}

impl Default for TraversalBudget {
    fn default() -> (r: Self)
        ensures
            r.max_commits == 10_000,
            r.max_decoded_bytes == 64 * 1024 * 1024,
            r.max_elapsed_nanos == 30 * 1_000_000_000,
    {
        TraversalBudget {
            max_commits: 10_000,
            max_decoded_bytes: 67_108_864,
            max_elapsed_nanos: 30_000_000_000,
        }
    }
}

/// Where a log stands.
#[derive(Clone, Debug, PartialEq, Eq)]
pub struct HistoryCursor {
    pub repository: RepositoryId,
    pub branch: String,
    pub root: CommitId,
    pub next: CommitId,
}

/// One page of a log.
#[derive(Clone, Debug, PartialEq, Eq)]
pub struct CommitPage {
    pub commits: Vec<(CommitId, BucketCommit)>,
    pub continuation: Option<HistoryCursor>,
    pub visited_commits: usize,
    pub decoded_bytes: u64,
    pub budget_exhausted: bool,
}

/// A page of a log in the making. `current` is the commit to be read next.
#[derive(Debug)]
pub struct HistoryRun {
    pub repository: RepositoryId,
    pub branch: String,
    pub root: CommitId,
    pub current: CommitId,
    pub limit: usize,
    pub budget: TraversalBudget,
    pub commits: Vec<(CommitId, BucketCommit)>,
    pub decoded_bytes: u64,
}

/// What a page does next.
#[derive(Clone, Copy, Debug, PartialEq, Eq, Structural)]
pub enum HistoryGate {
    /// Read the current commit.
    Read,
    /// The page is full.
    Full,
    /// The budget is used up.
    Exhausted,
}

/// What became of a commit that was read.
#[derive(Clone, Copy, Debug, PartialEq, Eq, Structural)]
pub enum HistoryStep {
    /// It is part of the page, and its first parent comes next.
    Onward,
    /// It is part of the page, and it has no parent.
    Root,
    /// It does not fit into the budget any more.
    Exhausted,
}

/// Whether a cursor continues this log.
pub open spec fn continues_log(
    repository: RepositoryId,
    branch: Seq<char>,
    start: CommitId,
    cursor: HistoryCursor,
) -> bool {
    cursor.repository == repository && cursor.branch@ == branch && cursor.root == start
}

/// Whether each commit of a list is the first parent of the one before it.
pub open spec fn first_parent_chain(commits: Seq<(CommitId, BucketCommit)>) -> bool {
    forall|i: int|
        0 < i < commits.len() ==> commits[i - 1].1.parents@.len() > 0 && (#[trigger] commits[i]).0
            == commits[i - 1].1.parents@[0]
}

impl HistoryRun {
    /// Whether the page is a chain from where it began, and `current` continues it.
    pub open spec fn follows(&self, start: CommitId) -> bool {
        &&& first_parent_chain(self.commits@)
        &&& self.commits@.len() == 0 ==> self.current == start
        &&& self.commits@.len() > 0 ==> self.commits@[0].0 == start
            && self.commits@.last().1.parents@.len() > 0 && self.current
            == self.commits@.last().1.parents@[0]
    }

    /// Says whether the current commit may be read.
    pub fn gate(&self, elapsed_nanos: u128) -> (r: HistoryGate)
        ensures
            r == if self.commits@.len() >= self.limit {
                HistoryGate::Full
            } else if self.commits@.len() >= self.budget.max_commits || elapsed_nanos
                >= self.budget.max_elapsed_nanos {
                HistoryGate::Exhausted
            } else {
                HistoryGate::Read
            },
    {
        if self.commits.len() >= self.limit {
            return HistoryGate::Full;
        }
        if self.commits.len() >= self.budget.max_commits || elapsed_nanos
            >= self.budget.max_elapsed_nanos {
            return HistoryGate::Exhausted;
        }
        HistoryGate::Read
    }

    /// Takes the current commit, whose encoding has `encoded_len` bytes.
    pub fn take(&mut self, commit: BucketCommit, encoded_len: u64) -> (r: Result<HistoryStep, Error>)
        ensures
            ({
                let before = *old(self);
                let sum = before.decoded_bytes + encoded_len;
                let most = before.budget.max_decoded_bytes;
                if sum > most && most < u64::MAX && before.commits@.len() == 0 {
                    outcome(r) == Err::<HistoryStep, Fault>(
                        fault(ErrorCode::InvalidLimit, "history byte budget cannot hold one commit"),
                    ) && *final(self) == before
                } else if sum > most && most < u64::MAX {
                    r == Ok::<HistoryStep, Error>(HistoryStep::Exhausted) && *final(self) == before
                } else if sum > u64::MAX {
                    outcome(r) == Err::<HistoryStep, Fault>(
                        fault(ErrorCode::EntityTooLarge, "history byte counter overflow"),
                    ) && *final(self) == before
                } else {
                    let parents = commit.parents@;
                    &&& r == Ok::<HistoryStep, Error>(
                        if parents.len() > 0 {
                            HistoryStep::Onward
                        } else {
                            HistoryStep::Root
                        },
                    )
                    &&& final(self).commits@ == before.commits@.push((before.current, commit))
                    &&& *final(self) == (HistoryRun {
                        commits: final(self).commits,
                        decoded_bytes: sum as u64,
                        current: if parents.len() > 0 {
                            parents[0]
                        } else {
                            before.current
                        },
                        ..before
                    })
                }
            }),
            forall|start: CommitId| #[trigger]
                old(self).follows(start) && r == Ok::<HistoryStep, Error>(HistoryStep::Onward)
                    ==> final(self).follows(start),
            forall|start: CommitId| #[trigger]
                old(self).follows(start) && r == Ok::<HistoryStep, Error>(HistoryStep::Root)
                    ==> first_parent_chain(final(self).commits@) && final(self).commits@[0].0
                    == start,
    {
        let over = match self.decoded_bytes.checked_add(encoded_len) {
            None => self.budget.max_decoded_bytes < 0xffff_ffff_ffff_ffff,
            Some(sum) => sum > self.budget.max_decoded_bytes,
        };
        if over {
            if self.commits.len() == 0 {
                return Err(
                    Error::new(
                        ErrorCode::InvalidLimit,
                        "history byte budget cannot hold one commit",
                    ),
                );
            }
            return Ok(HistoryStep::Exhausted);
        }
        let sum: u64 = match self.decoded_bytes.checked_add(encoded_len) {
            None => {
                return Err(
                    Error::new(ErrorCode::EntityTooLarge, "history byte counter overflow"),
                );
            },
            Some(sum) => sum,
        };
        let parent = if commit.parents.len() > 0 {
            Some(commit.parents[0])
        } else {
            None
        };
        self.decoded_bytes = sum;
        self.commits.push((self.current, commit));
        match parent {
            None => Ok(HistoryStep::Root),
            Some(id) => {
                self.current = id;
                Ok(HistoryStep::Onward)
            },
        }
    }

    /// Ends the page. `ended` says that the log has no further commit.
    pub fn finish(self, ended: bool, budget_exhausted: bool) -> (r: CommitPage)
        ensures
            r.commits == self.commits,
            match r.continuation {
                None => ended,
                Some(cursor) => !ended && continues_log(
                    self.repository,
                    self.branch@,
                    self.root,
                    cursor,
                ) && cursor.next == self.current,
            },
            r.visited_commits == self.commits@.len(),
            r.decoded_bytes == self.decoded_bytes,
            r.budget_exhausted == budget_exhausted,
    {
        let visited_commits: usize = self.commits.len();
        let continuation = if ended {
            None
        } else {
            Some(
                HistoryCursor {
                    repository: self.repository,
                    branch: self.branch,
                    root: self.root,
                    next: self.current,
                },
            )
        };
        CommitPage {
            commits: self.commits,
            continuation,
            visited_commits,
            decoded_bytes: self.decoded_bytes,
            budget_exhausted,
        }
    }
}

/// What a log begins with: a page to fill, or one that is empty because nothing may be listed.
#[derive(Debug)]
pub enum HistoryStart {
    Run(HistoryRun),
    Nothing(CommitPage),
}

impl Repository {
    /// Begins a page of the log that leads from `start`.
    pub fn log_page_bounded(
        &self,
        branch: &str,
        start: CommitId,
        cursor: Option<&HistoryCursor>,
        requested_limit: usize,
        budget: TraversalBudget,
    ) -> (r: Result<HistoryStart, Error>)
        ensures
            ({
                let most = self.format.canonical_limits.max_list_page as usize;
                let limit = if requested_limit < most {
                    requested_limit
                } else {
                    most
                };
                let first = match cursor {
                    Some(at) => at.next,
                    None => start,
                };
                if !valid_branch(branch@) {
                    r matches Err(error) && error@ == fault(
                        ErrorCode::InvalidBranch,
                        "branch name violates the canonical ref contract",
                    )
                } else if budget.max_commits == 0 || budget.max_decoded_bytes == 0
                    || budget.max_elapsed_nanos == 0 {
                    r matches Err(error) && error@ == fault(
                        ErrorCode::InvalidLimit,
                        "history traversal budgets must be greater than zero",
                    )
                } else if cursor is Some && !continues_log(
                    self.format.repository_id,
                    branch@,
                    start,
                    *cursor->0,
                ) {
                    r matches Err(error) && error@ == fault(
                        ErrorCode::InvalidContinuationToken,
                        "history cursor belongs to another repository, branch, or root",
                    )
                } else if limit == 0 {
                    r matches Ok(HistoryStart::Nothing(page)) && page.commits@.len() == 0
                        && page.visited_commits == 0 && page.decoded_bytes == 0
                        && !page.budget_exhausted && match cursor {
                        None => page.continuation is None,
                        Some(at) => page.continuation == Some(*at),
                    }
                } else {
                    r matches Ok(HistoryStart::Run(run)) && run.repository
                        == self.format.repository_id && run.branch@ == branch@ && run.root == start
                        && run.current == first && run.limit == limit && run.budget == budget
                        && run.commits@.len() == 0 && run.decoded_bytes == 0 && run.follows(first)
                }
            }),
    {
        if let Err(error) = validate_branch(branch) {
            return Err(error);
        }
        if budget.max_commits == 0 || budget.max_decoded_bytes == 0 || budget.max_elapsed_nanos
            == 0 {
            return Err(
                Error::new(
                    ErrorCode::InvalidLimit,
                    "history traversal budgets must be greater than zero",
                ),
            );
        }
        if let Some(at) = cursor {
            if at.repository != self.format.repository_id || at.branch != branch.to_owned()
                || at.root != start {
                return Err(
                    Error::new(
                        ErrorCode::InvalidContinuationToken,
                        "history cursor belongs to another repository, branch, or root",
                    ),
                );
            }
        }
        let most: usize = self.format.canonical_limits.max_list_page as usize;
        let limit: usize = if requested_limit < most {
            requested_limit
        } else {
            most
        };
        if limit == 0 {
            let continuation = match cursor {
                None => None,
                Some(at) => Some(
                    HistoryCursor {
                        repository: at.repository,
                        branch: at.branch.clone(),
                        root: at.root,
                        next: at.next,
                    },
                ),
            };
            return Ok(
                HistoryStart::Nothing(
                    CommitPage {
                        commits: Vec::new(),
                        continuation,
                        visited_commits: 0,
                        decoded_bytes: 0,
                        budget_exhausted: false,
                    },
                ),
            );
        }
        let current = match cursor {
            Some(at) => at.next,
            None => start,
        };
        Ok(
            HistoryStart::Run(
                HistoryRun {
                    repository: self.format.repository_id,
                    branch: branch.to_owned(),
                    root: start,
                    current,
                    limit,
                    budget,
                    commits: Vec::new(),
                    decoded_bytes: 0,
                },
            ),
        )
    }
}

/// Pages of a log join without a gap or a repetition: where one page follows from `start` and leads to
/// `next`, and the other follows from `next`, both together follow from `start`.
pub proof fn law_log_pages_join(a: HistoryRun, b: HistoryRun, start: CommitId)
    requires
        a.follows(start),
        b.follows(a.current),
        a.commits@.len() > 0,
        b.commits@.len() > 0,
    ensures
        first_parent_chain(a.commits@ + b.commits@),
        (a.commits@ + b.commits@)[0].0 == start,
{
    let all = a.commits@ + b.commits@;
    assert forall|i: int| 0 < i < all.len() implies all[i - 1].1.parents@.len() > 0 && (
    #[trigger] all[i]).0 == all[i - 1].1.parents@[0] by {
        let n = a.commits@.len();
        if i < n {
            assert(all[i] == a.commits@[i]);
        } else if i == n {
            assert(all[i] == b.commits@[0]);
            assert(all[i - 1] == a.commits@.last());
        } else {
            assert(all[i] == b.commits@[i - n]);
            assert(all[i - 1] == b.commits@[i - n - 1]);
        }
    }
}

/// A page of a log begins with the commit it was asked to begin with, goes on from each commit to its first parent,
/// and leads to the first parent of its last.
pub proof fn law_log_walks_first_parents(run: HistoryRun, start: CommitId, i: int)
    requires
        run.follows(start),
        0 <= i < run.commits@.len(),
    ensures
        i == 0 ==> run.commits@[i].0 == start,
        i > 0 ==> run.commits@[i - 1].1.parents@.len() > 0 && run.commits@[i].0
            == run.commits@[i - 1].1.parents@[0],
        run.commits@[run.commits@.len() - 1].1.parents@.len() > 0,
        run.current == run.commits@[run.commits@.len() - 1].1.parents@[0],
{
    let commits = run.commits@;
    assert(commits.last() == commits[commits.len() - 1]);
    if i > 0 {
        let next = commits[i].0;
        assert(first_parent_chain(commits));
        assert(next == commits[i - 1].1.parents@[0]);
    }
}

/// A cursor goes on with a log exactly where it is of the same repository, the same branch and the same beginning.
pub proof fn law_log_goes_on_with_its_own_cursor(
    repository: RepositoryId,
    branch: Seq<char>,
    start: CommitId,
    cursor: HistoryCursor,
)
    ensures
        cursor.repository != repository ==> !continues_log(repository, branch, start, cursor),
        cursor.branch@ != branch ==> !continues_log(repository, branch, start, cursor),
        cursor.root != start ==> !continues_log(repository, branch, start, cursor),
        continues_log(cursor.repository, cursor.branch@, cursor.root, cursor),
{
}

} // verus!
