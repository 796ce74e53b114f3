//! The difference between two snapshots, in pages.
use crate::bytes::to_vec;
use crate::error::{fault, outcome, Error, ErrorCode};
use crate::ids::{CommitId, ObjectVersionId, RepositoryId};
use crate::merge::DiffCursor;
use crate::merge_plan::Diff;
use crate::repository::Repository;
use crate::text::{valid_branch, validate_branch};
use vstd::prelude::*;

verus! {

/// A key that two snapshots disagree on, with the versions that they hold.
#[derive(Clone, Debug, PartialEq, Eq)]
pub struct ObjectDiff {
    pub key: Vec<u8>,
    pub from: Option<ObjectVersionId>,
    pub to: Option<ObjectVersionId>,
}

/// Where a comparison of two snapshots stands.
#[derive(Clone, Debug, PartialEq, Eq)]
pub struct ObjectDiffCursor {
    pub repository: RepositoryId,
    pub branch: String,
    pub from: CommitId,
    pub to: CommitId,
    pub traversal: DiffCursor,
}

/// One page of the difference between two snapshots.
#[derive(Clone, Debug, PartialEq, Eq)]
pub struct ObjectDiffPage {
    pub changes: Vec<ObjectDiff>,
    pub continuation: Option<ObjectDiffCursor>,
    pub compared_nodes: usize,
    pub reused_subtrees: usize,
}

/// Whether a cursor continues this comparison.
pub open spec fn continues_diff(
    repository: RepositoryId,
    branch: Seq<char>,
    from: CommitId,
    to: CommitId,
    cursor: ObjectDiffCursor,
) -> bool {
    cursor.repository == repository && cursor.branch@ == branch && cursor.from == from && cursor.to
        == to
}

/// The difference that a comparison of two object trees found, with the versions that were decoded from
/// what the key held and holds.
pub fn object_diff(diff: &Diff, from: Option<ObjectVersionId>, to: Option<ObjectVersionId>) -> (r: ObjectDiff)
    ensures
        r.key@ == diff@.key,
        r.from == from,
        r.to == to,
{
    ObjectDiff { key: to_vec(diff.key()), from, to }
}

impl Repository {
    /// Says how many differences a page may hold, and refuses a page that cannot be made.
    pub fn diff_page_bounded(
        &self,
        branch: &str,
        from: CommitId,
        to: CommitId,
        cursor: Option<&ObjectDiffCursor>,
        requested_limit: usize,
    ) -> (r: Result<usize, Error>)
        ensures
            ({
                let most = self.format.canonical_limits.max_list_page as usize;
                outcome(r) == if !valid_branch(branch@) {
                    Err(
                        fault(
                            ErrorCode::InvalidBranch,
                            "branch name violates the canonical ref contract",
                        ),
                    )
                } else if cursor is Some && !continues_diff(
                    self.format.repository_id,
                    branch@,
                    from,
                    to,
                    *cursor->0,
                ) {
                    Err(
                        fault(
                            ErrorCode::InvalidContinuationToken,
                            "diff cursor belongs to another repository, branch, or snapshot pair",
                        ),
                    )
                } else if requested_limit == 0 || most == 0 {
                    Err(
                        fault(
                            ErrorCode::InvalidLimit,
                            "bounded diff page limit must be greater than zero",
                        ),
                    )
                } else if requested_limit < most {
                    Ok(requested_limit)
                } else {
                    Ok(most)
                }
            }),
    {
        if let Err(error) = validate_branch(branch) {
            return Err(error);
        }
        if let Some(value) = cursor {
            if value.repository != self.format.repository_id || value.branch
                != branch.to_owned()
                || value.from != from || value.to != to {
                return Err(
                    Error::new(
                        ErrorCode::InvalidContinuationToken,
                        "diff cursor belongs to another repository, branch, or snapshot pair",
                    ),
                );
            }
        }
        let most: usize = self.format.canonical_limits.max_list_page as usize;
        let limit: usize = if requested_limit < most {
            requested_limit
        } else {
            most
        };
        if limit == 0 {
            return Err(
                Error::new(
                    ErrorCode::InvalidLimit,
                    "bounded diff page limit must be greater than zero",
                ),
            );
        }
        Ok(limit)
    }

    /// The cursor that continues a comparison.
    pub fn next_diff_cursor(
        &self,
        branch: &str,
        from: CommitId,
        to: CommitId,
        traversal: Option<DiffCursor>,
    ) -> (r: Option<ObjectDiffCursor>)
        ensures
            match traversal {
                None => r is None,
                Some(rest) => r matches Some(cursor) && continues_diff(
                    self.format.repository_id,
                    branch@,
                    from,
                    to,
                    cursor,
                ) && cursor.traversal == rest,
            },
    {
        match traversal {
            None => None,
            Some(rest) => Some(
                ObjectDiffCursor {
                    repository: self.format.repository_id,
                    branch: branch.to_owned(),
                    from,
                    to,
                    traversal: rest,
                },
            ),
        }
    }
}

/// A comparison goes on with a cursor exactly where it is of the same repository, the same branch and the same two
/// snapshots, in the same order.
pub proof fn law_comparison_goes_on_with_its_own_cursor(
    repository: RepositoryId,
    branch: Seq<char>,
    from: CommitId,
    to: CommitId,
    cursor: ObjectDiffCursor,
)
    ensures
        continues_diff(repository, branch, from, to, cursor) <==> cursor.repository == repository
            && cursor.branch@ == branch && cursor.from == from && cursor.to == to,
{
}

} // verus!
