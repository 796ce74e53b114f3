//! Branch indexes and authority upkeep: whether a branch's indexes are fit to read by, when they may be
//! rebuilt and cleaned up, and what a round of renewals leaves behind.
use crate::authority::{same_but_authority, with_fence, with_permit, AuthorityPermit, RegistryView};
use crate::error::{fault, outcome, Error, ErrorCode, Fault, RetryAdvice};
use crate::ids::{CommitId, OperationId, RefGeneration, RepositoryId};
use crate::model::{AuthorityScope, RefTarget, ScopeView};
use crate::ordered::{has_key, insert_sorted, sorted, Keyed};
use crate::repository::Repository;
use crate::text::{decimal, decimal_text};
use vstd::prelude::*;
use vstd::string::*;
use vstd::utf8::encode_utf8;

verus! {

/// What bringing both indexes of a branch up to date did.
#[derive(Clone, Debug, PartialEq, Eq)]
pub struct BranchIndexAdvanceReport<O, J> {
    pub operations: O,
    pub journal: J,
}

/// How the indexes of a branch stand.
#[derive(Clone, Debug, PartialEq, Eq)]
pub struct BranchIndexHealth {
    pub branch: String,
    pub target: CommitId,
    pub ref_generation: RefGeneration,
    pub indexed_target: Option<CommitId>,
    pub indexed_generation: Option<RefGeneration>,
    pub lag_generations: u64,
    pub ready: bool,
    pub locally_registered: bool,
    pub last_error: Option<String>,
}

/// How far an index has come.
#[derive(Clone, Copy, Debug)]
pub struct IndexHead {
    pub target: CommitId,
    pub checkpoint_generation: RefGeneration,
}

/// How far an index is behind a branch.
pub open spec fn lag(generation: u64, indexed: Option<IndexHead>) -> u64 {
    let reached = match indexed {
        Some(head) => head.checkpoint_generation.0,
        None => 0,
    };
    if reached < generation {
        (generation - reached) as u64
    } else {
        0
    }
}

/// Says how the indexes of a branch stand. They are ready when the index covers the branch's head, or when
/// this process itself wrote the commit and holds its nodes.
pub fn branch_index_health_for(
    branch: &str,
    reference: &RefTarget,
    indexed: Option<IndexHead>,
    local_head: Option<CommitId>,
    last_error: Option<String>,
) -> (r: Result<BranchIndexHealth, Error>)
    ensures
        match r {
            Err(error) => indexed is Some && indexed->0.checkpoint_generation.0
                > reference.generation.0 && error@ == fault(
                ErrorCode::CorruptNode,
                "journal index is ahead of the branch ref",
            ),
            Ok(health) => {
                let local = local_head == Some(reference.target);
                let durable = indexed is Some && indexed->0.target == reference.target;
                &&& indexed is Some ==> indexed->0.checkpoint_generation.0
                    <= reference.generation.0
                &&& health.branch@ == branch@
                &&& health.target == reference.target
                &&& health.ref_generation == reference.generation
                &&& health.indexed_target == match indexed {
                    Some(head) => Some(head.target),
                    None => None,
                }
                &&& health.indexed_generation == match indexed {
                    Some(head) => Some(head.checkpoint_generation),
                    None => None,
                }
                &&& health.lag_generations == lag(reference.generation.0, indexed)
                &&& health.ready == (durable || local)
                &&& health.locally_registered == local
                &&& health.last_error == last_error
            },
        },
{
    let mut reached: u64 = 0;
    let mut durable = false;
    let mut indexed_target: Option<CommitId> = None;
    let mut indexed_generation: Option<RefGeneration> = None;
    if let Some(head) = indexed {
        if head.checkpoint_generation.0 > reference.generation.0 {
            return Err(
                Error::new(ErrorCode::CorruptNode, "journal index is ahead of the branch ref"),
            );
        }
        reached = head.checkpoint_generation.0;
        durable = head.target == reference.target;
        indexed_target = Some(head.target);
        indexed_generation = Some(head.checkpoint_generation);
    }
    let locally_registered = match local_head {
        Some(target) => target == reference.target,
        None => false,
    };
    let lag_generations: u64 = if reached < reference.generation.0 {
        reference.generation.0 - reached
    } else {
        0
    };
    Ok(
        BranchIndexHealth {
            branch: branch.to_owned(),
            target: reference.target,
            ref_generation: reference.generation,
            indexed_target,
            indexed_generation,
            lag_generations,
            ready: durable || locally_registered,
            locally_registered,
            last_error,
        },
    )
}

/// The error of a branch whose indexes lag.
pub open spec fn lagging(generations: u64) -> Fault {
    Fault {
        code: ErrorCode::MissingClosure,
        message: "repository branch indexes lag "@ + decimal(generations as nat)
            + " generation(s); background catch-up is required"@,
        retry: RetryAdvice::AfterMillis(250),
        operation: None,
    }
}

/// Refuses to read by indexes that are not ready.
pub fn check_branch_index_health(health: &BranchIndexHealth) -> (r: Result<(), Error>)
    ensures
        outcome(r) == if health.ready {
            Ok::<(), Fault>(())
        } else {
            Err(lagging(health.lag_generations))
        },
{
    if health.ready {
        return Ok(());
    }
    let count = decimal_text(health.lag_generations);
    Err(
        Error {
            code: ErrorCode::MissingClosure,
            message: "repository branch indexes lag ".to_owned().concat(count.as_str()).concat(
                " generation(s); background catch-up is required",
            ),
            retry: RetryAdvice::AfterMillis(250),
            operation: None,
        },
    )
}

/// A branch by its name.
#[derive(Debug)]
pub struct BranchName(pub String);

impl Keyed for BranchName {
    open spec fn sort_key(&self) -> Seq<u8> {
        encode_utf8(self.0@)
    }

    fn sort_bytes(&self) -> (r: &[u8]) {
        self.0.as_str().as_bytes()
    }
}

/// The branches whose indexes this process looks nodes up in, in the order of their names.
#[derive(Debug)]
pub struct RegisteredBranches {
    pub names: Vec<BranchName>,
}

impl RegisteredBranches {
    /// Whether the names are in order, each once.
    pub open spec fn wf(&self) -> bool {
        sorted(self.names@)
    }

    /// No branches.
    pub fn new() -> (r: Self)
        ensures
            r.wf(),
            r.names@.len() == 0,
    {
        RegisteredBranches { names: Vec::new() }
    }

    /// Adds a branch, if it is not there.
    pub fn register(&mut self, branch: &str) -> (r: bool)
        requires
            old(self).wf(),
        ensures
            final(self).wf(),
            r == !has_key(old(self).names@, encode_utf8(branch@)),
            !r ==> final(self).names@ == old(self).names@,
            r ==> exists|name: BranchName| name.0@ == branch@ && #[trigger] old(
                self,
            ).names@.to_multiset().insert(name) == final(self).names@.to_multiset(),
    {
        let name = BranchName(branch.to_owned());
        let ghost added_name = name;
        let added = insert_sorted(&mut self.names, name);
        proof {
            if added {
                assert(old(self).names@.to_multiset().insert(added_name)
                    == self.names@.to_multiset());
            }
        }
        added
    }

    /// The names in their order.
    pub fn registered_branches(&self) -> (r: Vec<String>)
        ensures
            r@ == self.names@.map_values(|name: BranchName| name.0),
    {
        let mut out: Vec<String> = Vec::new();
        let mut i: usize = 0;
        while i < self.names.len()
            invariant
                i <= self.names@.len(),
                out@.len() == i,
                forall|j: int| 0 <= j < i ==> #[trigger] out@[j] == self.names@[j].0,
            decreases self.names.len() - i,
        {
            out.push(self.names[i].0.clone());
            i += 1;
        }
        assert(out@ =~= self.names@.map_values(|name: BranchName| name.0));
        out
    }
}

/// How far a rebuild of a branch's journal index has come.
#[derive(Clone, Copy, Debug, PartialEq, Eq, Structural)]
pub enum JournalIndexRebuildPhase {
    Discover,
    Apply,
    Complete,
}

/// Where a rebuild of a branch's journal index stands.
#[derive(Clone, Debug)]
pub struct JournalIndexRebuildCursor {
    pub repository: RepositoryId,
    pub branch: String,
    pub job: OperationId,
    pub snapshot: CommitId,
    pub snapshot_generation: RefGeneration,
    pub phase: JournalIndexRebuildPhase,
    pub oldest_chunk: Option<u64>,
}

/// Where a rebuild of a branch's operation index stands.
#[derive(Clone, Debug)]
pub struct OperationIndexRebuildCursor {
    pub repository: RepositoryId,
    pub branch: String,
    pub job: OperationId,
    pub snapshot: CommitId,
    pub snapshot_generation: RefGeneration,
    pub next_chunk: Option<u64>,
    pub complete: bool,
}

/// Whether a finished rebuild of the operation index read the chunks of this rebuild of the journal index.
pub open spec fn same_rebuild(journal: JournalIndexRebuildCursor, operations: OperationIndexRebuildCursor) -> bool {
    &&& operations.complete
    &&& operations.next_chunk is None
    &&& operations.repository == journal.repository
    &&& operations.branch@ == journal.branch@
    &&& operations.job == journal.job
    &&& operations.snapshot == journal.snapshot
    &&& operations.snapshot_generation == journal.snapshot_generation
}

/// Refuses to clean up the chunks of a rebuild that are still to be read.
pub fn cleanup_branch_index_rebuild(
    journal: &JournalIndexRebuildCursor,
    operations: &OperationIndexRebuildCursor,
) -> (r: Result<(), Error>)
    ensures
        outcome(r) == if same_rebuild(*journal, *operations) {
            Ok::<(), Fault>(())
        } else {
            Err(
                fault(
                    ErrorCode::InvalidContinuationToken,
                    "journal rebuild chunks remain live until the matching operation-index rebuild completes",
                ),
            )
        },
{
    if !operations.complete || operations.next_chunk.is_some() || operations.repository
        != journal.repository || operations.branch != journal.branch || operations.job
        != journal.job || operations.snapshot != journal.snapshot
        || operations.snapshot_generation.0 != journal.snapshot_generation.0 {
        return Err(
            Error::new(
                ErrorCode::InvalidContinuationToken,
                "journal rebuild chunks remain live until the matching operation-index rebuild completes",
            ),
        );
    }
    Ok(())
}

/// The chunk that a rebuild of the operation index begins with.
pub fn start_operation_index_rebuild(journal: &JournalIndexRebuildCursor) -> (r: Result<u64, Error>)
    ensures
        outcome(r) == if journal.phase != JournalIndexRebuildPhase::Complete {
            Err(
                fault(
                    ErrorCode::InvalidRequest,
                    "operation-index rebuild starts after journal-index application completes",
                ),
            )
        } else {
            match journal.oldest_chunk {
                Some(chunk) => Ok(chunk),
                None => Err(
                    fault(
                        ErrorCode::InvalidContinuationToken,
                        "completed journal-index rebuild has no discovery chunks",
                    ),
                ),
            }
        },
{
    if journal.phase != JournalIndexRebuildPhase::Complete {
        return Err(
            Error::new(
                ErrorCode::InvalidRequest,
                "operation-index rebuild starts after journal-index application completes",
            ),
        );
    }
    match journal.oldest_chunk {
        Some(chunk) => Ok(chunk),
        None => Err(
            Error::new(
                ErrorCode::InvalidContinuationToken,
                "completed journal-index rebuild has no discovery chunks",
            ),
        ),
    }
}

/// The chunk that a rebuild of the operation index reads next. None: it is complete.
pub fn advance_operation_index_rebuild(cursor: &OperationIndexRebuildCursor) -> (r: Result<
    Option<u64>,
    Error,
>)
    ensures
        outcome(r) == if cursor.complete {
            Ok(None)
        } else {
            match cursor.next_chunk {
                Some(chunk) => Ok(Some(chunk)),
                None => Err(
                    fault(
                        ErrorCode::InvalidContinuationToken,
                        "completed operation-index rebuild has no next chunk",
                    ),
                ),
            }
        },
{
    if cursor.complete {
        return Ok(None);
    }
    match cursor.next_chunk {
        Some(chunk) => Ok(Some(chunk)),
        None => Err(
            Error::new(
                ErrorCode::InvalidContinuationToken,
                "completed operation-index rebuild has no next chunk",
            ),
        ),
    }
}

/// Refuses to look after the indexes more often than every ten milliseconds.
pub fn start_branch_index_maintenance(interval_nanos: u128) -> (r: Result<(), Error>)
    ensures
        outcome(r) == if interval_nanos >= 10_000_000 {
            Ok::<(), Fault>(())
        } else {
            Err(
                fault(
                    ErrorCode::InvalidLimit,
                    "branch-index maintenance interval must be at least 10 milliseconds",
                ),
            )
        },
{
    if interval_nanos < 10_000_000 {
        return Err(
            Error::new(
                ErrorCode::InvalidLimit,
                "branch-index maintenance interval must be at least 10 milliseconds",
            ),
        );
    }
    Ok(())
}

/// What a registry becomes when a round of renewals is over.
pub open spec fn after_renewals(
    registry: RegistryView,
    results: Seq<(AuthorityScope, Result<AuthorityPermit, Error>)>,
) -> RegistryView
    decreases results.len(),
{
    if results.len() == 0 {
        registry
    } else {
        let before = after_renewals(registry, results.drop_last());
        match results.last().1 {
            Ok(permit) => with_permit(before, permit),
            Err(_) => with_fence(before, results.last().0@),
        }
    }
}

/// The place of the first renewal that failed.
pub open spec fn first_failure(
    results: Seq<(AuthorityScope, Result<AuthorityPermit, Error>)>,
    i: int,
) -> bool {
    0 <= i < results.len() && results[i].1 is Err && forall|j: int|
        0 <= j < i ==> (#[trigger] results[j]).1 is Ok
}

impl Repository {
    /// Refuses to renew where this process may not write.
    pub fn check_renewal(&self) -> (r: Result<(), Error>)
        ensures
            outcome(r) == if self.writable {
                Ok::<(), Fault>(())
            } else {
                Err(
                    fault(
                        ErrorCode::MissingCapability,
                        "shard-authority renewal requires a writable repository",
                    ),
                )
            },
    {
        if !self.writable {
            return Err(
                Error::new(
                    ErrorCode::MissingCapability,
                    "shard-authority renewal requires a writable repository",
                ),
            );
        }
        Ok(())
    }

    /// Takes a round of renewals in: a renewed permit replaces its predecessor, a failed renewal fences its
    /// own scope and no other. The first failure is the answer.
    pub fn renew_shard_authorities(
        &mut self,
        results: Vec<(AuthorityScope, Result<AuthorityPermit, Error>)>,
    ) -> (r: Result<(), Error>)
        requires
            old(self).authority.wf(),
        ensures
            final(self).authority.wf(),
            same_but_authority(*final(self), *old(self)),
            final(self).authority@ == after_renewals(old(self).authority@, results@),
            match r {
                Ok(_) => forall|j: int|
                    0 <= j < results@.len() ==> (#[trigger] results@[j]).1 is Ok,
                Err(error) => exists|i: int| #[trigger]
                    first_failure(results@, i) && results@[i].1->Err_0 == error,
            },
    {
        let ghost all = results@;
        let ghost start = self.authority@;
        let ghost before = *self;
        let mut first: Option<Error> = None;
        assert(all.take(0) =~= Seq::<(AuthorityScope, Result<AuthorityPermit, Error>)>::empty());
        for result in it: results
            invariant
                it.seq() == all,
                self.authority.wf(),
                same_but_authority(*self, before),
                self.authority@ == after_renewals(start, all.take(it.index())),
                match first {
                    None => forall|j: int|
                        0 <= j < it.index() ==> (#[trigger] all[j]).1 is Ok,
                    Some(error) => exists|i: int| #[trigger]
                        first_failure(all, i) && all[i].1->Err_0 == error,
                },
        {
            let ghost n = it.index();
            proof {
                assert(all[n] == result);
                assert(all.take(n + 1).drop_last() =~= all.take(n));
                assert(all.take(n + 1).last() == result);
            }
            let (scope, renewed) = result;
            match renewed {
                Ok(permit) => {
                    self.authority.install_permit(permit);
                },
                Err(error) => {
                    self.authority.fence_scope(&scope);
                    if first.is_none() {
                        assert(first_failure(all, n));
                        first = Some(error);
                    }
                },
            }
            assert(self.authority@ =~= after_renewals(start, all.take(n + 1)));
        }
        assert(all.take(all.len() as int) =~= all);
        match first {
            None => Ok(()),
            Some(error) => Err(error),
        }
    }

    /// How long to wait between two rounds of renewals: a third of the lease, and no less than a tenth of
    /// a second.
    pub fn start_shard_authority_maintenance(&self) -> (r: Result<u64, Error>)
        ensures
            outcome(r) == if !self.writable {
                Err(
                    fault(
                        ErrorCode::MissingCapability,
                        "shard-authority maintenance requires a writable repository",
                    ),
                )
            } else if self.options.authority_lease_millis / 3 > 100 {
                Ok(self.options.authority_lease_millis / 3)
            } else {
                Ok(100u64)
            },
    {
        if !self.writable {
            return Err(
                Error::new(
                    ErrorCode::MissingCapability,
                    "shard-authority maintenance requires a writable repository",
                ),
            );
        }
        let third: u64 = self.options.authority_lease_millis / 3;
        if third > 100 {
            Ok(third)
        } else {
            Ok(100)
        }
    }

    /// Refuses to take a branch over in a process that may write already.
    pub fn takeover_branch_writer(&self) -> (r: Result<(), Error>)
        ensures
            outcome(r) == if !self.writable {
                Ok::<(), Fault>(())
            } else {
                Err(
                    fault(
                        ErrorCode::PreconditionFailed,
                        "repository takeover requires a read-only repository handle",
                    ),
                )
            },
    {
        if self.writable {
            return Err(
                Error::new(
                    ErrorCode::PreconditionFailed,
                    "repository takeover requires a read-only repository handle",
                ),
            );
        }
        Ok(())
    }

    /// Ends a takeover: the permit is installed and the process may write.
    pub fn finish_takeover(&mut self, permit: AuthorityPermit)
        requires
            old(self).authority.wf(),
        ensures
            final(self).authority.wf(),
            final(self).writable,
            *final(self) == (Repository {
                authority: final(self).authority,
                writable: true,
                ..*old(self)
            }),
            final(self).authority@ == with_permit(old(self).authority@, permit),
    {
        self.authority.install_permit(permit);
        self.writable = true;
    }
}

/// A failed renewal touches no other scope: what a round does to a scope is decided by its own results.
pub proof fn law_renewal_failures_stay_apart(
    registry: RegistryView,
    results: Seq<(AuthorityScope, Result<AuthorityPermit, Error>)>,
    scope: crate::model::ScopeView,
)
    requires
        forall|i: int|
            0 <= i < results.len() ==> match (#[trigger] results[i]).1 {
                Ok(permit) => permit.stamp.scope@ != scope,
                Err(_) => results[i].0@ != scope,
            },
    ensures
        ({
            let after = after_renewals(registry, results);
            &&& after.permits.contains_key(scope) == registry.permits.contains_key(scope)
            &&& registry.permits.contains_key(scope) ==> after.permits[scope]
                == registry.permits[scope]
            &&& after.fenced.contains(scope) == registry.fenced.contains(scope)
        }),
    decreases results.len(),
{
    if results.len() > 0 {
        let before = results.drop_last();
        assert forall|i: int| 0 <= i < before.len() implies match (#[trigger] before[i]).1 {
            Ok(permit) => permit.stamp.scope@ != scope,
            Err(_) => before[i].0@ != scope,
        } by {
            assert(before[i] == results[i]);
        }
        law_renewal_failures_stay_apart(registry, before, scope);
        let last = results[results.len() - 1];
        match last.1 {
            Ok(permit) => {
                assert(permit.stamp.scope@ != scope);
            },
            Err(_) => {
                assert(last.0@ != scope);
            },
        }
    }
}

/// An index is behind by as much as its branch has moved since the index was brought up to date, counted from the
/// beginning where there is none; an index that has reached the branch is not behind.
pub proof fn law_index_lag_is_what_is_missing(generation: u64, indexed: Option<IndexHead>)
    ensures
        indexed is None ==> lag(generation, indexed) == generation,
        indexed matches Some(head) ==> {
            &&& head.checkpoint_generation.0 >= generation <==> lag(generation, indexed) == 0
            &&& head.checkpoint_generation.0 <= generation ==> head.checkpoint_generation.0 + lag(
                generation,
                indexed,
            ) == generation
        },
{
}

/// Two rebuilds go together exactly where the one of operations is over and both are of one job, on one branch of
/// one repository, and of one snapshot.
pub proof fn law_rebuilds_go_together_when_they_agree(
    journal: JournalIndexRebuildCursor,
    operations: OperationIndexRebuildCursor,
)
    ensures
        same_rebuild(journal, operations) <==> operations.complete && operations.next_chunk is None
            && operations.repository == journal.repository && operations.branch@ == journal.branch@
            && operations.job == journal.job && operations.snapshot == journal.snapshot
            && operations.snapshot_generation == journal.snapshot_generation,
{
}

/// A renewal that succeeded leaves its new permit, one that failed leaves a fence, and neither touches a scope that
/// the round did not name.
pub proof fn law_renewal_leaves_a_permit_or_a_fence(
    registry: RegistryView,
    results: Seq<(AuthorityScope, Result<AuthorityPermit, Error>)>,
    other: ScopeView,
)
    requires
        results.len() > 0,
    ensures
        ({
            let after = after_renewals(registry, results);
            let last = results[results.len() - 1];
            &&& last.1 matches Ok(permit) ==> after.permits.contains_pair(permit.stamp.scope@, permit)
                && !after.fenced.contains(permit.stamp.scope@)
            &&& last.1 is Err ==> after.fenced.contains(last.0@) && !after.permits.contains_key(last.0@)
            &&& (forall|i: int|
                0 <= i < results.len() ==> (#[trigger] results[i]).0@ != other && (
                results[i].1 matches Ok(permit) ==> permit.stamp.scope@ != other))
                ==> after.permits.contains_key(other) == registry.permits.contains_key(other)
                && after.permits[other] == registry.permits[other] && after.fenced.contains(other)
                == registry.fenced.contains(other)
        }),
    decreases results.len(),
{
    let fewer = results.drop_last();
    if fewer.len() > 0 {
        law_renewal_leaves_a_permit_or_a_fence(registry, fewer, other);
        if forall|i: int|
            0 <= i < results.len() ==> (#[trigger] results[i]).0@ != other && (
            results[i].1 matches Ok(permit) ==> permit.stamp.scope@ != other) {
            assert forall|i: int| 0 <= i < fewer.len() implies (#[trigger] fewer[i]).0@ != other && (
            fewer[i].1 matches Ok(permit) ==> permit.stamp.scope@ != other) by {
                assert(fewer[i] == results[i]);
            }
        }
    } else {
        assert(after_renewals(registry, fewer) == registry);
    }
    assert(results[results.len() - 1] == results.last());
}

/// The first failure of a round is the one that comes before every other.
pub proof fn law_first_failure_comes_before_every_other(
    results: Seq<(AuthorityScope, Result<AuthorityPermit, Error>)>,
    i: int,
    j: int,
)
    ensures
        first_failure(results, i) ==> 0 <= i < results.len() && results[i].1 is Err,
        first_failure(results, i) && 0 <= j < results.len() && results[j].1 is Err ==> i <= j,
{
    if first_failure(results, i) && 0 <= j < i {
        assert(results[j].1 is Ok);
    }
}

} // verus!
