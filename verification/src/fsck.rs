//! Integrity checks: walks the history of a snapshot, then its current objects, then every version, and
//! holds each payload against what the provider says of it. After each page the cursor is stored under the
//! next generation, so that a worker whose cursor is no longer the newest is refused.
use crate::closure::{
    closure_cursor_sound, foreign_closure, CommitClosureCursor, CommitClosurePage,
};
use crate::counters::{checked_fsck_add, counter_overflow};
use crate::error::{fault, outcome, Error, ErrorCode, Fault};
use crate::ids::{CommitId, OperationId, RepositoryId};
use crate::model::{
    is_bound_object, BucketCommit, LogicalObjectVersionKind, ObjectVersion, PayloadBinding,
    PhysicalMetadata, RootManifest,
};
use crate::outside::uuid_text_of;
use crate::paths::administration_path;
use crate::repository::Repository;
use crate::text::{valid_branch, validate_branch};
use vstd::prelude::*;

verus! {

/// How far a check has come.
#[derive(Clone, Copy, Debug, PartialEq, Eq, Structural)]
pub enum FsckPhase {
    DiscoverCommits,
    VerifyObjects,
    VerifyVersions,
    Complete,
}

/// What a check has found so far.
#[derive(Clone, Copy, Debug, PartialEq, Eq, Structural)]
pub struct FsckReport {
    pub commits: u64,
    pub reachable_nodes: u64,
    pub current_objects: u64,
    pub logical_versions: u64,
    pub payloads_verified: u64,
    pub payload_bytes_verified: u64,
    pub deep_content_bytes_verified: u64,
    pub packed_payloads_verified: u64,
    pub packed_logical_bytes_verified: u64,
    /// Payloads, each counted once however many objects and versions share it.
    pub physical_payloads_verified: u64,
    /// Bytes that were read of them.
    pub deep_physical_bytes_read: u64,
}

/// Where a check stands.
#[derive(Clone, Debug)]
pub struct FsckCursor {
    pub repository: RepositoryId,
    pub branch: String,
    pub snapshot: CommitId,
    pub closure: CommitClosureCursor,
    pub phase: FsckPhase,
    pub after: Option<Vec<u8>>,
    pub deep: bool,
    pub report: FsckReport,
    pub job: OperationId,
    pub checkpoint_generation: u64,
    /// The tree of the payloads that were counted.
    pub seen: RootManifest,
}

/// What one page of a check did.
#[derive(Clone, Debug)]
pub struct FsckPage {
    pub cursor: FsckCursor,
    pub processed: usize,
    pub complete: bool,
}

/// A report of nothing found.
pub open spec fn nothing_checked() -> FsckReport {
    FsckReport {
        commits: 0,
        reachable_nodes: 0,
        current_objects: 0,
        logical_versions: 0,
        payloads_verified: 0,
        payload_bytes_verified: 0,
        deep_content_bytes_verified: 0,
        packed_payloads_verified: 0,
        packed_logical_bytes_verified: 0,
        physical_payloads_verified: 0,
        deep_physical_bytes_read: 0,
    }
}

impl FsckReport {
    /// A report of nothing found.
    pub fn new() -> (r: Self)
        ensures
            r == nothing_checked(),
    {
        FsckReport {
            commits: 0,
            reachable_nodes: 0,
            current_objects: 0,
            logical_versions: 0,
            payloads_verified: 0,
            payload_bytes_verified: 0,
            deep_content_bytes_verified: 0,
            packed_payloads_verified: 0,
            packed_logical_bytes_verified: 0,
            physical_payloads_verified: 0,
            deep_physical_bytes_read: 0,
        }
    }
}

/// What adding to a report gives: the sums, or the error of the first count that is full.
pub open spec fn fsck_plus(a: FsckReport, b: FsckReport) -> Result<FsckReport, Fault> {
    if a.commits + b.commits > u64::MAX {
        Err(counter_overflow("fsck ", "commit"))
    } else if a.reachable_nodes + b.reachable_nodes > u64::MAX {
        Err(counter_overflow("fsck ", "node"))
    } else if a.current_objects + b.current_objects > u64::MAX {
        Err(counter_overflow("fsck ", "current-object"))
    } else if a.logical_versions + b.logical_versions > u64::MAX {
        Err(counter_overflow("fsck ", "logical-version"))
    } else if a.payloads_verified + b.payloads_verified > u64::MAX {
        Err(counter_overflow("fsck ", "payload"))
    } else if a.payload_bytes_verified + b.payload_bytes_verified > u64::MAX {
        Err(counter_overflow("fsck ", "payload-byte"))
    } else if a.deep_content_bytes_verified + b.deep_content_bytes_verified > u64::MAX {
        Err(counter_overflow("fsck ", "deep-content-byte"))
    } else if a.packed_payloads_verified + b.packed_payloads_verified > u64::MAX {
        Err(counter_overflow("fsck ", "packed-payload"))
    } else if a.packed_logical_bytes_verified + b.packed_logical_bytes_verified > u64::MAX {
        Err(counter_overflow("fsck ", "packed-logical-byte"))
    } else if a.physical_payloads_verified + b.physical_payloads_verified > u64::MAX {
        Err(counter_overflow("fsck ", "physical-payload"))
    } else if a.deep_physical_bytes_read + b.deep_physical_bytes_read > u64::MAX {
        Err(counter_overflow("fsck ", "deep-physical-byte"))
    } else {
        Ok(
            FsckReport {
                commits: (a.commits + b.commits) as u64,
                reachable_nodes: (a.reachable_nodes + b.reachable_nodes) as u64,
                current_objects: (a.current_objects + b.current_objects) as u64,
                logical_versions: (a.logical_versions + b.logical_versions) as u64,
                payloads_verified: (a.payloads_verified + b.payloads_verified) as u64,
                payload_bytes_verified: (a.payload_bytes_verified
                    + b.payload_bytes_verified) as u64,
                deep_content_bytes_verified: (a.deep_content_bytes_verified
                    + b.deep_content_bytes_verified) as u64,
                packed_payloads_verified: (a.packed_payloads_verified
                    + b.packed_payloads_verified) as u64,
                packed_logical_bytes_verified: (a.packed_logical_bytes_verified
                    + b.packed_logical_bytes_verified) as u64,
                physical_payloads_verified: (a.physical_payloads_verified
                    + b.physical_payloads_verified) as u64,
                deep_physical_bytes_read: (a.deep_physical_bytes_read
                    + b.deep_physical_bytes_read) as u64,
            },
        )
    }
}

/// Adds to a report.
pub fn add_to_report(a: &FsckReport, b: &FsckReport) -> (r: Result<FsckReport, Error>)
    ensures
        outcome(r) == fsck_plus(*a, *b),
{
    let commits: u64 = checked_fsck_add(a.commits, b.commits, "commit")?;
    let reachable_nodes: u64 = checked_fsck_add(a.reachable_nodes, b.reachable_nodes, "node")?;
    let current_objects: u64 = checked_fsck_add(
        a.current_objects,
        b.current_objects,
        "current-object",
    )?;
    let logical_versions: u64 = checked_fsck_add(
        a.logical_versions,
        b.logical_versions,
        "logical-version",
    )?;
    let payloads_verified: u64 = checked_fsck_add(
        a.payloads_verified,
        b.payloads_verified,
        "payload",
    )?;
    let payload_bytes_verified: u64 = checked_fsck_add(
        a.payload_bytes_verified,
        b.payload_bytes_verified,
        "payload-byte",
    )?;
    let deep_content_bytes_verified: u64 = checked_fsck_add(
        a.deep_content_bytes_verified,
        b.deep_content_bytes_verified,
        "deep-content-byte",
    )?;
    let packed_payloads_verified: u64 = checked_fsck_add(
        a.packed_payloads_verified,
        b.packed_payloads_verified,
        "packed-payload",
    )?;
    let packed_logical_bytes_verified: u64 = checked_fsck_add(
        a.packed_logical_bytes_verified,
        b.packed_logical_bytes_verified,
        "packed-logical-byte",
    )?;
    let physical_payloads_verified: u64 = checked_fsck_add(
        a.physical_payloads_verified,
        b.physical_payloads_verified,
        "physical-payload",
    )?;
    let deep_physical_bytes_read: u64 = checked_fsck_add(
        a.deep_physical_bytes_read,
        b.deep_physical_bytes_read,
        "deep-physical-byte",
    )?;
    Ok(
        FsckReport {
            commits,
            reachable_nodes,
            current_objects,
            logical_versions,
            payloads_verified,
            payload_bytes_verified,
            deep_content_bytes_verified,
            packed_payloads_verified,
            packed_logical_bytes_verified,
            physical_payloads_verified,
            deep_physical_bytes_read,
        },
    )
}

/// The error of a cursor that is not the newest of its check.
pub open spec fn superseded_fsck() -> Fault {
    fault(ErrorCode::RefConflict, "fsck checkpoint was advanced by another worker")
}

/// The error of a cursor that is not this repository's.
pub open spec fn foreign_fsck() -> Fault {
    fault(ErrorCode::InvalidContinuationToken, "fsck cursor belongs to another repository")
}

/// The error of a check whose generations ran out.
pub open spec fn fsck_generations_end() -> Fault {
    fault(ErrorCode::InvalidLimit, "fsck checkpoint generation overflow")
}

/// Whether a page may be made from a cursor, and of which phase. `stored` is the generation of the newest
/// cursor of the check.
pub open spec fn fsck_admission(
    repository: Repository,
    cursor: FsckCursor,
    stored: Option<u64>,
    max_steps: usize,
) -> Result<FsckPhase, Fault> {
    if !(1 <= max_steps <= 1_000) {
        Err(fault(ErrorCode::InvalidLimit, "fsck page size must be between 1 and 1,000"))
    } else if cursor.repository != repository.format.repository_id {
        Err(foreign_fsck())
    } else if !valid_branch(cursor.branch@) {
        Err(
            fault(ErrorCode::InvalidBranch, "branch name violates the canonical ref contract"),
        )
    } else if !closure_cursor_sound(repository, cursor.closure) {
        Err(foreign_closure())
    } else if stored != Some(cursor.checkpoint_generation) {
        Err(superseded_fsck())
    } else {
        Ok(cursor.phase)
    }
}

impl Repository {
    /// The cursor of a check that has found nothing.
    pub fn start_fsck(
        &self,
        branch: &str,
        snapshot: CommitId,
        job: OperationId,
        closure: CommitClosureCursor,
        seen: RootManifest,
        deep: bool,
    ) -> (r: Result<FsckCursor, Error>)
        ensures
            match r {
                Ok(cursor) => {
                    &&& valid_branch(branch@)
                    &&& cursor.repository == self.format.repository_id
                    &&& cursor.branch@ == branch@
                    &&& cursor.snapshot == snapshot
                    &&& cursor.closure == closure
                    &&& cursor.phase == FsckPhase::DiscoverCommits
                    &&& cursor.after is None
                    &&& cursor.deep == deep
                    &&& cursor.report == nothing_checked()
                    &&& cursor.job == job
                    &&& cursor.checkpoint_generation == 1
                    &&& cursor.seen == seen
                },
                Err(error) => !valid_branch(branch@) && error@ == fault(
                    ErrorCode::InvalidBranch,
                    "branch name violates the canonical ref contract",
                ),
            },
    {
        if let Err(error) = validate_branch(branch) {
            return Err(error);
        }
        Ok(
            FsckCursor {
                repository: self.format.repository_id,
                branch: branch.to_owned(),
                snapshot,
                closure,
                phase: FsckPhase::DiscoverCommits,
                after: None,
                deep,
                report: FsckReport::new(),
                job,
                checkpoint_generation: 1,
                seen,
            },
        )
    }

    /// Refuses what no page of a check can be made of; otherwise says which phase comes next. A cursor
    /// whose generation is not the stored one is no longer the newest, and is refused.
    pub fn advance_fsck(
        &self,
        cursor: &FsckCursor,
        stored_generation: Option<u64>,
        max_steps: usize,
    ) -> (r: Result<FsckPhase, Error>)
        ensures
            outcome(r) == fsck_admission(*self, *cursor, stored_generation, max_steps),
    {
        if max_steps < 1 || max_steps > 1_000 {
            return Err(
                Error::new(ErrorCode::InvalidLimit, "fsck page size must be between 1 and 1,000"),
            );
        }
        if cursor.repository != self.format.repository_id {
            return Err(
                Error::new(
                    ErrorCode::InvalidContinuationToken,
                    "fsck cursor belongs to another repository",
                ),
            );
        }
        if let Err(error) = validate_branch(&cursor.branch) {
            return Err(error);
        }
        if let Err(error) = self.validate_commit_closure_cursor(&cursor.closure) {
            return Err(error);
        }
        let newest = match stored_generation {
            Some(generation) => generation == cursor.checkpoint_generation,
            None => false,
        };
        if !newest {
            return Err(
                Error::new(
                    ErrorCode::RefConflict,
                    "fsck checkpoint was advanced by another worker",
                ),
            );
        }
        Ok(cursor.phase)
    }

    /// Where the newest cursor of a check is stored.
    pub fn fsck_checkpoint_path(&self, job: OperationId) -> (r: String)
        ensures
            r@ == self.options.repository_prefix@ + "/administration/"@ + "fsck"@ + "/"@
                + uuid_text_of(job@) + "/"@ + "cursor.cbor"@,
    {
        administration_path(&self.options.repository_prefix, "fsck", job, "cursor.cbor")
    }

    /// Takes a check up again from what is stored of it: from its newest cursor, or from nothing where
    /// none is stored.
    pub fn resume_fsck(&self, job: OperationId, stored: Option<FsckCursor>) -> (r: Result<
        Option<FsckCursor>,
        Error,
    >)
        ensures
            outcome(r) == match stored {
                None => Ok(None),
                Some(cursor) => if cursor.repository == self.format.repository_id && cursor.job
                    == job {
                    Ok(Some(cursor))
                } else {
                    Err(foreign_fsck())
                },
            },
    {
        if let Some(cursor) = &stored {
            if cursor.repository != self.format.repository_id || cursor.job != job {
                return Err(
                    Error::new(
                        ErrorCode::InvalidContinuationToken,
                        "fsck cursor belongs to another repository",
                    ),
                );
            }
        }
        Ok(stored)
    }

    /// Whether there is a stored cursor to forget. A check that is under way is not forgotten.
    pub fn forget_fsck(&self, stored: &Option<FsckCursor>) -> (r: Result<bool, Error>)
        ensures
            outcome(r) == match *stored {
                None => Ok(false),
                Some(cursor) => if cursor.phase == FsckPhase::Complete {
                    Ok(true)
                } else {
                    Err(fault(ErrorCode::PreconditionFailed, "fsck job is not complete"))
                },
            },
    {
        match stored {
            None => Ok(false),
            Some(cursor) => if cursor.phase == FsckPhase::Complete {
                Ok(true)
            } else {
                Err(Error::new(ErrorCode::PreconditionFailed, "fsck job is not complete"))
            },
        }
    }
}

/// The generation after this one.
fn next_generation(generation: u64) -> (r: Result<u64, Error>)
    ensures
        outcome(r) == if generation == u64::MAX {
            Err(fsck_generations_end())
        } else {
            Ok((generation + 1) as u64)
        },
{
    if generation == 0xffff_ffff_ffff_ffff {
        return Err(Error::new(ErrorCode::InvalidLimit, "fsck checkpoint generation overflow"));
    }
    Ok(generation + 1)
}

/// What storing the cursor of a new generation came to. `replaced` says whether the cursor that it was made
/// from was still the stored one.
pub fn checkpoint_stored(replaced: bool) -> (r: Result<(), Error>)
    ensures
        outcome(r) == if replaced {
            Ok::<(), Fault>(())
        } else {
            Err(superseded_fsck())
        },
{
    if !replaced {
        return Err(
            Error::new(ErrorCode::RefConflict, "fsck checkpoint was advanced by another worker"),
        );
    }
    Ok(())
}

/// What a commit adds to a report: itself, and the nodes in its pack.
pub open spec fn commit_counts(commit: BucketCommit) -> FsckReport {
    FsckReport {
        commits: 1,
        reachable_nodes: match commit.node_pack {
            Some(pack) => pack.node_count as u64,
            None => 0,
        },
        ..nothing_checked()
    }
}

/// A report after some commits of a walk.
pub open spec fn with_commits(report: FsckReport, commits: Seq<(CommitId, BucketCommit)>) -> Result<
    FsckReport,
    Fault,
>
    decreases commits.len(),
{
    if commits.len() == 0 {
        Ok(report)
    } else {
        match with_commits(report, commits.drop_last()) {
            Err(error) => Err(error),
            Ok(before) => fsck_plus(before, commit_counts(commits.last().1)),
        }
    }
}

/// Once counting has failed, it fails however many commits follow.
proof fn lemma_failure_stays(report: FsckReport, commits: Seq<(CommitId, BucketCommit)>, n: int)
    requires
        0 <= n <= commits.len(),
        with_commits(report, commits.take(n)) is Err,
    ensures
        with_commits(report, commits) == with_commits(report, commits.take(n)),
    decreases commits.len() - n,
{
    if n < commits.len() {
        let more = commits.take(n + 1);
        assert(more.drop_last() =~= commits.take(n));
        lemma_failure_stays(report, commits, n + 1);
    } else {
        assert(commits.take(n) =~= commits);
    }
}

/// Takes a page of the walk into a check. When the walk is over, the objects come next.
pub fn fsck_commits(cursor: FsckCursor, page: &CommitClosurePage) -> (r: Result<FsckPage, Error>)
    ensures
        match with_commits(cursor.report, page.commits@) {
            Err(error) => r matches Err(e) && e@ == error,
            Ok(report) => if cursor.checkpoint_generation == u64::MAX {
                r matches Err(e) && e@ == fsck_generations_end()
            } else {
                r matches Ok(next) && next.processed == page.steps && next.complete == (
            next.cursor.phase == FsckPhase::Complete) && next.cursor == (FsckCursor {
                report,
                closure: page.cursor,
                phase: if page.complete {
                    FsckPhase::VerifyObjects
                } else {
                    cursor.phase
                },
                checkpoint_generation: (cursor.checkpoint_generation + 1) as u64,
                ..cursor
            })
            },
        },
{
    let mut cursor = cursor;
    let ghost start = cursor;
    let mut i: usize = 0;
    assert(page.commits@.take(0) =~= Seq::<(CommitId, BucketCommit)>::empty());
    #[verifier::loop_isolation(false)]
    while i < page.commits.len()
        invariant
            i <= page.commits@.len(),
            with_commits(start.report, page.commits@.take(i as int)) == Ok::<FsckReport, Fault>(
                cursor.report,
            ),
            cursor == (FsckCursor { report: cursor.report, ..start }),
        decreases page.commits.len() - i,
    {
        let mut counts = FsckReport::new();
        counts.commits = 1;
        counts.reachable_nodes = match &page.commits[i].1.node_pack {
            Some(pack) => pack.node_count as u64,
            None => 0,
        };
        proof {
            let more = page.commits@.take(i + 1);
            assert(more.drop_last() =~= page.commits@.take(i as int));
            assert(more.last() == page.commits@[i as int]);
        }
        match add_to_report(&cursor.report, &counts) {
            Err(error) => {
                proof {
                    lemma_failure_stays(start.report, page.commits@, i + 1);
                }
                return Err(error);
            },
            Ok(report) => {
                cursor.report = report;
            },
        }
        i += 1;
    }
    assert(page.commits@.take(page.commits@.len() as int) =~= page.commits@);
    match next_generation(cursor.checkpoint_generation) {
        Err(error) => {
            return Err(error);
        },
        Ok(generation) => {
            cursor.checkpoint_generation = generation;
        },
    }
    cursor.closure = page.cursor;
    if page.complete {
        cursor.phase = FsckPhase::VerifyObjects;
    }
    let complete = cursor.phase == FsckPhase::Complete;
    Ok(FsckPage { cursor, processed: page.steps, complete })
}

/// What holding one payload against its provider gave: the payloads, their bytes, and the bytes that were
/// read.
#[derive(Clone, Copy, Debug, PartialEq, Eq, Structural)]
pub struct PayloadFacts {
    pub payloads: u64,
    pub bytes: u64,
    pub deep_bytes: u64,
}

/// The fewest bytes that the physical object of a payload must have.
pub open spec fn least_physical_len(size: u64, binding: PayloadBinding) -> int {
    match binding.pack_range {
        Some((_, end)) => if end == u64::MAX {
            end as int
        } else {
            end + 1
        },
        None => size as int,
    }
}

/// Whether a stored object can hold a payload.
pub open spec fn holds_payload(metadata: PhysicalMetadata, size: u64, binding: PayloadBinding) -> bool {
    &&& metadata.len >= least_physical_len(size, binding)
    &&& !binding.packed() ==> metadata.len == size
    &&& is_bound_object(metadata, binding)
}

/// What is wrong with the payload of a version.
pub open spec fn payload_fault(
    version: ObjectVersion,
    expected_path: Seq<char>,
    metadata: Option<PhysicalMetadata>,
) -> Option<Fault> {
    match version.body.kind {
        LogicalObjectVersionKind::DeleteMarker => None,
        LogicalObjectVersionKind::Live { size, .. } => match version.binding {
            None => Some(
                fault(ErrorCode::CorruptCommit, "live object version has no payload binding"),
            ),
            Some(binding) => if binding.path@ != expected_path {
                Some(
                    fault(
                        ErrorCode::CorruptContent,
                        "payload binding path does not match its content checksum",
                    ),
                )
            } else {
                match metadata {
                    None => Some(fault(ErrorCode::MissingClosure, "immutable payload is missing")),
                    Some(stored) => if holds_payload(stored, size, binding) {
                        None
                    } else {
                        Some(
                            fault(
                                ErrorCode::ChecksumMismatch,
                                "immutable payload metadata does not match its logical binding",
                            ),
                        )
                    },
                }
            },
        },
    }
}

/// Holds the payload of a version against the path that its content gives and against what the provider
/// says of it. A deletion has none. `deep_bytes` is what was read of it, zero where nothing was.
pub fn verify_payload_metadata(
    version: &ObjectVersion,
    expected_path: &str,
    metadata: Option<&PhysicalMetadata>,
    deep_bytes: u64,
) -> (r: Result<PayloadFacts, Error>)
    ensures
        ({
            let stored = match metadata {
                Some(value) => Some(*value),
                None => None,
            };
            outcome(r) == match payload_fault(*version, expected_path@, stored) {
                Some(error) => Err(error),
                None => Ok(
                    match version.body.kind {
                        LogicalObjectVersionKind::DeleteMarker => PayloadFacts {
                            payloads: 0,
                            bytes: 0,
                            deep_bytes: 0,
                        },
                        LogicalObjectVersionKind::Live { size, .. } => PayloadFacts {
                            payloads: 1,
                            bytes: size,
                            deep_bytes,
                        },
                    },
                ),
            }
        }),
{
    let size: u64 = match &version.body.kind {
        LogicalObjectVersionKind::DeleteMarker => {
            return Ok(PayloadFacts { payloads: 0, bytes: 0, deep_bytes: 0 });
        },
        LogicalObjectVersionKind::Live { size, .. } => *size,
    };
    let binding = match &version.binding {
        None => {
            return Err(
                Error::new(ErrorCode::CorruptCommit, "live object version has no payload binding"),
            );
        },
        Some(binding) => binding,
    };
    if binding.path != expected_path.to_owned() {
        return Err(
            Error::new(
                ErrorCode::CorruptContent,
                "payload binding path does not match its content checksum",
            ),
        );
    }
    let stored = match metadata {
        None => {
            return Err(Error::new(ErrorCode::MissingClosure, "immutable payload is missing"));
        },
        Some(stored) => stored,
    };
    let least: u64 = match binding.pack_range {
        Some((_, end)) => if end == 0xffff_ffff_ffff_ffff {
            end
        } else {
            end + 1
        },
        None => size,
    };
    if stored.len < least || (!binding.is_packed() && stored.len != size) || !stored.is_bound(
        binding,
    ) {
        return Err(
            Error::new(
                ErrorCode::ChecksumMismatch,
                "immutable payload metadata does not match its logical binding",
            ),
        );
    }
    Ok(PayloadFacts { payloads: 1, bytes: size, deep_bytes })
}

/// What one entry adds to a report. Its payload is counted for itself only where it is `fresh`: one that was
/// counted before adds nothing to those counts.
pub open spec fn entry_counts(
    current: bool,
    version: ObjectVersion,
    facts: PayloadFacts,
    fresh: bool,
) -> FsckReport {
    let packed = version.body.kind is Live && version.binding is Some
        && version.binding->0.packed();
    FsckReport {
        current_objects: if current {
            1
        } else {
            0
        },
        logical_versions: if current {
            0
        } else {
            1
        },
        payloads_verified: facts.payloads,
        payload_bytes_verified: facts.bytes,
        deep_content_bytes_verified: facts.deep_bytes,
        packed_payloads_verified: if packed {
            1
        } else {
            0
        },
        packed_logical_bytes_verified: if packed {
            version.body.kind->size
        } else {
            0
        },
        physical_payloads_verified: if fresh {
            facts.payloads
        } else {
            0
        },
        deep_physical_bytes_read: if fresh {
            facts.deep_bytes
        } else {
            0
        },
        ..nothing_checked()
    }
}

/// Takes one checked entry into the cursor: a current object, or a version. `fresh` says that its payload was
/// not counted before.
pub fn record_fsck_entry(
    cursor: FsckCursor,
    key: Vec<u8>,
    version: &ObjectVersion,
    facts: PayloadFacts,
    fresh: bool,
) -> (r: Result<FsckCursor, Error>)
    ensures
        match fsck_plus(
            cursor.report,
            entry_counts(cursor.phase == FsckPhase::VerifyObjects, *version, facts, fresh),
        ) {
            Err(error) => r matches Err(e) && e@ == error,
            Ok(report) => r == Ok::<FsckCursor, Error>(
                FsckCursor { report, after: Some(key), ..cursor },
            ),
        },
{
    let mut cursor = cursor;
    let mut counts = FsckReport::new();
    if cursor.phase == FsckPhase::VerifyObjects {
        counts.current_objects = 1;
    } else {
        counts.logical_versions = 1;
    }
    counts.payloads_verified = facts.payloads;
    counts.payload_bytes_verified = facts.bytes;
    counts.deep_content_bytes_verified = facts.deep_bytes;
    record_fsck_packed_payload(&mut counts, version);
    if fresh {
        counts.physical_payloads_verified = facts.payloads;
        counts.deep_physical_bytes_read = facts.deep_bytes;
    }
    match add_to_report(&cursor.report, &counts) {
        Err(error) => Err(error),
        Ok(report) => {
            cursor.report = report;
            cursor.after = Some(key);
            Ok(cursor)
        },
    }
}

/// Notes that a version's payload shares its physical object, if it does.
fn record_fsck_packed_payload(counts: &mut FsckReport, version: &ObjectVersion)
    requires
        old(counts).packed_payloads_verified == 0,
        old(counts).packed_logical_bytes_verified == 0,
    ensures
        ({
            let packed = version.body.kind is Live && version.binding is Some
                && version.binding->0.packed();
            *final(counts) == if packed {
                FsckReport {
                    packed_payloads_verified: 1,
                    packed_logical_bytes_verified: version.body.kind->size,
                    ..*old(counts)
                }
            } else {
                *old(counts)
            }
        }),
{
    if let LogicalObjectVersionKind::Live { size, .. } = &version.body.kind {
        if let Some(binding) = &version.binding {
            if binding.is_packed() {
                counts.packed_payloads_verified = 1;
                counts.packed_logical_bytes_verified = *size;
            }
        }
    }
}

/// Ends a page of entries, of which it may take `max_steps`. Where it took fewer none was left, and the next
/// phase begins: versions after objects, and nothing after versions.
pub fn finish_fsck_entries(cursor: FsckCursor, processed: usize, max_steps: usize) -> (r: Result<
    FsckPage,
    Error,
>)
    requires
        processed <= max_steps,
    ensures
        match r {
            Err(error) => cursor.checkpoint_generation == u64::MAX && error@
                == fsck_generations_end(),
            Ok(page) => {
                &&& cursor.checkpoint_generation < u64::MAX
                &&& page.processed == processed
                &&& page.processed <= max_steps
                &&& page.complete == (page.cursor.phase == FsckPhase::Complete)
                &&& page.cursor == (FsckCursor {
                    phase: if processed == max_steps {
                        cursor.phase
                    } else if cursor.phase == FsckPhase::VerifyObjects {
                        FsckPhase::VerifyVersions
                    } else {
                        FsckPhase::Complete
                    },
                    after: if processed < max_steps {
                        None
                    } else {
                        cursor.after
                    },
                    checkpoint_generation: (cursor.checkpoint_generation + 1) as u64,
                    ..cursor
                })
            },
        },
{
    let mut cursor = cursor;
    match next_generation(cursor.checkpoint_generation) {
        Err(error) => {
            return Err(error);
        },
        Ok(generation) => {
            cursor.checkpoint_generation = generation;
        },
    }
    if processed < max_steps {
        cursor.phase = if cursor.phase == FsckPhase::VerifyObjects {
            FsckPhase::VerifyVersions
        } else {
            FsckPhase::Complete
        };
        cursor.after = None;
    }
    let complete = cursor.phase == FsckPhase::Complete;
    Ok(FsckPage { cursor, processed, complete })
}

/// Once a page was made from a cursor and its successor is stored, the cursor itself makes no page any more,
/// and the successor does.
pub proof fn law_superseded_worker_is_fenced(
    repository: Repository,
    cursor: FsckCursor,
    successor: FsckCursor,
    max_steps: usize,
)
    requires
        fsck_admission(repository, cursor, Some(cursor.checkpoint_generation), max_steps) is Ok,
        cursor.checkpoint_generation < u64::MAX,
        successor.checkpoint_generation == cursor.checkpoint_generation + 1,
        successor.repository == cursor.repository,
        successor.branch == cursor.branch,
        closure_cursor_sound(repository, successor.closure),
    ensures
        fsck_admission(repository, cursor, Some(successor.checkpoint_generation), max_steps) == Err::<
            FsckPhase,
            Fault,
        >(superseded_fsck()),
        fsck_admission(repository, successor, Some(successor.checkpoint_generation), max_steps)
            == Ok::<FsckPhase, Fault>(successor.phase),
{
}

/// A payload that passes lies where its content says, in a stored object with its digest, its tag and its
/// version, which reaches at least to the end of it.
pub proof fn law_checked_payload_is_there(
    version: ObjectVersion,
    expected_path: Seq<char>,
    metadata: Option<PhysicalMetadata>,
)
    requires
        version.body.kind is Live,
        payload_fault(version, expected_path, metadata) is None,
    ensures
        version.binding is Some,
        metadata is Some,
        version.binding->0.path@ == expected_path,
        metadata->0.sha256@ == version.binding->0.physical_checksum(),
        version.binding->0.pack_range is None ==> metadata->0.len == version.body.kind->size,
        forall|start: u64, end: u64|
            version.binding->0.pack_range == Some((start, end)) && end < u64::MAX ==> end
                < metadata->0.len,
{
}

/// A live version passes exactly where it is bound to a payload at the path that its content gives, and what is
/// stored there is the bound object with all of the bytes: as many as the object has, or, where the object shares a
/// pack, as many as reach to its end. A deletion has nothing to check.
pub proof fn law_check_passes_only_what_is_whole(
    version: ObjectVersion,
    expected_path: Seq<char>,
    metadata: Option<PhysicalMetadata>,
)
    ensures
        version.body.kind is DeleteMarker ==> payload_fault(version, expected_path, metadata) is None,
        version.body.kind is Live ==> (payload_fault(version, expected_path, metadata) is None <==> {
            &&& version.binding is Some
            &&& metadata is Some
            &&& version.binding->0.path@ == expected_path
            &&& version.binding->0.pack_range is None ==> metadata->0.len == version.body.kind->size
            &&& version.binding->0.pack_range matches Some((start, end)) ==> metadata->0.len > end || (
            end == u64::MAX && metadata->0.len == u64::MAX)
            &&& version.binding->0.pack_checksum_sha256 is Some ==> metadata->0.sha256@
                == version.binding->0.pack_checksum_sha256->0@
            &&& version.binding->0.pack_checksum_sha256 is None ==> metadata->0.sha256@
                == version.binding->0.checksum_sha256@
            &&& metadata->0.token.etag@ == version.binding->0.provider_etag@
            &&& metadata->0.token.version_id is Some <==> version.binding->0.provider_version_id is Some
            &&& metadata->0.token.version_id is Some ==> metadata->0.token.version_id->0@
                == version.binding->0.provider_version_id->0@
        }),
{
}

/// A checked entry counts once: as a current object or as a version, never as both. It counts as packed, with its
/// size, only where it is live and lies in a pack; and its bytes count as read only where they were read afresh.
pub proof fn law_check_counts_each_entry_once(
    current: bool,
    version: ObjectVersion,
    facts: PayloadFacts,
    fresh: bool,
)
    ensures
        ({
            let counts = entry_counts(current, version, facts, fresh);
            let packed = version.body.kind is Live && version.binding is Some
                && version.binding->0.pack_range is Some;
            &&& counts.current_objects + counts.logical_versions == 1
            &&& counts.current_objects == 1 <==> current
            &&& counts.payloads_verified == facts.payloads
            &&& counts.payload_bytes_verified == facts.bytes
            &&& counts.deep_content_bytes_verified == facts.deep_bytes
            &&& packed ==> counts.packed_payloads_verified == 1
                && counts.packed_logical_bytes_verified == version.body.kind->size
            &&& !packed ==> counts.packed_payloads_verified == 0
                && counts.packed_logical_bytes_verified == 0
            &&& fresh ==> counts.physical_payloads_verified == facts.payloads
                && counts.deep_physical_bytes_read == facts.deep_bytes
            &&& !fresh ==> counts.physical_payloads_verified == 0 && counts.deep_physical_bytes_read
                == 0
            &&& counts.commits == 0 && counts.reachable_nodes == 0
        }),
{
}

/// A checked commit counts as one, with the nodes that it packs and nothing else.
pub proof fn law_check_counts_each_commit_once(commit: BucketCommit)
    ensures
        commit_counts(commit).commits == 1,
        commit.node_pack is None ==> commit_counts(commit).reachable_nodes == 0,
        commit.node_pack is Some ==> commit_counts(commit).reachable_nodes
            == commit.node_pack->0.node_count,
        commit_counts(commit).current_objects == 0,
        commit_counts(commit).logical_versions == 0,
        commit_counts(commit).payloads_verified == 0,
        commit_counts(commit).payload_bytes_verified == 0,
        commit_counts(commit).deep_content_bytes_verified == 0,
        commit_counts(commit).packed_payloads_verified == 0,
        commit_counts(commit).packed_logical_bytes_verified == 0,
        commit_counts(commit).physical_payloads_verified == 0,
        commit_counts(commit).deep_physical_bytes_read == 0,
{
}

/// Two reports are added count by count. They cannot be added exactly where one of the sums would not fit.
pub proof fn law_reports_add_count_by_count(a: FsckReport, b: FsckReport)
    ensures
        fsck_plus(a, b) is Ok <==> a.commits + b.commits <= u64::MAX && a.reachable_nodes
            + b.reachable_nodes <= u64::MAX && a.current_objects + b.current_objects <= u64::MAX
            && a.logical_versions + b.logical_versions <= u64::MAX && a.payloads_verified
            + b.payloads_verified <= u64::MAX && a.payload_bytes_verified + b.payload_bytes_verified
            <= u64::MAX && a.deep_content_bytes_verified + b.deep_content_bytes_verified <= u64::MAX
            && a.packed_payloads_verified + b.packed_payloads_verified <= u64::MAX
            && a.packed_logical_bytes_verified + b.packed_logical_bytes_verified <= u64::MAX
            && a.physical_payloads_verified + b.physical_payloads_verified <= u64::MAX
            && a.deep_physical_bytes_read + b.deep_physical_bytes_read <= u64::MAX,
        fsck_plus(a, b) matches Ok(sum) ==> {
            &&& sum.commits == a.commits + b.commits
            &&& sum.reachable_nodes == a.reachable_nodes + b.reachable_nodes
            &&& sum.current_objects == a.current_objects + b.current_objects
            &&& sum.logical_versions == a.logical_versions + b.logical_versions
            &&& sum.payloads_verified == a.payloads_verified + b.payloads_verified
            &&& sum.payload_bytes_verified == a.payload_bytes_verified + b.payload_bytes_verified
            &&& sum.deep_content_bytes_verified == a.deep_content_bytes_verified
                + b.deep_content_bytes_verified
            &&& sum.packed_payloads_verified == a.packed_payloads_verified
                + b.packed_payloads_verified
            &&& sum.packed_logical_bytes_verified == a.packed_logical_bytes_verified
                + b.packed_logical_bytes_verified
            &&& sum.physical_payloads_verified == a.physical_payloads_verified
                + b.physical_payloads_verified
            &&& sum.deep_physical_bytes_read == a.deep_physical_bytes_read
                + b.deep_physical_bytes_read
        },
{
}

/// A page is made exactly where its cursor is of this repository, on a branch and over a closure that can be, is the
/// one that was stored last, and asks for no more than a page holds; it goes on in the cursor's own phase.
pub proof fn law_check_goes_on_from_its_newest_cursor(
    repository: Repository,
    cursor: FsckCursor,
    stored: Option<u64>,
    max_steps: usize,
)
    ensures
        fsck_admission(repository, cursor, stored, max_steps) is Ok <==> 1 <= max_steps <= 1_000
            && cursor.repository == repository.format.repository_id && valid_branch(cursor.branch@)
            && cursor.closure.repository == repository.format.repository_id
            && closure_cursor_sound(repository, cursor.closure) && stored is Some && stored->0
            == cursor.checkpoint_generation,
        fsck_admission(repository, cursor, stored, max_steps) matches Ok(phase) ==> phase == cursor.phase,
{
}

/// A page counts every commit that it checked, with the nodes of each, on top of what was counted before.
pub proof fn law_check_counts_every_commit(
    report: FsckReport,
    commits: Seq<(CommitId, BucketCommit)>,
)
    ensures
        with_commits(report, commits) matches Ok(after) ==> after.commits == report.commits
            + commits.len() && after.reachable_nodes >= report.reachable_nodes && after.current_objects
            == report.current_objects && after.logical_versions == report.logical_versions
            && after.payloads_verified == report.payloads_verified,
        nothing_checked().commits == 0 && nothing_checked().reachable_nodes == 0
            && nothing_checked().current_objects == 0 && nothing_checked().logical_versions == 0
            && nothing_checked().payloads_verified == 0 && nothing_checked().payload_bytes_verified == 0
            && nothing_checked().deep_content_bytes_verified == 0
            && nothing_checked().packed_payloads_verified == 0
            && nothing_checked().packed_logical_bytes_verified == 0
            && nothing_checked().physical_payloads_verified == 0
            && nothing_checked().deep_physical_bytes_read == 0,
    decreases commits.len(),
{
    if commits.len() > 0 {
        law_check_counts_every_commit(report, commits.drop_last());
    }
}

} // verus!
