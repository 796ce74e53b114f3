//! Running garbage collection: who may start it, what it waits for, and what it deletes.
use crate::bytes::{bytes_lt, has_prefix, lex_lt, starts_with};
use crate::error::{fault, outcome, Error, ErrorCode, Fault, RetryAdvice};
use crate::gc::{
    one_more, saturating, GcCandidate, GcCoordinator, GcCursor, GcPage, GcPhase, GcReport, KindCounts,
};
use crate::ids::{nil_bytes, CommitId, OperationId, RepositoryId};
use crate::model::{physical_of, physical_version, DeleteOutcome, PhysicalVersion, RootManifest, StorageToken};
use crate::paths::{below, gc_managed_kind, managed_kind};
use crate::repository::Repository;
use crate::text::{
    chars_of, decimal_padded, is_part, law_padded_digits_read_back, parse_u64, parsed_u64, pow10,
};
use vstd::prelude::*;

verus! {

impl Repository {
    /// Claims the right to collect for this process, and says which objects are old enough.
    pub fn start_gc(&mut self, grace_millis: u64, now: u64, epoch: OperationId) -> (r: Result<
        u64,
        Error,
    >)
        ensures
            ({
                let before = *old(self);
                let refused = if grace_millis == 0 {
                    Some(
                        fault(
                            ErrorCode::InvalidLimit,
                            "GC grace period must be greater than zero",
                        ),
                    )
                } else if !before.writable {
                    Some(
                        fault(
                            ErrorCode::PreconditionFailed,
                            "GC requires a writable repository handle",
                        ),
                    )
                } else if now < grace_millis {
                    Some(
                        fault(
                            ErrorCode::InvalidLimit,
                            "GC grace period exceeds the current repository clock",
                        ),
                    )
                } else if before.active_gc_epoch is Some {
                    Some(fault(ErrorCode::PreconditionFailed, "another GC epoch is active"))
                } else {
                    None
                };
                match refused {
                    Some(f) => outcome(r) == Err::<u64, Fault>(f) && *final(self) == before,
                    None => r == Ok::<u64, Error>((now - grace_millis) as u64) && *final(self) == (
                    Repository { active_gc_epoch: Some(epoch), ..before }),
                }
            }),
    {
        if grace_millis == 0 {
            return Err(
                Error::new(ErrorCode::InvalidLimit, "GC grace period must be greater than zero"),
            );
        }
        if !self.writable {
            return Err(
                Error::new(
                    ErrorCode::PreconditionFailed,
                    "GC requires a writable repository handle",
                ),
            );
        }
        if now < grace_millis {
            return Err(
                Error::new(
                    ErrorCode::InvalidLimit,
                    "GC grace period exceeds the current repository clock",
                ),
            );
        }
        if self.active_gc_epoch.is_some() {
            return Err(Error::new(ErrorCode::PreconditionFailed, "another GC epoch is active"));
        }
        self.active_gc_epoch = Some(epoch);
        Ok(now - grace_millis)
    }

    /// Gives up the right to collect.
    pub fn clear_gc_epoch(&mut self)
        ensures
            *final(self) == (Repository { active_gc_epoch: None, ..*old(self) }),
    {
        self.active_gc_epoch = None;
    }

    /// The cursor of a collection that begins.
    pub fn new_gc_cursor(&self, epoch: OperationId, cutoff_millis: u64, work: RootManifest) -> (r: GcCursor)
        ensures
            r.repository == self.format.repository_id,
            r.epoch == epoch,
            r.cutoff_millis == cutoff_millis,
            r.phase == GcPhase::DiscoverBranches,
            r.continuation is None,
            r.work == work,
            r.dirty_sequence == self.gc_dirty_sequence,
            r.dirty_target_sequence == 0,
            !r.initial_scan_complete,
            !r.publication_barrier_drained,
            r.sweep_after is None,
            r.report == empty_report(),
    {
        let none = KindCounts { commits: 0, nodes: 0, payloads: 0 };
        GcCursor {
            repository: self.format.repository_id,
            epoch,
            cutoff_millis,
            phase: GcPhase::DiscoverBranches,
            continuation: None,
            work,
            dirty_sequence: self.gc_dirty_sequence,
            dirty_target_sequence: 0,
            initial_scan_complete: false,
            publication_barrier_drained: false,
            sweep_after: None,
            report: GcReport {
                roots: 0,
                dirty_roots: 0,
                commits: 0,
                nodes: 0,
                logical_versions: 0,
                candidates: 0,
                candidate_bytes: 0,
                candidates_by_kind: none,
                skipped_reachable: 0,
                deleted_versions: 0,
                deleted_bytes: 0,
                deleted_by_kind: none,
                already_missing: 0,
            },
        }
    }

    /// Refuses a cursor that is not of the collection that this process runs.
    pub fn validate_gc_cursor(&self, cursor: &GcCursor) -> (r: Result<(), Error>)
        ensures
            outcome(r) == if gc_cursor_sound(*self, *cursor) {
                Ok::<(), Fault>(())
            } else {
                Err(foreign_gc_cursor())
            },
    {
        let active = match self.active_gc_epoch {
            Some(epoch) => epoch == cursor.epoch,
            None => false,
        };
        if cursor.repository != self.format.repository_id || cursor.epoch.is_nil()
            || cursor.work.format_digest != self.format.state_tree_digest || !active {
            return Err(
                Error::new(
                    ErrorCode::InvalidContinuationToken,
                    "GC cursor is malformed or is not the active epoch",
                ),
            );
        }
        Ok(())
    }

    /// The shared state to write when a collection begins (`active_epoch` is given) or ends.
    pub fn publish_gc_coordinator(
        &self,
        current: Option<GcCoordinator>,
        active_epoch: Option<OperationId>,
        now: u64,
    ) -> (r: Result<GcCoordinator, Error>)
        ensures
            outcome(r) == coordinator_outcome(*self, current, active_epoch, now),
    {
        let mut generation: u64 = 1;
        let mut held: Option<OperationId> = None;
        if let Some(value) = current {
            if value.repository != self.format.repository_id || value.generation == 0 {
                return Err(Error::new(ErrorCode::CorruptCommit, "GC coordinator is malformed"));
            }
            if value.generation == u64::MAX {
                return Err(Error::new(ErrorCode::InternalInvariant, "GC coordinator overflow"));
            }
            generation = value.generation + 1;
            held = value.active_epoch;
        }
        if active_epoch.is_some() && held.is_some() {
            return Err(Error::new(ErrorCode::PreconditionFailed, "another GC epoch is active"));
        }
        if active_epoch.is_none() && held.is_some() && held != self.active_gc_epoch {
            return Err(
                Error::new(
                    ErrorCode::PreconditionFailed,
                    "GC coordinator belongs to another epoch",
                ),
            );
        }
        Ok(
            GcCoordinator {
                repository: self.format.repository_id,
                generation,
                active_epoch,
                admission_closed: active_epoch.is_some(),
                updated_at_millis: now,
            },
        )
    }

    /// Takes over the collection that the shared state says is running.
    pub fn restore_gc_state(&mut self, current: Option<GcCoordinator>) -> (r: Result<
        Option<OperationId>,
        Error,
    >)
        ensures
            ({
                let before = *old(self);
                let malformed = current is Some && (current->0.repository
                    != before.format.repository_id || current->0.generation == 0);
                let active = if current is Some {
                    current->0.active_epoch
                } else {
                    None
                };
                if malformed {
                    outcome(r) == Err::<Option<OperationId>, Fault>(
                        fault(ErrorCode::CorruptCommit, "GC coordinator is malformed"),
                    ) && *final(self) == before
                } else {
                    r == Ok::<Option<OperationId>, Error>(active) && *final(self) == (Repository {
                        active_gc_epoch: if active is Some {
                            active
                        } else {
                            before.active_gc_epoch
                        },
                        ..before
                    })
                }
            }),
    {
        let active = match current {
            None => None,
            Some(value) => {
                if value.repository != self.format.repository_id || value.generation == 0 {
                    return Err(Error::new(ErrorCode::CorruptCommit, "GC coordinator is malformed"));
                }
                value.active_epoch
            },
        };
        if active.is_some() {
            self.active_gc_epoch = active;
        }
        Ok(active)
    }

    /// Takes a collection up again from what is stored of it: from its newest cursor, where it is the
    /// collection that is running, and from nothing where none is stored or the stored one has ended. What is
    /// taken up can be advanced.
    pub fn resume_gc(&self, stored: Option<GcCursor>) -> (r: Result<Option<GcCursor>, Error>)
        ensures
            outcome(r) == match stored {
                None => Ok(None),
                Some(cursor) => if cursor.repository != self.format.repository_id || cursor.epoch@
                    == nil_bytes() || cursor.work.format_digest != self.format.state_tree_digest {
                    Err(foreign_gc_cursor())
                } else if self.active_gc_epoch == Some(cursor.epoch) {
                    Ok(Some(cursor))
                } else {
                    Ok(None)
                },
            },
            r matches Ok(Some(cursor)) ==> gc_cursor_sound(*self, cursor),
    {
        match stored {
            None => Ok(None),
            Some(cursor) => {
                if cursor.repository != self.format.repository_id || cursor.epoch.is_nil()
                    || cursor.work.format_digest != self.format.state_tree_digest {
                    return Err(
                        Error::new(
                            ErrorCode::InvalidContinuationToken,
                            "GC cursor is malformed or is not the active epoch",
                        ),
                    );
                }
                let running = match self.active_gc_epoch {
                    Some(epoch) => epoch == cursor.epoch,
                    None => false,
                };
                if running {
                    Ok(Some(cursor))
                } else {
                    Ok(None)
                }
            },
        }
    }

    /// Raises the number of the last root that moved during a collection.
    pub fn observe_dirty_sequence(&mut self, sequence: u64)
        ensures
            *final(self) == (Repository {
                gc_dirty_sequence: if old(self).gc_dirty_sequence < sequence {
                    sequence
                } else {
                    old(self).gc_dirty_sequence
                },
                ..*old(self)
            }),
    {
        if self.gc_dirty_sequence < sequence {
            self.gc_dirty_sequence = sequence;
        }
    }
}

/// The report of a collection that has done nothing.
pub open spec fn empty_report() -> GcReport {
    let none = KindCounts { commits: 0, nodes: 0, payloads: 0 };
    GcReport {
        roots: 0,
        dirty_roots: 0,
        commits: 0,
        nodes: 0,
        logical_versions: 0,
        candidates: 0,
        candidate_bytes: 0,
        candidates_by_kind: none,
        skipped_reachable: 0,
        deleted_versions: 0,
        deleted_bytes: 0,
        deleted_by_kind: none,
        already_missing: 0,
    }
}

/// Whether a cursor is of the collection that this process runs.
pub open spec fn gc_cursor_sound(repository: Repository, cursor: GcCursor) -> bool {
    &&& cursor.repository == repository.format.repository_id
    &&& cursor.epoch@ != nil_bytes()
    &&& cursor.work.format_digest == repository.format.state_tree_digest
    &&& repository.active_gc_epoch == Some(cursor.epoch)
}

/// The error of a cursor of another collection.
pub open spec fn foreign_gc_cursor() -> Fault {
    fault(
        ErrorCode::InvalidContinuationToken,
        "GC cursor is malformed or is not the active epoch",
    )
}

/// The shared state to write when a collection begins or ends.
pub open spec fn coordinator_outcome(
    repository: Repository,
    current: Option<GcCoordinator>,
    active_epoch: Option<OperationId>,
    now: u64,
) -> Result<GcCoordinator, Fault> {
    let held = if current is Some {
        current->0.active_epoch
    } else {
        None
    };
    if current is Some && (current->0.repository != repository.format.repository_id
        || current->0.generation == 0) {
        Err(fault(ErrorCode::CorruptCommit, "GC coordinator is malformed"))
    } else if current is Some && current->0.generation == u64::MAX {
        Err(fault(ErrorCode::InternalInvariant, "GC coordinator overflow"))
    } else if active_epoch is Some && held is Some {
        Err(fault(ErrorCode::PreconditionFailed, "another GC epoch is active"))
    } else if active_epoch is None && held is Some && held != repository.active_gc_epoch {
        Err(fault(ErrorCode::PreconditionFailed, "GC coordinator belongs to another epoch"))
    } else {
        Ok(
            GcCoordinator {
                repository: repository.format.repository_id,
                generation: if current is Some {
                    (current->0.generation + 1) as u64
                } else {
                    1
                },
                active_epoch,
                admission_closed: active_epoch is Some,
                updated_at_millis: now,
            },
        )
    }
}

/// How many slashes `text` holds.
pub open spec fn slashes(text: Seq<char>) -> nat
    decreases text.len(),
{
    if text.len() == 0 {
        0
    } else {
        slashes(text.drop_first()) + if text[0] == '/' {
            1nat
        } else {
            0nat
        }
    }
}

/// The number in the path of a root that moved: the third part from the end.
pub open spec fn is_dirty_sequence(path: Seq<char>, sequence: u64) -> bool {
    exists|i: int, j: int|
        #![trigger is_part(path, i, j)]
        is_part(path, i, j) && slashes(path.skip(j)) == 2 && parsed_u64(path.subrange(i, j)) == Some(
            sequence,
        )
}

/// The number in the path of a root that moved.
pub fn dirty_root_sequence(path: &str) -> (r: Result<u64, Error>)
    ensures
        match r {
            Ok(sequence) => is_dirty_sequence(path@, sequence),
            Err(error) => (forall|sequence: u64| !#[trigger] is_dirty_sequence(path@, sequence))
                && error@ == fault(ErrorCode::CorruptCommit, "GC dirty-root path is malformed"),
        },
{
    let chars = chars_of(path);
    let mut end: usize = chars.len();
    let mut seen: usize = 0;
    assert(path@.skip(path@.len() as int) =~= Seq::<char>::empty());
    while end > 0 && seen < 2
        invariant
            chars@ == path@,
            end <= chars@.len(),
            seen <= 2,
            slashes(path@.skip(end as int)) == seen,
            seen == 2 ==> end < chars@.len() && path@[end as int] == '/',
        decreases end,
    {
        proof {
            assert(path@.skip(end - 1).drop_first() =~= path@.skip(end as int));
            assert(path@.skip(end - 1)[0] == path@[end - 1]);
        }
        end -= 1;
        if chars[end] == '/' {
            seen += 1;
        }
    }
    if seen < 2 {
        proof {
            assert(path@.skip(0) =~= path@);
            assert forall|sequence: u64| !#[trigger] is_dirty_sequence(path@, sequence) by {
                if is_dirty_sequence(path@, sequence) {
                    let (i, j) = choose|i: int, j: int|
                        #![trigger is_part(path@, i, j)]
                        is_part(path@, i, j) && slashes(path@.skip(j)) == 2 && parsed_u64(
                            path@.subrange(i, j),
                        ) == Some(sequence);
                    lemma_slashes_fall(path@, 0, j);
                }
            }
        }
        return Err(Error::new(ErrorCode::CorruptCommit, "GC dirty-root path is malformed"));
    }
    let mut start: usize = end;
    while start > 0 && chars[start - 1] != '/'
        invariant
            chars@ == path@,
            start <= end <= chars@.len(),
            forall|k: int| start <= k < end ==> path@[k] != '/',
        decreases start,
    {
        start -= 1;
    }
    let mut part: Vec<char> = Vec::new();
    let mut i: usize = start;
    while i < end
        invariant
            chars@ == path@,
            start <= i <= end <= chars@.len(),
            part@ == path@.subrange(start as int, i as int),
        decreases end - i,
    {
        part.push(chars[i]);
        assert(part@ =~= path@.subrange(start as int, i + 1));
        i += 1;
    }
    assert(is_part(path@, start as int, end as int));
    match parse_u64(&part) {
        Some(sequence) => Ok(sequence),
        None => {
            proof {
                assert forall|sequence: u64| !#[trigger] is_dirty_sequence(path@, sequence) by {
                    if is_dirty_sequence(path@, sequence) {
                        let (a, b) = choose|a: int, b: int|
                            #![trigger is_part(path@, a, b)]
                            is_part(path@, a, b) && slashes(path@.skip(b)) == 2 && parsed_u64(
                                path@.subrange(a, b),
                            ) == Some(sequence);
                        lemma_part_is_unique(path@, start as int, end as int, a, b);
                    }
                }
            }
            Err(Error::new(ErrorCode::CorruptCommit, "GC dirty-root path is malformed"))
        },
    }
}

proof fn lemma_slashes_fall(text: Seq<char>, a: int, b: int)
    requires
        0 <= a <= b <= text.len(),
    ensures
        slashes(text.skip(b)) <= slashes(text.skip(a)),
        (exists|k: int| a <= k < b && text[k] == '/') ==> slashes(text.skip(b)) < slashes(
            text.skip(a),
        ),
    decreases b - a,
{
    if a < b {
        lemma_slashes_fall(text, a + 1, b);
        assert(text.skip(a).drop_first() =~= text.skip(a + 1));
        assert(text.skip(a)[0] == text[a]);
        if exists|k: int| a <= k < b && text[k] == '/' {
            let k = choose|k: int| a <= k < b && text[k] == '/';
            if k > a {
                assert(a + 1 <= k < b && text[k] == '/');
            }
        }
    }
}

/// Two parts with the same number of slashes behind them are one.
proof fn lemma_part_is_unique(text: Seq<char>, a: int, b: int, c: int, d: int)
    requires
        is_part(text, a, b),
        is_part(text, c, d),
        slashes(text.skip(b)) == slashes(text.skip(d)),
        slashes(text.skip(b)) > 0,
    ensures
        a == c && b == d,
{
    if b < d {
        lemma_slashes_fall(text, b, d);
        if b < text.len() {
            assert(text[b] == '/');
        }
        assert(false);
    }
    if d < b {
        lemma_slashes_fall(text, d, b);
        if d < text.len() {
            assert(text[d] == '/');
        }
        assert(false);
    }
    if a < c {
        assert(text[c - 1] == '/');
    }
    if c < a {
        assert(text[a - 1] == '/');
    }
}

/// What an advance of a collection does next.
#[derive(Clone, Copy, Debug, PartialEq, Eq, Structural)]
pub enum GcWork {
    /// Nothing: marking is over. The flag says whether the whole collection is.
    Idle { complete: bool },
    /// Wait for publications that were admitted before the collection began.
    DrainTickets,
    DiscoverBranches,
    DiscoverTags,
    MarkCommits,
    MarkNodes,
    ScanCandidates,
    CatchUpDirtyRoots,
    Cleanup,
}

/// The work of a phase.
pub open spec fn work_of(cursor: GcCursor) -> GcWork {
    match cursor.phase {
        GcPhase::Ready => GcWork::Idle { complete: false },
        GcPhase::Sweeping => GcWork::Idle { complete: false },
        GcPhase::Complete => GcWork::Idle { complete: true },
        phase => if !cursor.publication_barrier_drained {
            GcWork::DrainTickets
        } else {
            match phase {
                GcPhase::DiscoverBranches => GcWork::DiscoverBranches,
                GcPhase::DiscoverTags => GcWork::DiscoverTags,
                GcPhase::MarkCommits => GcWork::MarkCommits,
                GcPhase::MarkNodes => GcWork::MarkNodes,
                GcPhase::ScanCandidates => GcWork::ScanCandidates,
                GcPhase::CatchUpDirtyRoots => GcWork::CatchUpDirtyRoots,
                _ => GcWork::Cleanup,
            }
        },
    }
}

impl Repository {
    /// Says what an advance of a collection does next.
    pub fn advance_gc(&self, cursor: &GcCursor, max_steps: usize) -> (r: Result<GcWork, Error>)
        ensures
            outcome(r) == if !gc_cursor_sound(*self, *cursor) {
                Err(foreign_gc_cursor())
            } else if !(1 <= max_steps <= 1_000) {
                Err(fault(ErrorCode::InvalidLimit, "GC page size must be between 1 and 1,000"))
            } else {
                Ok(work_of(*cursor))
            },
    {
        if let Err(error) = self.validate_gc_cursor(cursor) {
            return Err(error);
        }
        if max_steps < 1 || max_steps > 1_000 {
            return Err(
                Error::new(ErrorCode::InvalidLimit, "GC page size must be between 1 and 1,000"),
            );
        }
        let work = match cursor.phase {
            GcPhase::Ready | GcPhase::Sweeping => GcWork::Idle { complete: false },
            GcPhase::Complete => GcWork::Idle { complete: true },
            phase => {
                if !cursor.publication_barrier_drained {
                    GcWork::DrainTickets
                } else {
                    match phase {
                        GcPhase::DiscoverBranches => GcWork::DiscoverBranches,
                        GcPhase::DiscoverTags => GcWork::DiscoverTags,
                        GcPhase::MarkCommits => GcWork::MarkCommits,
                        GcPhase::MarkNodes => GcWork::MarkNodes,
                        GcPhase::ScanCandidates => GcWork::ScanCandidates,
                        GcPhase::CatchUpDirtyRoots => GcWork::CatchUpDirtyRoots,
                        _ => GcWork::Cleanup,
                    }
                }
            },
        };
        Ok(work)
    }
}

/// A promise that a publication is under way, good until it expires.
#[derive(Clone, Copy, Debug)]
pub struct GcPublicationTicket {
    pub repository: RepositoryId,
    pub instance: OperationId,
    pub request_digest: [u8; 32],
    pub expires_at_millis: u64,
}

impl Repository {
    /// Whether a collection must wait for a ticket. One that has run out may be deleted.
    pub fn ticket_blocks(&self, ticket: &GcPublicationTicket, now: u64) -> (r: Result<bool, Error>)
        ensures
            outcome(r) == if ticket.repository != self.format.repository_id {
                Err(
                    fault(
                        ErrorCode::CorruptCommit,
                        "publication ticket belongs to another repository",
                    ),
                )
            } else {
                Ok(ticket.expires_at_millis > now)
            },
    {
        if ticket.repository != self.format.repository_id {
            return Err(
                Error::new(
                    ErrorCode::CorruptCommit,
                    "publication ticket belongs to another repository",
                ),
            );
        }
        Ok(ticket.expires_at_millis > now)
    }

    /// Refuses a publication while a collection runs.
    pub fn admit_publication(&self, coordinator: Option<&GcCoordinator>) -> (r: Result<(), Error>)
        ensures
            outcome(r) == if coordinator is Some && !admits(self.format.repository_id, *coordinator->0) {
                Err(
                    fault(
                        ErrorCode::PreconditionFailed,
                        "repository publication admission is closed for maintenance",
                    ).with_retry(RetryAdvice::AfterMillis(250)),
                )
            } else {
                Ok::<(), Fault>(())
            },
    {
        if let Some(value) = coordinator {
            if value.repository != self.format.repository_id || value.active_epoch.is_some()
                || value.admission_closed {
                return Err(
                    Error::new(
                        ErrorCode::PreconditionFailed,
                        "repository publication admission is closed for maintenance",
                    ).retry(RetryAdvice::AfterMillis(250)),
                );
            }
        }
        Ok(())
    }

    /// The ticket of a publication that begins now.
    pub fn publication_ticket(
        &self,
        instance: OperationId,
        request_digest: [u8; 32],
        now: u64,
        ttl_millis: u64,
    ) -> (r: Result<GcPublicationTicket, Error>)
        ensures
            outcome(r) == if now + ttl_millis > u64::MAX {
                Err(fault(ErrorCode::InvalidLimit, "publication ticket expiry overflow"))
            } else {
                Ok(
                    GcPublicationTicket {
                        repository: self.format.repository_id,
                        instance,
                        request_digest,
                        expires_at_millis: (now + ttl_millis) as u64,
                    },
                )
            },
    {
        match now.checked_add(ttl_millis) {
            None => Err(Error::new(ErrorCode::InvalidLimit, "publication ticket expiry overflow")),
            Some(expires_at_millis) => Ok(
                GcPublicationTicket {
                    repository: self.format.repository_id,
                    instance,
                    request_digest,
                    expires_at_millis,
                },
            ),
        }
    }
}

/// Whether the shared state lets publications through.
pub open spec fn admits(repository: RepositoryId, coordinator: GcCoordinator) -> bool {
    coordinator.repository == repository && coordinator.active_epoch is None
        && !coordinator.admission_closed
}

/// While a collection runs no publication is admitted, and once it has ended they are again.
pub proof fn law_admission_follows_the_collection(
    repository: Repository,
    current: Option<GcCoordinator>,
    active_epoch: Option<OperationId>,
    now: u64,
)
    requires
        coordinator_outcome(repository, current, active_epoch, now) is Ok,
    ensures
        admits(
            repository.format.repository_id,
            coordinator_outcome(repository, current, active_epoch, now)->Ok_0,
        ) <==> active_epoch is None,
{
}

/// Says what the deletion of a ticket that has run out came to.
pub fn expired_ticket_deleted(deleted: DeleteOutcome) -> (r: Result<(), Error>)
    ensures
        outcome(r) == if deleted == DeleteOutcome::TokenMismatch {
            Err(
                fault(
                    ErrorCode::PreconditionFailed,
                    "expired publication ticket changed during maintenance admission",
                ),
            )
        } else {
            Ok::<(), Fault>(())
        },
{
    if deleted == DeleteOutcome::TokenMismatch {
        return Err(
            Error::new(
                ErrorCode::PreconditionFailed,
                "expired publication ticket changed during maintenance admission",
            ),
        );
    }
    Ok(())
}

/// Says what writing the shared state came to: it is written only over what was read.
pub fn coordinator_written(applied: bool) -> (r: Result<(), Error>)
    ensures
        outcome(r) == if applied {
            Ok::<(), Fault>(())
        } else {
            Err(fault(ErrorCode::RefConflict, "GC coordinator changed concurrently"))
        },
{
    if !applied {
        return Err(Error::new(ErrorCode::RefConflict, "GC coordinator changed concurrently"));
    }
    Ok(())
}

/// Takes what draining tickets gave into the cursor.
pub fn finish_drain(cursor: &mut GcCursor, continuation: Option<String>, drained: bool)
    ensures
        *final(cursor) == (GcCursor {
            continuation,
            publication_barrier_drained: drained,
            ..*old(cursor)
        }),
{
    cursor.continuation = continuation;
    cursor.publication_barrier_drained = drained;
}

/// Takes a page of references into the cursor.
pub fn finish_discovery(
    cursor: &mut GcCursor,
    tags: bool,
    roots: u64,
    work: RootManifest,
    continuation: Option<String>,
)
    ensures
        *final(cursor) == (GcCursor {
            report: GcReport {
                roots: saturating(old(cursor).report.roots, roots),
                ..old(cursor).report
            },
            work,
            continuation,
            phase: if continuation is Some {
                old(cursor).phase
            } else if tags {
                GcPhase::MarkCommits
            } else {
                GcPhase::DiscoverTags
            },
            ..*old(cursor)
        }),
{
    cursor.report.roots = cursor.report.roots.saturating_add(roots);
    cursor.work = work;
    if continuation.is_none() {
        cursor.phase = if tags {
            GcPhase::MarkCommits
        } else {
            GcPhase::DiscoverTags
        };
    }
    cursor.continuation = continuation;
}

/// Takes a page of marked commits into the cursor.
pub fn finish_commit_marking(cursor: &mut GcCursor, marked: u64, work: RootManifest, none_waits: bool)
    ensures
        *final(cursor) == (GcCursor {
            report: GcReport {
                commits: saturating(old(cursor).report.commits, marked),
                ..old(cursor).report
            },
            work,
            phase: if none_waits {
                GcPhase::MarkNodes
            } else {
                old(cursor).phase
            },
            ..*old(cursor)
        }),
{
    cursor.report.commits = cursor.report.commits.saturating_add(marked);
    cursor.work = work;
    if none_waits {
        cursor.phase = GcPhase::MarkNodes;
    }
}

/// Takes a page of marked nodes into the cursor.
pub fn finish_node_marking(
    cursor: &mut GcCursor,
    marked: u64,
    logical_versions: u64,
    work: RootManifest,
    none_waits: bool,
)
    ensures
        *final(cursor) == (GcCursor {
            report: GcReport {
                nodes: saturating(old(cursor).report.nodes, marked),
                logical_versions: saturating(
                    old(cursor).report.logical_versions,
                    logical_versions,
                ),
                ..old(cursor).report
            },
            work,
            phase: if !none_waits {
                old(cursor).phase
            } else if old(cursor).initial_scan_complete {
                GcPhase::CatchUpDirtyRoots
            } else {
                GcPhase::ScanCandidates
            },
            ..*old(cursor)
        }),
{
    cursor.report.nodes = cursor.report.nodes.saturating_add(marked);
    cursor.report.logical_versions = cursor.report.logical_versions.saturating_add(
        logical_versions,
    );
    cursor.work = work;
    if none_waits {
        cursor.phase = if cursor.initial_scan_complete {
            GcPhase::CatchUpDirtyRoots
        } else {
            GcPhase::ScanCandidates
        };
    }
}

/// A physical version as the provider lists it.
#[derive(Clone, Debug)]
pub struct ListedObject {
    pub path: String,
    pub len: u64,
    pub last_modified_millis: u64,
    pub token: StorageToken,
}

/// Whether a listed object is kept: its path is marked, or its own version is.
pub open spec fn listed_is_kept(object: ListedObject, path_marked: bool, version_marked: bool) -> bool {
    path_marked || (object.token.version_id is Some && version_marked)
}

impl Repository {
    /// What becomes of a listed object: a candidate if it is managed, old and unmarked.
    pub fn gc_scan_entry(
        &self,
        object: &ListedObject,
        cutoff_millis: u64,
        path_marked: bool,
        version_marked: bool,
    ) -> (r: Option<GcCandidate>)
        ensures
            match r {
                Some(candidate) => {
                    &&& object.last_modified_millis <= cutoff_millis
                    &&& !listed_is_kept(*object, path_marked, version_marked)
                    &&& candidate.path == object.path
                    &&& candidate.physical_version == physical_of(object.token)
                    &&& candidate.len == object.len
                    &&& candidate.last_modified_millis == object.last_modified_millis
                    &&& exists|rest: Seq<char>| #[trigger]
                        below(object.path@, self.options.repository_prefix@, rest) && managed_kind(
                            rest,
                        ) == Some(candidate.kind)
                },
                None => {
                    ||| object.last_modified_millis > cutoff_millis
                    ||| listed_is_kept(*object, path_marked, version_marked)
                    ||| forall|rest: Seq<char>| #[trigger]
                        below(object.path@, self.options.repository_prefix@, rest) ==> managed_kind(
                            rest,
                        ) is None
                },
            },
    {
        let kind = match gc_managed_kind(&self.options.repository_prefix, &object.path) {
            None => {
                return None;
            },
            Some(kind) => kind,
        };
        if object.last_modified_millis > cutoff_millis {
            return None;
        }
        if path_marked || (object.token.version_id.is_some() && version_marked) {
            return None;
        }
        Some(
            GcCandidate {
                path: object.path.clone(),
                physical_version: physical_version(&object.token),
                len: object.len,
                last_modified_millis: object.last_modified_millis,
                kind,
            },
        )
    }
}

/// Counts a new candidate.
pub fn record_candidate(report: &mut GcReport, candidate: &GcCandidate)
    ensures
        *final(report) == (GcReport {
            candidates: saturating(old(report).candidates, 1),
            candidate_bytes: saturating(old(report).candidate_bytes, candidate.len),
            candidates_by_kind: one_more(old(report).candidates_by_kind, candidate.kind),
            ..*old(report)
        }),
{
    report.candidates = report.candidates.saturating_add(1);
    report.candidate_bytes = report.candidate_bytes.saturating_add(candidate.len);
    let mut counts = report.candidates_by_kind;
    counts.count(candidate.kind);
    report.candidates_by_kind = counts;
}

/// Takes a page of the scan into the cursor.
pub fn finish_scan(cursor: &mut GcCursor, work: RootManifest, continuation: Option<String>)
    ensures
        *final(cursor) == (GcCursor {
            work,
            continuation,
            initial_scan_complete: old(cursor).initial_scan_complete || continuation is None,
            phase: if continuation is None {
                GcPhase::CatchUpDirtyRoots
            } else {
                old(cursor).phase
            },
            ..*old(cursor)
        }),
{
    cursor.work = work;
    if continuation.is_none() {
        cursor.initial_scan_complete = true;
        cursor.phase = GcPhase::CatchUpDirtyRoots;
    }
    cursor.continuation = continuation;
}

/// A root that moved while a collection ran.
#[derive(Clone, Copy, Debug)]
pub struct GcDirtyRoot {
    pub repository: RepositoryId,
    pub epoch: OperationId,
    pub sequence: u64,
    pub target: CommitId,
    pub previous_target: Option<CommitId>,
}

impl Repository {
    /// Sets how far a collection must catch up, if that is not set.
    pub fn begin_catch_up(&self, cursor: &mut GcCursor)
        ensures
            *final(cursor) == (GcCursor {
                dirty_target_sequence: if old(cursor).dirty_target_sequence == 0 {
                    self.gc_dirty_sequence
                } else {
                    old(cursor).dirty_target_sequence
                },
                ..*old(cursor)
            }),
    {
        if cursor.dirty_target_sequence == 0 {
            cursor.dirty_target_sequence = self.gc_dirty_sequence;
        }
    }

    /// Refuses a moved root that does not belong where it was found.
    pub fn check_dirty_root(&self, cursor: &GcCursor, sequence: u64, event: &GcDirtyRoot) -> (r: Result<
        (),
        Error,
    >)
        ensures
            outcome(r) == if event.repository == self.format.repository_id && event.epoch
                == cursor.epoch && event.sequence == sequence {
                Ok::<(), Fault>(())
            } else {
                Err(
                    fault(
                        ErrorCode::CorruptCommit,
                        "GC dirty-root event does not match its path",
                    ),
                )
            },
    {
        if event.repository != self.format.repository_id || event.epoch != cursor.epoch
            || event.sequence != sequence {
            return Err(
                Error::new(
                    ErrorCode::CorruptCommit,
                    "GC dirty-root event does not match its path",
                ),
            );
        }
        Ok(())
    }
}

/// The bytes of a moved root that was listed.
pub fn dirty_root_event(read: Option<Vec<u8>>) -> (r: Result<Vec<u8>, Error>)
    ensures
        outcome(r) == match read {
            Some(bytes) => Ok(bytes),
            None => Err(fault(ErrorCode::MissingClosure, "GC dirty-root event disappeared")),
        },
{
    match read {
        Some(bytes) => Ok(bytes),
        None => Err(Error::new(ErrorCode::MissingClosure, "GC dirty-root event disappeared")),
    }
}

/// The number of the next moved root to catch up with, if any is left.
pub fn next_dirty_sequence(cursor: &GcCursor) -> (r: Option<u64>)
    ensures
        r == if cursor.dirty_sequence < cursor.dirty_target_sequence {
            Some((cursor.dirty_sequence + 1) as u64)
        } else {
            None
        },
{
    if cursor.dirty_sequence < cursor.dirty_target_sequence {
        Some(cursor.dirty_sequence + 1)
    } else {
        None
    }
}

/// Takes the moved roots of one number into the cursor.
pub fn caught_up_with(cursor: &mut GcCursor, sequence: u64, roots: u64)
    ensures
        *final(cursor) == (GcCursor {
            dirty_sequence: sequence,
            report: GcReport {
                dirty_roots: saturating(old(cursor).report.dirty_roots, roots),
                ..old(cursor).report
            },
            ..*old(cursor)
        }),
{
    cursor.dirty_sequence = sequence;
    cursor.report.dirty_roots = cursor.report.dirty_roots.saturating_add(roots);
}

/// Ends a page of catching up: new roots are marked first; when all are, the collection is ready to
/// sweep.
pub fn finish_catch_up(cursor: &mut GcCursor, work: RootManifest, commits_wait: bool)
    ensures
        ({
            let before = GcCursor { work, ..*old(cursor) };
            *final(cursor) == if commits_wait {
                GcCursor { phase: GcPhase::MarkCommits, ..before }
            } else if before.dirty_sequence >= before.dirty_target_sequence {
                GcCursor { phase: GcPhase::Ready, dirty_target_sequence: 0, ..before }
            } else {
                before
            }
        }),
{
    cursor.work = work;
    if commits_wait {
        cursor.phase = GcPhase::MarkCommits;
    } else if cursor.dirty_sequence >= cursor.dirty_target_sequence {
        cursor.phase = GcPhase::Ready;
        cursor.dirty_target_sequence = 0;
    }
}

/// How many candidates a report accounts for.
pub open spec fn swept(report: GcReport) -> int {
    report.deleted_versions + report.already_missing + report.skipped_reachable
}

/// Whether the counts of a report have room for `n` more candidates.
pub open spec fn has_room_for(report: GcReport, n: int) -> bool {
    &&& report.deleted_versions + n <= u64::MAX
    &&& report.already_missing + n <= u64::MAX
    &&& report.skipped_reachable + n <= u64::MAX
}

/// A page of the sweep in the making: at most `max_candidates` candidates are taken.
#[derive(Clone, Debug)]
pub struct SweepRun {
    pub cursor: GcCursor,
    pub max_candidates: usize,
    pub processed: usize,
}

/// How a page of the sweep begins.
#[derive(Debug)]
pub enum SweepStart {
    /// A root moved since marking: the collection catches up first, and nothing is deleted.
    Restarted(GcPage),
    /// Candidates are taken.
    Sweep(SweepRun),
}

impl Repository {
    /// Begins a page of the sweep. Where a root moved since marking, the collection goes back to catch
    /// up first.
    pub fn sweep_gc(&self, cursor: GcCursor, max_candidates: usize) -> (r: Result<SweepStart, Error>)
        ensures
            outcome(r) == if !gc_cursor_sound(*self, cursor) {
                Err(foreign_gc_cursor())
            } else if !(1 <= max_candidates <= 1_000) {
                Err(
                    fault(
                        ErrorCode::InvalidLimit,
                        "GC sweep batch must contain between 1 and 1,000 candidates",
                    ),
                )
            } else if cursor.phase != GcPhase::Ready && cursor.phase != GcPhase::Sweeping {
                Err(fault(ErrorCode::PreconditionFailed, "GC must finish marking before sweeping"))
            } else if self.gc_dirty_sequence > cursor.dirty_sequence {
                Ok(
                    SweepStart::Restarted(
                        GcPage {
                            cursor: GcCursor {
                                phase: GcPhase::CatchUpDirtyRoots,
                                dirty_target_sequence: self.gc_dirty_sequence,
                                continuation: None,
                                ..cursor
                            },
                            processed: 0,
                            complete: false,
                            restarted_for_new_roots: true,
                        },
                    ),
                )
            } else {
                Ok(
                    SweepStart::Sweep(
                        SweepRun {
                            cursor: GcCursor { phase: GcPhase::Sweeping, ..cursor },
                            max_candidates,
                            processed: 0,
                        },
                    ),
                )
            },
            r matches Ok(SweepStart::Sweep(run)) ==> run.wf(),
    {
        let mut cursor = cursor;
        if let Err(error) = self.validate_gc_cursor(&cursor) {
            return Err(error);
        }
        if max_candidates < 1 || max_candidates > 1_000 {
            return Err(
                Error::new(
                    ErrorCode::InvalidLimit,
                    "GC sweep batch must contain between 1 and 1,000 candidates",
                ),
            );
        }
        if cursor.phase != GcPhase::Ready && cursor.phase != GcPhase::Sweeping {
            return Err(
                Error::new(
                    ErrorCode::PreconditionFailed,
                    "GC must finish marking before sweeping",
                ),
            );
        }
        if self.gc_dirty_sequence > cursor.dirty_sequence {
            cursor.phase = GcPhase::CatchUpDirtyRoots;
            cursor.dirty_target_sequence = self.gc_dirty_sequence;
            cursor.continuation = None;
            return Ok(
                SweepStart::Restarted(
                    GcPage { cursor, processed: 0, complete: false, restarted_for_new_roots: true },
                ),
            );
        }
        cursor.phase = GcPhase::Sweeping;
        Ok(SweepStart::Sweep(SweepRun { cursor, max_candidates, processed: 0 }))
    }
}

/// What the sweep does with a key of the working tree.
#[derive(Clone, Copy, Debug, PartialEq, Eq, Structural)]
pub enum SweepKey {
    /// No candidate is left.
    Stop,
    /// The sweep has been here.
    Skip,
    /// A candidate.
    Consider,
}

/// The namespace of candidates.
pub open spec fn candidate_prefix() -> Seq<u8> {
    seq![0x64u8, 0x2f]
}

/// What the sweep does with a key of the working tree.
pub fn sweep_key(cursor: &GcCursor, key: &[u8]) -> (r: SweepKey)
    ensures
        r == if !has_prefix(key@, candidate_prefix()) {
            SweepKey::Stop
        } else if cursor.sweep_after is Some && !lex_lt(cursor.sweep_after->0@, key@) {
            SweepKey::Skip
        } else {
            SweepKey::Consider
        },
{
    let prefix: [u8; 2] = [0x64, 0x2f];
    assert(prefix@ =~= candidate_prefix());
    if !starts_with(key, &prefix) {
        return SweepKey::Stop;
    }
    if let Some(after) = &cursor.sweep_after {
        if !bytes_lt(after, key) {
            return SweepKey::Skip;
        }
    }
    SweepKey::Consider
}

/// Whether a candidate is kept after all: its path was marked, or its own version was.
pub open spec fn candidate_is_kept(
    candidate: GcCandidate,
    path_marked: bool,
    version_marked: bool,
) -> bool {
    path_marked || (candidate.physical_version is Versioned && version_marked)
}

/// Whether a candidate is kept after all.
pub fn keeps_candidate(candidate: &GcCandidate, path_marked: bool, version_marked: bool) -> (r: bool)
    ensures
        r == candidate_is_kept(*candidate, path_marked, version_marked),
{
    match &candidate.physical_version {
        PhysicalVersion::Versioned { .. } => path_marked || version_marked,
        PhysicalVersion::Unversioned { .. } => path_marked,
    }
}

/// What a report says after a candidate: it was kept (`deleted` is none), or its deletion had an outcome.
pub open spec fn swept_report(
    report: GcReport,
    candidate: GcCandidate,
    deleted: Option<DeleteOutcome>,
) -> GcReport {
    match deleted {
        None => GcReport { skipped_reachable: saturating(report.skipped_reachable, 1), ..report },
        Some(DeleteOutcome::Deleted) => GcReport {
            deleted_versions: saturating(report.deleted_versions, 1),
            deleted_bytes: saturating(report.deleted_bytes, candidate.len),
            deleted_by_kind: one_more(report.deleted_by_kind, candidate.kind),
            ..report
        },
        Some(_) => GcReport { already_missing: saturating(report.already_missing, 1), ..report },
    }
}

/// Notes what became of a candidate.
fn record_swept(
    cursor: &mut GcCursor,
    key: Vec<u8>,
    candidate: &GcCandidate,
    deleted: Option<DeleteOutcome>,
) -> (r: Result<(), Error>)
    ensures
        if deleted == Some(DeleteOutcome::TokenMismatch) {
            outcome(r) == Err::<(), Fault>(changed_candidate()) && *final(cursor) == *old(cursor)
        } else {
            r is Ok && *final(cursor) == (GcCursor {
                report: swept_report(old(cursor).report, *candidate, deleted),
                sweep_after: Some(key),
                ..*old(cursor)
            })
        },
{
    match deleted {
        None => {
            cursor.report.skipped_reachable = cursor.report.skipped_reachable.saturating_add(1);
        },
        Some(DeleteOutcome::Deleted) => {
            cursor.report.deleted_versions = cursor.report.deleted_versions.saturating_add(1);
            cursor.report.deleted_bytes = cursor.report.deleted_bytes.saturating_add(
                candidate.len,
            );
            let mut counts = cursor.report.deleted_by_kind;
            counts.count(candidate.kind);
            cursor.report.deleted_by_kind = counts;
        },
        Some(DeleteOutcome::NotFound) => {
            cursor.report.already_missing = cursor.report.already_missing.saturating_add(1);
        },
        Some(DeleteOutcome::TokenMismatch) => {
            return Err(
                Error::new(
                    ErrorCode::PreconditionFailed,
                    "GC candidate changed before exact deletion",
                ),
            );
        },
    }
    cursor.sweep_after = Some(key);
    Ok(())
}

/// The error of a candidate that was replaced before it was deleted.
pub open spec fn changed_candidate() -> Fault {
    fault(ErrorCode::PreconditionFailed, "GC candidate changed before exact deletion")
}

/// What the sweep deletes: one physical version of one object.
#[derive(Clone, Debug)]
pub struct SweepDeletion {
    pub path: String,
    pub version: PhysicalVersion,
}

/// What is deleted of a candidate: its own version at its own path, unless it is kept.
pub fn sweep_deletion(candidate: &GcCandidate, path_marked: bool, version_marked: bool) -> (r: Option<
    SweepDeletion,
>)
    ensures
        match r {
            None => candidate_is_kept(*candidate, path_marked, version_marked),
            Some(deletion) => !candidate_is_kept(*candidate, path_marked, version_marked)
                && deletion.path@ == candidate.path@ && deletion.version
                == candidate.physical_version,
        },
{
    if keeps_candidate(candidate, path_marked, version_marked) {
        return None;
    }
    Some(
        SweepDeletion {
            path: candidate.path.clone(),
            version: candidate.physical_version.copied(),
        },
    )
}

impl SweepRun {
    /// Whether the page is within its bounds.
    pub open spec fn wf(&self) -> bool {
        1 <= self.max_candidates <= 1_000 && self.processed <= self.max_candidates
    }

    /// Whether the page takes another candidate.
    pub fn wants_key(&self) -> (r: bool)
        ensures
            r == (self.processed < self.max_candidates),
    {
        self.processed < self.max_candidates
    }

    /// Takes a candidate. `deleted` is what became of its deletion, none where it was kept.
    pub fn take(&mut self, key: Vec<u8>, candidate: &GcCandidate, deleted: Option<DeleteOutcome>) -> (r:
        Result<(), Error>)
        requires
            old(self).wf(),
            old(self).processed < old(self).max_candidates,
        ensures
            final(self).wf(),
            if deleted == Some(DeleteOutcome::TokenMismatch) {
                outcome(r) == Err::<(), Fault>(changed_candidate()) && *final(self) == *old(self)
            } else {
                r is Ok && *final(self) == (SweepRun {
                    cursor: GcCursor {
                        report: swept_report(old(self).cursor.report, *candidate, deleted),
                        sweep_after: Some(key),
                        ..old(self).cursor
                    },
                    processed: (old(self).processed + 1) as usize,
                    ..*old(self)
                })
            },
    {
        match record_swept(&mut self.cursor, key, candidate, deleted) {
            Err(error) => Err(error),
            Ok(_) => {
                self.processed = self.processed + 1;
                Ok(())
            },
        }
    }

    /// Ends the page. One that could have taken more has met every candidate, and the cleanup comes next.
    pub fn finish(self) -> (r: GcPage)
        requires
            self.wf(),
        ensures
            r.processed == self.processed,
            r.processed <= self.max_candidates,
            !r.complete,
            !r.restarted_for_new_roots,
            r.cursor == if self.processed < self.max_candidates {
                GcCursor { phase: GcPhase::Cleanup, continuation: None, ..self.cursor }
            } else {
                self.cursor
            },
    {
        let mut cursor = self.cursor;
        if self.processed < self.max_candidates {
            cursor.phase = GcPhase::Cleanup;
            cursor.continuation = None;
        }
        GcPage {
            cursor,
            processed: self.processed,
            complete: false,
            restarted_for_new_roots: false,
        }
    }
}

/// A report after the candidates of a page, each with what became of it.
pub open spec fn page_report(
    report: GcReport,
    taken: Seq<(GcCandidate, Option<DeleteOutcome>)>,
) -> GcReport
    decreases taken.len(),
{
    if taken.len() == 0 {
        report
    } else {
        swept_report(page_report(report, taken.drop_last()), taken.last().0, taken.last().1)
    }
}

/// A page accounts for every candidate that it took: those that were deleted, those that were gone and those
/// that were kept are together as many more as the page took.
pub proof fn law_every_candidate_is_accounted_for(
    report: GcReport,
    taken: Seq<(GcCandidate, Option<DeleteOutcome>)>,
)
    requires
        has_room_for(report, taken.len() as int),
    ensures
        swept(page_report(report, taken)) == swept(report) + taken.len(),
        page_report(report, taken).deleted_versions <= report.deleted_versions + taken.len(),
        page_report(report, taken).already_missing <= report.already_missing + taken.len(),
        page_report(report, taken).skipped_reachable <= report.skipped_reachable + taken.len(),
    decreases taken.len(),
{
    if taken.len() > 0 {
        law_every_candidate_is_accounted_for(report, taken.drop_last());
    }
}

impl Repository {
    /// Ends a page of the cleanup: the collection is complete when nothing was left to delete.
    pub fn finish_cleanup(&mut self, cursor: &mut GcCursor, outcomes: &Vec<DeleteOutcome>) -> (r: Result<
        (),
        Error,
    >)
        ensures
            ({
                let changed = exists|i: int|
                    0 <= i < outcomes@.len() && #[trigger] outcomes@[i]
                        == DeleteOutcome::TokenMismatch;
                if changed {
                    outcome(r) == Err::<(), Fault>(
                        fault(
                            ErrorCode::PreconditionFailed,
                            "GC dirty-root event changed during cleanup",
                        ),
                    ) && *final(self) == *old(self) && *final(cursor) == *old(cursor)
                } else if outcomes@.len() == 0 {
                    r is Ok && *final(self) == (Repository { active_gc_epoch: None, ..*old(self) })
                        && *final(cursor) == (GcCursor { phase: GcPhase::Complete, ..*old(cursor) })
                } else {
                    r is Ok && *final(self) == *old(self) && *final(cursor) == *old(cursor)
                }
            }),
    {
        let mut i: usize = 0;
        while i < outcomes.len()
            invariant
                i <= outcomes@.len(),
                forall|j: int|
                    0 <= j < i ==> #[trigger] outcomes@[j] != DeleteOutcome::TokenMismatch,
                *self == *old(self),
                *cursor == *old(cursor),
            decreases outcomes.len() - i,
        {
            if outcomes[i] == DeleteOutcome::TokenMismatch {
                return Err(
                    Error::new(
                        ErrorCode::PreconditionFailed,
                        "GC dirty-root event changed during cleanup",
                    ),
                );
            }
            i += 1;
        }
        if outcomes.len() == 0 {
            cursor.phase = GcPhase::Complete;
            self.active_gc_epoch = None;
        }
        Ok(())
    }
}

/// Nothing that is marked is deleted: a candidate or a listed object is kept where its path is marked, and where its
/// own version is. Without a mark neither is kept.
pub proof fn law_marked_is_kept_and_unmarked_is_not(
    candidate: GcCandidate,
    object: ListedObject,
    path_marked: bool,
    version_marked: bool,
)
    ensures
        path_marked ==> candidate_is_kept(candidate, path_marked, version_marked) && listed_is_kept(
            object,
            path_marked,
            version_marked,
        ),
        candidate.physical_version is Versioned && version_marked ==> candidate_is_kept(
            candidate,
            path_marked,
            version_marked,
        ),
        object.token.version_id is Some && version_marked ==> listed_is_kept(
            object,
            path_marked,
            version_marked,
        ),
        !path_marked && !version_marked ==> !candidate_is_kept(candidate, path_marked, version_marked)
            && !listed_is_kept(object, path_marked, version_marked),
        !path_marked && candidate.physical_version is Unversioned ==> !candidate_is_kept(
            candidate,
            path_marked,
            version_marked,
        ),
        candidate.physical_version == physical_of(object.token) ==> candidate_is_kept(
            candidate,
            path_marked,
            version_marked,
        ) == listed_is_kept(object, path_marked, version_marked),
{
}

/// What a report says after a candidate is told by what became of it, and by nothing else: one that was kept counts
/// as kept, one that was deleted counts with its bytes and its sort, and one that was gone counts as gone.
pub proof fn law_report_counts_what_became_of_a_candidate(
    report: GcReport,
    candidate: GcCandidate,
    deleted: Option<DeleteOutcome>,
)
    requires
        report.skipped_reachable < u64::MAX,
        report.deleted_versions < u64::MAX,
        report.already_missing < u64::MAX,
        report.deleted_bytes + candidate.len <= u64::MAX,
        report.deleted_by_kind.commits < u64::MAX,
        report.deleted_by_kind.nodes < u64::MAX,
        report.deleted_by_kind.payloads < u64::MAX,
    ensures
        ({
            let after = swept_report(report, candidate, deleted);
            let gone = deleted == Some(DeleteOutcome::Deleted);
            &&& after.skipped_reachable == report.skipped_reachable + if deleted is None {
                1int
            } else {
                0
            }
            &&& after.deleted_versions == report.deleted_versions + if gone {
                1int
            } else {
                0
            }
            &&& after.deleted_bytes == report.deleted_bytes + if gone {
                candidate.len as int
            } else {
                0
            }
            &&& after.already_missing == report.already_missing + if deleted is Some && !gone {
                1int
            } else {
                0
            }
            &&& after.deleted_by_kind.commits == report.deleted_by_kind.commits + if gone
                && candidate.kind is Commits {
                1int
            } else {
                0
            }
            &&& after.deleted_by_kind.nodes == report.deleted_by_kind.nodes + if gone
                && candidate.kind is Nodes {
                1int
            } else {
                0
            }
            &&& after.deleted_by_kind.payloads == report.deleted_by_kind.payloads + if gone
                && candidate.kind is Payloads {
                1int
            } else {
                0
            }
            &&& after.roots == report.roots
            &&& after.dirty_roots == report.dirty_roots
            &&& after.commits == report.commits
            &&& after.nodes == report.nodes
            &&& after.logical_versions == report.logical_versions
            &&& after.candidates == report.candidates
            &&& after.candidate_bytes == report.candidate_bytes
            &&& after.candidates_by_kind == report.candidates_by_kind
        }),
{
}

/// No work of marking or scanning is done before the publications that were under way are drained; a collection that
/// is over does nothing more, and each phase does its own work.
pub proof fn law_collection_drains_before_it_works(cursor: GcCursor)
    ensures
        cursor.phase == GcPhase::Complete ==> work_of(cursor) == (GcWork::Idle { complete: true }),
        cursor.phase == GcPhase::Ready || cursor.phase == GcPhase::Sweeping ==> work_of(cursor) == (
        GcWork::Idle { complete: false }),
        cursor.phase != GcPhase::Complete && cursor.phase != GcPhase::Ready && cursor.phase
            != GcPhase::Sweeping && !cursor.publication_barrier_drained ==> work_of(cursor)
            == GcWork::DrainTickets,
        cursor.publication_barrier_drained && cursor.phase == GcPhase::DiscoverBranches ==> work_of(
            cursor,
        ) == GcWork::DiscoverBranches,
        cursor.publication_barrier_drained && cursor.phase == GcPhase::DiscoverTags ==> work_of(cursor)
            == GcWork::DiscoverTags,
        cursor.publication_barrier_drained && cursor.phase == GcPhase::MarkCommits ==> work_of(cursor)
            == GcWork::MarkCommits,
        cursor.publication_barrier_drained && cursor.phase == GcPhase::MarkNodes ==> work_of(cursor)
            == GcWork::MarkNodes,
        cursor.publication_barrier_drained && cursor.phase == GcPhase::ScanCandidates ==> work_of(cursor)
            == GcWork::ScanCandidates,
        cursor.publication_barrier_drained && cursor.phase == GcPhase::CatchUpDirtyRoots ==> work_of(
            cursor,
        ) == GcWork::CatchUpDirtyRoots,
        cursor.publication_barrier_drained && cursor.phase == GcPhase::Cleanup ==> work_of(cursor)
            == GcWork::Cleanup,
{
}

/// Only one collection runs at a time. The shared state can be given to a collection only where no other holds it,
/// and given back only by the one that does; each change counts up, so that no two states look alike.
pub proof fn law_one_collection_at_a_time(
    repository: Repository,
    current: Option<GcCoordinator>,
    active_epoch: Option<OperationId>,
    now: u64,
)
    ensures
        ({
            let next = coordinator_outcome(repository, current, active_epoch, now);
            &&& current is Some && current->0.active_epoch is Some && active_epoch is Some ==> next is Err
            &&& current is Some && current->0.active_epoch is Some && current->0.active_epoch
                != repository.active_gc_epoch ==> next is Err
            &&& current is Some && current->0.repository != repository.format.repository_id ==> next is Err
            &&& current is Some && current->0.generation == 0 ==> next is Err
            &&& current is None ==> next is Ok
            &&& current is Some && current->0.repository == repository.format.repository_id && 0
                < current->0.generation < u64::MAX && (current->0.active_epoch is None || (active_epoch
                 is None && current->0.active_epoch == repository.active_gc_epoch)) ==> next is Ok
            &&& next matches Ok(state) ==> {
                &&& state.repository == repository.format.repository_id
                &&& state.active_epoch == active_epoch
                &&& state.admission_closed == (active_epoch is Some)
                &&& state.updated_at_millis == now
                &&& state.generation > 0
                &&& current is Some ==> state.generation == current->0.generation + 1
                &&& current is None ==> state.generation == 1
            }
        }),
{
}

/// Publications are let through only by the state of their own repository, while no collection holds it.
pub proof fn law_open_state_lets_publications_through(repository: RepositoryId, coordinator: GcCoordinator)
    ensures
        coordinator.repository != repository ==> !admits(repository, coordinator),
        coordinator.active_epoch is Some ==> !admits(repository, coordinator),
        coordinator.admission_closed ==> !admits(repository, coordinator),
        coordinator.active_epoch is None && !coordinator.admission_closed ==> admits(
            coordinator.repository,
            coordinator,
        ),
{
}

/// A cursor is taken up only by the repository it is of, in its tree format, and only while its own collection runs.
pub proof fn law_collection_goes_on_with_its_own_cursor(repository: Repository, cursor: GcCursor)
    ensures
        gc_cursor_sound(repository, cursor) <==> cursor.repository == repository.format.repository_id
            && cursor.epoch@ != nil_bytes() && cursor.work.format_digest
            == repository.format.state_tree_digest && repository.active_gc_epoch is Some
            && repository.active_gc_epoch->0 == cursor.epoch,
{
}

/// Slashes are counted one by one: those of two texts put together are those of both.
pub proof fn law_slashes_add_up(a: Seq<char>, b: Seq<char>)
    ensures
        slashes(a + b) == slashes(a) + slashes(b),
        slashes(seq!['/']) == 1,
        (forall|i: int| 0 <= i < a.len() ==> #[trigger] a[i] != '/') ==> slashes(a) == 0,
    decreases a.len(),
{
    assert(seq!['/'].drop_first() =~= Seq::<char>::empty());
    assert(slashes(Seq::<char>::empty()) == 0);
    if a.len() == 0 {
        assert(a + b =~= b);
    } else {
        let rest = a.drop_first();
        law_slashes_add_up(rest, b);
        assert((a + b).drop_first() =~= rest + b);
        assert((a + b)[0] == a[0]);
        if forall|i: int| 0 <= i < a.len() ==> #[trigger] a[i] != '/' {
            assert forall|i: int| 0 <= i < rest.len() implies #[trigger] rest[i] != '/' by {
                assert(rest[i] == a[i + 1]);
            }
            assert(a[0] != '/');
        }
    }
}

/// The number of a root that moved is read back out of its path: it is the part that is followed by two more.
pub proof fn law_number_of_a_moved_root_reads_back(
    head: Seq<char>,
    sequence: u64,
    a: Seq<char>,
    b: Seq<char>,
)
    requires
        head.len() > 0,
        head.last() == '/',
        forall|i: int| 0 <= i < a.len() ==> #[trigger] a[i] != '/',
        forall|i: int| 0 <= i < b.len() ==> #[trigger] b[i] != '/',
    ensures
        is_dirty_sequence(
            head + decimal_padded(sequence as nat, 20) + seq!['/'] + a + seq!['/'] + b,
            sequence,
        ),
{
    let digits = decimal_padded(sequence as nat, 20);
    let path = head + digits + seq!['/'] + a + seq!['/'] + b;
    let i = head.len() as int;
    assert(pow10(20) == 100_000_000_000_000_000_000) by {
        reveal_with_fuel(pow10, 21);
    }
    law_padded_digits_read_back(sequence as nat, 20, pow10(20));
    let j = i + 20;
    assert(path.subrange(i, j) =~= digits);
    assert(path.skip(j) =~= seq!['/'] + a + seq!['/'] + b);
    law_slashes_add_up(seq!['/'] + a + seq!['/'], b);
    law_slashes_add_up(b, Seq::empty());
    law_slashes_add_up(seq!['/'] + a, seq!['/']);
    law_slashes_add_up(seq!['/'], a);
    law_slashes_add_up(a, Seq::empty());
    assert(is_part(path, i, j)) by {
        assert(path[i - 1] == head[i - 1]);
        assert(path[j] == '/');
        assert forall|k: int| i <= k < j implies path[k] != '/' by {
            assert(path[k] == digits[k - i]);
        }
    }
    assert(digits[0] != '+');
    assert(parsed_u64(digits) == Some(sequence));
}

/// A collection that begins has counted nothing.
pub proof fn law_collection_begins_with_nothing()
    ensures
        empty_report().roots == 0 && empty_report().dirty_roots == 0 && empty_report().commits == 0,
        empty_report().nodes == 0 && empty_report().logical_versions == 0,
        empty_report().candidates == 0 && empty_report().candidate_bytes == 0,
        empty_report().skipped_reachable == 0 && empty_report().deleted_versions == 0,
        empty_report().deleted_bytes == 0 && empty_report().already_missing == 0,
        empty_report().candidates_by_kind.commits == 0 && empty_report().candidates_by_kind.nodes == 0
            && empty_report().candidates_by_kind.payloads == 0,
        empty_report().deleted_by_kind.commits == 0 && empty_report().deleted_by_kind.nodes == 0
            && empty_report().deleted_by_kind.payloads == 0,
{
}

} // verus!
