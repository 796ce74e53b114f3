//! The writers: publishing a session, putting one object and deleting one. Each is a fixed sequence of
//! steps; the steps that the library decides itself are here and in the modules for sessions and
//! publications.
use crate::error::{fault, outcome, Error, ErrorCode, Fault};
use crate::ids::{BatchId, CommitGeneration, CommitId, OperationId};
use crate::model::{
    AuthorityStamp, BucketCommit, CommitSessionManifest, CommitSessionState, MutationIdentity,
    StagedMutation,
};
use crate::ordered::sorted;
use crate::publish::{draft_of, draft_versions, next_generation, VersionDraft};
use crate::repository::{invalid_key, Repository};
use crate::session::{
    first_fault, foreign_session, mutations_of, session_is_expired, CommitSessionCheckpoint, StagedCandidate,
};
use crate::staging::too_large;
use vstd::prelude::*;

verus! {

/// What is written.
#[derive(Clone, Copy, Debug, PartialEq, Eq, Structural)]
pub enum WriteKind {
    /// A session with its mutations.
    Session,
    /// One object. An operation that the caller named is looked up before anything is written.
    Put { caller_named: bool },
    /// One deletion.
    Delete,
    /// One object of the second protocol.
    PutV2,
    /// A merge that is built.
    Merge,
    /// The movement of a branch to a commit that is there.
    Reset,
}

/// A step of a write that reaches outside.
#[derive(Clone, Copy, Debug, PartialEq, Eq, Structural)]
pub enum WriteStep {
    /// Wait for the branch, so that no other write of this process runs on it.
    LockBranch,
    /// Read the clock.
    ReadClock,
    /// Look the operation up; a published one ends the write with its receipt.
    ReconcileOperation,
    /// Find the permit that holds the branch. That of a session is the one it was begun under.
    FindPermit,
    /// Ask the authority whether the permit still holds.
    ValidatePermit,
    /// Refuse to go on where the branch's indexes lag.
    RequireIndexes,
    /// Store the payload.
    StorePayload,
    /// Read the commit that the branch is to be moved to.
    LoadTarget,
    /// Read the head of the branch. A session, a merge and a movement each expect it where it was.
    LoadHead,
    /// Write the trees and the commit, and move the branch.
    Publish,
}

/// The steps of a write, in their order.
pub open spec fn steps_of(kind: WriteKind) -> Seq<WriteStep> {
    match kind {
        WriteKind::Session => seq![
            WriteStep::LockBranch,
            WriteStep::ReadClock,
            WriteStep::ReconcileOperation,
            WriteStep::FindPermit,
            WriteStep::RequireIndexes,
            WriteStep::LoadHead,
            WriteStep::Publish,
        ],
        WriteKind::Put { caller_named } => if caller_named {
            seq![
                WriteStep::ReadClock,
                WriteStep::FindPermit,
                WriteStep::ValidatePermit,
                WriteStep::RequireIndexes,
                WriteStep::ReconcileOperation,
                WriteStep::StorePayload,
                WriteStep::LockBranch,
                WriteStep::ReadClock,
                WriteStep::FindPermit,
                WriteStep::ValidatePermit,
                WriteStep::ReconcileOperation,
                WriteStep::RequireIndexes,
                WriteStep::LoadHead,
                WriteStep::Publish,
            ]
        } else {
            seq![
                WriteStep::ReadClock,
                WriteStep::FindPermit,
                WriteStep::ValidatePermit,
                WriteStep::RequireIndexes,
                WriteStep::StorePayload,
                WriteStep::LockBranch,
                WriteStep::ReadClock,
                WriteStep::FindPermit,
                WriteStep::ValidatePermit,
                WriteStep::RequireIndexes,
                WriteStep::LoadHead,
                WriteStep::Publish,
            ]
        },
        WriteKind::Delete => seq![
            WriteStep::LockBranch,
            WriteStep::ReadClock,
            WriteStep::ReconcileOperation,
            WriteStep::FindPermit,
            WriteStep::ValidatePermit,
            WriteStep::RequireIndexes,
            WriteStep::LoadHead,
            WriteStep::Publish,
        ],
        WriteKind::PutV2 => seq![
            WriteStep::LockBranch,
            WriteStep::ReadClock,
            WriteStep::ReconcileOperation,
            WriteStep::FindPermit,
            WriteStep::ValidatePermit,
            WriteStep::StorePayload,
            WriteStep::LoadHead,
            WriteStep::Publish,
        ],
        WriteKind::Merge => seq![
            WriteStep::LockBranch,
            WriteStep::ReadClock,
            WriteStep::ReconcileOperation,
            WriteStep::LoadHead,
            WriteStep::FindPermit,
            WriteStep::Publish,
        ],
        WriteKind::Reset => seq![
            WriteStep::LockBranch,
            WriteStep::ReadClock,
            WriteStep::FindPermit,
            WriteStep::ValidatePermit,
            WriteStep::LoadTarget,
            WriteStep::LoadHead,
            WriteStep::Publish,
        ],
    }
}

/// The steps of a write, in their order.
pub fn write_steps(kind: WriteKind) -> (r: Vec<WriteStep>)
    ensures
        r@ == steps_of(kind),
{
    let steps = match kind {
        WriteKind::Session => vec![
            WriteStep::LockBranch,
            WriteStep::ReadClock,
            WriteStep::ReconcileOperation,
            WriteStep::FindPermit,
            WriteStep::RequireIndexes,
            WriteStep::LoadHead,
            WriteStep::Publish,
        ],
        WriteKind::Put { caller_named } => {
            if caller_named {
                vec![
                    WriteStep::ReadClock,
                    WriteStep::FindPermit,
                    WriteStep::ValidatePermit,
                    WriteStep::RequireIndexes,
                    WriteStep::ReconcileOperation,
                    WriteStep::StorePayload,
                    WriteStep::LockBranch,
                    WriteStep::ReadClock,
                    WriteStep::FindPermit,
                    WriteStep::ValidatePermit,
                    WriteStep::ReconcileOperation,
                    WriteStep::RequireIndexes,
                    WriteStep::LoadHead,
                    WriteStep::Publish,
                ]
            } else {
                vec![
                    WriteStep::ReadClock,
                    WriteStep::FindPermit,
                    WriteStep::ValidatePermit,
                    WriteStep::RequireIndexes,
                    WriteStep::StorePayload,
                    WriteStep::LockBranch,
                    WriteStep::ReadClock,
                    WriteStep::FindPermit,
                    WriteStep::ValidatePermit,
                    WriteStep::RequireIndexes,
                    WriteStep::LoadHead,
                    WriteStep::Publish,
                ]
            }
        },
        WriteKind::Delete => vec![
            WriteStep::LockBranch,
            WriteStep::ReadClock,
            WriteStep::ReconcileOperation,
            WriteStep::FindPermit,
            WriteStep::ValidatePermit,
            WriteStep::RequireIndexes,
            WriteStep::LoadHead,
            WriteStep::Publish,
        ],
        WriteKind::PutV2 => vec![
            WriteStep::LockBranch,
            WriteStep::ReadClock,
            WriteStep::ReconcileOperation,
            WriteStep::FindPermit,
            WriteStep::ValidatePermit,
            WriteStep::StorePayload,
            WriteStep::LoadHead,
            WriteStep::Publish,
        ],
        WriteKind::Merge => vec![
            WriteStep::LockBranch,
            WriteStep::ReadClock,
            WriteStep::ReconcileOperation,
            WriteStep::LoadHead,
            WriteStep::FindPermit,
            WriteStep::Publish,
        ],
        WriteKind::Reset => vec![
            WriteStep::LockBranch,
            WriteStep::ReadClock,
            WriteStep::FindPermit,
            WriteStep::ValidatePermit,
            WriteStep::LoadTarget,
            WriteStep::LoadHead,
            WriteStep::Publish,
        ],
    };
    assert(steps@ =~= steps_of(kind));
    steps
}

/// Whether a step comes before place `n`.
pub open spec fn came_before(steps: Seq<WriteStep>, step: WriteStep, n: int) -> bool {
    exists|i: int| 0 <= i < n && i < steps.len() && #[trigger] steps[i] == step
}

/// No payload is stored before the authority has confirmed the permit, and, where the caller named the
/// operation, before an earlier publication of it was looked for.
pub proof fn law_payload_comes_after_its_checks(kind: WriteKind, n: int)
    requires
        0 <= n < steps_of(kind).len(),
        steps_of(kind)[n] == WriteStep::StorePayload,
    ensures
        came_before(steps_of(kind), WriteStep::ValidatePermit, n),
        kind != (WriteKind::Put { caller_named: false }) ==> came_before(
            steps_of(kind),
            WriteStep::ReconcileOperation,
            n,
        ),
{
    let steps = steps_of(kind);
    match kind {
        WriteKind::Put { caller_named } => {
            assert(steps[2] == WriteStep::ValidatePermit);
            if caller_named {
                assert(steps[4] == WriteStep::ReconcileOperation);
            }
        },
        WriteKind::PutV2 => {
            assert(steps[4] == WriteStep::ValidatePermit);
            assert(steps[2] == WriteStep::ReconcileOperation);
        },
        _ => {},
    }
}

/// Whether a publication that failed is looked up, and the branch fenced where it is not found. The caller of
/// any other write gets the error as it is.
pub fn reconciles_failure(kind: WriteKind) -> (r: bool)
    ensures
        r == (kind == WriteKind::Session || kind == WriteKind::Merge),
{
    kind == WriteKind::Session || kind == WriteKind::Merge
}

/// Every write ends with the publication. Before it the branch is locked, and under the lock a permit is found
/// and the head is read; and an earlier publication is looked for under the lock, unless the operation was
/// named for this write, or the branch is only moved.
pub proof fn law_publication_comes_last_and_under_the_lock(kind: WriteKind)
    ensures
        ({
            let steps = steps_of(kind);
            let end = steps.len() - 1;
            &&& steps[end] == WriteStep::Publish
            &&& exists|lock: int, permit: int, head: int|
                0 <= lock < permit < end && lock < head < end && steps[lock] == WriteStep::LockBranch
                    && steps[permit] == WriteStep::FindPermit && steps[head] == WriteStep::LoadHead
            &&& kind != (WriteKind::Put { caller_named: false }) && kind != WriteKind::Reset
                ==> exists|lock: int, lookup: int|
                0 <= lock < lookup < end && steps[lock] == WriteStep::LockBranch && steps[lookup]
                    == WriteStep::ReconcileOperation
        }),
{
    let steps = steps_of(kind);
    let (lock, permit, head, lookup): (int, int, int, int) = match kind {
        WriteKind::Session => (0, 3, 5, 2),
        WriteKind::Put { caller_named } => if caller_named {
            (6, 8, 12, 10)
        } else {
            (5, 7, 10, 0)
        },
        WriteKind::Delete => (0, 3, 6, 2),
        WriteKind::PutV2 => (0, 3, 6, 2),
        WriteKind::Merge => (0, 4, 3, 2),
        WriteKind::Reset => (0, 2, 5, 0),
    };
    assert(steps[lock] == WriteStep::LockBranch && steps[permit] == WriteStep::FindPermit
        && steps[head] == WriteStep::LoadHead);
    if kind != (WriteKind::Put { caller_named: false }) && kind != WriteKind::Reset {
        assert(steps[lookup] == WriteStep::ReconcileOperation);
    }
}

impl Repository {
    /// The session that begins now on a branch whose head is `base_commit`.
    pub fn begin_commit_session(
        &self,
        id: BatchId,
        branch: &str,
        base_commit: CommitId,
        operation: OperationId,
        authority: AuthorityStamp,
        message: &str,
        now: u64,
        expires_after_millis: u64,
    ) -> (r: Result<CommitSessionManifest, Error>)
        ensures
            match r {
                Ok(session) => {
                    &&& crate::text::valid_branch(branch@)
                    &&& now + expires_after_millis <= u64::MAX
                    &&& session.id == id
                    &&& session.branch@ == branch@
                    &&& session.base_commit == base_commit
                    &&& session.identity == (MutationIdentity {
                        repository: self.format.repository_id,
                        operation,
                        authority,
                    })
                    &&& session.message@ == message@
                    &&& session.created_at_millis == now
                    &&& session.expires_at_millis == now + expires_after_millis
                },
                Err(error) => if !crate::text::valid_branch(branch@) {
                    error@ == fault(
                        ErrorCode::InvalidBranch,
                        "branch name violates the canonical ref contract",
                    )
                } else {
                    now + expires_after_millis > u64::MAX && error@ == fault(
                        ErrorCode::InvalidLimit,
                        "repository commit-session expiry overflow",
                    )
                },
            },
    {
        let expires_at_millis: u64 = match crate::session::commit_session_expiry(
            branch,
            now,
            expires_after_millis,
        ) {
            Err(error) => {
                return Err(error);
            },
            Ok(at) => at,
        };
        Ok(
            CommitSessionManifest {
                id,
                branch: branch.to_owned(),
                base_commit,
                identity: MutationIdentity {
                    repository: self.format.repository_id,
                    operation,
                    authority,
                },
                message: message.to_owned(),
                created_at_millis: now,
                expires_at_millis,
            },
        )
    }

    /// The mutations that a session publishes, in the order of their keys.
    pub fn publish_commit_session(
        &self,
        session: &CommitSessionManifest,
        candidates: Vec<StagedCandidate>,
        now: u64,
    ) -> (r: Result<Vec<StagedMutation>, Error>)
        ensures
            match r {
                Ok(mutations) => {
                    &&& session.identity.repository == self.format.repository_id
                    &&& session.expires_at_millis >= now
                    &&& 1 <= candidates@.len()
                        <= self.format.canonical_limits.max_mutations_per_commit
                    &&& first_fault(*self, candidates@, candidates@.len() as int) is None
                    &&& sorted(mutations@)
                    &&& mutations@.to_multiset() == mutations_of(candidates@).to_multiset()
                },
                Err(error) => if session.identity.repository != self.format.repository_id {
                    error@ == foreign_session()
                } else if session.expires_at_millis < now {
                    error@ == session_is_expired()
                } else if !(1 <= candidates@.len()
                    <= self.format.canonical_limits.max_mutations_per_commit) {
                    error@ == fault(
                        ErrorCode::InvalidLimit,
                        "repository commit session has an invalid mutation count",
                    )
                } else {
                    first_fault(*self, candidates@, candidates@.len() as int) == Some(error@)
                },
            },
    {
        if let Err(error) = self.check_session_repository(session) {
            return Err(error);
        }
        if session.expires_at_millis < now {
            return Err(Error::new(ErrorCode::BatchExpired, "repository commit session is expired"));
        }
        self.canonical_session_mutations(candidates, false)
    }

    /// Refuses to put an object where this process may not write, under a key that may not be used, or of
    /// a size that is not allowed.
    pub fn put_object_inner(&self, key: &[u8], size: u64) -> (r: Result<(), Error>)
        ensures
            outcome(r) == if !self.writable {
                Err(fault(ErrorCode::PreconditionFailed, "repository is read-only"))
            } else if !self.accepts_key(key@) {
                Err(invalid_key())
            } else if size > self.format.canonical_limits.max_object_bytes {
                Err(too_large())
            } else {
                Ok::<(), Fault>(())
            },
    {
        if let Err(error) = self.require_writable() {
            return Err(error);
        }
        self.check_put(key, size)
    }

    /// The change that deletes a key.
    pub fn delete_object_with_operation(&self, key: Vec<u8>) -> (r: Result<StagedMutation, Error>)
        ensures
            outcome(r) == if !self.writable {
                Err(fault(ErrorCode::PreconditionFailed, "repository is read-only"))
            } else if !self.accepts_key(key@) {
                Err(invalid_key())
            } else {
                Ok(StagedMutation::Delete { key })
            },
    {
        if let Err(error) = self.require_writable() {
            return Err(error);
        }
        if let Err(error) = self.validate_key(&key) {
            return Err(error);
        }
        Ok(StagedMutation::delete(key))
    }

    /// Begins a commit on top of `base`: checks its trees, and drafts the versions of its mutations.
    pub fn begin_commit(
        &self,
        base: &BucketCommit,
        mutations: &Vec<StagedMutation>,
        now: u64,
    ) -> (r: Result<(CommitGeneration, Vec<VersionDraft>), Error>)
        ensures
            match r {
                Ok((generation, drafts)) => {
                    &&& base.state.objects.format_digest == self.format.state_tree_digest
                    &&& base.state.versions.format_digest == self.format.state_tree_digest
                    &&& base.generation.0 < u64::MAX
                    &&& generation == CommitGeneration((base.generation.0 + 1) as u64)
                    &&& mutations@.len() <= u32::MAX + 1
                    &&& drafts@.len() == mutations@.len()
                    &&& forall|i: int|
                        0 <= i < mutations@.len() ==> #[trigger] drafts@[i] == draft_of(
                            mutations@[i],
                            generation,
                            i,
                            now,
                        )
                },
                Err(error) => if base.state.objects.format_digest != self.format.state_tree_digest
                    || base.state.versions.format_digest != self.format.state_tree_digest {
                    error@ == fault(
                        ErrorCode::CorruptNode,
                        "repository state root uses another tree format",
                    )
                } else if base.generation.0 == u64::MAX {
                    error@ == fault(ErrorCode::InternalInvariant, "commit generation overflow")
                } else {
                    mutations@.len() > u32::MAX + 1 && error@ == fault(
                        ErrorCode::InvalidLimit,
                        "mutation ordinal overflow",
                    )
                },
            },
    {
        if let Err(error) = self.tree_from_root(&base.state.objects) {
            return Err(error);
        }
        if let Err(error) = self.tree_from_root(&base.state.versions) {
            return Err(error);
        }
        let generation = match next_generation(base.generation) {
            Err(error) => {
                return Err(error);
            },
            Ok(generation) => generation,
        };
        match draft_versions(mutations, generation, now) {
            Err(error) => Err(error),
            Ok(drafts) => Ok((generation, drafts)),
        }
    }

    /// What is saved of a session that is given up.
    pub fn abort_commit_session(
        &self,
        session: CommitSessionManifest,
        candidates: Vec<StagedCandidate>,
        sequence: u64,
    ) -> (r: Result<CommitSessionCheckpoint, Error>)
        ensures
            match r {
                Ok(checkpoint) => {
                    &&& candidates@.len() <= self.format.canonical_limits.max_mutations_per_commit
                    &&& first_fault(*self, candidates@, candidates@.len() as int) is None
                    &&& checkpoint.session == session
                    &&& checkpoint.sequence == sequence
                    &&& checkpoint.state == CommitSessionState::Aborted
                    &&& sorted(checkpoint.mutations@)
                    &&& checkpoint.mutations@.to_multiset() == mutations_of(
                        candidates@,
                    ).to_multiset()
                },
                Err(error) => if candidates@.len()
                    > self.format.canonical_limits.max_mutations_per_commit {
                    error@ == fault(
                        ErrorCode::InvalidLimit,
                        "repository commit session has an invalid mutation count",
                    )
                } else {
                    first_fault(*self, candidates@, candidates@.len() as int) == Some(error@)
                },
            },
    {
        self.checkpoint_commit_session(session, candidates, sequence, CommitSessionState::Aborted)
    }

    /// What is saved of a session: open, or aborted.
    pub fn checkpoint_commit_session(
        &self,
        session: CommitSessionManifest,
        candidates: Vec<StagedCandidate>,
        sequence: u64,
        state: CommitSessionState,
    ) -> (r: Result<CommitSessionCheckpoint, Error>)
        ensures
            match r {
                Ok(checkpoint) => {
                    &&& candidates@.len() <= self.format.canonical_limits.max_mutations_per_commit
                    &&& first_fault(*self, candidates@, candidates@.len() as int) is None
                    &&& checkpoint.session == session
                    &&& checkpoint.sequence == sequence
                    &&& checkpoint.state == state
                    &&& sorted(checkpoint.mutations@)
                    &&& checkpoint.mutations@.to_multiset() == mutations_of(
                        candidates@,
                    ).to_multiset()
                },
                Err(error) => if candidates@.len()
                    > self.format.canonical_limits.max_mutations_per_commit {
                    error@ == fault(
                        ErrorCode::InvalidLimit,
                        "repository commit session has an invalid mutation count",
                    )
                } else {
                    first_fault(*self, candidates@, candidates@.len() as int) == Some(error@)
                },
            },
    {
        match self.canonical_session_mutations(candidates, true) {
            Err(error) => Err(error),
            Ok(mutations) => Ok(CommitSessionCheckpoint { session, sequence, mutations, state }),
        }
    }
}

/// Whatever a write is, the clock is read and the head is loaded before it publishes. A put, a deletion and a
/// movement publish only after the authority has confirmed the permit, behind the last time one was found; and
/// whatever changes objects through the indexes publishes only after they were found fit under the lock.
pub proof fn law_publication_rests_on_its_checks(kind: WriteKind)
    ensures
        ({
            let steps = steps_of(kind);
            let end = steps.len() - 1;
            &&& exists|lock: int, clock: int|
                0 <= lock < clock < end && steps[lock] == WriteStep::LockBranch && steps[clock]
                    == WriteStep::ReadClock
            &&& kind is Put || kind is Delete || kind is PutV2 || kind is Reset ==> exists|
                lock: int,
                permit: int,
                confirmed: int,
            |
                0 <= lock < permit < confirmed < end && steps[lock] == WriteStep::LockBranch
                    && steps[permit] == WriteStep::FindPermit && steps[confirmed]
                    == WriteStep::ValidatePermit
            &&& kind is Session || kind is Put || kind is Delete ==> exists|lock: int, ready: int|
                0 <= lock < ready < end && steps[lock] == WriteStep::LockBranch && steps[ready]
                    == WriteStep::RequireIndexes
            &&& kind is Put || kind is PutV2 ==> exists|stored: int|
                0 <= stored < end && steps[stored] == WriteStep::StorePayload
            &&& !(kind is Put) && !(kind is PutV2) ==> forall|i: int|
                0 <= i < steps.len() ==> #[trigger] steps[i] != WriteStep::StorePayload
            &&& kind is Reset ==> exists|target: int|
                0 <= target < end && steps[target] == WriteStep::LoadTarget
            &&& forall|i: int| 0 <= i < end ==> #[trigger] steps[i] != WriteStep::Publish
        }),
{
    let steps = steps_of(kind);
    match kind {
        WriteKind::Session => {
            assert(steps[0] == WriteStep::LockBranch && steps[1] == WriteStep::ReadClock && steps[4]
                == WriteStep::RequireIndexes);
        },
        WriteKind::Put { caller_named } => {
            if caller_named {
                assert(steps[6] == WriteStep::LockBranch && steps[7] == WriteStep::ReadClock
                    && steps[8] == WriteStep::FindPermit && steps[9] == WriteStep::ValidatePermit
                    && steps[11] == WriteStep::RequireIndexes && steps[5]
                    == WriteStep::StorePayload);
            } else {
                assert(steps[5] == WriteStep::LockBranch && steps[6] == WriteStep::ReadClock
                    && steps[7] == WriteStep::FindPermit && steps[8] == WriteStep::ValidatePermit
                    && steps[9] == WriteStep::RequireIndexes && steps[4]
                    == WriteStep::StorePayload);
            }
        },
        WriteKind::Delete => {
            assert(steps[0] == WriteStep::LockBranch && steps[1] == WriteStep::ReadClock && steps[3]
                == WriteStep::FindPermit && steps[4] == WriteStep::ValidatePermit && steps[5]
                == WriteStep::RequireIndexes);
        },
        WriteKind::PutV2 => {
            assert(steps[0] == WriteStep::LockBranch && steps[1] == WriteStep::ReadClock && steps[3]
                == WriteStep::FindPermit && steps[4] == WriteStep::ValidatePermit && steps[5]
                == WriteStep::StorePayload);
        },
        WriteKind::Merge => {
            assert(steps[0] == WriteStep::LockBranch && steps[1] == WriteStep::ReadClock);
        },
        WriteKind::Reset => {
            assert(steps[0] == WriteStep::LockBranch && steps[1] == WriteStep::ReadClock && steps[2]
                == WriteStep::FindPermit && steps[3] == WriteStep::ValidatePermit && steps[4]
                == WriteStep::LoadTarget);
        },
    }
}

} // verus!
