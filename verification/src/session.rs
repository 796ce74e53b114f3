//! Commit sessions: mutations gathered against one base commit and published together.
use crate::bytes::bytes_eq;
use crate::error::{fault, outcome, Error, ErrorCode, Fault};
use crate::ids::CommitId;
use crate::model::{
    AuthorityStamp, CommitSessionManifest, CommitSessionState, MutationIdentity, StagedMutation,
    StagedPut,
};
use crate::ordered::{has_key, insert_sorted, sorted, Keyed};
use crate::outside::{hex_encode, hex_text};
use crate::repository::{invalid_key, Repository};
use crate::text::{valid_branch, validate_branch};
use vstd::prelude::*;
use vstd::string::*;

verus! {

impl Keyed for StagedMutation {
    open spec fn sort_key(&self) -> Seq<u8> {
        self.spec_key()
    }

    fn sort_bytes(&self) -> (r: &[u8]) {
        self.key().as_slice()
    }
}

/// The entity tag of an object: the hexadecimal MD5 of its bytes in double quotes.
pub open spec fn quoted_hex(digest: Seq<u8>) -> Seq<char> {
    seq!['"'] + hex_text(digest) + seq!['"']
}

/// The entity tag of an object: the hexadecimal MD5 of its bytes in double quotes.
pub fn entity_tag(md5: &[u8; 16]) -> (r: String)
    ensures
        r@ == quoted_hex(md5@),
{
    proof {
        reveal_strlit("\"");
        assert("\""@ =~= seq!['"']);
    }
    "\"".to_owned().concat(hex_encode(md5).as_str()).concat("\"")
}

/// What the payload store says of a staged put: whether its binding is sound, and the path that
/// the binding's checksums call for.
#[derive(Debug)]
pub struct PayloadCheck {
    pub binding: Result<(), Error>,
    pub expected_path: Result<String, Error>,
}

/// A staged mutation with what the payload store says of it.
#[derive(Debug)]
pub struct StagedCandidate {
    pub mutation: StagedMutation,
    pub check: PayloadCheck,
}

/// The error of a staged put that does not agree with its payload.
pub open spec fn identity_mismatch() -> Fault {
    fault(
        ErrorCode::ChecksumMismatch,
        "staged payload identity does not match its immutable binding",
    )
}

/// Whether the etag and the digests of a staged put are those of its payload.
pub open spec fn digests_agree(put: StagedPut) -> bool {
    &&& put.checksums.sha256 matches Some(sha256) && sha256@ == put.binding.checksum_sha256@
    &&& put.checksums.md5 matches Some(md5) && put.logical_etag@ == quoted_hex(md5@)
}

/// What is wrong with a staged put.
pub open spec fn put_fault(put: StagedPut, check: PayloadCheck, max_object_bytes: u64) -> Option<
    Fault,
> {
    if check.binding is Err {
        Some(check.binding->Err_0@)
    } else if put.size > max_object_bytes {
        Some(identity_mismatch())
    } else if check.expected_path is Err {
        Some(check.expected_path->Err_0@)
    } else if check.expected_path->Ok_0@ != put.binding.path@ || !digests_agree(put) {
        Some(identity_mismatch())
    } else {
        None
    }
}

/// The error of a session that names one key twice.
pub open spec fn repeated_key() -> Fault {
    fault(
        ErrorCode::InvalidRequest,
        "repository commit session contains the same key more than once",
    )
}

/// What is wrong with the candidate at `i`, given those before it.
pub open spec fn candidate_fault(repository: Repository, candidates: Seq<StagedCandidate>, i: int) -> Option<
    Fault,
> {
    let mutation = candidates[i].mutation;
    let own = match mutation {
        StagedMutation::Put(put) => put_fault(
            put,
            candidates[i].check,
            repository.format.canonical_limits.max_object_bytes,
        ),
        StagedMutation::Delete { .. } => None,
    };
    if !repository.accepts_key(mutation.spec_key()) {
        Some(invalid_key())
    } else if own is Some {
        own
    } else if exists|j: int|
        0 <= j < i && #[trigger] candidates[j].mutation.spec_key() == mutation.spec_key() {
        Some(repeated_key())
    } else {
        None
    }
}

/// What is wrong with the first bad candidate among the first `n`.
pub open spec fn first_fault(repository: Repository, candidates: Seq<StagedCandidate>, n: int) -> Option<
    Fault,
>
    decreases n,
{
    if n <= 0 {
        None
    } else if first_fault(repository, candidates, n - 1) is Some {
        first_fault(repository, candidates, n - 1)
    } else {
        candidate_fault(repository, candidates, n - 1)
    }
}

/// The mutations of a list of candidates.
pub open spec fn mutations_of(candidates: Seq<StagedCandidate>) -> Seq<StagedMutation> {
    candidates.map_values(|c: StagedCandidate| c.mutation)
}

/// Where a commit session stands: its mutations so far, and whether it is still open.
#[derive(Debug)]
pub struct CommitSessionCheckpoint {
    pub session: CommitSessionManifest,
    pub sequence: u64,
    pub mutations: Vec<StagedMutation>,
    pub state: CommitSessionState,
}

/// The error of a session that is published after its time.
pub open spec fn session_is_expired() -> Fault {
    fault(ErrorCode::BatchExpired, "repository commit session is expired")
}

/// The error of a session that is used after its time.
pub open spec fn session_expired() -> Fault {
    fault(ErrorCode::BatchExpired, "repository commit session expired")
}

/// The error of a session under another authority.
pub open spec fn foreign_epoch() -> Fault {
    fault(
        ErrorCode::PreconditionFailed,
        "repository commit session belongs to another authority epoch",
    )
}

/// When a session that begins now ends.
pub fn commit_session_expiry(branch: &str, now: u64, expires_after_millis: u64) -> (r: Result<
    u64,
    Error,
>)
    ensures
        outcome(r) == if !valid_branch(branch@) {
            Err(fault(ErrorCode::InvalidBranch, "branch name violates the canonical ref contract"))
        } else if now + expires_after_millis > u64::MAX {
            Err(fault(ErrorCode::InvalidLimit, "repository commit-session expiry overflow"))
        } else {
            Ok((now + expires_after_millis) as u64)
        },
{
    if let Err(error) = validate_branch(branch) {
        return Err(error);
    }
    match now.checked_add(expires_after_millis) {
        Some(at) => Ok(at),
        None => Err(
            Error::new(ErrorCode::InvalidLimit, "repository commit-session expiry overflow"),
        ),
    }
}

/// The error of a session of another repository.
pub open spec fn foreign_session() -> Fault {
    fault(ErrorCode::InvalidRequest, "commit session belongs to another repository")
}

impl Repository {
    /// Refuses a session that was begun in another repository.
    pub fn check_session_repository(&self, session: &CommitSessionManifest) -> (r: Result<(), Error>)
        ensures
            outcome(r) == if session.identity.repository == self.format.repository_id {
                Ok::<(), Fault>(())
            } else {
                Err(foreign_session())
            },
    {
        if session.identity.repository != self.format.repository_id {
            return Err(
                Error::new(
                    ErrorCode::InvalidRequest,
                    "commit session belongs to another repository",
                ),
            );
        }
        Ok(())
    }
}

/// Refuses a session after its time.
pub fn check_session_time(session: &CommitSessionManifest, now: u64) -> (r: Result<(), Error>)
    ensures
        outcome(r) == if session.expires_at_millis < now {
            Err(session_expired())
        } else {
            Ok::<(), Fault>(())
        },
{
    if session.expires_at_millis < now {
        return Err(Error::new(ErrorCode::BatchExpired, "repository commit session expired"));
    }
    Ok(())
}

/// Refuses a session that was begun under another authority than the one held now.
pub fn check_session_authority(session: &CommitSessionManifest, held: &AuthorityStamp) -> (r: Result<
    (),
    Error,
>)
    ensures
        outcome(r) == if held@ == session.identity.authority@ {
            Ok::<(), Fault>(())
        } else {
            Err(foreign_epoch())
        },
{
    if !held.same(&session.identity.authority) {
        return Err(
            Error::new(
                ErrorCode::PreconditionFailed,
                "repository commit session belongs to another authority epoch",
            ),
        );
    }
    Ok(())
}

/// Refuses to publish a session whose branch has moved.
pub fn check_session_base(session: &CommitSessionManifest, head: CommitId) -> (r: Result<(), Error>)
    ensures
        outcome(r) == if head == session.base_commit {
            Ok::<(), Fault>(())
        } else {
            Err(
                fault(
                    ErrorCode::BatchConflict,
                    "repository branch moved since commit-session creation",
                ).of_operation(session.identity.operation),
            )
        },
{
    if head != session.base_commit {
        return Err(
            Error::new(
                ErrorCode::BatchConflict,
                "repository branch moved since commit-session creation",
            ).operation(session.identity.operation),
        );
    }
    Ok(())
}

/// Finds the checkpoint to resume: it exists, is open, and has time left.
pub fn resumable_checkpoint(latest: Option<CommitSessionCheckpoint>, now: u64) -> (r: Result<
    CommitSessionCheckpoint,
    Error,
>)
    ensures
        outcome(r) == match latest {
            None => Err(
                fault(ErrorCode::InvalidRequest, "repository commit session does not exist"),
            ),
            Some(checkpoint) => if checkpoint.state != CommitSessionState::Open {
                Err(fault(ErrorCode::InvalidRequest, "repository commit session was aborted"))
            } else if checkpoint.session.expires_at_millis < now {
                Err(session_expired())
            } else {
                Ok(checkpoint)
            },
        },
{
    match latest {
        None => Err(
            Error::new(ErrorCode::InvalidRequest, "repository commit session does not exist"),
        ),
        Some(checkpoint) => {
            if checkpoint.state != CommitSessionState::Open {
                return Err(
                    Error::new(ErrorCode::InvalidRequest, "repository commit session was aborted"),
                );
            }
            if checkpoint.session.expires_at_millis < now {
                return Err(
                    Error::new(ErrorCode::BatchExpired, "repository commit session expired"),
                );
            }
            Ok(checkpoint)
        },
    }
}

/// Takes a checkpoint over into the authority held now. Only the writer who began the session may,
/// and only while the branch has not moved. The flag says whether the checkpoint changed and must
/// be saved.
pub fn adopt_checkpoint(
    checkpoint: CommitSessionCheckpoint,
    held: &AuthorityStamp,
    head: CommitId,
) -> (r: Result<(CommitSessionCheckpoint, bool), Error>)
    ensures
        ({
            let session = checkpoint.session;
            let operation = session.identity.operation;
            if session.identity.authority.writer_id@ != held.writer_id@ {
                outcome(r) == Err::<(CommitSessionCheckpoint, bool), Fault>(
                    fault(
                        ErrorCode::PreconditionFailed,
                        "another writer cannot adopt a durable repository commit session",
                    ).of_operation(operation),
                )
            } else if head != session.base_commit {
                outcome(r) == Err::<(CommitSessionCheckpoint, bool), Fault>(
                    fault(
                        ErrorCode::BatchConflict,
                        "repository branch moved since the durable session checkpoint",
                    ).of_operation(operation),
                )
            } else if session.identity.authority@ == held@ {
                r == Ok::<(CommitSessionCheckpoint, bool), Error>((checkpoint, false))
            } else if checkpoint.sequence == u64::MAX {
                outcome(r) == Err::<(CommitSessionCheckpoint, bool), Fault>(
                    fault(ErrorCode::InvalidLimit, "checkpoint sequence overflow"),
                )
            } else {
                r == Ok::<(CommitSessionCheckpoint, bool), Error>(
                    (
                        CommitSessionCheckpoint {
                            session: CommitSessionManifest {
                                identity: MutationIdentity { authority: *held, ..session.identity },
                                ..session
                            },
                            sequence: (checkpoint.sequence + 1) as u64,
                            ..checkpoint
                        },
                        true,
                    ),
                )
            }
        }),
{
    let mut checkpoint = checkpoint;
    let operation = checkpoint.session.identity.operation;
    if checkpoint.session.identity.authority.writer_id != held.writer_id {
        return Err(
            Error::new(
                ErrorCode::PreconditionFailed,
                "another writer cannot adopt a durable repository commit session",
            ).operation(operation),
        );
    }
    if head != checkpoint.session.base_commit {
        return Err(
            Error::new(
                ErrorCode::BatchConflict,
                "repository branch moved since the durable session checkpoint",
            ).operation(operation),
        );
    }
    if checkpoint.session.identity.authority.same(held) {
        return Ok((checkpoint, false));
    }
    if checkpoint.sequence == u64::MAX {
        return Err(Error::new(ErrorCode::InvalidLimit, "checkpoint sequence overflow"));
    }
    checkpoint.sequence = checkpoint.sequence + 1;
    checkpoint.session.identity.authority = held.copied();
    Ok((checkpoint, true))
}

impl Repository {
    /// Checks that a staged put agrees with its payload.
    pub fn validate_staged_put(&self, staged: &StagedPut, check: &PayloadCheck) -> (r: Result<
        (),
        Error,
    >)
        ensures
            outcome(r) == match put_fault(
                *staged,
                *check,
                self.format.canonical_limits.max_object_bytes,
            ) {
                Some(f) => Err(f),
                None => Ok::<(), Fault>(()),
            },
    {
        if let Err(error) = &check.binding {
            return Err(error.copied());
        }
        if staged.size > self.format.canonical_limits.max_object_bytes {
            return Err(mismatch());
        }
        match &check.expected_path {
            Err(error) => return Err(error.copied()),
            Ok(path) => {
                if *path != staged.binding.path {
                    return Err(mismatch());
                }
            },
        }
        let sha256_agrees = match &staged.checksums.sha256 {
            Some(sha256) => bytes_eq(sha256, &staged.binding.checksum_sha256),
            None => false,
        };
        let etag_agrees = match &staged.checksums.md5 {
            Some(md5) => staged.logical_etag == entity_tag(md5),
            None => false,
        };
        if !sha256_agrees || !etag_agrees {
            return Err(mismatch());
        }
        Ok(())
    }

    /// The mutations of a session in the order of their keys, each key once. The first candidate
    /// that is not acceptable decides the error.
    pub fn canonical_session_mutations(
        &self,
        candidates: Vec<StagedCandidate>,
        allow_empty: bool,
    ) -> (r: Result<Vec<StagedMutation>, Error>)
        ensures
            ({
                let n = candidates@.len();
                let bad = first_fault(*self, candidates@, n as int);
                if (!allow_empty && n == 0) || n
                    > self.format.canonical_limits.max_mutations_per_commit {
                    outcome(r) == Err::<Vec<StagedMutation>, Fault>(
                        fault(
                            ErrorCode::InvalidLimit,
                            "repository commit session has an invalid mutation count",
                        ),
                    )
                } else if bad is Some {
                    outcome(r) == Err::<Vec<StagedMutation>, Fault>(bad->0)
                } else {
                    r matches Ok(mutations) && sorted(mutations@) && mutations@.to_multiset()
                        == mutations_of(candidates@).to_multiset()
                }
            }),
    {
        if (!allow_empty && candidates.len() == 0) || candidates.len()
            > self.format.canonical_limits.max_mutations_per_commit as usize {
            return Err(
                Error::new(
                    ErrorCode::InvalidLimit,
                    "repository commit session has an invalid mutation count",
                ),
            );
        }
        let mut ordered: Vec<StagedMutation> = Vec::new();
        let ghost all = candidates@;
        assert(mutations_of(all).take(0) =~= ordered@);
        for candidate in it: candidates
            invariant
                it.seq() == all,
                first_fault(*self, all, it.index()) is None,
                sorted(ordered@),
                ordered@.len() == it.index(),
                ordered@.to_multiset() == mutations_of(all).take(it.index()).to_multiset(),
                !((!allow_empty && all.len() == 0) || all.len()
                    > self.format.canonical_limits.max_mutations_per_commit),
        {
            let ghost n = it.index();
            proof {
                assert(all[n] == candidate);
                lemma_first_fault_stays(*self, all, n + 1, all.len() as int);
                let key = candidate.mutation.spec_key();
                lemma_key_among(all, ordered@, n, key);
                assert(mutations_of(all).take(n + 1) =~= mutations_of(all).take(n).push(
                    candidate.mutation,
                ));
                vstd::seq_lib::to_multiset_build(mutations_of(all).take(n), candidate.mutation);
            }
            if let Err(error) = self.validate_key(candidate.mutation.key()) {
                return Err(error);
            }
            if let StagedMutation::Put(staged) = &candidate.mutation {
                if let Err(error) = self.validate_staged_put(staged, &candidate.check) {
                    return Err(error);
                }
            }
            if !insert_sorted(&mut ordered, candidate.mutation) {
                return Err(
                    Error::new(
                        ErrorCode::InvalidRequest,
                        "repository commit session contains the same key more than once",
                    ),
                );
            }
        }
        assert(mutations_of(all).take(all.len() as int) =~= mutations_of(all));
        Ok(ordered)
    }
}

fn mismatch() -> (r: Error)
    ensures
        r@ == identity_mismatch(),
{
    Error::new(
        ErrorCode::ChecksumMismatch,
        "staged payload identity does not match its immutable binding",
    )
}

proof fn lemma_first_fault_stays(
    repository: Repository,
    candidates: Seq<StagedCandidate>,
    n: int,
    m: int,
)
    requires
        0 <= n <= m,
    ensures
        first_fault(repository, candidates, n) is Some ==> first_fault(repository, candidates, m)
            == first_fault(repository, candidates, n),
    decreases m,
{
    if n < m {
        lemma_first_fault_stays(repository, candidates, n, m - 1);
    }
}

/// A list that holds the first `n` mutations has a key exactly when one of them does.
proof fn lemma_key_among(
    candidates: Seq<StagedCandidate>,
    list: Seq<StagedMutation>,
    n: int,
    key: Seq<u8>,
)
    requires
        0 <= n <= candidates.len(),
        list.to_multiset() == mutations_of(candidates).take(n).to_multiset(),
    ensures
        has_key(list, key) <==> exists|j: int|
            0 <= j < n && #[trigger] candidates[j].mutation.spec_key() == key,
{
    let head = mutations_of(candidates).take(n);
    if has_key(list, key) {
        let i = choose|i: int| 0 <= i < list.len() && #[trigger] list[i].sort_key() == key;
        vstd::seq_lib::to_multiset_contains(list, list[i]);
        vstd::seq_lib::to_multiset_contains(head, list[i]);
        assert(list.contains(list[i]));
        let j = choose|j: int| 0 <= j < head.len() && head[j] == list[i];
        assert(candidates[j].mutation.spec_key() == key);
    }
    if exists|j: int| 0 <= j < n && #[trigger] candidates[j].mutation.spec_key() == key {
        let j = choose|j: int| 0 <= j < n && #[trigger] candidates[j].mutation.spec_key() == key;
        let m = candidates[j].mutation;
        assert(head[j] == m);
        assert(head.contains(m));
        vstd::seq_lib::to_multiset_contains(head, m);
        vstd::seq_lib::to_multiset_contains(list, m);
        let i = choose|i: int| 0 <= i < list.len() && list[i] == m;
        assert(list[i].sort_key() == key);
    }
}

/// A list of staged changes is taken exactly where every key may name an object, no key occurs twice, and every
/// put is what it says: no larger than objects may be, bound to the path that its digest gives, with the digest
/// of the payload it is bound to and the tag of its own digest. Otherwise it is refused.
pub proof fn law_session_takes_only_what_it_can_publish(
    repository: Repository,
    candidates: Seq<StagedCandidate>,
    n: int,
)
    requires
        0 <= n <= candidates.len(),
    ensures
        first_fault(repository, candidates, n) is None <==> {
            &&& forall|i: int|
                0 <= i < n ==> repository.accepts_key((#[trigger] candidates[i]).mutation.spec_key())
            &&& forall|i: int, j: int|
                0 <= j < i < n ==> (#[trigger] candidates[i]).mutation.spec_key() != (
                #[trigger] candidates[j]).mutation.spec_key()
            &&& forall|i: int|
                0 <= i < n ==> ((#[trigger] candidates[i]).mutation matches StagedMutation::Put(put)
                    ==> {
                    &&& candidates[i].check.binding is Ok
                    &&& candidates[i].check.expected_path is Ok
                    &&& candidates[i].check.expected_path->Ok_0@ == put.binding.path@
                    &&& put.size <= repository.format.canonical_limits.max_object_bytes
                    &&& put.checksums.sha256 is Some && put.checksums.sha256->0@
                        == put.binding.checksum_sha256@
                    &&& put.checksums.md5 is Some && put.logical_etag@ == seq!['"'] + hex_text(
                        put.checksums.md5->0@,
                    ) + seq!['"']
                })
        },
    decreases n,
{
    if n > 0 {
        law_session_takes_only_what_it_can_publish(repository, candidates, n - 1);
        let mutation = candidates[n - 1].mutation;
        if first_fault(repository, candidates, n - 1) is None {
            if first_fault(repository, candidates, n) is None {
                assert(candidate_fault(repository, candidates, n - 1) is None);
                assert forall|i: int, j: int| 0 <= j < i < n implies (
                #[trigger] candidates[i]).mutation.spec_key() != (
                #[trigger] candidates[j]).mutation.spec_key() by {
                    if i == n - 1 {
                        assert(!(candidates[j].mutation.spec_key() == mutation.spec_key()));
                    }
                }
            } else {
                assert(candidate_fault(repository, candidates, n - 1) is Some);
                if exists|j: int|
                    0 <= j < n - 1 && #[trigger] candidates[j].mutation.spec_key()
                        == mutation.spec_key() {
                    let j = choose|j: int|
                        0 <= j < n - 1 && #[trigger] candidates[j].mutation.spec_key()
                            == mutation.spec_key();
                    assert(candidates[n - 1].mutation.spec_key() == candidates[j].mutation.spec_key());
                } else {
                    assert(repository.accepts_key(candidates[n - 1].mutation.spec_key()) ==> (
                    mutation is Put));
                }
            }
        }
    }
}

/// A put is what it says exactly where its binding holds, it is no larger than objects may be, it lies at the path that
/// its digest gives, and its digests and tag are those of its payload.
pub proof fn law_put_is_what_it_says(put: StagedPut, check: PayloadCheck, max_object_bytes: u64)
    ensures
        put_fault(put, check, max_object_bytes) is None <==> {
            &&& check.binding is Ok
            &&& put.size <= max_object_bytes
            &&& check.expected_path is Ok && check.expected_path->Ok_0@ == put.binding.path@
            &&& put.checksums.sha256 is Some && put.checksums.sha256->0@ == put.binding.checksum_sha256@
            &&& put.checksums.md5 is Some && put.logical_etag@ == quoted_hex(put.checksums.md5->0@)
        },
        put.checksums.md5 is Some ==> quoted_hex(put.checksums.md5->0@) == seq!['"'] + hex_text(
            put.checksums.md5->0@,
        ) + seq!['"'],
{
}

/// The mutations of some candidates are theirs, one for one and in order.
pub proof fn law_candidates_give_their_mutations(candidates: Seq<StagedCandidate>, i: int)
    requires
        0 <= i < candidates.len(),
    ensures
        mutations_of(candidates).len() == candidates.len(),
        mutations_of(candidates)[i] == candidates[i].mutation,
{
}

} // verus!
