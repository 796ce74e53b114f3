//! A write as it goes from step to step. Whoever runs it takes the step that comes next and hands back
//! what came of it; a step that failed ends the write with its error.
use crate::authority::AuthorityPermit;
use crate::error::{fault, outcome, Error, ErrorCode, Fault};
use crate::ids::CommitId;
use crate::merge_build::{check_planned_head, merge_target_moved};
use crate::model::{CommitSessionManifest, PayloadBinding};
use crate::restore::{check_reset_head, unexpected_reset_head};
use crate::session::{check_session_authority, check_session_base, foreign_epoch};
use crate::writes::{came_before, steps_of, write_steps, WriteKind, WriteStep};
use vstd::prelude::*;

verus! {

/// What came of a step.
#[derive(Debug)]
pub enum WriteEvent {
    /// The branch is locked.
    Locked,
    /// The clock was read.
    Clock(u64),
    /// The operation is not published yet.
    NotPublished,
    /// A permit holds the branch.
    Permit(AuthorityPermit),
    /// The authority says that the permit holds.
    PermitHolds,
    /// The indexes are ready.
    IndexesReady,
    /// The payload is stored.
    Stored(PayloadBinding),
    /// The commit that the branch is to be moved to is there.
    TargetThere,
    /// The head of the branch was read.
    Head(CommitId),
}

/// What a write expects of its branch.
#[derive(Debug)]
pub enum WriteClaim {
    /// Nothing.
    Free,
    /// The authority and the head that a session was begun under.
    Session(CommitSessionManifest),
    /// The head that a merge was planned against.
    Merge { ours: CommitId },
    /// The head that the caller believes in.
    Reset { expected: CommitId },
}

/// A write under way.
#[derive(Debug)]
pub struct WriteRun {
    pub kind: WriteKind,
    pub claim: WriteClaim,
    /// The place of the step that comes next.
    pub at: usize,
    pub locked: bool,
    pub now: u64,
    pub permit: Option<AuthorityPermit>,
    pub binding: Option<PayloadBinding>,
    pub head: Option<CommitId>,
}

/// What a write knows when it may publish.
#[derive(Debug)]
pub struct ReadyWrite {
    pub now: u64,
    pub permit: AuthorityPermit,
    pub binding: Option<PayloadBinding>,
    pub head: CommitId,
}

/// Whether an event can come of a step.
pub open spec fn answers(step: WriteStep, event: WriteEvent) -> bool {
    match event {
        WriteEvent::Locked => step == WriteStep::LockBranch,
        WriteEvent::Clock(_) => step == WriteStep::ReadClock,
        WriteEvent::NotPublished => step == WriteStep::ReconcileOperation,
        WriteEvent::Permit(_) => step == WriteStep::FindPermit,
        WriteEvent::PermitHolds => step == WriteStep::ValidatePermit,
        WriteEvent::IndexesReady => step == WriteStep::RequireIndexes,
        WriteEvent::Stored(_) => step == WriteStep::StorePayload,
        WriteEvent::TargetThere => step == WriteStep::LoadTarget,
        WriteEvent::Head(_) => step == WriteStep::LoadHead,
    }
}

/// Whether a write of this kind makes this claim.
pub open spec fn claims(kind: WriteKind, claim: WriteClaim) -> bool {
    match claim {
        WriteClaim::Free => kind is Put || kind is Delete || kind is PutV2,
        WriteClaim::Session(_) => kind is Session,
        WriteClaim::Merge { .. } => kind is Merge,
        WriteClaim::Reset { .. } => kind is Reset,
    }
}

/// Whether a permit is the one that a write expects.
pub open spec fn permit_expected(claim: WriteClaim, permit: AuthorityPermit) -> bool {
    claim matches WriteClaim::Session(session) ==> permit.stamp@ == session.identity.authority@
}

/// Whether a head is the one that a write expects.
pub open spec fn head_expected(claim: WriteClaim, head: CommitId) -> bool {
    match claim {
        WriteClaim::Free => true,
        WriteClaim::Session(session) => head == session.base_commit,
        WriteClaim::Merge { ours } => head == ours,
        WriteClaim::Reset { expected } => head == expected,
    }
}

/// The error of a write whose branch is not where it expects it.
pub open spec fn unexpected_head(claim: WriteClaim) -> Fault {
    match claim {
        WriteClaim::Session(session) => fault(
            ErrorCode::BatchConflict,
            "repository branch moved since commit-session creation",
        ).of_operation(session.identity.operation),
        WriteClaim::Merge { .. } => merge_target_moved(),
        _ => unexpected_reset_head(),
    }
}

/// Why a write cannot go on after an event: its session was begun under another authority, or the branch is not
/// where the write expects it.
pub open spec fn refusal(claim: WriteClaim, event: WriteEvent) -> Option<Fault> {
    match event {
        WriteEvent::Permit(permit) => if permit_expected(claim, permit) {
            None
        } else {
            Some(foreign_epoch())
        },
        WriteEvent::Head(head) => if head_expected(claim, head) {
            None
        } else {
            Some(unexpected_head(claim))
        },
        _ => None,
    }
}

/// A write after an event: one step further, and with what the event told.
pub open spec fn advanced(run: WriteRun, event: WriteEvent) -> WriteRun {
    let next = WriteRun { at: (run.at + 1) as usize, ..run };
    match event {
        WriteEvent::Locked => WriteRun { locked: true, ..next },
        WriteEvent::Clock(now) => WriteRun { now, ..next },
        WriteEvent::Permit(permit) => WriteRun { permit: Some(permit), ..next },
        WriteEvent::Stored(binding) => WriteRun { binding: Some(binding), ..next },
        WriteEvent::Head(head) => WriteRun { head: Some(head), ..next },
        _ => next,
    }
}

impl WriteRun {
    /// What is known is what the steps so far have told, and it is what the write expects.
    pub open spec fn wf(self) -> bool {
        let steps = steps_of(self.kind);
        &&& self.at < steps.len()
        &&& claims(self.kind, self.claim)
        &&& self.locked == came_before(steps, WriteStep::LockBranch, self.at as int)
        &&& self.permit is Some <==> came_before(steps, WriteStep::FindPermit, self.at as int)
        &&& self.binding is Some <==> came_before(steps, WriteStep::StorePayload, self.at as int)
        &&& self.head is Some <==> came_before(steps, WriteStep::LoadHead, self.at as int)
        &&& self.permit matches Some(permit) ==> permit_expected(self.claim, permit)
        &&& self.head matches Some(head) ==> head_expected(self.claim, head)
    }

    /// The step that comes next.
    pub open spec fn next_step(self) -> WriteStep {
        steps_of(self.kind)[self.at as int]
    }

    /// A write before its first step.
    pub fn begin(kind: WriteKind, claim: WriteClaim) -> (r: Self)
        requires
            claims(kind, claim),
        ensures
            r.wf(),
            r.kind == kind,
            r.claim == claim,
            r.at == 0,
    {
        WriteRun {
            kind,
            claim,
            at: 0,
            locked: false,
            now: 0,
            permit: None,
            binding: None,
            head: None,
        }
    }

    /// The publication of a session.
    pub fn of_session(session: CommitSessionManifest) -> (r: Self)
        ensures
            r.wf(),
            r.kind == WriteKind::Session,
            r.claim == WriteClaim::Session(session),
            r.at == 0,
    {
        WriteRun::begin(WriteKind::Session, WriteClaim::Session(session))
    }

    /// A put of one object, or of one of the second protocol.
    pub fn of_put(caller_named: bool, second_protocol: bool) -> (r: Self)
        ensures
            r.wf(),
            r.kind == if second_protocol {
                WriteKind::PutV2
            } else {
                WriteKind::Put { caller_named }
            },
            r.claim is Free,
            r.at == 0,
    {
        let kind = if second_protocol {
            WriteKind::PutV2
        } else {
            WriteKind::Put { caller_named }
        };
        WriteRun::begin(kind, WriteClaim::Free)
    }

    /// A deletion of one object.
    pub fn of_delete() -> (r: Self)
        ensures
            r.wf(),
            r.kind == WriteKind::Delete,
            r.claim is Free,
            r.at == 0,
    {
        WriteRun::begin(WriteKind::Delete, WriteClaim::Free)
    }

    /// The publication of a merge that was planned against this head.
    pub fn of_merge(ours: CommitId) -> (r: Self)
        ensures
            r.wf(),
            r.kind == WriteKind::Merge,
            r.claim == (WriteClaim::Merge { ours }),
            r.at == 0,
    {
        WriteRun::begin(WriteKind::Merge, WriteClaim::Merge { ours })
    }

    /// The movement of a branch that the caller believes to be at this head.
    pub fn of_reset(expected: CommitId) -> (r: Self)
        ensures
            r.wf(),
            r.kind == WriteKind::Reset,
            r.claim == (WriteClaim::Reset { expected }),
            r.at == 0,
    {
        WriteRun::begin(WriteKind::Reset, WriteClaim::Reset { expected })
    }

    /// The step that comes next.
    pub fn next(&self) -> (r: WriteStep)
        requires
            self.wf(),
        ensures
            r == self.next_step(),
    {
        write_steps(self.kind)[self.at]
    }

    /// Takes in what came of the next step. A write that cannot go on is refused.
    pub fn take(&mut self, event: WriteEvent) -> (r: Result<(), Error>)
        requires
            old(self).wf(),
            answers(old(self).next_step(), event),
        ensures
            outcome(r) == match refusal(old(self).claim, event) {
                Some(fault) => Err(fault),
                None => Ok::<(), Fault>(()),
            },
            r is Ok ==> final(self).wf() && *final(self) == advanced(*old(self), event),
            r is Err ==> *final(self) == *old(self),
    {
        let ghost before = *self;
        let ghost told = event;
        let refused = match (&self.claim, &event) {
            (WriteClaim::Session(session), WriteEvent::Permit(permit)) => check_session_authority(
                session,
                &permit.stamp,
            ),
            (WriteClaim::Session(session), WriteEvent::Head(head)) => check_session_base(
                session,
                *head,
            ),
            (WriteClaim::Merge { ours }, WriteEvent::Head(head)) => check_planned_head(*ours, *head),
            (WriteClaim::Reset { expected }, WriteEvent::Head(head)) => check_reset_head(
                *head,
                *expected,
            ),
            _ => Ok(()),
        };
        if let Err(error) = refused {
            return Err(error);
        }
        proof {
            lemma_publication_ends(self.kind, self.at as int);
        }
        match event {
            WriteEvent::Locked => {
                self.locked = true;
            },
            WriteEvent::Clock(now) => {
                self.now = now;
            },
            WriteEvent::Permit(permit) => {
                self.permit = Some(permit);
            },
            WriteEvent::Stored(binding) => {
                self.binding = Some(binding);
            },
            WriteEvent::Head(head) => {
                self.head = Some(head);
            },
            WriteEvent::NotPublished
            | WriteEvent::PermitHolds
            | WriteEvent::IndexesReady
            | WriteEvent::TargetThere => {},
        }
        self.at = self.at + 1;
        proof {
            assert(*self == advanced(before, told));
            let steps = steps_of(before.kind);
            lemma_one_step_more(steps, WriteStep::LockBranch, before.at as int);
            lemma_one_step_more(steps, WriteStep::FindPermit, before.at as int);
            lemma_one_step_more(steps, WriteStep::StorePayload, before.at as int);
            lemma_one_step_more(steps, WriteStep::LoadHead, before.at as int);
        }
        Ok(())
    }

    /// What the write knows when its next step is to publish.
    pub fn ready(self) -> (r: ReadyWrite)
        requires
            self.wf(),
            self.next_step() == WriteStep::Publish,
        ensures
            self.locked,
            self.permit == Some(r.permit),
            self.head == Some(r.head),
            r.now == self.now,
            r.binding == self.binding,
            r.binding is Some <==> (self.kind is Put || self.kind is PutV2),
            permit_expected(self.claim, r.permit),
            head_expected(self.claim, r.head),
    {
        proof {
            law_publication_is_prepared(self);
        }
        ReadyWrite {
            now: self.now,
            permit: self.permit.unwrap(),
            binding: self.binding,
            head: self.head.unwrap(),
        }
    }
}

/// Only the last step publishes, so that after any other there is another.
proof fn lemma_publication_ends(kind: WriteKind, n: int)
    requires
        0 <= n < steps_of(kind).len(),
        steps_of(kind)[n] != WriteStep::Publish,
    ensures
        n + 1 < steps_of(kind).len(),
{
    let steps = steps_of(kind);
    assert(steps[steps.len() - 1] == WriteStep::Publish);
}

/// One step more adds just itself to what came before.
proof fn lemma_one_step_more(steps: Seq<WriteStep>, step: WriteStep, n: int)
    requires
        0 <= n < steps.len(),
    ensures
        came_before(steps, step, n + 1) == (came_before(steps, step, n) || steps[n] == step),
{
    if came_before(steps, step, n) {
        let i = choose|i: int| 0 <= i < n && i < steps.len() && #[trigger] steps[i] == step;
        assert(0 <= i < n + 1 && steps[i] == step);
    }
    if came_before(steps, step, n + 1) {
        let i = choose|i: int| 0 <= i < n + 1 && i < steps.len() && #[trigger] steps[i] == step;
        assert(i == n || (0 <= i < n && steps[i] == step));
    }
}

/// A write publishes only under the branch's lock, with a permit, on a head that it has read, and, where
/// it puts an object, with the payload stored. A session publishes only under the authority it was begun under;
/// and a session, a merge and a movement only where the branch is where they expect it.
pub proof fn law_publication_is_prepared(run: WriteRun)
    requires
        run.wf(),
        run.next_step() == WriteStep::Publish,
    ensures
        run.locked,
        run.permit is Some,
        run.head is Some,
        run.binding is Some <==> (run.kind is Put || run.kind is PutV2),
        permit_expected(run.claim, run.permit->0),
        head_expected(run.claim, run.head->0),
{
    let steps = steps_of(run.kind);
    let n = run.at as int;
    match run.kind {
        WriteKind::Session => {
            assert(steps[0] == WriteStep::LockBranch && steps[3] == WriteStep::FindPermit
                && steps[5] == WriteStep::LoadHead);
        },
        WriteKind::Put { caller_named } => {
            if caller_named {
                assert(steps[6] == WriteStep::LockBranch && steps[8] == WriteStep::FindPermit
                    && steps[12] == WriteStep::LoadHead && steps[5] == WriteStep::StorePayload);
            } else {
                assert(steps[5] == WriteStep::LockBranch && steps[7] == WriteStep::FindPermit
                    && steps[10] == WriteStep::LoadHead && steps[4] == WriteStep::StorePayload);
            }
        },
        WriteKind::Delete => {
            assert(steps[0] == WriteStep::LockBranch && steps[3] == WriteStep::FindPermit
                && steps[6] == WriteStep::LoadHead);
        },
        WriteKind::PutV2 => {
            assert(steps[0] == WriteStep::LockBranch && steps[3] == WriteStep::FindPermit
                && steps[6] == WriteStep::LoadHead && steps[5] == WriteStep::StorePayload);
        },
        WriteKind::Merge => {
            assert(steps[0] == WriteStep::LockBranch && steps[4] == WriteStep::FindPermit
                && steps[3] == WriteStep::LoadHead);
        },
        WriteKind::Reset => {
            assert(steps[0] == WriteStep::LockBranch && steps[2] == WriteStep::FindPermit
                && steps[5] == WriteStep::LoadHead);
        },
    }
}

/// A write goes on only on the branch head that it was made for: a session on the commit it was begun on, a merge on
/// the one it was planned on, a movement on the one that the caller expects. A session goes on only under the
/// authority that it was begun under. Nothing else is refused.
pub proof fn law_write_goes_on_only_where_expected(claim: WriteClaim, event: WriteEvent)
    ensures
        event matches WriteEvent::Head(head) ==> {
            &&& claim matches WriteClaim::Session(session) ==> (refusal(claim, event) is None <==> head
                == session.base_commit)
            &&& claim matches WriteClaim::Merge { ours } ==> (refusal(claim, event) is None <==> head
                == ours)
            &&& claim matches WriteClaim::Reset { expected } ==> (refusal(claim, event) is None
                <==> head == expected)
            &&& claim is Free ==> refusal(claim, event) is None
        },
        event matches WriteEvent::Permit(permit) ==> {
            &&& claim matches WriteClaim::Session(session) ==> (refusal(claim, event) is None
                <==> permit.stamp@ == session.identity.authority@)
            &&& !(claim is Session) ==> refusal(claim, event) is None
        },
        !(event is Head) && !(event is Permit) ==> refusal(claim, event) is None,
{
}

/// Each step takes only its own answer, and a run remembers what it was answered: the lock, the time, the permit, the
/// stored payload and the head. It goes one step on and forgets nothing.
pub proof fn law_write_remembers_its_answers(run: WriteRun, event: WriteEvent)
    requires
        run.at < usize::MAX,
    ensures
        ({
            let next = advanced(run, event);
            &&& next.at == run.at + 1
            &&& next.kind == run.kind
            &&& next.claim == run.claim
            &&& next.locked == (run.locked || event is Locked)
            &&& event matches WriteEvent::Clock(now) ==> next.now == now
            &&& !(event is Clock) ==> next.now == run.now
            &&& event matches WriteEvent::Permit(permit) ==> next.permit == Some(permit)
            &&& !(event is Permit) ==> next.permit == run.permit
            &&& event matches WriteEvent::Stored(binding) ==> next.binding == Some(binding)
            &&& !(event is Stored) ==> next.binding == run.binding
            &&& event matches WriteEvent::Head(head) ==> next.head == Some(head)
            &&& !(event is Head) ==> next.head == run.head
        }),
        event is Locked ==> (forall|step: WriteStep| #[trigger]
            answers(step, event) <==> step == WriteStep::LockBranch),
        event is Clock ==> (forall|step: WriteStep| #[trigger]
            answers(step, event) <==> step == WriteStep::ReadClock),
        event is NotPublished ==> (forall|step: WriteStep| #[trigger]
            answers(step, event) <==> step == WriteStep::ReconcileOperation),
        event is Permit ==> (forall|step: WriteStep| #[trigger]
            answers(step, event) <==> step == WriteStep::FindPermit),
        event is PermitHolds ==> (forall|step: WriteStep| #[trigger]
            answers(step, event) <==> step == WriteStep::ValidatePermit),
        event is IndexesReady ==> (forall|step: WriteStep| #[trigger]
            answers(step, event) <==> step == WriteStep::RequireIndexes),
        event is Stored ==> (forall|step: WriteStep| #[trigger]
            answers(step, event) <==> step == WriteStep::StorePayload),
        event is TargetThere ==> (forall|step: WriteStep| #[trigger]
            answers(step, event) <==> step == WriteStep::LoadTarget),
        event is Head ==> (forall|step: WriteStep| #[trigger]
            answers(step, event) <==> step == WriteStep::LoadHead),
{
}

/// A write claims what goes with its kind: a session its session, a merge its plan, a movement what it expects, and an
/// object that is put or deleted nothing.
pub proof fn law_write_claims_what_goes_with_it(kind: WriteKind, claim: WriteClaim)
    ensures
        kind is Session ==> (claims(kind, claim) <==> claim is Session),
        kind is Merge ==> (claims(kind, claim) <==> claim is Merge),
        kind is Reset ==> (claims(kind, claim) <==> claim is Reset),
        kind is Put || kind is Delete || kind is PutV2 ==> (claims(kind, claim) <==> claim is Free),
{
}

/// A head is expected, and so is a permit, by what the write claims and by nothing else.
pub proof fn law_claim_says_what_is_expected(claim: WriteClaim, head: CommitId, permit: AuthorityPermit)
    ensures
        claim is Free ==> head_expected(claim, head) && permit_expected(claim, permit),
        claim matches WriteClaim::Session(session) ==> (head_expected(claim, head) <==> head
            == session.base_commit) && (permit_expected(claim, permit) <==> permit.stamp@
            == session.identity.authority@),
        claim matches WriteClaim::Merge { ours } ==> (head_expected(claim, head) <==> head == ours)
            && permit_expected(claim, permit),
        claim matches WriteClaim::Reset { expected } ==> (head_expected(claim, head) <==> head
            == expected) && permit_expected(claim, permit),
{
}

} // verus!
