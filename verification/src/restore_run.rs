//! A page of a restore as it goes from step to step. Whoever runs it does what `next` says and hands back
//! what came of it; a step that failed ends the page with its error.
use crate::batches::{batch_end_of, live_after, BatchEnd};
use crate::diffs::{ObjectDiff, ObjectDiffCursor};
use crate::error::{outcome, Error};
use crate::ids::{CommitGeneration, CommitId, ObjectVersionId};
use crate::model::{CommitReceipt, CommitSessionManifest, ObjectVersion, StagedMutation};
use crate::publish::draft_of;
use crate::repository::Repository;
use crate::restore::{
    check_restore_head, is_difference, law_restored_branch_holds_the_old_snapshot, live_objects,
    next_restore_batch, published_restore_batch, restore_fault, restore_page_outcome,
    restore_room, restored_branch_moved, restoring, restoring_all, stage_restore, RestoreCursor,
    RestorePage,
};
use crate::session::CommitSessionCheckpoint;
use crate::version_key::{law_version_keys_are_distinct, version_key};
use vstd::prelude::*;

verus! {

/// What a page of a restore waits for.
#[derive(Clone, Copy, Debug, PartialEq, Eq, Structural)]
pub enum RestoreStep {
    /// The head of the branch.
    ReadHead,
    /// The session of the batch.
    ResumeSession,
    /// A page of differences between the branch as it was and the old snapshot.
    Compare,
    /// What the old snapshot holds under the current key.
    LookUp,
    /// The end of the batch.
    EndBatch,
    /// A session for the next batch.
    BeginSession,
    /// Nothing: the page is over.
    Finish,
}

/// A page of a restore under way.
pub struct RestoreRun {
    pub cursor: RestoreCursor,
    pub step: RestoreStep,
    pub max_steps: usize,
    /// How many differences the page may take on.
    pub room: usize,
    pub session: Option<CommitSessionManifest>,
    pub sequence: u64,
    pub mutations: Vec<StagedMutation>,
    pub continuation: Option<ObjectDiffCursor>,
    pub processed: usize,
    /// The difference that is looked at.
    pub current: Option<ObjectDiff>,
    /// The differences that wait, the next one last.
    pub waiting: Vec<ObjectDiff>,
    pub receipt: Option<CommitReceipt>,
    /// The mutations that the batch had before.
    pub base: Ghost<Seq<StagedMutation>>,
    /// The differences of the page.
    pub changes: Ghost<Seq<ObjectDiff>>,
    /// What the old snapshot holds under the keys so far.
    pub sources: Ghost<Seq<Option<ObjectVersion>>>,
}

/// The changes that bring keys back, in their order.
pub open spec fn restored(changes: Seq<ObjectDiff>, sources: Seq<Option<ObjectVersion>>) -> Seq<
    StagedMutation,
> {
    Seq::new(sources.len(), |i: int| restoring(changes[i], sources[i]))
}

impl RestoreRun {
    /// What was staged brings back what was looked at, and every difference is dealt with, looked at or
    /// waiting.
    pub open spec fn wf(self) -> bool {
        let changes = self.changes@;
        let n = self.sources@.len() as int;
        let next = if self.step == RestoreStep::LookUp {
            n + 1
        } else {
            n
        };
        &&& next <= changes.len()
        &&& self.mutations@ == self.base@ + restored(changes, self.sources@)
        &&& self.current is Some <==> self.step == RestoreStep::LookUp
        &&& self.step == RestoreStep::LookUp ==> self.current->0 == changes[n] && changes[n].to is Some
        &&& self.waiting@ == changes.skip(next).reverse()
        &&& self.step != RestoreStep::LookUp ==> self.waiting@.len() == 0
        &&& forall|i: int|
            0 <= i < n && (#[trigger] changes[i]).to is Some ==> restore_fault(
                changes[i],
                self.sources@[i],
            ) is None
        &&& forall|i: int|
            0 <= i < n && (#[trigger] changes[i]).to is None ==> self.sources@[i] is None
    }

    /// Whether two states belong to the same page of the same session.
    pub open spec fn same_page(self, after: Self) -> bool {
        &&& after.cursor == self.cursor
        &&& after.max_steps == self.max_steps
        &&& after.room == self.room
        &&& after.session == self.session
        &&& after.sequence == self.sequence
        &&& after.continuation == self.continuation
        &&& after.processed == self.processed
        &&& after.receipt == self.receipt
        &&& after.base@ == self.base@
        &&& after.changes@ == self.changes@
    }

    /// Whether the same page has gone on: the keys so far and those that are only deleted are dealt with, up
    /// to the next one that must be looked up or to the end.
    pub open spec fn went_on(self, after: Self, sources: Seq<Option<ObjectVersion>>) -> bool {
        let n = after.sources@.len() as int;
        &&& after.wf()
        &&& self.same_page(after)
        &&& sources.is_prefix_of(after.sources@)
        &&& forall|i: int|
            sources.len() <= i < n ==> (#[trigger] self.changes@[i]).to is None
        &&& after.step == if n == self.changes@.len() {
            RestoreStep::EndBatch
        } else {
            RestoreStep::LookUp
        }
    }
}

impl Repository {
    /// Begins a page of a restore. None: the restore is complete.
    pub fn begin_restore_page(&self, cursor: RestoreCursor, max_steps: usize) -> (r: Result<
        Option<RestoreRun>,
        Error,
    >)
        ensures
            match restore_page_outcome(*self, cursor, max_steps) {
                Err(error) => r matches Err(e) && e@ == error,
                Ok(false) => r matches Ok(None),
                Ok(true) => r matches Ok(Some(run)) && run.wf() && run.cursor == cursor && run.step
                    == RestoreStep::ReadHead && run.max_steps == max_steps && run.sources@.len() == 0
                    && run.changes@.len() == 0 && run.base@.len() == 0 && run.processed == 0
                    && run.session is None && run.continuation is None && run.receipt is None,
            },
    {
        match self.advance_restore(&cursor, max_steps) {
            Err(error) => Err(error),
            Ok(false) => Ok(None),
            Ok(true) => {
                let run = RestoreRun {
                    cursor,
                    step: RestoreStep::ReadHead,
                    max_steps,
                    room: 0,
                    session: None,
                    sequence: 0,
                    mutations: Vec::new(),
                    continuation: None,
                    processed: 0,
                    current: None,
                    waiting: Vec::new(),
                    receipt: None,
                    base: Ghost(Seq::empty()),
                    changes: Ghost(Seq::empty()),
                    sources: Ghost(Seq::empty()),
                };
                assert(run.mutations@ =~= run.base@ + restored(run.changes@, run.sources@));
                assert(run.waiting@ =~= run.changes@.skip(0).reverse());
                Ok(Some(run))
            },
        }
    }
}

impl RestoreRun {
    /// What the page waits for.
    pub fn next(&self) -> (r: RestoreStep)
        ensures
            r == self.step,
    {
        self.step
    }

    /// Takes the head of the branch. One that has moved is refused.
    pub fn head(&mut self, head: CommitId) -> (r: Result<(), Error>)
        requires
            old(self).wf(),
            old(self).step == RestoreStep::ReadHead,
        ensures
            r is Ok <==> head == old(self).cursor.expected_head,
            r matches Err(error) ==> error@ == restored_branch_moved() && *final(self) == *old(self),
            r is Ok ==> final(self).wf() && *final(self) == (RestoreRun {
                step: RestoreStep::ResumeSession,
                ..*old(self)
            }),
    {
        if let Err(error) = check_restore_head(&self.cursor, head) {
            return Err(error);
        }
        self.step = RestoreStep::ResumeSession;
        Ok(())
    }

    /// Takes the session of the batch, and finds out how many differences the page may take on.
    pub fn resumed(&mut self, repository: &Repository, checkpoint: CommitSessionCheckpoint) -> (r:
        Result<(), Error>)
        requires
            old(self).wf(),
            old(self).step == RestoreStep::ResumeSession,
            old(self).sources@.len() == 0,
            old(self).changes@.len() == 0,
        ensures
            match restore_room(*repository, old(self).cursor, old(self).max_steps, checkpoint) {
                Err(error) => r matches Err(e) && e@ == error && *final(self) == *old(self),
                Ok(room) => r is Ok && final(self).wf() && *final(self) == (RestoreRun {
                    step: RestoreStep::Compare,
                    room,
                    session: Some(checkpoint.session),
                    sequence: checkpoint.sequence,
                    mutations: checkpoint.mutations,
                    base: Ghost(checkpoint.mutations@),
                    ..*old(self)
                }),
            },
    {
        let room: usize = match repository.restore_page_limit(
            &self.cursor,
            self.max_steps,
            &checkpoint,
        ) {
            Err(error) => {
                return Err(error);
            },
            Ok(room) => room,
        };
        self.room = room;
        self.session = Some(checkpoint.session);
        self.sequence = checkpoint.sequence;
        self.base = Ghost(checkpoint.mutations@);
        self.mutations = checkpoint.mutations;
        self.step = RestoreStep::Compare;
        assert(self.mutations@ =~= self.base@ + restored(self.changes@, self.sources@));
        Ok(())
    }

    /// Deals with the keys that are only deleted, up to the next one that must be looked up.
    fn advance(&mut self)
        requires
            old(self).current is None,
            old(self).sources@.len() <= old(self).changes@.len(),
            old(self).mutations@ == old(self).base@ + restored(
                old(self).changes@,
                old(self).sources@,
            ),
            old(self).waiting@ == old(self).changes@.skip(
                old(self).sources@.len() as int,
            ).reverse(),
            forall|i: int|
                0 <= i < old(self).sources@.len() && (#[trigger] old(self).changes@[i]).to is Some
                    ==> restore_fault(old(self).changes@[i], old(self).sources@[i]) is None,
            forall|i: int|
                0 <= i < old(self).sources@.len() && (#[trigger] old(self).changes@[i]).to is None
                    ==> old(self).sources@[i] is None,
        ensures
            old(self).went_on(*final(self), old(self).sources@),
    {
        let ghost start = *self;
        let ghost first = self.sources@;
        let mut rest: Vec<ObjectDiff> = Vec::new();
        rest.append(&mut self.waiting);
        let ghost mut dealt: Seq<Option<ObjectVersion>> = first;
        let mut found: Option<ObjectDiff> = None;
        let mut mutations: Vec<StagedMutation> = Vec::new();
        mutations.append(&mut self.mutations);
        assert(rest@ =~= start.waiting@);
        assert(mutations@ =~= start.mutations@);
        while rest.len() > 0 && found.is_none()
            invariant
                start.changes@ == self.changes@,
                first.is_prefix_of(dealt),
                dealt.len() <= start.changes@.len(),
                found is None ==> rest@ == start.changes@.skip(dealt.len() as int).reverse(),
                found is Some ==> dealt.len() < start.changes@.len() && found->0
                    == start.changes@[dealt.len() as int] && found->0.to is Some && rest@
                    == start.changes@.skip(dealt.len() as int + 1).reverse(),
                mutations@ == start.base@ + restored(start.changes@, dealt),
                forall|i: int|
                    first.len() <= i < dealt.len() ==> (#[trigger] start.changes@[i]).to is None,
                forall|i: int|
                    0 <= i < dealt.len() && (#[trigger] start.changes@[i]).to is Some
                        ==> restore_fault(start.changes@[i], dealt[i]) is None,
                forall|i: int|
                    0 <= i < dealt.len() && (#[trigger] start.changes@[i]).to is None
                        ==> dealt[i] is None,
            decreases rest.len(),
        {
            let ghost n = dealt.len() as int;
            let ghost left = start.changes@.skip(n);
            if let Some(change) = rest.pop() {
                proof {
                    assert(change == left[0]);
                    assert(left[0] == start.changes@[n]);
                    assert(rest@ =~= start.changes@.skip(n + 1).reverse());
                }
                if change.to.is_none() {
                    let ghost before = mutations@;
                    let staged = stage_restore(&mut mutations, change, None);
                    proof {
                        assert(staged is Ok);
                        let more = dealt.push(None);
                        assert(restored(start.changes@, more) =~= restored(
                            start.changes@,
                            dealt,
                        ).push(restoring(start.changes@[n], None)));
                        assert(mutations@ =~= start.base@ + restored(start.changes@, more));
                        dealt = more;
                    }
                } else {
                    found = Some(change);
                }
            }
        }
        self.sources = Ghost(dealt);
        self.mutations = mutations;
        self.waiting = rest;
        self.step = if found.is_some() {
            RestoreStep::LookUp
        } else {
            RestoreStep::EndBatch
        };
        proof {
            if found is None {
                assert(start.changes@.skip(dealt.len() as int).len() == 0) by {
                    assert(rest@.len() == start.changes@.skip(dealt.len() as int).reverse().len());
                }
            }
        }
        self.current = found;
    }

    /// Takes a page of differences.
    pub fn compared(&mut self, changes: Vec<ObjectDiff>, continuation: Option<ObjectDiffCursor>)
        requires
            old(self).wf(),
            old(self).step == RestoreStep::Compare,
            old(self).sources@.len() == 0,
            old(self).changes@.len() == 0,
        ensures
            (RestoreRun {
                changes: Ghost(changes@),
                continuation,
                processed: changes@.len() as usize,
                ..*old(self)
            }).went_on(*final(self), Seq::empty()),
    {
        self.processed = changes.len();
        self.continuation = continuation;
        let ghost all = changes@;
        let mut rest = changes;
        let mut reversed: Vec<ObjectDiff> = Vec::new();
        while rest.len() > 0
            invariant
                rest@ + reversed@.reverse() == all,
            decreases rest.len(),
        {
            let ghost before = reversed@;
            let ghost left = rest@;
            if let Some(change) = rest.pop() {
                reversed.push(change);
                assert(reversed@.reverse() =~= seq![change] + before.reverse());
                assert(rest@ + reversed@.reverse() =~= left + before.reverse());
            }
        }
        assert(reversed@.reverse() =~= all);
        assert(reversed@ =~= all.skip(0).reverse());
        self.waiting = reversed;
        self.changes = Ghost(all);
        assert(self.sources@ =~= Seq::<Option<ObjectVersion>>::empty());
        assert(self.mutations@ =~= self.base@ + restored(all, self.sources@));
        self.advance();
    }

    /// Takes what the old snapshot holds under the current key, and stages the change that brings it back.
    pub fn looked_up(&mut self, source: Option<ObjectVersion>) -> (r: Result<(), Error>)
        requires
            old(self).wf(),
            old(self).step == RestoreStep::LookUp,
        ensures
            match restore_fault(old(self).current->0, source) {
                Some(error) => r matches Err(e) && e@ == error,
                None => r is Ok && old(self).went_on(
                    *final(self),
                    old(self).sources@.push(source),
                ),
            },
    {
        let ghost before = *self;
        let current = self.current.take();
        if let Some(change) = current {
            let ghost n = self.sources@.len() as int;
            if let Err(error) = stage_restore(&mut self.mutations, change, source) {
                return Err(error);
            }
            proof {
                let more = self.sources@.push(source);
                assert(restored(self.changes@, more) =~= restored(
                    self.changes@,
                    before.sources@,
                ).push(restoring(self.changes@[n], source)));
                self.sources = Ghost(more);
                assert(self.mutations@ =~= self.base@ + restored(self.changes@, self.sources@));
            }
            self.advance();
        }
        Ok(())
    }

    /// Takes the continuation of the comparison into the cursor and says what becomes of the batch.
    pub fn batch_end(&mut self, repository: &Repository) -> (r: Result<BatchEnd, Error>)
        requires
            old(self).wf(),
            old(self).step == RestoreStep::EndBatch,
        ensures
            outcome(r) == batch_end_of(
                old(self).mutations@.len(),
                repository.format.canonical_limits.max_mutations_per_commit,
                old(self).continuation is None,
                old(self).sequence,
                "restore checkpoint sequence overflow",
            ),
            final(self).wf(),
            *final(self) == (RestoreRun {
                continuation: None,
                cursor: RestoreCursor {
                    diff: old(self).continuation,
                    complete: old(self).cursor.complete || r == Ok::<BatchEnd, Error>(
                        BatchEnd::Abort,
                    ),
                    ..old(self).cursor
                },
                ..*old(self)
            }),
    {
        let continuation = self.continuation.take();
        repository.end_restore_page(&mut self.cursor, continuation, &self.mutations, self.sequence)
    }

    /// Takes the batch for what comes of it: its session and its mutations.
    pub fn take_batch(&mut self) -> (r: (Option<CommitSessionManifest>, Vec<StagedMutation>))
        requires
            old(self).wf(),
            old(self).step == RestoreStep::EndBatch,
        ensures
            r.0 == old(self).session,
            r.1@ == old(self).base@ + restored(old(self).changes@, old(self).sources@),
            final(self).step == old(self).step,
            final(self).cursor == old(self).cursor,
            final(self).processed == old(self).processed,
            final(self).receipt == old(self).receipt,
    {
        let session = self.session.take();
        let mut mutations: Vec<StagedMutation> = Vec::new();
        mutations.append(&mut self.mutations);
        assert(mutations@ =~= old(self).mutations@);
        (session, mutations)
    }

    /// The batch was saved under this number.
    pub fn saved(&mut self, sequence: u64)
        requires
            old(self).step == RestoreStep::EndBatch,
        ensures
            final(self).step == RestoreStep::Finish,
            final(self).cursor == (RestoreCursor {
                checkpoint_sequence: sequence,
                ..old(self).cursor
            }),
            final(self).receipt == old(self).receipt,
            final(self).processed == old(self).processed,
    {
        self.cursor.checkpoint_sequence = sequence;
        self.step = RestoreStep::Finish;
    }

    /// The batch was empty and was given up.
    pub fn aborted(&mut self)
        requires
            old(self).step == RestoreStep::EndBatch,
        ensures
            final(self).step == RestoreStep::Finish,
            final(self).cursor == old(self).cursor,
            final(self).receipt == old(self).receipt,
            final(self).processed == old(self).processed,
    {
        self.step = RestoreStep::Finish;
    }

    /// The batch was published. Where there is more to do, the next batch needs a session.
    pub fn published(&mut self, receipt: CommitReceipt)
        requires
            old(self).step == RestoreStep::EndBatch,
        ensures
            final(self).step == if old(self).cursor.diff is Some {
                RestoreStep::BeginSession
            } else {
                RestoreStep::Finish
            },
            final(self).cursor == (RestoreCursor {
                expected_head: receipt.id,
                complete: old(self).cursor.complete || old(self).cursor.diff is None,
                ..old(self).cursor
            }),
            final(self).receipt == Some(receipt),
            final(self).processed == old(self).processed,
    {
        let more = published_restore_batch(&mut self.cursor, &receipt);
        self.receipt = Some(receipt);
        self.step = if more {
            RestoreStep::BeginSession
        } else {
            RestoreStep::Finish
        };
    }

    /// The next batch has a session.
    pub fn begun(&mut self, checkpoint: &CommitSessionCheckpoint)
        requires
            old(self).step == RestoreStep::BeginSession,
        ensures
            final(self).step == RestoreStep::Finish,
            final(self).cursor == (RestoreCursor {
                batch: checkpoint.session.id,
                checkpoint_sequence: checkpoint.sequence,
                ..old(self).cursor
            }),
            final(self).receipt == old(self).receipt,
            final(self).processed == old(self).processed,
    {
        next_restore_batch(&mut self.cursor, checkpoint);
        self.step = RestoreStep::Finish;
    }

    /// What the page did.
    pub fn finish(self) -> (r: RestorePage)
        requires
            self.step == RestoreStep::Finish,
        ensures
            r == (RestorePage {
                cursor: self.cursor,
                processed: self.processed,
                receipt: self.receipt,
                complete: self.cursor.complete,
            }),
    {
        let complete = self.cursor.complete;
        RestorePage { cursor: self.cursor, processed: self.processed, receipt: self.receipt, complete }
    }
}

/// A restore that has gone through all differences to an old snapshot, and found under each key what that
/// snapshot holds, leaves the branch with exactly its live objects.
pub proof fn law_restore_pages_bring_the_snapshot_back(
    from: Map<Seq<u8>, ObjectVersion>,
    to: Map<Seq<u8>, ObjectVersion>,
    changes: Seq<ObjectDiff>,
    sources: Seq<Option<ObjectVersion>>,
)
    requires
        is_difference(from, to, changes),
        sources.len() == changes.len(),
        forall|i: int|
            0 <= i < changes.len() ==> #[trigger] sources[i] == if to.contains_key(changes[i].key@) {
                Some(to[changes[i].key@])
            } else {
                None
            },
        forall|key: Seq<u8>| #[trigger]
            to.contains_key(key) ==> to[key].body.kind is Live && to[key].binding is Some,
    ensures
        live_after(live_objects(from), restored(changes, sources)) == live_objects(to),
{
    assert(restored(changes, sources) =~= restoring_all(changes, to));
    law_restored_branch_holds_the_old_snapshot(from, to, changes);
}

/// What a restore brings back is bound to the payload that the old snapshot's version is bound to, says what
/// that version says, and is yet a version of its own: it has another place in the tree of versions.
pub proof fn law_restored_object_is_a_new_version_of_the_old_payload(
    change: ObjectDiff,
    source: ObjectVersion,
    generation: CommitGeneration,
    ordinal: int,
    now: u64,
    id: ObjectVersionId,
)
    requires
        change.to is Some,
        source.body.kind is Live,
        source.binding is Some,
        source.body.order.commit_generation.0 < generation.0,
    ensures
        ({
            let draft = draft_of(restoring(change, Some(source)), generation, ordinal, now);
            &&& draft.binding == source.binding
            &&& draft.body.kind == source.body.kind
            &&& draft.body.order != source.body.order
            &&& version_key(change.key@, draft.body.order, id) != version_key(
                change.key@,
                source.body.order,
                source.id,
            )
        }),
{
    let draft = draft_of(restoring(change, Some(source)), generation, ordinal, now);
    if version_key(change.key@, draft.body.order, id) == version_key(
        change.key@,
        source.body.order,
        source.id,
    ) {
        law_version_keys_are_distinct(
            change.key@,
            draft.body.order,
            id,
            change.key@,
            source.body.order,
            source.id,
        );
    }
}

/// What a page of a restore stages is what each difference calls for, one for one and in order.
pub proof fn law_page_stages_each_difference(
    changes: Seq<ObjectDiff>,
    sources: Seq<Option<ObjectVersion>>,
    i: int,
)
    requires
        0 <= i < sources.len(),
    ensures
        restored(changes, sources).len() == sources.len(),
        changes[i].to is None ==> restored(changes, sources)[i] == (StagedMutation::Delete {
            key: changes[i].key,
        }),
        changes[i].to is Some ==> (restored(changes, sources)[i] matches StagedMutation::Put(put)
            && put.key == changes[i].key && put.binding == sources[i]->0.binding->0),
{
}

/// A page of a restore that goes on stays the same page, keeps every source that it was given, and passes over none
/// but deletions.
pub proof fn law_restore_page_goes_on(
    run: RestoreRun,
    after: RestoreRun,
    sources: Seq<Option<ObjectVersion>>,
    i: int,
)
    requires
        run.went_on(after, sources),
    ensures
        after.cursor == run.cursor,
        after.max_steps == run.max_steps,
        after.room == run.room,
        after.session == run.session,
        after.sequence == run.sequence,
        after.continuation == run.continuation,
        after.processed == run.processed,
        after.receipt == run.receipt,
        after.base@ == run.base@,
        after.changes@ == run.changes@,
        0 <= i < sources.len() ==> i < after.sources@.len() && after.sources@[i] == sources[i],
        sources.len() <= i < after.sources@.len() ==> run.changes@[i].to is None,
        after.sources@.len() == run.changes@.len() <==> after.step == RestoreStep::EndBatch,
{
    if 0 <= i < sources.len() {
        assert(sources[i] == after.sources@.subrange(0, sources.len() as int)[i]);
    }
}

/// At every step a page of a restore has staged just what the differences that it is through with call for, behind what
/// the batch held before; the others wait in order, and none is staged from a source that is not what the difference
/// leads to.
pub proof fn law_restore_page_has_staged_what_it_is_through_with(run: RestoreRun, i: int)
    requires
        run.wf(),
    ensures
        run.sources@.len() <= run.changes@.len(),
        run.mutations@.len() == run.base@.len() + run.sources@.len(),
        0 <= i < run.base@.len() ==> run.mutations@[i] == run.base@[i],
        0 <= i < run.sources@.len() ==> run.mutations@[run.base@.len() + i] == restoring(
            run.changes@[i],
            run.sources@[i],
        ),
        0 <= i < run.sources@.len() && run.changes@[i].to is Some ==> (run.sources@[i] matches Some(
            version,
        ) && run.changes@[i].to == Some(version.id) && version.body.kind is Live && version.binding is Some),
        run.step == RestoreStep::LookUp ==> run.current is Some && run.current->0
            == run.changes@[run.sources@.len() as int] && run.waiting@.len() + run.sources@.len() + 1
            == run.changes@.len(),
        run.step != RestoreStep::LookUp ==> run.waiting@.len() == 0 && run.sources@.len()
            == run.changes@.len(),
{
    if 0 <= i < run.sources@.len() && run.changes@[i].to is Some {
        assert(restore_fault(run.changes@[i], run.sources@[i]) is None);
    }
}

} // verus!
