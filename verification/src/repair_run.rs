//! A page of a repair as it goes from step to step. Whoever runs it does what `next` says and hands back
//! what came of it; a step that failed ends the page with its error.
use crate::batches::{brings_to, changes_key, live_after, BatchEnd};
use crate::error::{outcome, Error, Fault};
use crate::ids::{CommitId, RepositoryId};
use crate::model::{
    CommitReceipt, CommitSessionManifest, KindView, LogicalObjectVersionKind, PayloadBinding,
    StagedMutation,
};
use crate::objects::{ObjectData, ObjectSummary};
use crate::repair::{
    begin_copy_page, begin_removal_page, check_repair_head, copy_of, counted_copy, end_copy_page,
    end_removal_page, law_copy_brings_its_key_to_the_source,
    law_repaired_branch_holds_the_source, must_copy, needs_copy, next_repair_batch, published_repair_batch,
    repair_source, stage_copy, stage_removal, RepairCursor, RepairPage, RepairPhase, RepairReport,
};
use crate::repository::Repository;
use crate::session::CommitSessionCheckpoint;
use vstd::prelude::*;

verus! {

/// What a page of a repair waits for.
#[derive(Clone, Copy, Debug, PartialEq, Eq, Structural)]
pub enum RepairStep {
    /// The head of the destination branch.
    ReadHead,
    /// The session of the batch.
    ResumeSession,
    /// A page of the source's objects, or of the destination's.
    List,
    /// What the other side holds under the current key.
    LookUp,
    /// The current object of the source, with its bytes.
    Fetch,
    /// Where its bytes are stored.
    Store,
    /// The end of the batch.
    EndBatch,
    /// A session for the next batch.
    BeginSession,
    /// Nothing: the page is over.
    Finish,
}

/// What became of an object of the page.
pub enum RepairAnswer {
    /// It was left as it is. `found` is what the other side holds.
    Kept { found: Option<LogicalObjectVersionKind> },
    /// It was copied. `found` is what the destination held.
    Copied {
        found: Option<LogicalObjectVersionKind>,
        kind: LogicalObjectVersionKind,
        size: u64,
        binding: PayloadBinding,
    },
    /// It was deleted: the source does not hold it.
    Removed,
}

/// Whether an answer is right for an object: one that the destination holds otherwise is copied, one that
/// the source lacks is deleted, and any other is left as it is.
pub open spec fn fits(object: ObjectSummary, answer: RepairAnswer, copying: bool) -> bool {
    match answer {
        RepairAnswer::Kept { found } => if copying {
            !needs_copy(object.version.body.kind, found)
        } else {
            found is Some
        },
        RepairAnswer::Copied { found, kind, .. } => copying && kind is Live && needs_copy(
            object.version.body.kind,
            found,
        ),
        RepairAnswer::Removed => !copying,
    }
}

/// The change that is staged for an object.
pub open spec fn staged_for(object: ObjectSummary, answer: RepairAnswer) -> Seq<StagedMutation> {
    match answer {
        RepairAnswer::Kept { .. } => Seq::empty(),
        RepairAnswer::Copied { kind, size, binding, .. } => seq![
            copy_of(object.key, kind, size, binding),
        ],
        RepairAnswer::Removed => seq![StagedMutation::Delete { key: object.key }],
    }
}

/// The changes that are staged for some objects, in their order.
pub open spec fn staged_all(objects: Seq<ObjectSummary>, answers: Seq<RepairAnswer>) -> Seq<
    StagedMutation,
>
    decreases answers.len(),
{
    if answers.len() == 0 || objects.len() < answers.len() {
        Seq::empty()
    } else {
        staged_all(objects, answers.drop_last()) + staged_for(
            objects[answers.len() - 1],
            answers.last(),
        )
    }
}

/// A page of a repair under way.
pub struct RepairRun {
    pub cursor: RepairCursor,
    pub step: RepairStep,
    pub max_steps: usize,
    /// Whether the page copies; else it deletes.
    pub copying: bool,
    /// How many objects the page may look at.
    pub room: usize,
    pub session: Option<CommitSessionManifest>,
    pub sequence: u64,
    pub mutations: Vec<StagedMutation>,
    pub truncated: bool,
    pub processed: usize,
    /// The object that is looked at.
    pub current: Option<ObjectSummary>,
    /// The objects that wait, the next one last.
    pub waiting: Vec<ObjectSummary>,
    /// What the current object is, and the length of its bytes.
    pub fetched: Option<(LogicalObjectVersionKind, u64)>,
    pub receipt: Option<CommitReceipt>,
    pub complete: bool,
    /// The mutations that the batch had before.
    pub base: Ghost<Seq<StagedMutation>>,
    /// The objects that were listed.
    pub listed: Ghost<Seq<ObjectSummary>>,
    /// What the destination holds under the current key, once that is known.
    pub found: Ghost<Option<LogicalObjectVersionKind>>,
    /// What became of the objects so far.
    pub answers: Ghost<Seq<RepairAnswer>>,
}

/// The cursor of a page whose last object was dealt with.
pub open spec fn after_page(cursor: RepairCursor, copying: bool, truncated: bool) -> RepairCursor {
    if truncated {
        cursor
    } else if copying {
        RepairCursor { phase: RepairPhase::DeleteDestinationOnly, source_after: None, ..cursor }
    } else {
        RepairCursor { phase: RepairPhase::Complete, destination_after: None, ..cursor }
    }
}

impl RepairRun {
    /// Whether an object is being dealt with.
    pub open spec fn has_current(self) -> bool {
        self.step == RepairStep::LookUp || self.step == RepairStep::Fetch || self.step
            == RepairStep::Store
    }

    /// What was staged is what was answered, and every listed object is answered, looked at or waiting.
    pub open spec fn wf(self) -> bool {
        let listed = self.listed@;
        let n = self.answers@.len() as int;
        let next = if self.has_current() {
            n + 1
        } else {
            n
        };
        &&& next <= listed.len()
        &&& self.mutations@ == self.base@ + staged_all(listed, self.answers@)
        &&& self.current is Some <==> self.has_current()
        &&& self.has_current() ==> self.current->0 == listed[n]
        &&& self.waiting@ == listed.skip(next).reverse()
        &&& self.fetched is Some <==> self.step == RepairStep::Store
        &&& !self.has_current() ==> self.waiting@.len() == 0
        &&& self.step == RepairStep::Fetch || self.step == RepairStep::Store ==> self.copying
            && needs_copy(listed[n].version.body.kind, self.found@)
        &&& forall|i: int| 0 <= i < n ==> fits(listed[i], #[trigger] self.answers@[i], self.copying)
    }

    /// The same page after an object was answered: the next one comes, or the page is over.
    pub open spec fn answered(self, after: Self, cursor: RepairCursor, answer: RepairAnswer) -> bool {
        let last = self.answers@.len() + 1 == self.listed@.len();
        &&& after.wf()
        &&& after.answers@ == self.answers@.push(answer)
        &&& after.listed@ == self.listed@
        &&& after.base@ == self.base@
        &&& after.step == if last {
            RepairStep::EndBatch
        } else {
            RepairStep::LookUp
        }
        &&& after.cursor == if last {
            after_page(cursor, self.copying, self.truncated)
        } else {
            cursor
        }
        &&& self.same_page(after)
    }

    /// Whether two states belong to the same page of the same session.
    pub open spec fn same_page(self, after: Self) -> bool {
        &&& after.max_steps == self.max_steps
        &&& after.copying == self.copying
        &&& after.room == self.room
        &&& after.session == self.session
        &&& after.sequence == self.sequence
        &&& after.truncated == self.truncated
        &&& after.processed == self.processed
        &&& after.receipt == self.receipt
        &&& after.complete == self.complete
    }
}

impl Repository {
    /// Begins a page of a repair. None: the repair is complete.
    pub fn begin_repair_page(&self, source: RepositoryId, cursor: RepairCursor, max_steps: usize) -> (r:
        Result<Option<RepairRun>, Error>)
        ensures
            match crate::repair::repair_page_outcome(*self, source, cursor, max_steps) {
                Err(error) => r matches Err(e) && e@ == error,
                Ok(false) => r matches Ok(None),
                Ok(true) => r matches Ok(Some(run)) && run.wf() && run.cursor == cursor && run.step
                    == RepairStep::ReadHead && run.max_steps == max_steps && run.copying == (
                cursor.phase == RepairPhase::CopySource) && run.answers@.len() == 0
                    && run.listed@.len() == 0 && run.base@.len() == 0 && run.processed == 0
                    && run.session is None && run.receipt is None && !run.complete,
            },
    {
        match self.advance_repair_from(source, &cursor, max_steps) {
            Err(error) => Err(error),
            Ok(false) => Ok(None),
            Ok(true) => {
                let copying = cursor.phase == RepairPhase::CopySource;
                let run = RepairRun {
                    cursor,
                    step: RepairStep::ReadHead,
                    max_steps,
                    copying,
                    room: 0,
                    session: None,
                    sequence: 0,
                    mutations: Vec::new(),
                    truncated: false,
                    processed: 0,
                    current: None,
                    waiting: Vec::new(),
                    fetched: None,
                    receipt: None,
                    complete: false,
                    base: Ghost(Seq::empty()),
                    listed: Ghost(Seq::empty()),
                    found: Ghost(None),
                    answers: Ghost(Seq::empty()),
                };
                assert(run.mutations@ =~= run.base@ + staged_all(run.listed@, run.answers@));
                assert(run.waiting@ =~= run.listed@.skip(0).reverse());
                Ok(Some(run))
            },
        }
    }
}

impl RepairRun {
    /// What the page waits for.
    pub fn next(&self) -> (r: RepairStep)
        ensures
            r == self.step,
    {
        self.step
    }

    /// Takes the head of the destination branch. One that has moved is refused.
    pub fn head(&mut self, head: CommitId) -> (r: Result<(), Error>)
        requires
            old(self).wf(),
            old(self).step == RepairStep::ReadHead,
        ensures
            r is Ok <==> head == old(self).cursor.expected_head,
            r matches Err(error) ==> error@ == crate::repair::moved_branch() && *final(self) == *old(
                self,
            ),
            r is Ok ==> final(self).wf() && *final(self) == (RepairRun {
                step: RepairStep::ResumeSession,
                ..*old(self)
            }),
    {
        if let Err(error) = check_repair_head(&self.cursor, head) {
            return Err(error);
        }
        self.step = RepairStep::ResumeSession;
        Ok(())
    }

    /// Takes the session of the batch, and finds out how many objects the page may look at.
    pub fn resumed(&mut self, repository: &Repository, checkpoint: CommitSessionCheckpoint) -> (r:
        Result<(), Error>)
        requires
            old(self).wf(),
            old(self).step == RepairStep::ResumeSession,
            old(self).answers@.len() == 0,
            old(self).listed@.len() == 0,
        ensures
            match crate::repair::page_room(
                *repository,
                old(self).cursor,
                old(self).max_steps,
                checkpoint,
            ) {
                Err(error) => r matches Err(e) && e@ == error && *final(self) == *old(self),
                Ok(room) => r is Ok && final(self).wf() && *final(self) == (RepairRun {
                    step: RepairStep::List,
                    room,
                    session: Some(checkpoint.session),
                    sequence: checkpoint.sequence,
                    mutations: checkpoint.mutations,
                    base: Ghost(checkpoint.mutations@),
                    ..*old(self)
                }),
            },
    {
        let room: usize = match repository.repair_page_limit(
            &self.cursor,
            self.max_steps,
            &checkpoint,
        ) {
            Err(error) => {
                return Err(error);
            },
            Ok(room) => room,
        };
        self.room = room;
        self.session = Some(checkpoint.session);
        self.sequence = checkpoint.sequence;
        self.base = Ghost(checkpoint.mutations@);
        self.mutations = checkpoint.mutations;
        self.step = RepairStep::List;
        assert(self.mutations@ =~= self.base@ + staged_all(self.listed@, self.answers@));
        Ok(())
    }

    /// Goes on to the next object, or ends the page.
    fn advance(&mut self)
        requires
            old(self).step == RepairStep::List || old(self).has_current(),
            old(self).current is None,
            old(self).fetched is None,
            old(self).answers@.len() <= old(self).listed@.len(),
            old(self).mutations@ == old(self).base@ + staged_all(
                old(self).listed@,
                old(self).answers@,
            ),
            old(self).waiting@ == old(self).listed@.skip(
                old(self).answers@.len() as int,
            ).reverse(),
            forall|i: int|
                0 <= i < old(self).answers@.len() ==> fits(
                    old(self).listed@[i],
                    #[trigger] old(self).answers@[i],
                    old(self).copying,
                ),
        ensures
            final(self).wf(),
            ({
                let before = *old(self);
                let last = before.answers@.len() == before.listed@.len();
                &&& before.same_page(*final(self))
                &&& final(self).answers@ == before.answers@
                &&& final(self).listed@ == before.listed@
                &&& final(self).base@ == before.base@
                &&& final(self).step == if last {
                    RepairStep::EndBatch
                } else {
                    RepairStep::LookUp
                }
                &&& final(self).cursor == if last {
                    after_page(before.cursor, before.copying, before.truncated)
                } else {
                    before.cursor
                }
            }),
    {
        let ghost rest = self.listed@.skip(self.answers@.len() as int);
        match self.waiting.pop() {
            Some(object) => {
                proof {
                    assert(rest.len() > 0);
                    assert(object == rest[0]);
                    assert(rest[0] == self.listed@[self.answers@.len() as int]);
                    assert(self.waiting@ =~= self.listed@.skip(
                        self.answers@.len() as int + 1,
                    ).reverse());
                }
                self.current = Some(object);
                self.step = RepairStep::LookUp;
            },
            None => {
                if self.copying {
                    end_copy_page(&mut self.cursor, self.truncated);
                } else {
                    end_removal_page(&mut self.cursor, self.truncated);
                }
                self.step = RepairStep::EndBatch;
                assert(self.waiting@ =~= rest.reverse());
            },
        }
    }

    /// Takes a page of objects, no more than the page may look at: of the source where the page copies, else
    /// of the destination.
    pub fn listed(&mut self, objects: Vec<ObjectSummary>, truncated: bool) -> (r: Result<(), Error>)
        requires
            old(self).wf(),
            old(self).step == RepairStep::List,
            objects@.len() <= old(self).room,
            old(self).answers@.len() == 0,
            old(self).listed@.len() == 0,
        ensures
            match noted_page(old(self).cursor, old(self).copying, objects@) {
                Err(error) => r matches Err(e) && e@ == error,
                Ok(report) => {
                    let last = objects@.len() == 0;
                    &&& r is Ok
                    &&& final(self).wf()
                    &&& final(self).listed@ == objects@
                    &&& final(self).answers@.len() == 0
                    &&& final(self).base@ == old(self).base@
                    &&& final(self).processed == objects@.len()
                    &&& final(self).processed <= final(self).room
                    &&& final(self).room == old(self).room
                    &&& final(self).max_steps == old(self).max_steps
                    &&& final(self).truncated == truncated
                    &&& final(self).session == old(self).session
                    &&& final(self).sequence == old(self).sequence
                    &&& final(self).copying == old(self).copying
                    &&& final(self).step == if last {
                        RepairStep::EndBatch
                    } else {
                        RepairStep::LookUp
                    }
                    &&& exists|key: Option<Vec<u8>>| #[trigger]
                        ends_with(objects@, key) && final(self).cursor == if last {
                            after_page(
                                listed_cursor(old(self).cursor, old(self).copying, report, key),
                                old(self).copying,
                                truncated,
                            )
                        } else {
                            listed_cursor(old(self).cursor, old(self).copying, report, key)
                        }
                },
            },
    {
        let count: usize = objects.len();
        let last_key: Option<Vec<u8>> = if count > 0 {
            Some(crate::bytes::to_vec(&objects[count - 1].key))
        } else {
            None
        };
        assert(ends_with(objects@, last_key));
        let noted = if self.copying {
            begin_copy_page(&mut self.cursor, count, last_key)
        } else {
            begin_removal_page(&mut self.cursor, count, last_key)
        };
        if let Err(error) = noted {
            return Err(error);
        }
        self.processed = count;
        self.truncated = truncated;
        let ghost all = objects@;
        let mut rest = objects;
        let mut reversed: Vec<ObjectSummary> = Vec::new();
        while rest.len() > 0
            invariant
                rest@ + reversed@.reverse() == all,
            decreases rest.len(),
        {
            let ghost before = reversed@;
            let ghost left = rest@;
            if let Some(object) = rest.pop() {
                reversed.push(object);
                assert(reversed@.reverse() =~= seq![object] + before.reverse());
                assert(rest@ + reversed@.reverse() =~= left + before.reverse());
            }
        }
        assert(reversed@.reverse() =~= all);
        assert(reversed@ =~= all.reverse());
        assert(all.skip(0) =~= all);
        self.waiting = reversed;
        self.listed = Ghost(all);
        assert(staged_all(all, self.answers@) =~= Seq::<StagedMutation>::empty());
        assert(self.mutations@ =~= self.base@ + staged_all(all, self.answers@));
        self.advance();
        Ok(())
    }

    /// Takes what the other side holds under the current key. An object of the source that the destination
    /// lacks or holds otherwise is fetched; one of the destination that the source lacks is deleted.
    pub fn looked_up(&mut self, found: Option<LogicalObjectVersionKind>) -> (r: Result<(), Error>)
        requires
            old(self).wf(),
            old(self).step == RepairStep::LookUp,
        ensures
            ({
                let before = *old(self);
                let object = before.current->0;
                if before.copying {
                    if needs_copy(object.version.body.kind, found) {
                        r is Ok && final(self).wf() && *final(self) == (RepairRun {
                            step: RepairStep::Fetch,
                            found: Ghost(found),
                            ..before
                        })
                    } else {
                        r is Ok && before.answered(
                            *final(self),
                            before.cursor,
                            RepairAnswer::Kept { found },
                        )
                    }
                } else if found is Some {
                    r is Ok && before.answered(
                        *final(self),
                        before.cursor,
                        RepairAnswer::Kept { found },
                    )
                } else {
                    match removed_one(before.cursor) {
                        Err(error) => r matches Err(e) && e@ == error,
                        Ok(cursor) => r is Ok && before.answered(
                            *final(self),
                            cursor,
                            RepairAnswer::Removed,
                        ),
                    }
                }
            }),
    {
        let ghost before = *self;
        let ghost n = self.answers@.len();
        if self.copying {
            let copies = match (&self.current, &found) {
                (Some(object), Some(kind)) => must_copy(&object.version.body.kind, Some(kind)),
                (Some(object), None) => must_copy(&object.version.body.kind, None),
                (None, _) => false,
            };
            if copies {
                self.found = Ghost(found);
                self.step = RepairStep::Fetch;
                return Ok(());
            }
            self.current = None;
            proof {
                let answer = RepairAnswer::Kept { found };
                self.answers = Ghost(self.answers@.push(answer));
                lemma_one_more(before.listed@, before.answers@, answer);
                assert(self.mutations@ =~= self.base@ + staged_all(self.listed@, self.answers@));
            }
            self.advance();
            return Ok(());
        }
        let object = self.current.take();
        let in_source = found.is_some();
        if let Some(object) = object {
            if let Err(error) = stage_removal(
                &mut self.cursor,
                &mut self.mutations,
                object.key,
                in_source,
            ) {
                return Err(error);
            }
            let ghost answer = if in_source {
                RepairAnswer::Kept { found }
            } else {
                RepairAnswer::Removed
            };
            proof {
                self.answers = Ghost(self.answers@.push(answer));
                lemma_one_more(before.listed@, before.answers@, answer);
                assert(self.mutations@ =~= self.base@ + staged_all(self.listed@, self.answers@));
            }
            self.advance();
        }
        Ok(())
    }

    /// Takes the current object of the source. The answer is its bytes, which are to be stored.
    pub fn fetched(&mut self, data: Option<ObjectData>) -> (r: Result<Vec<u8>, Error>)
        requires
            old(self).wf(),
            old(self).step == RepairStep::Fetch,
        ensures
            match data {
                None => r matches Err(error) && error@ == crate::repair::vanished_source()
                    && *final(self) == *old(self),
                Some(object) => r == Ok::<Vec<u8>, Error>(object.bytes) && final(self).wf()
                    && *final(self) == (RepairRun {
                    step: RepairStep::Store,
                    fetched: Some((object.version.body.kind, object.bytes@.len() as u64)),
                    ..*old(self)
                }),
            },
    {
        match repair_source(data) {
            Err(error) => Err(error),
            Ok((object, size)) => {
                self.fetched = Some((object.version.body.kind, size));
                self.step = RepairStep::Store;
                Ok(object.bytes)
            },
        }
    }

    /// Takes where the bytes of the current object were stored, and stages its copy.
    pub fn stored(&mut self, binding: PayloadBinding) -> (r: Result<(), Error>)
        requires
            old(self).wf(),
            old(self).step == RepairStep::Store,
        ensures
            ({
                let before = *old(self);
                let (kind, size) = before.fetched->0;
                match copied_one(before.cursor, kind, size) {
                    Err(error) => r matches Err(e) && e@ == error,
                    Ok(cursor) => r is Ok && before.answered(
                        *final(self),
                        cursor,
                        RepairAnswer::Copied { found: before.found@, kind, size, binding },
                    ),
                }
            }),
    {
        let ghost before = *self;
        let object = self.current.take();
        let fetched = self.fetched.take();
        if let (Some(object), Some((kind, size))) = (object, fetched) {
            let ghost answer = RepairAnswer::Copied {
                found: before.found@,
                kind,
                size,
                binding,
            };
            if let Err(error) = stage_copy(
                &mut self.cursor,
                &mut self.mutations,
                object.key,
                kind,
                size,
                binding,
            ) {
                return Err(error);
            }
            proof {
                self.answers = Ghost(self.answers@.push(answer));
                lemma_one_more(before.listed@, before.answers@, answer);
                assert(self.mutations@ =~= self.base@ + staged_all(self.listed@, self.answers@));
            }
            self.advance();
        }
        Ok(())
    }

    /// Says what becomes of the batch.
    pub fn batch_end(&self, repository: &Repository) -> (r: Result<BatchEnd, Error>)
        requires
            self.wf(),
            self.step == RepairStep::EndBatch,
        ensures
            outcome(r) == crate::batches::batch_end_of(
                self.mutations@.len(),
                repository.format.canonical_limits.max_mutations_per_commit,
                self.cursor.phase == RepairPhase::Complete,
                self.sequence,
                "repair checkpoint sequence overflow",
            ),
    {
        repository.end_repair_batch(&self.cursor, &self.mutations, self.sequence)
    }

    /// Takes the batch for what comes of it: its session and its mutations.
    pub fn take_batch(&mut self) -> (r: (Option<CommitSessionManifest>, Vec<StagedMutation>))
        requires
            old(self).wf(),
            old(self).step == RepairStep::EndBatch,
        ensures
            r.0 == old(self).session,
            r.1@ == old(self).base@ + staged_all(old(self).listed@, old(self).answers@),
            final(self).step == old(self).step,
            final(self).cursor == old(self).cursor,
            final(self).processed == old(self).processed,
            final(self).receipt == old(self).receipt,
            final(self).complete == old(self).complete,
    {
        let session = self.session.take();
        let mut mutations: Vec<StagedMutation> = Vec::new();
        mutations.append(&mut self.mutations);
        assert(mutations@ =~= old(self).mutations@);
        (session, mutations)
    }

    /// The batch was saved under this number.
    pub fn saved(&mut self, sequence: u64)
        requires
            old(self).step == RepairStep::EndBatch,
        ensures
            final(self).step == RepairStep::Finish,
            final(self).cursor == (RepairCursor {
                checkpoint_sequence: sequence,
                ..old(self).cursor
            }),
            final(self).complete == old(self).complete,
            final(self).receipt == old(self).receipt,
            final(self).processed == old(self).processed,
    {
        self.cursor.checkpoint_sequence = sequence;
        self.step = RepairStep::Finish;
    }

    /// The batch was empty and was given up: the repair is complete.
    pub fn aborted(&mut self)
        requires
            old(self).step == RepairStep::EndBatch,
        ensures
            final(self).step == RepairStep::Finish,
            final(self).cursor == old(self).cursor,
            final(self).complete,
            final(self).receipt == old(self).receipt,
            final(self).processed == old(self).processed,
    {
        self.complete = true;
        self.step = RepairStep::Finish;
    }

    /// The batch was published. Where there is more to do, the next batch needs a session.
    pub fn published(&mut self, receipt: CommitReceipt) -> (r: Result<(), Error>)
        requires
            old(self).step == RepairStep::EndBatch,
        ensures
            match crate::counters::added(
                old(self).cursor.report.published_commits,
                1,
                "fsck ",
                "repair-published-commit",
            ) {
                Err(error) => r matches Err(e) && e@ == error,
                Ok(published_commits) => {
                    let more = old(self).cursor.phase != RepairPhase::Complete;
                    &&& r is Ok
                    &&& final(self).step == if more {
                        RepairStep::BeginSession
                    } else {
                        RepairStep::Finish
                    }
                    &&& final(self).complete == !more
                    &&& final(self).receipt == Some(receipt)
                    &&& final(self).processed == old(self).processed
                    &&& final(self).cursor == (RepairCursor {
                        expected_head: receipt.id,
                        report: RepairReport { published_commits, ..old(self).cursor.report },
                        ..old(self).cursor
                    })
                },
            },
    {
        let more = match published_repair_batch(&mut self.cursor, &receipt) {
            Err(error) => {
                return Err(error);
            },
            Ok(more) => more,
        };
        self.receipt = Some(receipt);
        self.complete = !more;
        self.step = if more {
            RepairStep::BeginSession
        } else {
            RepairStep::Finish
        };
        Ok(())
    }

    /// The next batch has a session.
    pub fn begun(&mut self, checkpoint: &CommitSessionCheckpoint)
        requires
            old(self).step == RepairStep::BeginSession,
        ensures
            final(self).step == RepairStep::Finish,
            final(self).cursor == (RepairCursor {
                batch: checkpoint.session.id,
                checkpoint_sequence: checkpoint.sequence,
                ..old(self).cursor
            }),
            final(self).complete == old(self).complete,
            final(self).receipt == old(self).receipt,
            final(self).processed == old(self).processed,
    {
        next_repair_batch(&mut self.cursor, checkpoint);
        self.step = RepairStep::Finish;
    }

    /// What the page did.
    pub fn finish(self) -> (r: RepairPage)
        requires
            self.step == RepairStep::Finish,
        ensures
            r == (RepairPage {
                cursor: self.cursor,
                processed: self.processed,
                receipt: self.receipt,
                complete: self.complete,
            }),
    {
        RepairPage {
            cursor: self.cursor,
            processed: self.processed,
            receipt: self.receipt,
            complete: self.complete,
        }
    }
}

/// The report of a page after its objects were listed.
pub open spec fn noted_page(cursor: RepairCursor, copying: bool, objects: Seq<ObjectSummary>) -> Result<
    RepairReport,
    Fault,
> {
    if copying {
        match crate::counters::added(
            cursor.report.scanned_source_objects,
            objects.len() as u64,
            "fsck ",
            "repair-source-object",
        ) {
            Err(error) => Err(error),
            Ok(scanned_source_objects) => Ok(
                RepairReport { scanned_source_objects, ..cursor.report },
            ),
        }
    } else {
        match crate::counters::added(
            cursor.report.scanned_destination_objects,
            objects.len() as u64,
            "fsck ",
            "repair-destination-object",
        ) {
            Err(error) => Err(error),
            Ok(scanned_destination_objects) => Ok(
                RepairReport { scanned_destination_objects, ..cursor.report },
            ),
        }
    }
}

/// The cursor after one more deletion was staged.
pub open spec fn removed_one(cursor: RepairCursor) -> Result<RepairCursor, Fault> {
    match crate::counters::added(
        cursor.report.deleted_objects,
        1,
        "fsck ",
        "repair-deleted-object",
    ) {
        Err(error) => Err(error),
        Ok(deleted_objects) => Ok(
            RepairCursor { report: RepairReport { deleted_objects, ..cursor.report }, ..cursor },
        ),
    }
}

/// The cursor after one more copy was staged.
pub open spec fn copied_one(cursor: RepairCursor, kind: LogicalObjectVersionKind, size: u64) -> Result<
    RepairCursor,
    Fault,
> {
    if kind is DeleteMarker {
        Err(
            crate::error::fault(
                crate::error::ErrorCode::CorruptCommit,
                "repair source current object is a delete marker",
            ),
        )
    } else {
        match counted_copy(cursor.report, size) {
            Err(error) => Err(error),
            Ok(report) => Ok(RepairCursor { report, ..cursor }),
        }
    }
}

/// One more answer stages what it says.
proof fn lemma_one_more(
    objects: Seq<ObjectSummary>,
    answers: Seq<RepairAnswer>,
    answer: RepairAnswer,
)
    requires
        answers.len() < objects.len(),
    ensures
        staged_all(objects, answers.push(answer)) == staged_all(objects, answers) + staged_for(
            objects[answers.len() as int],
            answer,
        ),
{
    let more = answers.push(answer);
    assert(more.drop_last() =~= answers);
    assert(more.last() == answer);
}

/// Whether a key is that of the last object, as far as there is one.
pub open spec fn ends_with(objects: Seq<ObjectSummary>, key: Option<Vec<u8>>) -> bool {
    match key {
        Some(bytes) => objects.len() > 0 && bytes@ == objects.last().key@,
        None => objects.len() == 0,
    }
}

/// The cursor of a page after its objects were listed.
pub open spec fn listed_cursor(
    cursor: RepairCursor,
    copying: bool,
    report: RepairReport,
    key: Option<Vec<u8>>,
) -> RepairCursor {
    if copying {
        RepairCursor { report, source_after: key, ..cursor }
    } else {
        RepairCursor { report, destination_after: key, ..cursor }
    }
}

/// Whether an object of a list has this key.
pub open spec fn lists_key(objects: Seq<ObjectSummary>, key: Seq<u8>) -> bool {
    exists|i: int| 0 <= i < objects.len() && (#[trigger] objects[i]).key@ == key
}

/// Whether a list holds the live objects of a snapshot.
pub open spec fn lists_snapshot(objects: Seq<ObjectSummary>, snapshot: Map<Seq<u8>, KindView>) -> bool {
    &&& forall|i: int|
        0 <= i < objects.len() ==> snapshot.contains_pair(
            (#[trigger] objects[i]).key@,
            objects[i].version.body.kind@,
        )
    &&& forall|key: Seq<u8>| #[trigger] snapshot.contains_key(key) ==> lists_key(objects, key)
}

/// Whether `found` is what a snapshot holds under a key.
pub open spec fn is_found(
    found: Option<LogicalObjectVersionKind>,
    snapshot: Map<Seq<u8>, KindView>,
    key: Seq<u8>,
) -> bool {
    match found {
        Some(kind) => snapshot.contains_pair(key, kind@),
        None => !snapshot.contains_key(key),
    }
}

/// Whether an answer tells the truth about two snapshots: what it says the other side holds, and what it
/// copied.
pub open spec fn is_true(
    object: ObjectSummary,
    answer: RepairAnswer,
    other: Map<Seq<u8>, KindView>,
) -> bool {
    match answer {
        RepairAnswer::Kept { found } => is_found(found, other, object.key@),
        RepairAnswer::Copied { found, kind, size, .. } => is_found(found, other, object.key@)
            && kind@ == object.version.body.kind@ && kind->size == size,
        RepairAnswer::Removed => !other.contains_key(object.key@),
    }
}

/// Every staged change is that of some object, and every object that is not kept has a staged change.
proof fn lemma_staged_changes(objects: Seq<ObjectSummary>, answers: Seq<RepairAnswer>)
    requires
        answers.len() <= objects.len(),
    ensures
        forall|k: int|
            0 <= k < staged_all(objects, answers).len() ==> exists|i: int|
                0 <= i < answers.len() && !(#[trigger] answers[i] is Kept) && staged_for(
                    objects[i],
                    answers[i],
                )[0] == #[trigger] staged_all(objects, answers)[k],
        forall|i: int|
            0 <= i < answers.len() && !(#[trigger] answers[i] is Kept) ==> changes_key(
                staged_all(objects, answers),
                objects[i].key@,
            ),
    decreases answers.len(),
{
    if answers.len() > 0 {
        let fewer = answers.drop_last();
        let n = fewer.len() as int;
        lemma_staged_changes(objects, fewer);
        let before = staged_all(objects, fewer);
        let all = staged_all(objects, answers);
        let own = staged_for(objects[n], answers[n]);
        assert(all == before + own);
        assert forall|k: int| 0 <= k < all.len() implies exists|i: int|
            0 <= i < answers.len() && !(#[trigger] answers[i] is Kept) && staged_for(
                objects[i],
                answers[i],
            )[0] == #[trigger] all[k] by {
            if k < before.len() {
                assert(all[k] == before[k]);
                let i = choose|i: int|
                    0 <= i < fewer.len() && !(#[trigger] fewer[i] is Kept) && staged_for(
                        objects[i],
                        fewer[i],
                    )[0] == before[k];
                assert(answers[i] == fewer[i]);
            } else {
                assert(all[k] == own[k - before.len()]);
                assert(!(answers[n] is Kept));
            }
        }
        assert forall|i: int| 0 <= i < answers.len() && !(#[trigger] answers[i] is Kept) implies changes_key(
            all,
            objects[i].key@,
        ) by {
            if i < n {
                assert(fewer[i] == answers[i]);
                let k = choose|k: int|
                    0 <= k < before.len() && (#[trigger] before[k]).spec_key() == objects[i].key@;
                assert(all[k] == before[k]);
            } else {
                let k = before.len() as int;
                assert(all[k] == own[0]);
                assert(all[k].spec_key() == objects[n].key@);
            }
        }
    }
}

/// A repair that has gone through all objects of the source and then through all objects that the
/// destination held leaves the branch with exactly the live objects of the source, provided that each page
/// was answered truly: the snapshots do not change meanwhile.
pub proof fn law_repair_pages_bring_the_branch_to_the_source(
    source: Map<Seq<u8>, KindView>,
    destination: Map<Seq<u8>, KindView>,
    copies: Seq<ObjectSummary>,
    copied: Seq<RepairAnswer>,
    removals: Seq<ObjectSummary>,
    removed: Seq<RepairAnswer>,
)
    requires
        lists_snapshot(copies, source),
        lists_snapshot(removals, destination),
        copied.len() == copies.len(),
        removed.len() == removals.len(),
        forall|i: int|
            0 <= i < copied.len() ==> fits(copies[i], #[trigger] copied[i], true) && is_true(
                copies[i],
                copied[i],
                destination,
            ),
        forall|i: int|
            0 <= i < removed.len() ==> fits(removals[i], #[trigger] removed[i], false) && is_true(
                removals[i],
                removed[i],
                source,
            ),
    ensures
        live_after(destination, staged_all(copies, copied) + staged_all(removals, removed))
            == source,
{
    let first = staged_all(copies, copied);
    let second = staged_all(removals, removed);
    let all = first + second;
    lemma_staged_changes(copies, copied);
    lemma_staged_changes(removals, removed);
    assert forall|k: int| 0 <= k < all.len() implies brings_to(source, #[trigger] all[k]) by {
        if k < first.len() {
            assert(all[k] == first[k]);
            let i = choose|i: int|
                0 <= i < copied.len() && !(#[trigger] copied[i] is Kept) && staged_for(
                    copies[i],
                    copied[i],
                )[0] == first[k];
            assert(fits(copies[i], copied[i], true));
            if let RepairAnswer::Copied { kind, size, binding, .. } = copied[i] {
                law_copy_brings_its_key_to_the_source(
                    source,
                    copies[i].key,
                    kind,
                    size,
                    binding,
                );
            }
        } else {
            assert(all[k] == second[k - first.len()]);
            let i = choose|i: int|
                0 <= i < removed.len() && !(#[trigger] removed[i] is Kept) && staged_for(
                    removals[i],
                    removed[i],
                )[0] == second[k - first.len()];
            assert(fits(removals[i], removed[i], false));
        }
    }
    assert forall|key: Seq<u8>| #[trigger]
        source.contains_key(key) && !(destination.contains_key(key) && destination[key]
            == source[key]) implies changes_key(all, key) by {
        assert(lists_key(copies, key));
        let i = choose|i: int| 0 <= i < copies.len() && (#[trigger] copies[i]).key@ == key;
        assert(fits(copies[i], copied[i], true));
        assert(!(copied[i] is Kept));
        let k = choose|k: int| 0 <= k < first.len() && (#[trigger] first[k]).spec_key() == key;
        assert(all[k] == first[k]);
    }
    assert forall|key: Seq<u8>| #[trigger]
        destination.contains_key(key) && !source.contains_key(key) implies changes_key(all, key) by {
        assert(lists_key(removals, key));
        let i = choose|i: int| 0 <= i < removals.len() && (#[trigger] removals[i]).key@ == key;
        assert(fits(removals[i], removed[i], false));
        assert(!(removed[i] is Kept));
        let k = choose|k: int| 0 <= k < second.len() && (#[trigger] second[k]).spec_key() == key;
        assert(all[first.len() + k] == second[k]);
    }
    law_repaired_branch_holds_the_source(source, destination, all);
}

/// A report after some answers: each copy and each deletion is counted, what is kept is not.
pub open spec fn reported(report: RepairReport, answers: Seq<RepairAnswer>) -> Result<RepairReport, Fault>
    decreases answers.len(),
{
    if answers.len() == 0 {
        Ok(report)
    } else {
        match reported(report, answers.drop_last()) {
            Err(error) => Err(error),
            Ok(before) => match answers.last() {
                RepairAnswer::Kept { .. } => Ok(before),
                RepairAnswer::Copied { size, .. } => counted_copy(before, size),
                RepairAnswer::Removed => match crate::counters::added(
                    before.deleted_objects,
                    1,
                    "fsck ",
                    "repair-deleted-object",
                ) {
                    Err(error) => Err(error),
                    Ok(deleted_objects) => Ok(RepairReport { deleted_objects, ..before }),
                },
            },
        }
    }
}

/// How many of some answers are copies.
pub open spec fn copies_in(answers: Seq<RepairAnswer>) -> int
    decreases answers.len(),
{
    if answers.len() == 0 {
        0
    } else {
        copies_in(answers.drop_last()) + if answers.last() is Copied {
            1int
        } else {
            0
        }
    }
}

/// How many bytes some answers copy.
pub open spec fn bytes_in(answers: Seq<RepairAnswer>) -> int
    decreases answers.len(),
{
    if answers.len() == 0 {
        0
    } else {
        bytes_in(answers.drop_last()) + if answers.last() is Copied {
            answers.last()->Copied_size as int
        } else {
            0
        }
    }
}

/// How many of some answers are deletions.
pub open spec fn deletions_in(answers: Seq<RepairAnswer>) -> int
    decreases answers.len(),
{
    if answers.len() == 0 {
        0
    } else {
        deletions_in(answers.drop_last()) + if answers.last() is Removed {
            1int
        } else {
            0
        }
    }
}

/// The report of a repair counts what it did: each copy with its bytes, each deletion, and together as many
/// as the changes that were staged.
pub proof fn law_repair_report_counts_the_changes(
    report: RepairReport,
    objects: Seq<ObjectSummary>,
    answers: Seq<RepairAnswer>,
)
    requires
        answers.len() <= objects.len(),
    ensures
        staged_all(objects, answers).len() == copies_in(answers) + deletions_in(answers),
        reported(report, answers) matches Ok(end) ==> {
            &&& end.copied_objects == report.copied_objects + copies_in(answers)
            &&& end.copied_bytes == report.copied_bytes + bytes_in(answers)
            &&& end.deleted_objects == report.deleted_objects + deletions_in(answers)
            &&& end == (RepairReport {
                copied_objects: end.copied_objects,
                copied_bytes: end.copied_bytes,
                deleted_objects: end.deleted_objects,
                ..report
            })
        },
    decreases answers.len(),
{
    if answers.len() > 0 {
        law_repair_report_counts_the_changes(report, objects, answers.drop_last());
    }
}

/// Whether no two objects of a list have the same key.
pub open spec fn keys_differ(objects: Seq<ObjectSummary>) -> bool {
    forall|i: int, j: int|
        0 <= i < j < objects.len() ==> (#[trigger] objects[i]).key@ != (#[trigger] objects[j]).key@
}

/// The keys that the destination lacks or holds otherwise.
pub open spec fn differing(
    source: Map<Seq<u8>, KindView>,
    destination: Map<Seq<u8>, KindView>,
) -> Set<Seq<u8>> {
    Set::new(
        |key: Seq<u8>|
            source.contains_key(key) && !(destination.contains_key(key) && destination[key]
                == source[key]),
    )
}

/// The keys that only the destination holds.
pub open spec fn destination_only(
    source: Map<Seq<u8>, KindView>,
    destination: Map<Seq<u8>, KindView>,
) -> Set<Seq<u8>> {
    Set::new(|key: Seq<u8>| destination.contains_key(key) && !source.contains_key(key))
}

/// Whether the object at a place was copied (`copying`) or deleted, and has this key.
pub open spec fn changed_at(
    objects: Seq<ObjectSummary>,
    answers: Seq<RepairAnswer>,
    copying: bool,
    key: Seq<u8>,
    i: int,
) -> bool {
    0 <= i < answers.len() && objects[i].key@ == key && if copying {
        answers[i] is Copied
    } else {
        answers[i] is Removed
    }
}

/// The keys of the objects that were copied (`copying`) or deleted.
pub open spec fn changed_keys(
    objects: Seq<ObjectSummary>,
    answers: Seq<RepairAnswer>,
    copying: bool,
) -> Set<Seq<u8>> {
    Set::new(|key: Seq<u8>| exists|i: int| changed_at(objects, answers, copying, key, i))
}

proof fn lemma_changed_keys(objects: Seq<ObjectSummary>, answers: Seq<RepairAnswer>, copying: bool)
    requires
        answers.len() <= objects.len(),
        keys_differ(objects),
    ensures
        changed_keys(objects, answers, copying).finite(),
        changed_keys(objects, answers, copying).len() == if copying {
            copies_in(answers)
        } else {
            deletions_in(answers)
        },
    decreases answers.len(),
{
    let all = changed_keys(objects, answers, copying);
    if answers.len() == 0 {
        assert(all =~= Set::<Seq<u8>>::empty());
    } else {
        let fewer = answers.drop_last();
        let n = fewer.len() as int;
        lemma_changed_keys(objects, fewer, copying);
        let before = changed_keys(objects, fewer, copying);
        let own = objects[n].key@;
        let changes = if copying {
            answers[n] is Copied
        } else {
            answers[n] is Removed
        };
        assert(!before.contains(own)) by {
            if before.contains(own) {
                let i = choose|i: int| changed_at(objects, fewer, copying, own, i);
                assert(objects[i].key@ != objects[n].key@);
            }
        }
        assert forall|key: Seq<u8>| all.contains(key) == (before.contains(key) || (changes && key == own)) by {
            if all.contains(key) {
                let i = choose|i: int| changed_at(objects, answers, copying, key, i);
                if i < n {
                    assert(changed_at(objects, fewer, copying, key, i));
                }
            }
            if before.contains(key) {
                let i = choose|i: int| changed_at(objects, fewer, copying, key, i);
                assert(changed_at(objects, answers, copying, key, i));
            }
            if changes && key == own {
                assert(changed_at(objects, answers, copying, key, n));
            }
        }
        if changes {
            assert(all =~= before.insert(own));
        } else {
            assert(all =~= before);
        }
    }
}

/// The report of a whole repair counts as copied exactly the keys of the source that the destination lacked or
/// held otherwise, and as deleted exactly those that only the destination held.
pub proof fn law_repair_counts_what_differed(
    source: Map<Seq<u8>, KindView>,
    destination: Map<Seq<u8>, KindView>,
    copies: Seq<ObjectSummary>,
    copied: Seq<RepairAnswer>,
    removals: Seq<ObjectSummary>,
    removed: Seq<RepairAnswer>,
)
    requires
        lists_snapshot(copies, source),
        lists_snapshot(removals, destination),
        keys_differ(copies),
        keys_differ(removals),
        copied.len() == copies.len(),
        removed.len() == removals.len(),
        forall|i: int|
            0 <= i < copied.len() ==> fits(copies[i], #[trigger] copied[i], true) && is_true(
                copies[i],
                copied[i],
                destination,
            ),
        forall|i: int|
            0 <= i < removed.len() ==> fits(removals[i], #[trigger] removed[i], false) && is_true(
                removals[i],
                removed[i],
                source,
            ),
    ensures
        differing(source, destination).finite(),
        copies_in(copied) == differing(source, destination).len(),
        destination_only(source, destination).finite(),
        deletions_in(removed) == destination_only(source, destination).len(),
{
    lemma_changed_keys(copies, copied, true);
    lemma_changed_keys(removals, removed, false);
    let first = changed_keys(copies, copied, true);
    let second = changed_keys(removals, removed, false);
    assert forall|key: Seq<u8>| first.contains(key) == differing(source, destination).contains(key) by {
        if first.contains(key) {
            let i = choose|i: int| changed_at(copies, copied, true, key, i);
            assert(fits(copies[i], copied[i], true));
            assert(source.contains_pair(copies[i].key@, copies[i].version.body.kind@));
        }
        if differing(source, destination).contains(key) {
            assert(lists_key(copies, key));
            let i = choose|i: int| 0 <= i < copies.len() && (#[trigger] copies[i]).key@ == key;
            assert(fits(copies[i], copied[i], true));
            assert(source.contains_pair(copies[i].key@, copies[i].version.body.kind@));
            assert(changed_at(copies, copied, true, key, i));
        }
    }
    assert(first =~= differing(source, destination));
    assert forall|key: Seq<u8>| second.contains(key) == destination_only(source, destination).contains(key) by {
        if second.contains(key) {
            let i = choose|i: int| changed_at(removals, removed, false, key, i);
            assert(fits(removals[i], removed[i], false));
            assert(destination.contains_pair(removals[i].key@, removals[i].version.body.kind@));
        }
        if destination_only(source, destination).contains(key) {
            assert(lists_key(removals, key));
            let i = choose|i: int| 0 <= i < removals.len() && (#[trigger] removals[i]).key@ == key;
            assert(fits(removals[i], removed[i], false));
            assert(changed_at(removals, removed, false, key, i));
        }
    }
    assert(second =~= destination_only(source, destination));
}

/// What a repair stages for an object is told by its answer: nothing where it is kept, one put of the copy where it is
/// copied, one deletion where it is removed, each under the key of the object.
pub proof fn law_answer_tells_what_is_staged(object: ObjectSummary, answer: RepairAnswer)
    ensures
        answer is Kept ==> staged_for(object, answer).len() == 0,
        answer is Removed ==> staged_for(object, answer) == seq![
            StagedMutation::Delete { key: object.key },
        ],
        answer matches RepairAnswer::Copied { found, kind, size, binding } ==> (staged_for(
            object,
            answer,
        ).len() == 1 && (staged_for(object, answer)[0] matches StagedMutation::Put(put) && put.key
            == object.key && put.size == size && put.logical_etag == kind->logical_etag
            && put.checksums == kind->checksums && put.attributes == kind->attributes && put.binding
            == binding)),
{
}

/// An object is removed only where objects are being removed, and copied only where they are being copied and it is
/// not there as it is in the source.
pub proof fn law_answer_goes_with_the_phase(object: ObjectSummary, answer: RepairAnswer, copying: bool)
    requires
        fits(object, answer, copying),
    ensures
        answer is Removed ==> !copying,
        answer matches RepairAnswer::Copied { found, kind, .. } ==> copying && kind is Live && (found is None
            || found->0@ != object.version.body.kind@),
        answer matches RepairAnswer::Kept { found } ==> (copying ==> found is Some && found->0@
            == object.version.body.kind@) && (!copying ==> found is Some),
{
}

/// A repair goes from copying to removing, and from removing to its end, only where a listing is over; its counts, its
/// two repositories and the head that it expects stay.
pub proof fn law_repair_phase_ends_with_its_listing(cursor: RepairCursor, copying: bool, truncated: bool)
    ensures
        truncated ==> after_page(cursor, copying, truncated) == cursor,
        !truncated && copying ==> after_page(cursor, copying, truncated).phase
            == RepairPhase::DeleteDestinationOnly && after_page(cursor, copying, truncated).source_after
             is None && after_page(cursor, copying, truncated).destination_after
            == cursor.destination_after,
        !truncated && !copying ==> after_page(cursor, copying, truncated).phase == RepairPhase::Complete
            && after_page(cursor, copying, truncated).destination_after is None && after_page(
            cursor,
            copying,
            truncated,
        ).source_after == cursor.source_after,
        after_page(cursor, copying, truncated).report == cursor.report,
        after_page(cursor, copying, truncated).source_repository == cursor.source_repository,
        after_page(cursor, copying, truncated).destination_repository == cursor.destination_repository,
        after_page(cursor, copying, truncated).expected_head == cursor.expected_head,
{
}

/// A page of a listing counts its objects, where it copies among those of the source and where it removes among those
/// of the destination; a removal counts as one, and a copy as one with its bytes.
pub proof fn law_repair_counts_what_it_lists(
    cursor: RepairCursor,
    copying: bool,
    objects: Seq<ObjectSummary>,
    kind: LogicalObjectVersionKind,
    size: u64,
)
    requires
        objects.len() <= u64::MAX,
    ensures
        noted_page(cursor, copying, objects) matches Ok(report) ==> {
            &&& copying ==> report.scanned_source_objects == cursor.report.scanned_source_objects
                + objects.len() && report.scanned_destination_objects
                == cursor.report.scanned_destination_objects
            &&& !copying ==> report.scanned_destination_objects
                == cursor.report.scanned_destination_objects + objects.len()
                && report.scanned_source_objects == cursor.report.scanned_source_objects
            &&& report.copied_objects == cursor.report.copied_objects
            &&& report.copied_bytes == cursor.report.copied_bytes
            &&& report.deleted_objects == cursor.report.deleted_objects
        },
        removed_one(cursor) matches Ok(after) ==> after.report.deleted_objects
            == cursor.report.deleted_objects + 1 && after.report.copied_objects
            == cursor.report.copied_objects,
        copied_one(cursor, kind, size) matches Ok(after) ==> kind is Live && after.report.copied_objects
            == cursor.report.copied_objects + 1 && after.report.copied_bytes
            == cursor.report.copied_bytes + size && after.report.deleted_objects
            == cursor.report.deleted_objects,
        kind is DeleteMarker ==> copied_one(cursor, kind, size) is Err,
{
}

/// A page that was listed is remembered by its last key, on the side that was listed, and by its counts; the other side
/// stays where it was.
pub proof fn law_listed_page_is_remembered(
    cursor: RepairCursor,
    copying: bool,
    report: RepairReport,
    objects: Seq<ObjectSummary>,
    key: Option<Vec<u8>>,
)
    ensures
        ends_with(objects, key) && objects.len() > 0 ==> key is Some && key->0@ == objects[objects.len()
            - 1].key@,
        ends_with(objects, key) && objects.len() == 0 ==> key is None,
        listed_cursor(cursor, copying, report, key).report == report,
        copying ==> listed_cursor(cursor, copying, report, key).source_after == key && listed_cursor(
            cursor,
            copying,
            report,
            key,
        ).destination_after == cursor.destination_after,
        !copying ==> listed_cursor(cursor, copying, report, key).destination_after == key
            && listed_cursor(cursor, copying, report, key).source_after == cursor.source_after,
        listed_cursor(cursor, copying, report, key).phase == cursor.phase,
        listed_cursor(cursor, copying, report, key).expected_head == cursor.expected_head,
        listed_cursor(cursor, copying, report, key).source_repository == cursor.source_repository,
        listed_cursor(cursor, copying, report, key).destination_repository
            == cursor.destination_repository,
{
}

/// An answer moves a page on by one object: what was staged before stays, what the answer stages comes behind it, and
/// the page itself is the same one.
pub proof fn law_answer_moves_a_page_on(
    run: RepairRun,
    after: RepairRun,
    cursor: RepairCursor,
    answer: RepairAnswer,
)
    requires
        run.answered(after, cursor, answer),
        run.mutations@ == run.base@ + staged_all(run.listed@, run.answers@),
        run.answers@.len() < run.listed@.len(),
    ensures
        after.answers@ == run.answers@.push(answer),
        after.listed@ == run.listed@,
        after.mutations@ == run.mutations@ + staged_for(run.listed@[run.answers@.len() as int], answer),
        after.max_steps == run.max_steps,
        after.copying == run.copying,
        after.room == run.room,
        after.session == run.session,
        after.sequence == run.sequence,
        after.truncated == run.truncated,
        after.processed == run.processed,
        after.receipt == run.receipt,
        after.complete == run.complete,
        run.answers@.len() + 1 == run.listed@.len() ==> after.step == RepairStep::EndBatch,
        run.answers@.len() + 1 < run.listed@.len() ==> after.step == RepairStep::LookUp && after.cursor
            == cursor,
{
    let more = run.answers@.push(answer);
    assert(more.drop_last() =~= run.answers@);
    assert(after.mutations@ =~= run.mutations@ + staged_for(
        run.listed@[run.answers@.len() as int],
        answer,
    ));
}

/// At every step a page of a repair has staged just what its answers call for, behind what the batch held before; the
/// other objects wait, and each answer goes with its object.
pub proof fn law_repair_page_has_staged_its_answers(run: RepairRun, i: int)
    requires
        run.wf(),
    ensures
        run.answers@.len() <= run.listed@.len(),
        run.mutations@ == run.base@ + staged_all(run.listed@, run.answers@),
        run.step == RepairStep::LookUp || run.step == RepairStep::Fetch || run.step == RepairStep::Store
            ==> run.current is Some && run.current->0 == run.listed@[run.answers@.len() as int]
            && run.waiting@.len() + run.answers@.len() + 1 == run.listed@.len(),
        run.step != RepairStep::LookUp && run.step != RepairStep::Fetch && run.step != RepairStep::Store
            ==> run.waiting@.len() == 0 && run.answers@.len() == run.listed@.len(),
        0 <= i < run.answers@.len() && run.answers@[i] is Removed ==> !run.copying,
        0 <= i < run.answers@.len() && run.answers@[i] is Copied ==> run.copying,
{
    if 0 <= i < run.answers@.len() {
        assert(fits(run.listed@[i], run.answers@[i], run.copying));
    }
}

/// What is staged for a list of answers is what each of them calls for, in order.
pub proof fn law_answers_are_staged_in_order(
    objects: Seq<ObjectSummary>,
    answers: Seq<RepairAnswer>,
    answer: RepairAnswer,
)
    requires
        answers.len() < objects.len(),
    ensures
        staged_all(objects, Seq::empty()).len() == 0,
        staged_all(objects, answers.push(answer)) == staged_all(objects, answers) + staged_for(
            objects[answers.len() as int],
            answer,
        ),
{
    assert(answers.push(answer).drop_last() =~= answers);
}

} // verus!
