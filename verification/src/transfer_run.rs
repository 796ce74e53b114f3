//! One transition of a transfer as it goes from step to step. Whoever runs it does what `next` says and hands
//! back what came of it; a step that failed ends the transfer's page with its error.
use crate::error::{outcome, Error, Fault};
use crate::ids::{CommitGeneration, ObjectVersionId};
use crate::model::{
    LogicalObjectVersionKind, ObjectTransition, ObjectVersion, PayloadBinding, RootManifest,
    TransitionView,
};
use crate::publish::{version_edit, VersionDraft};
use crate::transfer::{
    count_payload, counted_payload, finish_import, import_history_transition, imported_object,
    mapped_new_version, ordinal_too_large, payload_to_copy, rebound_draft, source_delete_key,
    source_version, transition_ordinal, HistoryTransferCursor, HistoryTransferReport,
    ImportedTransition, PendingHistoryTransferCommit,
};
use crate::tree::edits;
use crate::version_key::{version_key, ObjectVersionOrder};
use vstd::prelude::*;

verus! {

/// What the import of a transition waits for.
#[derive(Clone, Copy, Debug, PartialEq, Eq, Structural)]
pub enum ImportStep {
    /// The version that the transition leads to: in the source commit's versions for a deletion, else in its
    /// objects.
    FindSource,
    /// The version that stands for it, if it was met before.
    FindMapping,
    /// The bytes of its payload.
    ReadPayload,
    /// Where they are stored.
    StorePayload,
    /// The name of the version that is to stand for it.
    NameVersion,
    /// The tree of mappings with the new version.
    Remember,
    /// The version that the key held in the rebuilt commit.
    FindPrevious,
    /// The trees of the rebuilt commit with the change.
    Write,
    /// Nothing: the transition is imported.
    Finish,
}

/// The import of a transition under way.
#[derive(Debug)]
pub struct ImportRun {
    pub transition: ObjectTransition,
    pub step: ImportStep,
    /// The key under which the source keeps the version.
    pub key: Vec<u8>,
    pub source: Option<ObjectVersion>,
    /// The payload that is to be copied.
    pub payload: Option<PayloadBinding>,
    pub draft: Option<VersionDraft>,
    /// The version that stands for the source's.
    pub mapped: Option<ObjectVersion>,
    /// Whether it is new.
    pub fresh: bool,
}

/// The size that a version records.
pub open spec fn size_of(version: ObjectVersion) -> u64 {
    match version.body.kind {
        LogicalObjectVersionKind::Live { size, .. } => size,
        LogicalObjectVersionKind::DeleteMarker => 0,
    }
}

fn recorded_size(version: &ObjectVersion) -> (r: u64)
    ensures
        r == size_of(*version),
{
    match &version.body.kind {
        LogicalObjectVersionKind::Live { size, .. } => *size,
        LogicalObjectVersionKind::DeleteMarker => 0,
    }
}

/// What is wrong with the version that a transition was said to lead to.
pub open spec fn source_fault(transition: ObjectTransition, found: Option<ObjectVersion>) -> Option<Fault> {
    match found {
        None => Some(
            crate::error::fault(
                crate::error::ErrorCode::MissingClosure,
                if transition.delete_marker {
                    "source delete version is missing from its commit"
                } else {
                    "source live version is missing from its commit"
                },
            ),
        ),
        Some(version) => if version.id == transition.next {
            None
        } else {
            Some(
                crate::error::fault(
                    crate::error::ErrorCode::CorruptCommit,
                    "source transition and object version disagree",
                ),
            )
        },
    }
}

impl ImportRun {
    /// What is known is what the steps so far have told, and a new version says what the source's says.
    pub open spec fn wf(self) -> bool {
        &&& self.step != ImportStep::FindSource ==> self.source is Some && self.source->0.id
            == self.transition.next
        &&& self.step == ImportStep::ReadPayload || self.step == ImportStep::StorePayload
            ==> self.payload is Some && self.payload == self.source->0.binding
            && self.source->0.body.kind is Live
        &&& self.step == ImportStep::NameVersion ==> self.draft is Some && self.draft->0.body
            == self.source->0.body && (self.draft->0.binding is Some
            <==> self.source->0.body.kind is Live)
        &&& self.step == ImportStep::Remember ==> self.fresh
        &&& self.step == ImportStep::Remember || self.step == ImportStep::FindPrevious || self.step
            == ImportStep::Write || self.step == ImportStep::Finish ==> self.mapped is Some && (
        self.fresh ==> self.mapped->0.body == self.source->0.body && (self.mapped->0.binding is Some
            <==> self.source->0.body.kind is Live))
    }
}

/// Begins to import a transition into a half-built commit. `generation` is that of the source commit.
pub fn begin_import(
    pending: &PendingHistoryTransferCommit,
    generation: CommitGeneration,
    transition: ObjectTransition,
) -> (r: Result<ImportRun, Error>)
    ensures
        match r {
            Err(error) => pending.transitions_applied > u32::MAX && error@ == ordinal_too_large(),
            Ok(run) => {
                &&& pending.transitions_applied <= u32::MAX
                &&& run.wf()
                &&& run.step == ImportStep::FindSource
                &&& run.transition == transition
                &&& run.key@ == if transition.delete_marker {
                    version_key(
                        transition.key@,
                        (ObjectVersionOrder {
                            commit_generation: generation,
                            mutation_ordinal: pending.transitions_applied as u32,
                        }),
                        transition.next,
                    )
                } else {
                    transition.key@
                }
                &&& !run.fresh
            },
        },
{
    if let Err(error) = transition_ordinal(pending) {
        return Err(error);
    }
    let key = if transition.delete_marker {
        match source_delete_key(pending, generation, &transition) {
            Err(error) => {
                return Err(error);
            },
            Ok(key) => key,
        }
    } else {
        crate::bytes::to_vec(&transition.key)
    };
    Ok(
        ImportRun {
            transition,
            step: ImportStep::FindSource,
            key,
            source: None,
            payload: None,
            draft: None,
            mapped: None,
            fresh: false,
        },
    )
}

impl ImportRun {
    /// What the import waits for.
    pub fn next(&self) -> (r: ImportStep)
        ensures
            r == self.step,
    {
        self.step
    }

    /// Takes the version that the transition leads to, as the source holds it.
    pub fn found_source(&mut self, found: Option<ObjectVersion>) -> (r: Result<(), Error>)
        requires
            old(self).wf(),
            old(self).step == ImportStep::FindSource,
        ensures
            match source_fault(old(self).transition, found) {
                Some(error) => r matches Err(e) && e@ == error && *final(self) == *old(self),
                None => r is Ok && final(self).wf() && *final(self) == (ImportRun {
                    step: ImportStep::FindMapping,
                    source: found,
                    ..*old(self)
                }),
            },
    {
        match source_version(&self.transition, found) {
            Err(error) => Err(error),
            Ok(version) => {
                self.source = Some(version);
                self.step = ImportStep::FindMapping;
                Ok(())
            },
        }
    }

    /// Takes the version that stands for the source's. Where there is none yet, the payload is copied first,
    /// unless the source's version is a deletion.
    pub fn found_mapping(&mut self, mapped: Option<ObjectVersion>) -> (r: Result<(), Error>)
        requires
            old(self).wf(),
            old(self).step == ImportStep::FindMapping,
        ensures
            ({
                let source = old(self).source->0;
                match mapped {
                    Some(version) => r is Ok && *final(self) == (ImportRun {
                        step: ImportStep::FindPrevious,
                        mapped: Some(version),
                        fresh: false,
                        ..*old(self)
                    }),
                    None => match (source.body.kind, source.binding) {
                        (LogicalObjectVersionKind::DeleteMarker, _) => r is Ok && *final(self) == (
                        ImportRun {
                            step: ImportStep::NameVersion,
                            draft: Some(VersionDraft { body: source.body, binding: None }),
                            ..*old(self)
                        }),
                        (LogicalObjectVersionKind::Live { .. }, Some(binding)) => r is Ok
                            && *final(self) == (ImportRun {
                            step: ImportStep::ReadPayload,
                            payload: Some(binding),
                            ..*old(self)
                        }),
                        (LogicalObjectVersionKind::Live { .. }, None) => r matches Err(e) && e@
                            == crate::error::fault(
                            crate::error::ErrorCode::CorruptCommit,
                            "source live version has no payload binding",
                        ) && *final(self) == *old(self),
                    },
                }
            }),
            r is Ok ==> final(self).wf(),
    {
        if mapped.is_some() {
            self.mapped = mapped;
            self.fresh = false;
            self.step = ImportStep::FindPrevious;
            return Ok(());
        }
        let (payload, draft) = match &self.source {
            None => (None, None),
            Some(source) => match payload_to_copy(source) {
                Err(error) => {
                    return Err(error);
                },
                Ok(None) => (None, Some(rebound_draft(source, None))),
                Ok(Some(binding)) => (Some(binding), None),
            },
        };
        if payload.is_some() {
            self.payload = payload;
            self.step = ImportStep::ReadPayload;
        } else {
            self.draft = draft;
            self.step = ImportStep::NameVersion;
        }
        Ok(())
    }

    /// Takes note that the payload was read, and counts it. It must be as long as the version says.
    pub fn read(&mut self, report: &mut HistoryTransferReport, bytes: usize) -> (r: Result<(), Error>)
        requires
            old(self).wf(),
            old(self).step == ImportStep::ReadPayload,
        ensures
            ({
                let size = size_of(old(self).source->0);
                if bytes != size {
                    r matches Err(e) && e@ == crate::error::fault(
                        crate::error::ErrorCode::ChecksumMismatch,
                        "source payload length disagrees with its logical version",
                    ) && *final(report) == *old(report) && *final(self) == *old(self)
                } else {
                    match counted_payload(*old(report), size) {
                        Err(error) => r matches Err(e) && e@ == error && *final(report) == *old(
                            report,
                        ) && *final(self) == *old(self),
                        Ok(counted) => r is Ok && *final(report) == counted && final(self).wf()
                            && *final(self) == (ImportRun {
                            step: ImportStep::StorePayload,
                            ..*old(self)
                        }),
                    }
                }
            }),
    {
        let size: u64 = match &self.source {
            Some(source) => recorded_size(source),
            None => 0,
        };
        if let Err(error) = count_payload(report, size, bytes) {
            return Err(error);
        }
        self.step = ImportStep::StorePayload;
        Ok(())
    }

    /// Takes where the payload was stored.
    pub fn stored(&mut self, binding: PayloadBinding)
        requires
            old(self).wf(),
            old(self).step == ImportStep::StorePayload,
        ensures
            final(self).wf(),
            *final(self) == (ImportRun {
                step: ImportStep::NameVersion,
                draft: Some(
                    VersionDraft { body: old(self).source->0.body, binding: Some(binding) },
                ),
                ..*old(self)
            }),
    {
        let draft = match &self.source {
            Some(source) => Some(rebound_draft(source, Some(binding))),
            None => None,
        };
        self.draft = draft;
        self.step = ImportStep::NameVersion;
    }

    /// Takes the name of the version that is to stand for the source's.
    pub fn named(&mut self, id: ObjectVersionId)
        requires
            old(self).wf(),
            old(self).step == ImportStep::NameVersion,
        ensures
            final(self).wf(),
            *final(self) == (ImportRun {
                step: ImportStep::Remember,
                draft: None,
                mapped: Some(
                    ObjectVersion {
                        id,
                        body: old(self).draft->0.body,
                        binding: old(self).draft->0.binding,
                    },
                ),
                fresh: true,
                ..*old(self)
            }),
    {
        if let Some(draft) = self.draft.take() {
            self.mapped = Some(ObjectVersion { id, body: draft.body, binding: draft.binding });
        }
        self.fresh = true;
        self.step = ImportStep::Remember;
    }

    /// Takes the tree of mappings with the new version into the cursor.
    pub fn remembered(&mut self, cursor: &mut HistoryTransferCursor, mappings: RootManifest) -> (r:
        Result<(), Error>)
        requires
            old(self).wf(),
            old(self).step == ImportStep::Remember,
        ensures
            match crate::counters::added(
                old(cursor).report.rebound_versions,
                1,
                "fsck ",
                "history-transfer-version",
            ) {
                Err(error) => r matches Err(e) && e@ == error && *final(cursor) == *old(cursor)
                    && *final(self) == *old(self),
                Ok(rebound_versions) => r is Ok && final(self).wf() && *final(self) == (ImportRun {
                    step: ImportStep::FindPrevious,
                    ..*old(self)
                }) && *final(cursor) == (HistoryTransferCursor {
                    mappings,
                    report: HistoryTransferReport { rebound_versions, ..old(cursor).report },
                    ..*old(cursor)
                }),
            },
    {
        if let Err(error) = mapped_new_version(cursor, mappings) {
            return Err(error);
        }
        self.step = ImportStep::FindPrevious;
        Ok(())
    }

    /// Takes the version that the key held, and says what the transition changes.
    pub fn found_previous(&mut self, previous: Option<ObjectVersionId>) -> (r: ImportedTransition)
        requires
            old(self).wf(),
            old(self).step == ImportStep::FindPrevious,
        ensures
            final(self).wf(),
            *final(self) == (ImportRun { step: ImportStep::Write, ..*old(self) }),
            ({
                let transition = old(self).transition;
                let mapped = old(self).mapped->0;
                &&& edits(seq![r.object]) == seq![
                    imported_object(transition.key@, transition.delete_marker, mapped),
                ]
                &&& edits(seq![r.version]) == seq![version_edit(transition.key@, mapped)]
                &&& r.delta@ == (TransitionView {
                    key: transition.key@,
                    previous,
                    next: mapped.id,
                    delete_marker: transition.delete_marker,
                })
            }),
    {
        self.step = ImportStep::Write;
        import_history_transition(&self.transition, self.mapped.as_ref().unwrap(), previous)
    }

    /// Takes the trees with the change into the half-built commit.
    pub fn written(
        &mut self,
        pending: &mut PendingHistoryTransferCommit,
        objects: RootManifest,
        versions: RootManifest,
        delta: RootManifest,
    ) -> (r: Result<(), Error>)
        requires
            old(self).wf(),
            old(self).step == ImportStep::Write,
        ensures
            if old(pending).transitions_applied == u64::MAX {
                outcome(r) == Err::<(), Fault>(
                    crate::error::fault(
                        crate::error::ErrorCode::EntityTooLarge,
                        "history-transfer transition counter overflow",
                    ),
                ) && *final(pending) == *old(pending) && *final(self) == *old(self)
            } else {
                r is Ok && final(self).wf() && *final(self) == (ImportRun {
                    step: ImportStep::Finish,
                    ..*old(self)
                }) && *final(pending) == (PendingHistoryTransferCommit {
                    objects,
                    versions,
                    delta,
                    transitions_applied: (old(pending).transitions_applied + 1) as u64,
                    ..*old(pending)
                })
            },
    {
        if let Err(error) = finish_import(pending, objects, versions, delta) {
            return Err(error);
        }
        self.step = ImportStep::Finish;
        Ok(())
    }
}

/// A version that is brought over for the first time says what the source's version says, in the same place of
/// its key's history; it has a payload of its own where the source's version is live, and none where that is a
/// deletion.
pub proof fn law_new_version_says_what_its_source_says(run: ImportRun)
    requires
        run.wf(),
        run.step == ImportStep::Finish,
        run.fresh,
    ensures
        run.mapped->0.body == run.source->0.body,
        run.mapped->0.body.order == run.source->0.body.order,
        run.mapped->0.binding is Some <==> run.source->0.body.kind is Live,
{
}

/// A source version is taken exactly where it is found and is the one that the transition leads to.
pub proof fn law_source_is_the_version_of_the_transition(
    transition: ObjectTransition,
    found: Option<ObjectVersion>,
)
    ensures
        source_fault(transition, found) is None <==> found is Some && found->0.id == transition.next,
        found is Some && found->0.body.kind is Live ==> size_of(found->0) == found->0.body.kind->size,
        found is Some && found->0.body.kind is DeleteMarker ==> size_of(found->0) == 0,
{
}

/// At every step an import works on the version that its transition leads to, copies a payload only of a live version
/// and only the one that the version is bound to, and gives a new version all that its source says.
pub proof fn law_import_works_on_its_own_version(run: ImportRun)
    requires
        run.wf(),
    ensures
        run.step != ImportStep::FindSource ==> run.source is Some && run.source->0.id
            == run.transition.next,
        run.step == ImportStep::ReadPayload || run.step == ImportStep::StorePayload ==> run.payload is Some
            && run.payload == run.source->0.binding && run.source->0.body.kind is Live,
        run.step == ImportStep::NameVersion ==> run.draft is Some && run.draft->0.body
            == run.source->0.body && (run.draft->0.binding is Some <==> run.source->0.body.kind is Live),
        run.step == ImportStep::Write || run.step == ImportStep::Finish ==> run.mapped is Some,
        run.step == ImportStep::Finish && run.fresh ==> run.mapped->0.body == run.source->0.body,
{
}

} // verus!
