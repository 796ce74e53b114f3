//! A page of an integrity check over objects or versions. A payload that several of them share is read and
//! counted once, however the check is cut into pages.
use crate::error::{Error, Fault};
use crate::fsck::{
    entry_counts, finish_fsck_entries, fsck_generations_end, fsck_plus, record_fsck_entry, FsckCursor,
    FsckPage, FsckPhase, FsckReport, PayloadFacts,
};
use crate::keys::{extent_key, payload_pack_extent_key, payload_pack_physical_key, physical_key};
use crate::model::{LogicalObjectVersionKind, ObjectVersion, PayloadBinding, RootManifest};
use crate::ordered::{find_key, has_key, met, remember, sorted, MetKey};
use crate::tree::{applied, applied_one, edits, lemma_edits_push, Edit, Mutation};
use vstd::prelude::*;

verus! {

/// The key under which a payload is remembered: that of its physical object, or of its range of one that it
/// shares.
pub open spec fn payload_key(binding: PayloadBinding) -> Seq<u8> {
    match binding.pack_range {
        Some((start, end)) => extent_key(binding, start, end),
        None => physical_key(binding),
    }
}

/// The key of a version's payload, as far as it has one.
pub open spec fn version_payload(version: ObjectVersion) -> Option<Seq<u8>> {
    if version.body.kind is Live && version.binding is Some {
        Some(payload_key(version.binding->0))
    } else {
        None
    }
}

/// The key under which a version's payload is remembered, as far as it has one.
pub fn fsck_payload_key(version: &ObjectVersion) -> (r: Option<Vec<u8>>)
    ensures
        match r {
            Some(key) => version_payload(*version) == Some(key@),
            None => version_payload(*version) is None,
        },
{
    match &version.body.kind {
        LogicalObjectVersionKind::DeleteMarker => None,
        LogicalObjectVersionKind::Live { .. } => match &version.binding {
            None => None,
            Some(binding) => match binding.pack_range {
                Some((start, end)) => Some(payload_pack_extent_key(binding, start, end)),
                None => Some(payload_pack_physical_key(binding)),
            },
        },
    }
}

/// A page of entries in the making: at most `max_steps` are taken.
#[derive(Debug)]
pub struct FsckRun {
    pub cursor: FsckCursor,
    pub max_steps: usize,
    pub processed: usize,
    /// The payloads that the page has met.
    pub met: Vec<MetKey>,
    /// What is to be remembered of them.
    pub mutations: Vec<Mutation<()>>,
}

/// What a page has so far.
pub struct FsckRunView {
    pub report: FsckReport,
    pub changes: Seq<Edit<()>>,
    pub met: Set<Seq<u8>>,
}

impl View for FsckRun {
    type V = FsckRunView;

    open spec fn view(&self) -> FsckRunView {
        FsckRunView {
            report: self.cursor.report,
            changes: edits(self.mutations@),
            met: met(self.met@),
        }
    }
}

/// Whether a version's payload was neither met on the page nor remembered before it.
pub open spec fn is_fresh(run: FsckRunView, version: ObjectVersion, seen: bool) -> bool {
    version_payload(version) matches Some(key) && !run.met.contains(key) && !seen
}

/// A page after one more entry. `seen` says that its payload was remembered before the page.
pub open spec fn recorded(
    run: FsckRunView,
    current: bool,
    version: ObjectVersion,
    facts: PayloadFacts,
    seen: bool,
) -> Result<FsckRunView, Fault> {
    let fresh = is_fresh(run, version, seen);
    match fsck_plus(run.report, entry_counts(current, version, facts, fresh)) {
        Err(error) => Err(error),
        Ok(report) => Ok(
            match version_payload(version) {
                None => FsckRunView { report, ..run },
                Some(key) => FsckRunView {
                    report,
                    changes: if fresh {
                        run.changes.push(Edit::Upsert { key, val: () })
                    } else {
                        run.changes
                    },
                    met: run.met.insert(key),
                },
            },
        ),
    }
}

impl FsckRun {
    /// Whether the page is within its bound, and its list in order.
    pub open spec fn wf(&self) -> bool {
        self.processed <= self.max_steps && sorted(self.met@)
    }

    /// Begins a page.
    pub fn new(cursor: FsckCursor, max_steps: usize) -> (r: Self)
        ensures
            r.wf(),
            r.cursor == cursor,
            r.max_steps == max_steps,
            r.processed == 0,
            r@ == (FsckRunView { report: cursor.report, changes: Seq::empty(), met: Set::empty() }),
    {
        let r = FsckRun {
            cursor,
            max_steps,
            processed: 0,
            met: Vec::new(),
            mutations: Vec::new(),
        };
        assert(r@.changes =~= Seq::<Edit<()>>::empty());
        assert(r@.met =~= Set::<Seq<u8>>::empty());
        r
    }

    /// Whether the page takes another entry.
    pub fn wants_entry(&self) -> (r: bool)
        ensures
            r == (self.processed < self.max_steps),
    {
        self.processed < self.max_steps
    }

    /// Whether a deep check must read the payload of a version: it was not read before.
    pub fn needs_read(&self, version: &ObjectVersion, seen: bool) -> (r: bool)
        requires
            self.wf(),
        ensures
            r == is_fresh(self@, *version, seen),
    {
        match fsck_payload_key(version) {
            None => false,
            Some(key) => {
                let known = find_key(&self.met, &key).is_some();
                proof {
                    if known {
                        assert(has_key(self.met@, key@));
                    }
                }
                !known && !seen
            },
        }
    }

    /// Takes one checked entry into the page.
    pub fn record(self, key: Vec<u8>, version: &ObjectVersion, facts: PayloadFacts, seen: bool) -> (r:
        Result<FsckRun, Error>)
        requires
            self.wf(),
            self.processed < self.max_steps,
        ensures
            match recorded(
                self@,
                self.cursor.phase == FsckPhase::VerifyObjects,
                *version,
                facts,
                seen,
            ) {
                Err(error) => r matches Err(e) && e@ == error,
                Ok(next) => {
                    &&& r matches Ok(run)
                    &&& run@ == next
                    &&& run.wf()
                    &&& run.processed == self.processed + 1
                    &&& run.max_steps == self.max_steps
                    &&& run.cursor == (FsckCursor {
                        report: next.report,
                        after: Some(key),
                        ..self.cursor
                    })
                },
            },
    {
        let mut run = self;
        let ghost before = run@;
        let fresh = run.needs_read(version, seen);
        let cursor = match record_fsck_entry(run.cursor, key, version, facts, fresh) {
            Err(error) => {
                return Err(error);
            },
            Ok(cursor) => cursor,
        };
        run.cursor = cursor;
        if let Some(payload) = fsck_payload_key(version) {
            remember(&mut run.met, &payload);
            if fresh {
                let m = Mutation::Upsert { key: payload, val: () };
                proof {
                    lemma_edits_push(run.mutations@, m);
                }
                run.mutations.push(m);
            }
        }
        run.processed = run.processed + 1;
        Ok(run)
    }

    /// Ends the page, with the tree of payloads as its changes leave it.
    pub fn finish(self, seen: RootManifest) -> (r: Result<FsckPage, Error>)
        requires
            self.wf(),
        ensures
            match r {
                Err(error) => self.cursor.checkpoint_generation == u64::MAX && error@
                    == fsck_generations_end(),
                Ok(page) => {
                    &&& self.cursor.checkpoint_generation < u64::MAX
                    &&& page.processed == self.processed
                    &&& page.processed <= self.max_steps
                    &&& page.complete == (page.cursor.phase == FsckPhase::Complete)
                    &&& page.cursor == (FsckCursor {
                        phase: if self.processed == self.max_steps {
                            self.cursor.phase
                        } else if self.cursor.phase == FsckPhase::VerifyObjects {
                            FsckPhase::VerifyVersions
                        } else {
                            FsckPhase::Complete
                        },
                        after: if self.processed < self.max_steps {
                            None
                        } else {
                            self.cursor.after
                        },
                        checkpoint_generation: (self.cursor.checkpoint_generation + 1) as u64,
                        seen,
                        ..self.cursor
                    })
                },
            },
    {
        let mut cursor = self.cursor;
        cursor.seen = seen;
        finish_fsck_entries(cursor, self.processed, self.max_steps)
    }
}

/// Whether a page and the tree that it began with agree: as many payloads are counted as the tree remembers
/// with the page's changes made, and those are the ones that it remembered or the page met.
pub open spec fn counts_payloads(tree: Map<Seq<u8>, ()>, run: FsckRunView) -> bool {
    let now = applied(tree, run.changes);
    &&& now.dom().finite()
    &&& run.report.physical_payloads_verified == now.dom().len()
    &&& forall|key: Seq<u8>| #[trigger]
        now.contains_key(key) <==> tree.contains_key(key) || run.met.contains(key)
}

/// However many objects and versions share a payload, a check counts it once: taking one more entry in keeps
/// the count equal to the number of different payloads, and a payload that is known adds nothing to what was
/// counted or read.
pub proof fn law_each_payload_is_checked_once(
    tree: Map<Seq<u8>, ()>,
    run: FsckRunView,
    current: bool,
    version: ObjectVersion,
    facts: PayloadFacts,
)
    requires
        counts_payloads(tree, run),
        version_payload(version) is Some ==> facts.payloads == 1,
    ensures
        ({
            let seen = version_payload(version) matches Some(key) && tree.contains_key(key);
            recorded(run, current, version, facts, seen) matches Ok(next) ==> {
                &&& counts_payloads(tree, next)
                &&& version_payload(version) matches Some(key) ==> applied(
                    tree,
                    next.changes,
                ).contains_key(key)
                &&& !is_fresh(run, version, seen) ==> next.report.physical_payloads_verified
                    == run.report.physical_payloads_verified
                    && next.report.deep_physical_bytes_read == run.report.deep_physical_bytes_read
                &&& is_fresh(run, version, seen) ==> next.report.physical_payloads_verified
                    == run.report.physical_payloads_verified + 1
                    && next.report.deep_physical_bytes_read
                    == run.report.deep_physical_bytes_read + facts.deep_bytes
            }
        }),
{
    let seen = version_payload(version) matches Some(key) && tree.contains_key(key);
    let result = recorded(run, current, version, facts, seen);
    if result is Ok && version_payload(version) is Some {
        let key = version_payload(version)->0;
        let now = applied(tree, run.changes);
        let next = result->Ok_0;
        assert(now.contains_key(key) <==> tree.contains_key(key) || run.met.contains(key));
        if is_fresh(run, version, seen) {
            let edit: Edit<()> = Edit::Upsert { key, val: () };
            assert(run.changes.push(edit).drop_last() =~= run.changes);
            let after = applied(tree, next.changes);
            assert(after == applied_one(now, edit));
            assert(after.dom() =~= now.dom().insert(key));
        }
    }
}

/// When a page ends, its changes become part of the tree, and the next page begins with nothing met: the count
/// still is the number of payloads that the tree remembers.
pub proof fn law_next_page_knows_the_payloads(tree: Map<Seq<u8>, ()>, run: FsckRunView)
    requires
        counts_payloads(tree, run),
    ensures
        counts_payloads(
            applied(tree, run.changes),
            (FsckRunView { report: run.report, changes: Seq::empty(), met: Set::empty() }),
        ),
{
    let now = applied(tree, run.changes);
    assert(applied(now, Seq::<Edit<()>>::empty()) == now);
}

/// A payload is checked afresh exactly where nothing has met it yet, on this page or an earlier one; a payload in a pack
/// is told apart from the others in it. What has no payload is never fresh.
pub proof fn law_payload_is_fresh_when_first_met(run: FsckRunView, version: ObjectVersion, seen: bool)
    ensures
        !(version.body.kind is Live) || version.binding is None ==> !is_fresh(run, version, seen)
            && version_payload(version) is None,
        version.body.kind is Live && version.binding is Some ==> {
            let binding = version.binding->0;
            let key = match binding.pack_range {
                Some((start, end)) => extent_key(binding, start, end),
                None => physical_key(binding),
            };
            &&& version_payload(version) == Some(key)
            &&& is_fresh(run, version, seen) <==> !run.met.contains(key) && !seen
        },
{
}

/// Recording an entry remembers its payload, and writes it down exactly where it is fresh; nothing that was written or
/// met before is lost.
pub proof fn law_recorded_payload_is_remembered(
    run: FsckRunView,
    current: bool,
    version: ObjectVersion,
    facts: PayloadFacts,
    seen: bool,
)
    ensures
        recorded(run, current, version, facts, seen) matches Ok(after) ==> {
            &&& run.met.subset_of(after.met)
            &&& version_payload(version) is Some ==> after.met.contains(version_payload(version)->0)
            &&& version_payload(version) is None ==> after.met == run.met
            &&& is_fresh(run, version, seen) ==> after.changes == run.changes.push(
                Edit::Upsert { key: version_payload(version)->0, val: () },
            )
            &&& !is_fresh(run, version, seen) ==> after.changes == run.changes
            &&& after.report.current_objects + after.report.logical_versions
                == run.report.current_objects + run.report.logical_versions + 1
        },
{
}

} // verus!
