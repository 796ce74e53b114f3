//! An inventory of payloads: how many objects a snapshot has, how many physical objects hold them, and
//! how much of the shared ones is in use. Each physical object and each range of one is counted once.
use crate::bytes::{be_bytes, has_prefix, to_vec, u64_be};
use crate::counters::{checked_pack_add, counter_overflow};
use crate::error::{fault, outcome, Error, ErrorCode, Fault};
use crate::ids::{nil_bytes, CommitId, OperationId, RepositoryId};
use crate::keys::{extent_key, payload_pack_extent_key, payload_pack_physical_key, physical_key};
use crate::model::{
    is_bound_object, LogicalObjectVersionKind, ObjectVersion, PayloadBinding, PhysicalMetadata,
    RootManifest,
};
use crate::ordered::{find_key, has_key, met, remember, sorted, MetKey};
use crate::repository::Repository;
use crate::text::{valid_branch, validate_branch};
use crate::tree::{applied, applied_one, edits, lemma_edits_push, Edit, Mutation};
use vstd::prelude::*;

verus! {

/// The counts of an inventory.
#[derive(Clone, Copy, Debug, PartialEq, Eq, Structural)]
pub struct PayloadPackStats {
    pub current_objects: u64,
    pub logical_bytes: u64,
    pub direct_objects: u64,
    pub packed_objects: u64,
    pub packed_logical_bytes: u64,
    pub unique_physical_objects: u64,
    pub unique_physical_bytes: u64,
    pub unique_pack_objects: u64,
    pub unique_pack_bytes: u64,
    pub unique_packed_extents: u64,
    pub unique_packed_extent_bytes: u64,
}

/// The share of used bytes in all bytes, in hundredths of a percent: all of it where there are none.
pub open spec fn utilization(used: nat, total: nat) -> nat {
    if total == 0 {
        10_000
    } else {
        let product = if used * 10_000 > u64::MAX {
            u64::MAX as nat
        } else {
            used * 10_000
        };
        let share = product / total;
        if share > 10_000 {
            10_000
        } else {
            share
        }
    }
}

impl PayloadPackStats {
    /// How much of the shared physical objects is in use, in hundredths of a percent.
    pub fn pack_utilization_basis_points(&self) -> (r: u64)
        ensures
            r == utilization(
                self.unique_packed_extent_bytes as nat,
                self.unique_pack_bytes as nat,
            ),
            r <= 10_000,
    {
        if self.unique_pack_bytes == 0 {
            return 10_000;
        }
        let product: u64 = if self.unique_packed_extent_bytes > 0xffff_ffff_ffff_ffff / 10_000 {
            0xffff_ffff_ffff_ffff
        } else {
            self.unique_packed_extent_bytes * 10_000
        };
        let share: u64 = product / self.unique_pack_bytes;
        if share > 10_000 {
            10_000
        } else {
            share
        }
    }

    /// An empty inventory.
    pub fn new() -> (r: Self)
        ensures
            r == nothing_counted(),
    {
        PayloadPackStats {
            current_objects: 0,
            logical_bytes: 0,
            direct_objects: 0,
            packed_objects: 0,
            packed_logical_bytes: 0,
            unique_physical_objects: 0,
            unique_physical_bytes: 0,
            unique_pack_objects: 0,
            unique_pack_bytes: 0,
            unique_packed_extents: 0,
            unique_packed_extent_bytes: 0,
        }
    }
}

/// As long as the product fits, the share is at most all of it exactly when no more is used than there
/// is.
pub proof fn law_utilization_is_full_only_when_all_is_used(used: nat, total: nat)
    requires
        0 < total,
        used * 10_000 <= u64::MAX,
    ensures
        utilization(used, total) == 10_000 <==> used >= total,
        used == 0 ==> utilization(used, total) == 0,
{
    if used >= total {
        assert(used * 10_000 / total >= 10_000) by (nonlinear_arith)
            requires
                used >= total,
                total > 0,
        ;
    } else {
        assert(used * 10_000 / total < 10_000) by (nonlinear_arith)
            requires
                used < total,
                total > 0,
        ;
    }
}

/// An empty inventory.
pub open spec fn nothing_counted() -> PayloadPackStats {
    PayloadPackStats {
        current_objects: 0,
        logical_bytes: 0,
        direct_objects: 0,
        packed_objects: 0,
        packed_logical_bytes: 0,
        unique_physical_objects: 0,
        unique_physical_bytes: 0,
        unique_pack_objects: 0,
        unique_pack_bytes: 0,
        unique_packed_extents: 0,
        unique_packed_extent_bytes: 0,
    }
}

/// Where an inventory stands. The payloads that it has counted are in the tree `seen`.
#[derive(Clone, Debug, PartialEq, Eq)]
pub struct PayloadPackStatsCursor {
    pub repository: RepositoryId,
    pub branch: String,
    pub snapshot: CommitId,
    pub job: OperationId,
    pub after: Option<Vec<u8>>,
    pub seen: RootManifest,
    pub report: PayloadPackStats,
    pub complete: bool,
}

/// What one page of an inventory did.
#[derive(Clone, Debug, PartialEq, Eq)]
pub struct PayloadPackStatsPage {
    pub cursor: PayloadPackStatsCursor,
    pub processed: usize,
    pub complete: bool,
}

/// An entry of the tree of counted payloads.
#[derive(Clone, Copy, Debug, PartialEq, Eq, Structural)]
pub enum SeenPayload {
    Physical { len: u64 },
    Extent,
}

/// The stored form of an entry.
pub fn encode_seen(entry: SeenPayload) -> (r: Vec<u8>)
    ensures
        r@ == match entry {
            SeenPayload::Physical { len } => be_bytes(len as nat, 8),
            SeenPayload::Extent => Seq::empty(),
        },
{
    match entry {
        SeenPayload::Physical { len } => to_vec(&u64_be(len)),
        SeenPayload::Extent => Vec::new(),
    }
}

/// What adding to an inventory gives: the sums, or the error of the first count that is full.
pub open spec fn plus(a: PayloadPackStats, b: PayloadPackStats) -> Result<PayloadPackStats, Fault> {
    if a.current_objects + b.current_objects > u64::MAX {
        Err(counter_overflow("payload-pack ", "current object"))
    } else if a.logical_bytes + b.logical_bytes > u64::MAX {
        Err(counter_overflow("payload-pack ", "logical byte"))
    } else if a.packed_objects + b.packed_objects > u64::MAX {
        Err(counter_overflow("payload-pack ", "packed object"))
    } else if a.packed_logical_bytes + b.packed_logical_bytes > u64::MAX {
        Err(counter_overflow("payload-pack ", "packed logical byte"))
    } else if a.direct_objects + b.direct_objects > u64::MAX {
        Err(counter_overflow("payload-pack ", "direct object"))
    } else if a.unique_physical_objects + b.unique_physical_objects > u64::MAX {
        Err(counter_overflow("payload-pack ", "unique physical object"))
    } else if a.unique_physical_bytes + b.unique_physical_bytes > u64::MAX {
        Err(counter_overflow("payload-pack ", "unique physical byte"))
    } else if a.unique_pack_objects + b.unique_pack_objects > u64::MAX {
        Err(counter_overflow("payload-pack ", "unique pack object"))
    } else if a.unique_pack_bytes + b.unique_pack_bytes > u64::MAX {
        Err(counter_overflow("payload-pack ", "unique pack byte"))
    } else if a.unique_packed_extents + b.unique_packed_extents > u64::MAX {
        Err(counter_overflow("payload-pack ", "unique packed extent"))
    } else if a.unique_packed_extent_bytes + b.unique_packed_extent_bytes > u64::MAX {
        Err(counter_overflow("payload-pack ", "unique packed extent byte"))
    } else {
        Ok(
            PayloadPackStats {
                current_objects: (a.current_objects + b.current_objects) as u64,
                logical_bytes: (a.logical_bytes + b.logical_bytes) as u64,
                direct_objects: (a.direct_objects + b.direct_objects) as u64,
                packed_objects: (a.packed_objects + b.packed_objects) as u64,
                packed_logical_bytes: (a.packed_logical_bytes + b.packed_logical_bytes) as u64,
                unique_physical_objects: (a.unique_physical_objects
                    + b.unique_physical_objects) as u64,
                unique_physical_bytes: (a.unique_physical_bytes + b.unique_physical_bytes) as u64,
                unique_pack_objects: (a.unique_pack_objects + b.unique_pack_objects) as u64,
                unique_pack_bytes: (a.unique_pack_bytes + b.unique_pack_bytes) as u64,
                unique_packed_extents: (a.unique_packed_extents + b.unique_packed_extents) as u64,
                unique_packed_extent_bytes: (a.unique_packed_extent_bytes
                    + b.unique_packed_extent_bytes) as u64,
            },
        )
    }
}

/// Adds to an inventory.
pub fn add_counts(a: &PayloadPackStats, b: &PayloadPackStats) -> (r: Result<PayloadPackStats, Error>)
    ensures
        outcome(r) == plus(*a, *b),
{
    let current_objects: u64 = checked_pack_add(
        a.current_objects,
        b.current_objects,
        "current object",
    )?;
    let logical_bytes: u64 = checked_pack_add(a.logical_bytes, b.logical_bytes, "logical byte")?;
    let packed_objects: u64 = checked_pack_add(a.packed_objects, b.packed_objects, "packed object")?;
    let packed_logical_bytes: u64 = checked_pack_add(
        a.packed_logical_bytes,
        b.packed_logical_bytes,
        "packed logical byte",
    )?;
    let direct_objects: u64 = checked_pack_add(a.direct_objects, b.direct_objects, "direct object")?;
    let unique_physical_objects: u64 = checked_pack_add(
        a.unique_physical_objects,
        b.unique_physical_objects,
        "unique physical object",
    )?;
    let unique_physical_bytes: u64 = checked_pack_add(
        a.unique_physical_bytes,
        b.unique_physical_bytes,
        "unique physical byte",
    )?;
    let unique_pack_objects: u64 = checked_pack_add(
        a.unique_pack_objects,
        b.unique_pack_objects,
        "unique pack object",
    )?;
    let unique_pack_bytes: u64 = checked_pack_add(
        a.unique_pack_bytes,
        b.unique_pack_bytes,
        "unique pack byte",
    )?;
    let unique_packed_extents: u64 = checked_pack_add(
        a.unique_packed_extents,
        b.unique_packed_extents,
        "unique packed extent",
    )?;
    let unique_packed_extent_bytes: u64 = checked_pack_add(
        a.unique_packed_extent_bytes,
        b.unique_packed_extent_bytes,
        "unique packed extent byte",
    )?;
    Ok(
        PayloadPackStats {
            current_objects,
            logical_bytes,
            direct_objects,
            packed_objects,
            packed_logical_bytes,
            unique_physical_objects,
            unique_physical_bytes,
            unique_pack_objects,
            unique_pack_bytes,
            unique_packed_extents,
            unique_packed_extent_bytes,
        },
    )
}

/// What one object adds to an inventory.
pub open spec fn object_counts(size: u64, packed: bool) -> PayloadPackStats {
    let both = PayloadPackStats {
        current_objects: 1,
        logical_bytes: size,
        ..nothing_counted()
    };
    if packed {
        PayloadPackStats { packed_objects: 1, packed_logical_bytes: size, ..both }
    } else {
        PayloadPackStats { direct_objects: 1, ..both }
    }
}

/// What one physical object adds to an inventory.
pub open spec fn physical_counts(len: u64, packed: bool) -> PayloadPackStats {
    let any = PayloadPackStats {
        unique_physical_objects: 1,
        unique_physical_bytes: len,
        ..nothing_counted()
    };
    if packed {
        PayloadPackStats { unique_pack_objects: 1, unique_pack_bytes: len, ..any }
    } else {
        any
    }
}

/// What one range of a physical object adds to an inventory.
pub open spec fn extent_counts(len: u64) -> PayloadPackStats {
    PayloadPackStats {
        unique_packed_extents: 1,
        unique_packed_extent_bytes: len,
        ..nothing_counted()
    }
}

/// What is wrong with the object that is to be counted.
pub open spec fn countable(version: ObjectVersion) -> Result<(u64, PayloadBinding), Fault> {
    match version.body.kind {
        LogicalObjectVersionKind::DeleteMarker => Err(
            fault(ErrorCode::CorruptCommit, "current object tree contains a delete marker"),
        ),
        LogicalObjectVersionKind::Live { size, .. } => match version.binding {
            None => Err(
                fault(ErrorCode::CorruptCommit, "current live object has no payload binding"),
            ),
            Some(binding) => Ok((size, binding)),
        },
    }
}

/// The inventory with a physical object that it did not have.
pub open spec fn with_physical(
    report: PayloadPackStats,
    binding: PayloadBinding,
    metadata: Option<PhysicalMetadata>,
) -> Result<PayloadPackStats, Fault> {
    match metadata {
        None => Err(fault(ErrorCode::MissingClosure, "payload-pack object is missing")),
        Some(stored) => if !is_bound_object(stored, binding) {
            Err(
                fault(
                    ErrorCode::ChecksumMismatch,
                    "payload-pack physical metadata does not match its binding",
                ),
            )
        } else {
            plus(report, physical_counts(stored.len, binding.packed()))
        },
    }
}

/// The inventory with a range that it did not have.
pub open spec fn with_extent(report: PayloadPackStats, start: u64, end: u64) -> Result<
    PayloadPackStats,
    Fault,
> {
    if end < start || end - start + 1 > u64::MAX {
        Err(fault(ErrorCode::CorruptContent, "payload-pack extent is invalid"))
    } else {
        plus(report, extent_counts((end - start + 1) as u64))
    }
}

/// A page of an inventory in the making: at most `max_objects` objects are taken.
#[derive(Debug)]
pub struct PackStatsRun {
    pub max_objects: usize,
    pub cursor: PayloadPackStatsCursor,
    pub mutations: Vec<Mutation<SeenPayload>>,
    pub pending_physical: Vec<MetKey>,
    pub pending_extents: Vec<MetKey>,
    pub processed: usize,
}

/// What a page has so far.
pub struct PackRunView {
    pub report: PayloadPackStats,
    pub changes: Seq<Edit<SeenPayload>>,
    pub physical: Set<Seq<u8>>,
    pub extents: Set<Seq<u8>>,
}

impl View for PackStatsRun {
    type V = PackRunView;

    open spec fn view(&self) -> PackRunView {
        PackRunView {
            report: self.cursor.report,
            changes: edits(self.mutations@),
            physical: met(self.pending_physical@),
            extents: met(self.pending_extents@),
        }
    }
}

/// A page after one more object. `physical_seen` and `extent_seen` say what the tree of counted payloads
/// held before the page.
pub open spec fn inspected(
    run: PackRunView,
    version: ObjectVersion,
    physical_seen: bool,
    metadata: Option<PhysicalMetadata>,
    extent_seen: bool,
) -> Result<PackRunView, Fault> {
    match countable(version) {
        Err(error) => Err(error),
        Ok((size, binding)) => match plus(run.report, object_counts(size, binding.packed())) {
            Err(error) => Err(error),
            Ok(report) => match after_physical(
                PackRunView { report, ..run },
                binding,
                physical_seen,
                metadata,
            ) {
                Err(error) => Err(error),
                Ok(next) => after_extent(next, binding, extent_seen),
            },
        },
    }
}

/// A page once the physical object of a payload was looked at.
pub open spec fn after_physical(
    run: PackRunView,
    binding: PayloadBinding,
    seen: bool,
    metadata: Option<PhysicalMetadata>,
) -> Result<PackRunView, Fault> {
    let key = physical_key(binding);
    let noted = PackRunView { physical: run.physical.insert(key), ..run };
    if run.physical.contains(key) || seen {
        Ok(noted)
    } else {
        match with_physical(run.report, binding, metadata) {
            Err(error) => Err(error),
            Ok(report) => Ok(
                PackRunView {
                    report,
                    changes: run.changes.push(
                        Edit::Upsert { key, val: SeenPayload::Physical { len: metadata->0.len } },
                    ),
                    ..noted
                },
            ),
        }
    }
}

/// A page once the range of a payload was looked at.
pub open spec fn after_extent(run: PackRunView, binding: PayloadBinding, seen: bool) -> Result<
    PackRunView,
    Fault,
> {
    match binding.pack_range {
        None => Ok(run),
        Some((start, end)) => {
            let key = extent_key(binding, start, end);
            let noted = PackRunView { extents: run.extents.insert(key), ..run };
            if run.extents.contains(key) || seen {
                Ok(noted)
            } else {
                match with_extent(run.report, start, end) {
                    Err(error) => Err(error),
                    Ok(report) => Ok(
                        PackRunView {
                            report,
                            changes: run.changes.push(
                                Edit::Upsert { key, val: SeenPayload::Extent },
                            ),
                            ..noted
                        },
                    ),
                }
            }
        },
    }
}

impl PackStatsRun {
    /// Whether the lists of the page are in order, and the page is within its bound.
    pub open spec fn wf(&self) -> bool {
        &&& sorted(self.pending_physical@)
        &&& sorted(self.pending_extents@)
        &&& self.processed <= self.max_objects
    }

    /// Whether the page takes another object.
    pub fn wants_object(&self) -> (r: bool)
        ensures
            r == (self.processed < self.max_objects),
    {
        self.processed < self.max_objects
    }

    /// Whether the provider must be asked about the physical object of a payload.
    pub fn needs_metadata(&self, binding: &PayloadBinding, physical_seen: bool) -> (r: bool)
        requires
            self.wf(),
        ensures
            r == !(self@.physical.contains(physical_key(*binding)) || physical_seen),
    {
        let key = payload_pack_physical_key(binding);
        let known = find_key(&self.pending_physical, &key).is_some();
        proof {
            if known {
                assert(has_key(self.pending_physical@, key@));
            }
        }
        !known && !physical_seen
    }

    /// Takes one more object into the page.
    pub fn inspect(
        self,
        key: Vec<u8>,
        version: &ObjectVersion,
        physical_seen: bool,
        metadata: Option<&PhysicalMetadata>,
        extent_seen: bool,
    ) -> (r: Result<PackStatsRun, Error>)
        requires
            self.wf(),
            self.processed < self.max_objects,
        ensures
            ({
                let stored = match metadata {
                    Some(value) => Some(*value),
                    None => None,
                };
                match inspected(self@, *version, physical_seen, stored, extent_seen) {
                    Err(error) => r matches Err(e) && e@ == error,
                    Ok(next) => {
                        &&& r matches Ok(run)
                        &&& run@ == next
                        &&& run.wf()
                        &&& run.processed == self.processed + 1
                        &&& run.max_objects == self.max_objects
                        &&& run.cursor == (PayloadPackStatsCursor {
                            report: next.report,
                            after: Some(key),
                            ..self.cursor
                        })
                    },
                }
            }),
    {
        let mut run = self;
        let size: u64 = match &version.body.kind {
            LogicalObjectVersionKind::DeleteMarker => {
                return Err(
                    Error::new(
                        ErrorCode::CorruptCommit,
                        "current object tree contains a delete marker",
                    ),
                );
            },
            LogicalObjectVersionKind::Live { size, .. } => *size,
        };
        let binding = match &version.binding {
            None => {
                return Err(
                    Error::new(
                        ErrorCode::CorruptCommit,
                        "current live object has no payload binding",
                    ),
                );
            },
            Some(binding) => binding,
        };
        let mut counts = PayloadPackStats::new();
        counts.current_objects = 1;
        counts.logical_bytes = size;
        if binding.is_packed() {
            counts.packed_objects = 1;
            counts.packed_logical_bytes = size;
        } else {
            counts.direct_objects = 1;
        }
        let mut report = match add_counts(&run.cursor.report, &counts) {
            Err(error) => {
                return Err(error);
            },
            Ok(report) => report,
        };
        let physical = payload_pack_physical_key(binding);
        let fresh = remember(&mut run.pending_physical, &physical);
        if fresh && !physical_seen {
            let stored = match metadata {
                None => {
                    return Err(
                        Error::new(ErrorCode::MissingClosure, "payload-pack object is missing"),
                    );
                },
                Some(stored) => stored,
            };
            if !stored.is_bound(binding) {
                return Err(
                    Error::new(
                        ErrorCode::ChecksumMismatch,
                        "payload-pack physical metadata does not match its binding",
                    ),
                );
            }
            let mut more = PayloadPackStats::new();
            more.unique_physical_objects = 1;
            more.unique_physical_bytes = stored.len;
            if binding.is_packed() {
                more.unique_pack_objects = 1;
                more.unique_pack_bytes = stored.len;
            }
            report = match add_counts(&report, &more) {
                Err(error) => {
                    return Err(error);
                },
                Ok(report) => report,
            };
            let m = Mutation::Upsert {
                key: physical,
                val: SeenPayload::Physical { len: stored.len },
            };
            proof {
                lemma_edits_push(run.mutations@, m);
            }
            run.mutations.push(m);
        }
        if let Some((start, end)) = binding.pack_range {
            let extent = payload_pack_extent_key(binding, start, end);
            let fresh_extent = remember(&mut run.pending_extents, &extent);
            if fresh_extent && !extent_seen {
                if end < start || end - start == 0xffff_ffff_ffff_ffff {
                    return Err(
                        Error::new(ErrorCode::CorruptContent, "payload-pack extent is invalid"),
                    );
                }
                let mut more = PayloadPackStats::new();
                more.unique_packed_extents = 1;
                more.unique_packed_extent_bytes = end - start + 1;
                report = match add_counts(&report, &more) {
                    Err(error) => {
                        return Err(error);
                    },
                    Ok(report) => report,
                };
                let m = Mutation::Upsert { key: extent, val: SeenPayload::Extent };
                proof {
                    lemma_edits_push(run.mutations@, m);
                }
                run.mutations.push(m);
            }
        }
        run.cursor.report = report;
        run.cursor.after = Some(key);
        run.processed = run.processed + 1;
        Ok(run)
    }

    /// Ends the page. One that could have taken more has met the last object.
    pub fn finish(self, seen: RootManifest) -> (r: PayloadPackStatsPage)
        requires
            self.wf(),
        ensures
            r.processed == self.processed,
            r.processed <= self.max_objects,
            r.complete == r.cursor.complete,
            r.cursor == (PayloadPackStatsCursor {
                seen,
                complete: self.cursor.complete || self.processed < self.max_objects,
                after: if self.processed < self.max_objects {
                    None
                } else {
                    self.cursor.after
                },
                ..self.cursor
            }),
    {
        let mut cursor = self.cursor;
        cursor.seen = seen;
        if self.processed < self.max_objects {
            cursor.complete = true;
            cursor.after = None;
        }
        let complete = cursor.complete;
        PayloadPackStatsPage { cursor, processed: self.processed, complete }
    }
}

impl Repository {
    /// The cursor of an inventory that has counted nothing.
    pub fn start_payload_pack_stats(
        &self,
        branch: &str,
        snapshot: CommitId,
        job: OperationId,
        seen: RootManifest,
    ) -> (r: Result<PayloadPackStatsCursor, Error>)
        ensures
            match r {
                Ok(cursor) => {
                    &&& valid_branch(branch@)
                    &&& cursor.repository == self.format.repository_id
                    &&& cursor.branch@ == branch@
                    &&& cursor.snapshot == snapshot
                    &&& cursor.job == job
                    &&& cursor.after is None
                    &&& cursor.seen == seen
                    &&& cursor.report == nothing_counted()
                    &&& !cursor.complete
                },
                Err(error) => !valid_branch(branch@) && error@ == fault(
                    ErrorCode::InvalidBranch,
                    "branch name violates the canonical ref contract",
                ),
            },
    {
        if let Err(error) = validate_branch(branch) {
            return Err(error);
        }
        Ok(
            PayloadPackStatsCursor {
                repository: self.format.repository_id,
                branch: branch.to_owned(),
                snapshot,
                job,
                after: None,
                seen,
                report: PayloadPackStats::new(),
                complete: false,
            },
        )
    }

    /// Begins a page of an inventory. None: the inventory is complete.
    pub fn advance_payload_pack_stats(
        &self,
        cursor: PayloadPackStatsCursor,
        max_objects: usize,
    ) -> (r: Result<Option<PackStatsRun>, Error>)
        ensures
            if !(1 <= max_objects <= 1_000) {
                r matches Err(error) && error@ == fault(
                    ErrorCode::InvalidLimit,
                    "payload-pack stats page size must be between 1 and 1,000",
                )
            } else if cursor.repository != self.format.repository_id || cursor.job@ == nil_bytes()
                || cursor.seen.format_digest != self.format.state_tree_digest {
                r matches Err(error) && error@ == fault(
                    ErrorCode::InvalidContinuationToken,
                    "payload-pack stats cursor is malformed",
                )
            } else if !valid_branch(cursor.branch@) {
                r matches Err(error) && error@ == fault(
                    ErrorCode::InvalidBranch,
                    "branch name violates the canonical ref contract",
                )
            } else if cursor.complete {
                r matches Ok(None)
            } else {
                r matches Ok(Some(run)) && run.cursor == cursor && run.wf() && run.processed == 0
                    && run.max_objects == max_objects && run@ == (PackRunView {
                    report: cursor.report,
                    changes: Seq::empty(),
                    physical: Set::empty(),
                    extents: Set::empty(),
                })
            },
    {
        if max_objects < 1 || max_objects > 1_000 {
            return Err(
                Error::new(
                    ErrorCode::InvalidLimit,
                    "payload-pack stats page size must be between 1 and 1,000",
                ),
            );
        }
        if cursor.repository != self.format.repository_id || cursor.job.is_nil()
            || cursor.seen.format_digest != self.format.state_tree_digest {
            return Err(
                Error::new(
                    ErrorCode::InvalidContinuationToken,
                    "payload-pack stats cursor is malformed",
                ),
            );
        }
        if let Err(error) = validate_branch(&cursor.branch) {
            return Err(error);
        }
        if cursor.complete {
            return Ok(None);
        }
        let run = PackStatsRun {
            max_objects,
            cursor,
            mutations: Vec::new(),
            pending_physical: Vec::new(),
            pending_extents: Vec::new(),
            processed: 0,
        };
        proof {
            assert(run@.changes =~= Seq::<Edit<SeenPayload>>::empty());
            assert(run@.physical =~= Set::<Seq<u8>>::empty());
            assert(run@.extents =~= Set::<Seq<u8>>::empty());
        }
        Ok(Some(run))
    }
}

/// The keys of a tree under which physical objects lie.
pub open spec fn physical_keys(tree: Map<Seq<u8>, SeenPayload>) -> Set<Seq<u8>> {
    tree.dom().filter(|key: Seq<u8>| has_prefix(key, seq![0x70u8, 0x2f]))
}

/// The keys of a tree under which ranges lie.
pub open spec fn extent_keys(tree: Map<Seq<u8>, SeenPayload>) -> Set<Seq<u8>> {
    tree.dom().filter(|key: Seq<u8>| has_prefix(key, seq![0x65u8, 0x2f]))
}

/// Whether a page and the tree that it began with agree: the counts are the numbers of keys in the tree
/// with the page's changes made, and those are the keys that the tree had or the page met.
pub open spec fn counts_each_once(tree: Map<Seq<u8>, SeenPayload>, run: PackRunView) -> bool {
    let now = applied(tree, run.changes);
    &&& now.dom().finite()
    &&& run.report.unique_physical_objects == physical_keys(now).len()
    &&& run.report.unique_packed_extents == extent_keys(now).len()
    &&& forall|key: Seq<u8>|
        has_prefix(key, seq![0x70u8, 0x2f]) ==> (#[trigger] now.contains_key(key) <==> (
        tree.contains_key(key) || run.physical.contains(key)))
    &&& forall|key: Seq<u8>|
        has_prefix(key, seq![0x65u8, 0x2f]) ==> (#[trigger] now.contains_key(key) <==> (
        tree.contains_key(key) || run.extents.contains(key)))
}

proof fn lemma_physical_counted_once(
    tree: Map<Seq<u8>, SeenPayload>,
    run: PackRunView,
    binding: PayloadBinding,
    metadata: Option<PhysicalMetadata>,
)
    requires
        counts_each_once(tree, run),
    ensures
        ({
            let next = after_physical(
                run,
                binding,
                tree.contains_key(physical_key(binding)),
                metadata,
            );
            next is Ok ==> counts_each_once(tree, next->Ok_0) && applied(
                tree,
                next->Ok_0.changes,
            ).contains_key(physical_key(binding))
        }),
{
    let key = physical_key(binding);
    assert(key.subrange(0, 2) =~= seq![0x70u8, 0x2f]);
    assert(key[0] == 0x70 && key[1] == 0x2f);
    let next = after_physical(run, binding, tree.contains_key(key), metadata);
    let now = applied(tree, run.changes);
    assert(has_prefix(key, seq![0x70u8, 0x2f]));
    assert(now.contains_key(key) <==> (tree.contains_key(key) || run.physical.contains(key)));
    if next is Ok && !run.physical.contains(key) && !tree.contains_key(key) {
        let edit: Edit<SeenPayload> = Edit::Upsert {
            key,
            val: SeenPayload::Physical { len: metadata->0.len },
        };
        assert(run.changes.push(edit).drop_last() =~= run.changes);
        let after = applied(tree, run.changes.push(edit));
        assert(after == applied_one(now, edit));
        assert(physical_keys(after) =~= physical_keys(now).insert(key));
        assert(!has_prefix(key, seq![0x65u8, 0x2f])) by {
            if has_prefix(key, seq![0x65u8, 0x2f]) {
                assert(key[0] == seq![0x65u8, 0x2f][0]);
            }
        }
        assert(extent_keys(after) =~= extent_keys(now));
        assert(physical_keys(now).finite());
    }
}

proof fn lemma_extent_counted_once(
    tree: Map<Seq<u8>, SeenPayload>,
    run: PackRunView,
    binding: PayloadBinding,
)
    requires
        counts_each_once(tree, run),
        binding.pack_range is Some,
    ensures
        ({
            let range = binding.pack_range->0;
            let key = extent_key(binding, range.0, range.1);
            let next = after_extent(run, binding, tree.contains_key(key));
            next is Ok ==> counts_each_once(tree, next->Ok_0) && applied(
                tree,
                next->Ok_0.changes,
            ).contains_key(key)
        }),
{
    let range = binding.pack_range->0;
    let key = extent_key(binding, range.0, range.1);
    assert(key.subrange(0, 2) =~= seq![0x65u8, 0x2f]);
    assert(key[0] == 0x65 && key[1] == 0x2f);
    let next = after_extent(run, binding, tree.contains_key(key));
    let now = applied(tree, run.changes);
    assert(has_prefix(key, seq![0x65u8, 0x2f]));
    assert(now.contains_key(key) <==> (tree.contains_key(key) || run.extents.contains(key)));
    if next is Ok && !run.extents.contains(key) && !tree.contains_key(key) {
        let edit: Edit<SeenPayload> = Edit::Upsert { key, val: SeenPayload::Extent };
        assert(run.changes.push(edit).drop_last() =~= run.changes);
        let after = applied(tree, run.changes.push(edit));
        assert(after == applied_one(now, edit));
        assert(extent_keys(after) =~= extent_keys(now).insert(key));
        assert(!has_prefix(key, seq![0x70u8, 0x2f])) by {
            if has_prefix(key, seq![0x70u8, 0x2f]) {
                assert(key[0] == seq![0x70u8, 0x2f][0]);
            }
        }
        assert(physical_keys(after) =~= physical_keys(now));
        assert(extent_keys(now).finite());
    }
}

/// However many objects share a physical object or a range of one, an inventory counts it once: taking one
/// more object in keeps the counts equal to the numbers of different keys.
pub proof fn law_each_payload_is_counted_once(
    tree: Map<Seq<u8>, SeenPayload>,
    run: PackRunView,
    version: ObjectVersion,
    metadata: Option<PhysicalMetadata>,
)
    requires
        counts_each_once(tree, run),
        countable(version) is Ok,
    ensures
        ({
            let binding = version.binding->0;
            let extent_seen = binding.pack_range matches Some(range) && tree.contains_key(
                extent_key(binding, range.0, range.1),
            );
            let next = inspected(
                run,
                version,
                tree.contains_key(physical_key(binding)),
                metadata,
                extent_seen,
            );
            next is Ok ==> counts_each_once(tree, next->Ok_0)
        }),
{
    let binding = version.binding->0;
    let (size, bound) = countable(version)->Ok_0;
    let first = plus(run.report, object_counts(size, binding.packed()));
    if first is Ok {
        let counted = PackRunView { report: first->Ok_0, ..run };
        assert(counts_each_once(tree, counted));
        lemma_physical_counted_once(tree, counted, binding, metadata);
        let second = after_physical(
            counted,
            binding,
            tree.contains_key(physical_key(binding)),
            metadata,
        );
        if second is Ok && binding.pack_range is Some {
            lemma_extent_counted_once(tree, second->Ok_0, binding);
        }
    }
}

/// One object as an inventory meets it: its version, what the tree of counted payloads says of it, and what
/// the provider does.
pub struct Met {
    pub version: ObjectVersion,
    pub physical_seen: bool,
    pub metadata: Option<PhysicalMetadata>,
    pub extent_seen: bool,
}

/// An inventory after some objects, one after the other.
pub open spec fn inspected_all(run: PackRunView, objects: Seq<Met>) -> Result<PackRunView, Fault>
    decreases objects.len(),
{
    if objects.len() == 0 {
        Ok(run)
    } else {
        match inspected_all(run, objects.drop_last()) {
            Err(error) => Err(error),
            Ok(before) => {
                let last = objects.last();
                inspected(
                    before,
                    last.version,
                    last.physical_seen,
                    last.metadata,
                    last.extent_seen,
                )
            },
        }
    }
}

/// The size of a live object.
pub open spec fn size_of(version: ObjectVersion) -> int {
    version.body.kind->size as int
}

/// The sizes of some objects together.
pub open spec fn total_size(objects: Seq<Met>) -> int
    decreases objects.len(),
{
    if objects.len() == 0 {
        0
    } else {
        total_size(objects.drop_last()) + size_of(objects.last().version)
    }
}

/// The objects that share a physical object.
pub open spec fn packed_ones(objects: Seq<Met>) -> Seq<Met>
    decreases objects.len(),
{
    if objects.len() == 0 {
        Seq::empty()
    } else if objects.last().version.binding->0.packed() {
        packed_ones(objects.drop_last()).push(objects.last())
    } else {
        packed_ones(objects.drop_last())
    }
}

/// Whether every object is counted as one of two sorts, and the parts of a report are no more than the whole.
pub open spec fn balanced(report: PayloadPackStats) -> bool {
    &&& report.current_objects == report.direct_objects + report.packed_objects
    &&& report.packed_logical_bytes <= report.logical_bytes
    &&& report.unique_pack_objects <= report.unique_physical_objects
    &&& report.unique_pack_bytes <= report.unique_physical_bytes
}

/// Over all pages an inventory counts every object once, as one of its own or as one that shares its physical
/// object, and its bytes are the sizes of the objects together.
pub proof fn law_inventory_adds_up(run: PackRunView, objects: Seq<Met>)
    requires
        balanced(run.report),
    ensures
        inspected_all(run, objects) matches Ok(end) ==> {
            let packed = packed_ones(objects);
            &&& balanced(end.report)
            &&& end.report.current_objects == run.report.current_objects + objects.len()
            &&& end.report.logical_bytes == run.report.logical_bytes + total_size(objects)
            &&& end.report.packed_objects == run.report.packed_objects + packed.len()
            &&& end.report.packed_logical_bytes == run.report.packed_logical_bytes + total_size(packed)
            &&& end.report.direct_objects == run.report.direct_objects + objects.len() - packed.len()
        },
    decreases objects.len(),
{
    if objects.len() > 0 {
        law_inventory_adds_up(run, objects.drop_last());
        let fewer = packed_ones(objects.drop_last());
        assert(fewer.push(objects.last()).drop_last() =~= fewer);
    }
}

/// An inventory that is cut into pages comes to the same as one that is not.
pub proof fn law_inventory_pages_join(run: PackRunView, first: Seq<Met>, rest: Seq<Met>)
    ensures
        inspected_all(run, first + rest) == match inspected_all(run, first) {
            Ok(middle) => inspected_all(middle, rest),
            Err(error) => Err(error),
        },
    decreases rest.len(),
{
    if rest.len() == 0 {
        assert(first + rest =~= first);
    } else {
        assert((first + rest).drop_last() =~= first + rest.drop_last());
        law_inventory_pages_join(run, first, rest.drop_last());
    }
}

/// A current object counts once, with its size: as packed, with its size again, or as stored on its own.
pub proof fn law_object_counts_packed_or_direct(size: u64, packed: bool)
    ensures
        ({
            let counts = object_counts(size, packed);
            &&& counts.current_objects == 1
            &&& counts.logical_bytes == size
            &&& counts.packed_objects + counts.direct_objects == 1
            &&& counts.packed_objects == 1 <==> packed
            &&& packed ==> counts.packed_logical_bytes == size
            &&& !packed ==> counts.packed_logical_bytes == 0
            &&& counts.unique_physical_objects == 0 && counts.unique_physical_bytes == 0
            &&& counts.unique_pack_objects == 0 && counts.unique_pack_bytes == 0
            &&& counts.unique_packed_extents == 0 && counts.unique_packed_extent_bytes == 0
        }),
{
}

/// A physical object counts once, with its length, and again among the packs where it is one; a part of a pack counts
/// among the parts, with its own length.
pub proof fn law_physical_objects_count_with_their_length(len: u64, packed: bool)
    ensures
        ({
            let counts = physical_counts(len, packed);
            &&& counts.unique_physical_objects == 1
            &&& counts.unique_physical_bytes == len
            &&& packed ==> counts.unique_pack_objects == 1 && counts.unique_pack_bytes == len
            &&& !packed ==> counts.unique_pack_objects == 0 && counts.unique_pack_bytes == 0
            &&& counts.unique_packed_extents == 0 && counts.unique_packed_extent_bytes == 0
            &&& counts.current_objects == 0 && counts.logical_bytes == 0
            &&& counts.packed_objects == 0 && counts.direct_objects == 0
            &&& counts.packed_logical_bytes == 0
        }),
        extent_counts(len).unique_packed_extents == 1,
        extent_counts(len).unique_packed_extent_bytes == len,
        extent_counts(len).unique_physical_objects == 0,
        extent_counts(len).unique_physical_bytes == 0,
        extent_counts(len).unique_pack_objects == 0,
        extent_counts(len).unique_pack_bytes == 0,
        extent_counts(len).current_objects == 0,
        extent_counts(len).logical_bytes == 0,
        extent_counts(len).packed_objects == 0,
        extent_counts(len).direct_objects == 0,
        extent_counts(len).packed_logical_bytes == 0,
{
}

/// Two counts are added count by count, and nothing else comes of it.
pub proof fn law_inventories_add_count_by_count(a: PayloadPackStats, b: PayloadPackStats)
    ensures
        plus(a, b) matches Ok(sum) ==> {
            &&& sum.current_objects == a.current_objects + b.current_objects
            &&& sum.logical_bytes == a.logical_bytes + b.logical_bytes
            &&& sum.direct_objects == a.direct_objects + b.direct_objects
            &&& sum.packed_objects == a.packed_objects + b.packed_objects
            &&& sum.packed_logical_bytes == a.packed_logical_bytes + b.packed_logical_bytes
            &&& sum.unique_physical_objects == a.unique_physical_objects + b.unique_physical_objects
            &&& sum.unique_physical_bytes == a.unique_physical_bytes + b.unique_physical_bytes
            &&& sum.unique_pack_objects == a.unique_pack_objects + b.unique_pack_objects
            &&& sum.unique_pack_bytes == a.unique_pack_bytes + b.unique_pack_bytes
            &&& sum.unique_packed_extents == a.unique_packed_extents + b.unique_packed_extents
            &&& sum.unique_packed_extent_bytes == a.unique_packed_extent_bytes
                + b.unique_packed_extent_bytes
        },
        plus(a, b) is Ok <==> a.current_objects + b.current_objects <= u64::MAX && a.logical_bytes
            + b.logical_bytes <= u64::MAX && a.direct_objects + b.direct_objects <= u64::MAX
            && a.packed_objects + b.packed_objects <= u64::MAX && a.packed_logical_bytes
            + b.packed_logical_bytes <= u64::MAX && a.unique_physical_objects
            + b.unique_physical_objects <= u64::MAX && a.unique_physical_bytes
            + b.unique_physical_bytes <= u64::MAX && a.unique_pack_objects + b.unique_pack_objects
            <= u64::MAX && a.unique_pack_bytes + b.unique_pack_bytes <= u64::MAX
            && a.unique_packed_extents + b.unique_packed_extents <= u64::MAX
            && a.unique_packed_extent_bytes + b.unique_packed_extent_bytes <= u64::MAX,
{
}

/// Only a live version with a payload is counted, by its own size and payload.
pub proof fn law_only_live_payloads_are_counted(version: ObjectVersion)
    ensures
        countable(version) is Ok <==> version.body.kind is Live && version.binding is Some,
        countable(version) matches Ok((size, binding)) ==> size == version.body.kind->size && binding
            == version.binding->0,
{
}

/// A physical object is counted by the length that is stored, and only where what is stored is the bound object; a part
/// of a pack by the number of its places.
pub proof fn law_counted_payload_is_the_bound_one(
    report: PayloadPackStats,
    binding: PayloadBinding,
    metadata: Option<PhysicalMetadata>,
    start: u64,
    end: u64,
)
    ensures
        with_physical(report, binding, metadata) matches Ok(after) ==> {
            &&& metadata is Some
            &&& is_bound_object(metadata->0, binding)
            &&& after.unique_physical_objects == report.unique_physical_objects + 1
            &&& after.unique_physical_bytes == report.unique_physical_bytes + metadata->0.len
            &&& binding.pack_range is Some ==> after.unique_pack_objects == report.unique_pack_objects + 1
                && after.unique_pack_bytes == report.unique_pack_bytes + metadata->0.len
            &&& binding.pack_range is None ==> after.unique_pack_objects == report.unique_pack_objects
                && after.unique_pack_bytes == report.unique_pack_bytes
            &&& after.current_objects == report.current_objects
            &&& after.logical_bytes == report.logical_bytes
        },
        with_extent(report, start, end) matches Ok(after) ==> {
            &&& start <= end
            &&& after.unique_packed_extents == report.unique_packed_extents + 1
            &&& after.unique_packed_extent_bytes == report.unique_packed_extent_bytes + (end - start + 1)
            &&& after.unique_physical_objects == report.unique_physical_objects
        },
        end < start ==> with_extent(report, start, end) is Err,
{
}

/// The share that is used is counted in hundredths of a percent, rounded down, and is never more than all.
pub proof fn law_utilization_is_the_share_that_is_used(used: nat, total: nat)
    requires
        used * 10_000 <= u64::MAX,
    ensures
        total == 0 ==> utilization(used, total) == 10_000,
        utilization(used, total) <= 10_000,
        0 < total && used <= total ==> utilization(used, total) * total <= used * 10_000 < (utilization(
            used,
            total,
        ) + 1) * total,
        nothing_counted().current_objects == 0 && nothing_counted().logical_bytes == 0
            && nothing_counted().direct_objects == 0 && nothing_counted().packed_objects == 0
            && nothing_counted().packed_logical_bytes == 0,
        nothing_counted().unique_physical_objects == 0 && nothing_counted().unique_physical_bytes == 0
            && nothing_counted().unique_pack_objects == 0 && nothing_counted().unique_pack_bytes == 0
            && nothing_counted().unique_packed_extents == 0
            && nothing_counted().unique_packed_extent_bytes == 0,
{
    if 0 < total && used <= total {
        let product = used * 10_000;
        let share = product / total;
        assert(share <= 10_000) by (nonlinear_arith)
            requires
                share == product / total,
                product == used * 10_000,
                used <= total,
                total > 0,
        ;
        assert(share * total <= product < (share + 1) * total) by (nonlinear_arith)
            requires
                share == product / total,
                total > 0,
        ;
    }
}

} // verus!
