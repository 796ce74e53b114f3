//! Tree nodes as the repository stores them: many in one pack beside a commit, or each on its own, with a
//! cache in front. A node is named by the digest of its bytes, and no byte is handed out unchecked.
use crate::bytes::{append_slice, bytes_eq};
use crate::caches::BoundedNodeLocations;
use crate::error::{fault, outcome, Error, ErrorCode, Fault};
use crate::ids::{Cid, CommitId, TreeFormatDigest};
use crate::keys::array_of_32;
use crate::model::DeleteOutcome;
use crate::outside::{sha256, sha256_of};
use crate::paths::{node_key_length_error, node_key_length_fault};
use vstd::prelude::*;

verus! {

/// Counts of what the cache and the store did.
#[derive(Clone, Copy, Debug, PartialEq, Eq, Structural)]
pub struct NodeCacheSnapshot {
    pub hits: u64,
    pub misses: u64,
    pub insertions: u64,
    pub errors: u64,
    pub corruptions: u64,
    pub coalesced_waits: u64,
    pub ranged_fetches: u64,
    pub fetched_bytes: u64,
    pub avoided_bytes: u64,
    pub admission_rejections: u64,
    pub node_requests: u64,
    pub requested_bytes: u64,
    pub prefetch_batches: u64,
    pub prefetched_nodes: u64,
    pub pinned_nodes: u64,
    pub pinned_bytes: u64,
}

/// What populating the cache from a snapshot did.
#[derive(Clone, Copy, Debug)]
pub struct NodeCachePrewarmReport {
    pub snapshot: CommitId,
    pub object_nodes: usize,
    pub version_nodes: usize,
    pub before: NodeCacheSnapshot,
    pub after: NodeCacheSnapshot,
}

/// The sum of two counts, or the highest count.
pub open spec fn capped_sum(a: u64, b: u64) -> u64 {
    if a + b > u64::MAX {
        u64::MAX
    } else {
        (a + b) as u64
    }
}

/// The difference of two counts, or zero.
pub open spec fn floored_difference(a: u64, b: u64) -> u64 {
    if a < b {
        0
    } else {
        (a - b) as u64
    }
}

/// A count that wraps around.
pub open spec fn wrapped_sum(a: u64, b: u64) -> u64 {
    if a + b > u64::MAX {
        (a + b - 0x1_0000_0000_0000_0000) as u64
    } else {
        (a + b) as u64
    }
}

fn counted(a: u64, b: u64) -> (r: u64)
    ensures
        r == wrapped_sum(a, b),
{
    a.wrapping_add(b)
}

impl NodeCacheSnapshot {
    /// Applies a function to each pair of counts.
    pub open spec fn zip(self, other: Self, f: spec_fn(u64, u64) -> u64) -> Self {
        NodeCacheSnapshot {
            hits: f(self.hits, other.hits),
            misses: f(self.misses, other.misses),
            insertions: f(self.insertions, other.insertions),
            errors: f(self.errors, other.errors),
            corruptions: f(self.corruptions, other.corruptions),
            coalesced_waits: f(self.coalesced_waits, other.coalesced_waits),
            ranged_fetches: f(self.ranged_fetches, other.ranged_fetches),
            fetched_bytes: f(self.fetched_bytes, other.fetched_bytes),
            avoided_bytes: f(self.avoided_bytes, other.avoided_bytes),
            admission_rejections: f(self.admission_rejections, other.admission_rejections),
            node_requests: f(self.node_requests, other.node_requests),
            requested_bytes: f(self.requested_bytes, other.requested_bytes),
            prefetch_batches: f(self.prefetch_batches, other.prefetch_batches),
            prefetched_nodes: f(self.prefetched_nodes, other.prefetched_nodes),
            pinned_nodes: f(self.pinned_nodes, other.pinned_nodes),
            pinned_bytes: f(self.pinned_bytes, other.pinned_bytes),
        }
    }

    /// Nothing counted.
    pub fn new() -> (r: Self)
        ensures
            r.zip(r, |a: u64, b: u64| capped_sum(a, b)) == r,
            r.hits == 0 && r.misses == 0 && r.insertions == 0 && r.errors == 0,
            r.corruptions == 0 && r.coalesced_waits == 0 && r.ranged_fetches == 0,
            r.fetched_bytes == 0 && r.avoided_bytes == 0 && r.admission_rejections == 0,
            r.node_requests == 0 && r.requested_bytes == 0 && r.prefetch_batches == 0,
            r.prefetched_nodes == 0 && r.pinned_nodes == 0 && r.pinned_bytes == 0,
    {
        NodeCacheSnapshot {
            hits: 0,
            misses: 0,
            insertions: 0,
            errors: 0,
            corruptions: 0,
            coalesced_waits: 0,
            ranged_fetches: 0,
            fetched_bytes: 0,
            avoided_bytes: 0,
            admission_rejections: 0,
            node_requests: 0,
            requested_bytes: 0,
            prefetch_batches: 0,
            prefetched_nodes: 0,
            pinned_nodes: 0,
            pinned_bytes: 0,
        }
    }

    /// The counts of two stores together. No count exceeds the highest there is.
    pub fn saturating_add(self, other: Self) -> (r: Self)
        ensures
            r == self.zip(other, |a: u64, b: u64| capped_sum(a, b)),
    {
        NodeCacheSnapshot {
            hits: self.hits.saturating_add(other.hits),
            misses: self.misses.saturating_add(other.misses),
            insertions: self.insertions.saturating_add(other.insertions),
            errors: self.errors.saturating_add(other.errors),
            corruptions: self.corruptions.saturating_add(other.corruptions),
            coalesced_waits: self.coalesced_waits.saturating_add(other.coalesced_waits),
            ranged_fetches: self.ranged_fetches.saturating_add(other.ranged_fetches),
            fetched_bytes: self.fetched_bytes.saturating_add(other.fetched_bytes),
            avoided_bytes: self.avoided_bytes.saturating_add(other.avoided_bytes),
            admission_rejections: self.admission_rejections.saturating_add(
                other.admission_rejections,
            ),
            node_requests: self.node_requests.saturating_add(other.node_requests),
            requested_bytes: self.requested_bytes.saturating_add(other.requested_bytes),
            prefetch_batches: self.prefetch_batches.saturating_add(other.prefetch_batches),
            prefetched_nodes: self.prefetched_nodes.saturating_add(other.prefetched_nodes),
            pinned_nodes: self.pinned_nodes.saturating_add(other.pinned_nodes),
            pinned_bytes: self.pinned_bytes.saturating_add(other.pinned_bytes),
        }
    }

    /// What was counted since an earlier snapshot. No count falls below zero.
    pub fn delta_since(self, earlier: Self) -> (r: Self)
        ensures
            r == self.zip(earlier, |a: u64, b: u64| floored_difference(a, b)),
    {
        NodeCacheSnapshot {
            hits: self.hits.saturating_sub(earlier.hits),
            misses: self.misses.saturating_sub(earlier.misses),
            insertions: self.insertions.saturating_sub(earlier.insertions),
            errors: self.errors.saturating_sub(earlier.errors),
            corruptions: self.corruptions.saturating_sub(earlier.corruptions),
            coalesced_waits: self.coalesced_waits.saturating_sub(earlier.coalesced_waits),
            ranged_fetches: self.ranged_fetches.saturating_sub(earlier.ranged_fetches),
            fetched_bytes: self.fetched_bytes.saturating_sub(earlier.fetched_bytes),
            avoided_bytes: self.avoided_bytes.saturating_sub(earlier.avoided_bytes),
            admission_rejections: self.admission_rejections.saturating_sub(
                earlier.admission_rejections,
            ),
            node_requests: self.node_requests.saturating_sub(earlier.node_requests),
            requested_bytes: self.requested_bytes.saturating_sub(earlier.requested_bytes),
            prefetch_batches: self.prefetch_batches.saturating_sub(earlier.prefetch_batches),
            prefetched_nodes: self.prefetched_nodes.saturating_sub(earlier.prefetched_nodes),
            pinned_nodes: self.pinned_nodes.saturating_sub(earlier.pinned_nodes),
            pinned_bytes: self.pinned_bytes.saturating_sub(earlier.pinned_bytes),
        }
    }

    /// Counts a node that was handed out.
    pub fn record_returned_node(&mut self, bytes: usize)
        ensures
            *final(self) == (NodeCacheSnapshot {
                node_requests: wrapped_sum(old(self).node_requests, 1),
                requested_bytes: wrapped_sum(old(self).requested_bytes, bytes as u64),
                ..*old(self)
            }),
    {
        self.node_requests = counted(self.node_requests, 1);
        self.requested_bytes = counted(self.requested_bytes, bytes as u64);
    }

    /// Counts nodes that were asked for together. One alone is no batch.
    pub fn record_prefetch(&mut self, nodes: usize)
        ensures
            *final(self) == if nodes > 1 {
                NodeCacheSnapshot {
                    prefetch_batches: wrapped_sum(old(self).prefetch_batches, 1),
                    prefetched_nodes: wrapped_sum(old(self).prefetched_nodes, nodes as u64),
                    ..*old(self)
                }
            } else {
                *old(self)
            },
    {
        if nodes > 1 {
            self.prefetch_batches = counted(self.prefetch_batches, 1);
            self.prefetched_nodes = counted(self.prefetched_nodes, nodes as u64);
        }
    }

    /// Counts a range that was read.
    pub fn record_fetch(&mut self, bytes: usize)
        ensures
            *final(self) == (NodeCacheSnapshot {
                ranged_fetches: wrapped_sum(old(self).ranged_fetches, 1),
                fetched_bytes: wrapped_sum(old(self).fetched_bytes, bytes as u64),
                ..*old(self)
            }),
    {
        self.ranged_fetches = counted(self.ranged_fetches, 1);
        self.fetched_bytes = counted(self.fetched_bytes, bytes as u64);
    }
}

/// What was counted between two snapshots, added to the earlier one, gives the later one, as long as no
/// count went down.
pub proof fn law_delta_adds_up(later: NodeCacheSnapshot, earlier: NodeCacheSnapshot)
    requires
        earlier.hits <= later.hits,
        earlier.misses <= later.misses,
        earlier.insertions <= later.insertions,
        earlier.errors <= later.errors,
        earlier.corruptions <= later.corruptions,
        earlier.coalesced_waits <= later.coalesced_waits,
        earlier.ranged_fetches <= later.ranged_fetches,
        earlier.fetched_bytes <= later.fetched_bytes,
        earlier.avoided_bytes <= later.avoided_bytes,
        earlier.admission_rejections <= later.admission_rejections,
        earlier.node_requests <= later.node_requests,
        earlier.requested_bytes <= later.requested_bytes,
        earlier.prefetch_batches <= later.prefetch_batches,
        earlier.prefetched_nodes <= later.prefetched_nodes,
        earlier.pinned_nodes <= later.pinned_nodes,
        earlier.pinned_bytes <= later.pinned_bytes,
    ensures
        earlier.zip(
            later.zip(earlier, |a: u64, b: u64| floored_difference(a, b)),
            |a: u64, b: u64| capped_sum(a, b),
        ) == later,
{
}

/// Whether bytes are the node that a name names.
pub open spec fn is_node(cid: Cid, bytes: Seq<u8>) -> bool {
    sha256_of(bytes) == cid@
}

fn checks_out(cid: &Cid, bytes: &[u8]) -> (r: bool)
    ensures
        r == is_node(*cid, bytes@),
{
    bytes_eq(&sha256(bytes), cid.as_bytes())
}

/// What a lookup in the cache came to.
#[derive(Debug)]
pub enum CacheLookup {
    /// The node is there.
    Hit(Vec<u8>),
    /// Something else is there: it must be removed.
    Corrupt,
    /// Nothing is there.
    Miss,
    /// The cache failed.
    Failed,
}

/// Looks at what the cache gave for a node, and counts it. Bytes that are not the node are never handed
/// out.
pub fn cached_node(
    counts: &mut NodeCacheSnapshot,
    cid: &Cid,
    found: Result<Option<Vec<u8>>, Error>,
) -> (r: CacheLookup)
    ensures
        match found {
            Ok(Some(bytes)) => if is_node(*cid, bytes@) {
                r == CacheLookup::Hit(bytes) && *final(counts) == (NodeCacheSnapshot {
                    hits: wrapped_sum(old(counts).hits, 1),
                    avoided_bytes: wrapped_sum(old(counts).avoided_bytes, bytes@.len() as u64),
                    ..*old(counts)
                })
            } else {
                r == CacheLookup::Corrupt && *final(counts) == (NodeCacheSnapshot {
                    corruptions: wrapped_sum(old(counts).corruptions, 1),
                    misses: wrapped_sum(old(counts).misses, 1),
                    ..*old(counts)
                })
            },
            Ok(None) => r == CacheLookup::Miss && *final(counts) == (NodeCacheSnapshot {
                misses: wrapped_sum(old(counts).misses, 1),
                ..*old(counts)
            }),
            Err(_) => r == CacheLookup::Failed && *final(counts) == (NodeCacheSnapshot {
                errors: wrapped_sum(old(counts).errors, 1),
                misses: wrapped_sum(old(counts).misses, 1),
                ..*old(counts)
            }),
        },
{
    match found {
        Ok(Some(bytes)) => {
            if checks_out(cid, &bytes) {
                counts.hits = counted(counts.hits, 1);
                counts.avoided_bytes = counted(counts.avoided_bytes, bytes.len() as u64);
                CacheLookup::Hit(bytes)
            } else {
                counts.corruptions = counted(counts.corruptions, 1);
                counts.misses = counted(counts.misses, 1);
                CacheLookup::Corrupt
            }
        },
        Ok(None) => {
            counts.misses = counted(counts.misses, 1);
            CacheLookup::Miss
        },
        Err(_) => {
            counts.errors = counted(counts.errors, 1);
            counts.misses = counted(counts.misses, 1);
            CacheLookup::Failed
        },
    }
}

/// What becomes of a node that is offered to the cache.
#[derive(Clone, Copy, Debug, PartialEq, Eq, Structural)]
pub enum Admission {
    /// It is handed to the cache.
    Insert,
    /// It is not the node that it is named.
    Corrupt,
    /// The cache does not want it.
    Rejected,
}

/// Decides what becomes of a node that is offered to the cache, and counts it.
pub fn admit_node(counts: &mut NodeCacheSnapshot, cid: &Cid, bytes: &[u8], wanted: bool) -> (r: Admission)
    ensures
        if !is_node(*cid, bytes@) {
            r == Admission::Corrupt && *final(counts) == (NodeCacheSnapshot {
                corruptions: wrapped_sum(old(counts).corruptions, 1),
                ..*old(counts)
            })
        } else if !wanted {
            r == Admission::Rejected && *final(counts) == (NodeCacheSnapshot {
                admission_rejections: wrapped_sum(old(counts).admission_rejections, 1),
                ..*old(counts)
            })
        } else {
            r == Admission::Insert && *final(counts) == *old(counts)
        },
{
    if !checks_out(cid, bytes) {
        counts.corruptions = counted(counts.corruptions, 1);
        return Admission::Corrupt;
    }
    if !wanted {
        counts.admission_rejections = counted(counts.admission_rejections, 1);
        return Admission::Rejected;
    }
    Admission::Insert
}

/// Counts what inserting into the cache came to.
pub fn inserted_node(counts: &mut NodeCacheSnapshot, stored: bool)
    ensures
        *final(counts) == if stored {
            NodeCacheSnapshot {
                insertions: wrapped_sum(old(counts).insertions, 1),
                ..*old(counts)
            }
        } else {
            NodeCacheSnapshot { errors: wrapped_sum(old(counts).errors, 1), ..*old(counts) }
        },
{
    if stored {
        counts.insertions = counted(counts.insertions, 1);
    } else {
        counts.errors = counted(counts.errors, 1);
    }
}

/// What becomes of a node that is to be pinned.
#[derive(Clone, Copy, Debug, PartialEq, Eq, Structural)]
pub enum PinStep {
    /// It is handed to the cache to pin.
    Pin,
    /// The cache does not want it.
    Skip,
}

/// Decides what becomes of a node that is to be pinned, and counts it.
pub fn pin_node(counts: &mut NodeCacheSnapshot, cid: &Cid, bytes: &[u8], wanted: bool) -> (r: Result<
    PinStep,
    Error,
>)
    ensures
        if !is_node(*cid, bytes@) {
            r matches Err(error) && error@ == fault(
                ErrorCode::CorruptNode,
                "cannot pin a node that fails CID verification",
            ) && *final(counts) == *old(counts)
        } else if !wanted {
            r == Ok::<PinStep, Error>(PinStep::Skip) && *final(counts) == (NodeCacheSnapshot {
                admission_rejections: wrapped_sum(old(counts).admission_rejections, 1),
                ..*old(counts)
            })
        } else {
            r == Ok::<PinStep, Error>(PinStep::Pin) && *final(counts) == *old(counts)
        },
{
    if !checks_out(cid, bytes) {
        return Err(
            Error::new(
                ErrorCode::CorruptNode,
                "cannot pin a node that fails CID verification",
            ),
        );
    }
    if !wanted {
        counts.admission_rejections = counted(counts.admission_rejections, 1);
        return Ok(PinStep::Skip);
    }
    Ok(PinStep::Pin)
}

/// Whether a list has a node.
pub open spec fn lists(list: Seq<Cid>, cid: Cid) -> bool {
    exists|i: int| 0 <= i < list.len() && #[trigger] list[i] == cid
}

/// Keeps track of a node that was pinned, where the cache does not do so itself: each node once, and no
/// more than `most`.
pub fn track_pin(counts: &mut NodeCacheSnapshot, pinned: &mut Vec<Cid>, cid: Cid, bytes: usize, most: usize)
    ensures
        if lists(old(pinned)@, cid) || old(pinned)@.len() >= most {
            final(pinned)@ == old(pinned)@ && *final(counts) == *old(counts)
        } else {
            final(pinned)@ == old(pinned)@.push(cid) && *final(counts) == (NodeCacheSnapshot {
                pinned_nodes: final(pinned)@.len() as u64,
                pinned_bytes: wrapped_sum(old(counts).pinned_bytes, bytes as u64),
                ..*old(counts)
            })
        },
{
    let mut i: usize = 0;
    while i < pinned.len()
        invariant
            i <= pinned@.len(),
            pinned@ == old(pinned)@,
            *counts == *old(counts),
            forall|j: int| 0 <= j < i ==> #[trigger] pinned@[j] != cid,
        decreases pinned.len() - i,
    {
        if pinned[i] == cid {
            assert(pinned@[i as int] == cid);
            return;
        }
        i += 1;
    }
    if pinned.len() < most {
        pinned.push(cid);
        counts.pinned_nodes = pinned.len() as u64;
        counts.pinned_bytes = counted(counts.pinned_bytes, bytes as u64);
    }
}

/// A node of a pack.
#[derive(Clone, Copy, Debug)]
pub struct NodePackEntry {
    pub cid: Cid,
    pub offset: u64,
    pub len: u32,
    pub sha256: [u8; 32],
}

/// Something else that a pack carries.
#[derive(Clone, Copy, Debug)]
pub struct NodePackAttachment<K> {
    pub kind: K,
    pub digest: [u8; 32],
    pub offset: u64,
    pub len: u32,
}

/// Nodes side by side, and a table that says where each is.
#[derive(Debug)]
pub struct NodePack<K> {
    pub format_digest: TreeFormatDigest,
    pub entries: Vec<NodePackEntry>,
    pub attachments: Vec<NodePackAttachment<K>>,
    pub payload: Vec<u8>,
}

/// A node that waits for its pack.
#[derive(Debug)]
pub struct PendingNode {
    pub cid: Cid,
    pub bytes: Vec<u8>,
}

/// Whether an entry of a table says where some bytes are in a payload.
pub open spec fn lies_at(payload: Seq<u8>, offset: u64, len: u32, bytes: Seq<u8>) -> bool {
    offset + len <= payload.len() && bytes.len() == len && payload.subrange(
        offset as int,
        offset + len,
    ) == bytes
}

/// Whether a pack holds these nodes and attachments, in order and without a gap.
pub open spec fn packs_nodes<K>(
    pack: NodePack<K>,
    pending: Seq<PendingNode>,
    attachments: Seq<(K, Vec<u8>)>,
) -> bool {
    &&& pack.entries@.len() == pending.len()
    &&& pack.attachments@.len() == attachments.len()
    &&& forall|i: int|
        0 <= i < pending.len() ==> {
            let entry = #[trigger] pack.entries@[i];
            entry.cid == pending[i].cid && entry.sha256@ == sha256_of(pending[i].bytes@) && lies_at(
                pack.payload@,
                entry.offset,
                entry.len,
                pending[i].bytes@,
            )
        }
    &&& forall|i: int|
        0 <= i < attachments.len() ==> {
            let entry = #[trigger] pack.attachments@[i];
            entry.kind == attachments[i].0 && entry.digest@ == sha256_of(attachments[i].1@)
                && lies_at(pack.payload@, entry.offset, entry.len, attachments[i].1@)
        }
    &&& pack.payload@ == joined(pending) + joined_attachments(attachments)
}

/// The bytes of some nodes, one after the other.
pub open spec fn joined(nodes: Seq<PendingNode>) -> Seq<u8>
    decreases nodes.len(),
{
    if nodes.len() == 0 {
        Seq::empty()
    } else {
        joined(nodes.drop_last()) + nodes.last().bytes@
    }
}

/// The bytes of some attachments, one after the other.
pub open spec fn joined_attachments<K>(attachments: Seq<(K, Vec<u8>)>) -> Seq<u8>
    decreases attachments.len(),
{
    if attachments.len() == 0 {
        Seq::empty()
    } else {
        joined_attachments(attachments.drop_last()) + attachments.last().1@
    }
}

/// What is too long for a pack's table.
pub open spec fn pack_fault<K>(pending: Seq<PendingNode>, attachments: Seq<(K, Vec<u8>)>) -> Option<Fault> {
    if exists|i: int| 0 <= i < pending.len() && (#[trigger] pending[i]).bytes@.len() > u32::MAX {
        Some(fault(ErrorCode::InvalidLimit, "packed node exceeds u32 length"))
    } else if exists|i: int|
        0 <= i < attachments.len() && (#[trigger] attachments[i]).1@.len() > u32::MAX {
        Some(fault(ErrorCode::InvalidLimit, "node-pack attachment exceeds u32 length"))
    } else {
        None
    }
}

proof fn lemma_lies_at_stays(payload: Seq<u8>, more: Seq<u8>, offset: u64, len: u32, bytes: Seq<u8>)
    requires
        lies_at(payload, offset, len, bytes),
    ensures
        lies_at(payload + more, offset, len, bytes),
{
    assert((payload + more).subrange(offset as int, offset + len) =~= payload.subrange(
        offset as int,
        offset + len,
    ));
}

/// Builds a pack of the nodes and attachments that wait. None: nothing waits.
pub fn prepare_node_pack<K: Copy>(
    format_digest: TreeFormatDigest,
    pending: &Vec<PendingNode>,
    attachments: &Vec<(K, Vec<u8>)>,
) -> (r: Result<Option<NodePack<K>>, Error>)
    ensures
        if pending@.len() == 0 && attachments@.len() == 0 {
            r matches Ok(None)
        } else {
            match pack_fault(pending@, attachments@) {
                Some(error) => r matches Err(e) && e@ == error,
                None => r matches Ok(Some(pack)) && pack.format_digest == format_digest
                    && packs_nodes(pack, pending@, attachments@),
            }
        },
{
    if pending.len() == 0 && attachments.len() == 0 {
        return Ok(None);
    }
    let mut payload: Vec<u8> = Vec::new();
    let mut entries: Vec<NodePackEntry> = Vec::new();
    let mut i: usize = 0;
    assert(pending@.take(0) =~= Seq::<PendingNode>::empty());
    while i < pending.len()
        invariant
            i <= pending@.len(),
            pending@.len() > 0 || attachments@.len() > 0,
            entries@.len() == i,
            payload@ == joined(pending@.take(i as int)),
            forall|j: int| 0 <= j < i ==> (#[trigger] pending@[j]).bytes@.len() <= u32::MAX,
            forall|j: int|
                0 <= j < i ==> {
                    let entry = #[trigger] entries@[j];
                    entry.cid == pending@[j].cid && entry.sha256@ == sha256_of(pending@[j].bytes@)
                        && lies_at(payload@, entry.offset, entry.len, pending@[j].bytes@)
                },
        decreases pending.len() - i,
    {
        let offset: u64 = payload.len() as u64;
        let bytes = &pending[i].bytes;
        let ghost before = payload@;
        append_slice(&mut payload, bytes);
        if bytes.len() as u64 > 4_294_967_295 {
            assert(pending@[i as int].bytes@.len() > u32::MAX);
            return Err(Error::new(ErrorCode::InvalidLimit, "packed node exceeds u32 length"));
        }
        let entry = NodePackEntry {
            cid: pending[i].cid,
            offset,
            len: bytes.len() as u32,
            sha256: sha256(bytes),
        };
        let ghost shorter = entries@;
        entries.push(entry);
        proof {
            assert(pending@.take(i + 1).drop_last() =~= pending@.take(i as int));
            assert(payload@ == before + bytes@);
            assert(payload@.subrange(offset as int, offset + entry.len) =~= bytes@);
            assert forall|j: int| 0 <= j < i + 1 implies {
                let entry = #[trigger] entries@[j];
                entry.cid == pending@[j].cid && entry.sha256@ == sha256_of(pending@[j].bytes@)
                    && lies_at(payload@, entry.offset, entry.len, pending@[j].bytes@)
            } by {
                if j < i {
                    assert(entries@[j] == shorter[j]);
                    lemma_lies_at_stays(
                        before,
                        bytes@,
                        shorter[j].offset,
                        shorter[j].len,
                        pending@[j].bytes@,
                    );
                }
            }
        }
        i += 1;
    }
    assert(pending@.take(pending@.len() as int) =~= pending@);
    let ghost nodes = payload@;
    let mut packed_attachments: Vec<NodePackAttachment<K>> = Vec::new();
    let mut i: usize = 0;
    assert(attachments@.take(0) =~= Seq::<(K, Vec<u8>)>::empty());
    assert(payload@ =~= nodes + joined_attachments(attachments@.take(0)));
    while i < attachments.len()
        invariant
            i <= attachments@.len(),
            pending@.len() > 0 || attachments@.len() > 0,
            entries@.len() == pending@.len(),
            packed_attachments@.len() == i,
            nodes == joined(pending@),
            payload@ == nodes + joined_attachments(attachments@.take(i as int)),
            forall|j: int|
                0 <= j < pending@.len() ==> (#[trigger] pending@[j]).bytes@.len() <= u32::MAX,
            forall|j: int|
                0 <= j < i ==> (#[trigger] attachments@[j]).1@.len() <= u32::MAX,
            forall|j: int|
                0 <= j < pending@.len() ==> {
                    let entry = #[trigger] entries@[j];
                    entry.cid == pending@[j].cid && entry.sha256@ == sha256_of(pending@[j].bytes@)
                        && lies_at(payload@, entry.offset, entry.len, pending@[j].bytes@)
                },
            forall|j: int|
                0 <= j < i ==> {
                    let entry = #[trigger] packed_attachments@[j];
                    entry.kind == attachments@[j].0 && entry.digest@ == sha256_of(
                        attachments@[j].1@,
                    ) && lies_at(payload@, entry.offset, entry.len, attachments@[j].1@)
                },
        decreases attachments.len() - i,
    {
        let offset: u64 = payload.len() as u64;
        let bytes = &attachments[i].1;
        let ghost before = payload@;
        append_slice(&mut payload, bytes);
        if bytes.len() as u64 > 4_294_967_295 {
            assert(attachments@[i as int].1@.len() > u32::MAX);
            return Err(
                Error::new(ErrorCode::InvalidLimit, "node-pack attachment exceeds u32 length"),
            );
        }
        let entry = NodePackAttachment {
            kind: attachments[i].0,
            digest: sha256(bytes),
            offset,
            len: bytes.len() as u32,
        };
        let ghost shorter = packed_attachments@;
        packed_attachments.push(entry);
        proof {
            assert(attachments@.take(i + 1).drop_last() =~= attachments@.take(i as int));
            assert(payload@ == before + bytes@);
            assert(payload@ =~= nodes + joined_attachments(attachments@.take(i + 1)));
            assert(payload@.subrange(offset as int, offset + entry.len) =~= bytes@);
            assert forall|j: int| 0 <= j < i + 1 implies {
                let entry = #[trigger] packed_attachments@[j];
                entry.kind == attachments@[j].0 && entry.digest@ == sha256_of(attachments@[j].1@)
                    && lies_at(payload@, entry.offset, entry.len, attachments@[j].1@)
            } by {
                if j < i {
                    assert(packed_attachments@[j] == shorter[j]);
                    lemma_lies_at_stays(
                        before,
                        bytes@,
                        shorter[j].offset,
                        shorter[j].len,
                        attachments@[j].1@,
                    );
                }
            }
            assert forall|j: int| 0 <= j < pending@.len() implies {
                let entry = #[trigger] entries@[j];
                entry.cid == pending@[j].cid && entry.sha256@ == sha256_of(pending@[j].bytes@)
                    && lies_at(payload@, entry.offset, entry.len, pending@[j].bytes@)
            } by {
                lemma_lies_at_stays(
                    before,
                    bytes@,
                    entries@[j].offset,
                    entries@[j].len,
                    pending@[j].bytes@,
                );
            }
        }
        i += 1;
    }
    assert(attachments@.take(attachments@.len() as int) =~= attachments@);
    Ok(Some(NodePack { format_digest, entries, attachments: packed_attachments, payload }))
}

/// Where the nodes of a commit's pack begin in its object.
pub fn node_region(offset: Option<u64>) -> (r: Result<u64, Error>)
    ensures
        outcome(r) == match offset {
            Some(at) => Ok(at),
            None => Err(fault(ErrorCode::CorruptCommit, "commit node-pack node region is absent")),
        },
{
    match offset {
        Some(at) => Ok(at),
        None => Err(
            Error::new(ErrorCode::CorruptCommit, "commit node-pack node region is absent"),
        ),
    }
}

/// Whether a pack has a node, and within its payload.
pub open spec fn has_node<K>(pack: NodePack<K>, cid: Cid, i: int) -> bool {
    0 <= i < pack.entries@.len() && pack.entries@[i].cid == cid && pack.entries@[i].offset
        + pack.entries@[i].len <= pack.payload@.len()
}

/// A node out of a pack that is at hand.
pub fn packed_node<K>(pack: &NodePack<K>, cid: &Cid) -> (r: Option<Vec<u8>>)
    ensures
        match r {
            Some(bytes) => exists|i: int| #[trigger]
                has_node(*pack, *cid, i) && lies_at(
                    pack.payload@,
                    pack.entries@[i].offset,
                    pack.entries@[i].len,
                    bytes@,
                ),
            None => forall|i: int| !#[trigger] has_node(*pack, *cid, i),
        },
{
    let mut i: usize = 0;
    while i < pack.entries.len()
        invariant
            i <= pack.entries@.len(),
            forall|j: int| 0 <= j < i ==> !#[trigger] has_node(*pack, *cid, j),
        decreases pack.entries.len() - i,
    {
        let entry = &pack.entries[i];
        let size: u64 = pack.payload.len() as u64;
        if entry.cid == *cid && entry.offset <= size && entry.len as u64 <= size - entry.offset {
            let start: usize = entry.offset as usize;
            let end: usize = start + entry.len as usize;
            let bytes = vstd::slice::slice_to_vec(
                vstd::slice::slice_subrange(pack.payload.as_slice(), start, end),
            );
            assert(has_node(*pack, *cid, i as int));
            assert(lies_at(pack.payload@, entry.offset, entry.len, bytes@));
            return Some(bytes);
        }
        i += 1;
    }
    None
}

/// Where a packed node lies: in the object of a commit.
#[derive(Clone, Copy, Debug)]
pub struct PackedNodeLocation {
    pub container: CommitId,
    pub pack: [u8; 32],
    pub absolute_offset: u64,
    pub len: u32,
    pub sha256: [u8; 32],
}

/// A node and where an index says that it lies.
#[derive(Clone, Copy, Debug)]
pub struct LocatedPackedNode {
    pub cid: Cid,
    pub location: PackedNodeLocation,
}

/// Where an entry of a pack lies, once the pack is stored with a commit.
pub open spec fn location_of(
    container: CommitId,
    pack: [u8; 32],
    node_region_offset: u64,
    entry: NodePackEntry,
) -> PackedNodeLocation {
    PackedNodeLocation {
        container,
        pack,
        absolute_offset: (node_region_offset + entry.offset) as u64,
        len: entry.len,
        sha256: entry.sha256,
    }
}

/// The locations after the first `n` entries of a pack were noted.
pub open spec fn noted(
    before: Seq<crate::caches::LocationEntry<PackedNodeLocation>>,
    capacity: nat,
    container: CommitId,
    pack: [u8; 32],
    node_region_offset: u64,
    entries: Seq<NodePackEntry>,
    n: int,
) -> Seq<crate::caches::LocationEntry<PackedNodeLocation>>
    decreases n,
{
    if n <= 0 {
        before
    } else {
        crate::caches::last_of(
            crate::caches::with_location(
                noted(before, capacity, container, pack, node_region_offset, entries, n - 1),
                entries[n - 1].cid,
                location_of(container, pack, node_region_offset, entries[n - 1]),
            ),
            capacity,
        )
    }
}

/// Notes where the nodes of a stored pack lie.
pub fn register_node_pack(
    locations: &mut BoundedNodeLocations<PackedNodeLocation>,
    container: CommitId,
    pack: [u8; 32],
    node_region_offset: u64,
    entries: &Vec<NodePackEntry>,
)
    requires
        old(locations).wf(),
        forall|i: int|
            0 <= i < entries@.len() ==> node_region_offset + (#[trigger] entries@[i]).offset
                <= u64::MAX,
    ensures
        final(locations).wf(),
        final(locations).capacity == old(locations).capacity,
        final(locations).entries@ == noted(
            old(locations).entries@,
            old(locations).capacity as nat,
            container,
            pack,
            node_region_offset,
            entries@,
            entries@.len() as int,
        ),
{
    let ghost before = locations.entries@;
    let ghost capacity = locations.capacity;
    let mut i: usize = 0;
    while i < entries.len()
        invariant
            i <= entries@.len(),
            locations.wf(),
            locations.capacity == capacity,
            forall|i: int|
                0 <= i < entries@.len() ==> node_region_offset + (#[trigger] entries@[i]).offset
                    <= u64::MAX,
            locations.entries@ == noted(
                before,
                capacity as nat,
                container,
                pack,
                node_region_offset,
                entries@,
                i as int,
            ),
        decreases entries.len() - i,
    {
        let entry = entries[i];
        locations.insert(
            entry.cid,
            PackedNodeLocation {
                container,
                pack,
                absolute_offset: node_region_offset + entry.offset,
                len: entry.len,
                sha256: entry.sha256,
            },
        );
        i += 1;
    }
}

/// Refuses a location that an index gave for a node and that cannot be right.
pub fn check_located_node(cid: &Cid, entry: &LocatedPackedNode) -> (r: Result<PackedNodeLocation, Error>)
    ensures
        outcome(r) == if entry.cid == *cid && entry.location.len > 0 && entry.location.sha256@
            == cid@ {
            Ok(entry.location)
        } else {
            Err(fault(ErrorCode::CorruptNode, "lazy node-index entry failed validation"))
        },
{
    if entry.cid != *cid || entry.location.len == 0 || !bytes_eq(
        entry.cid.as_bytes(),
        &entry.location.sha256,
    ) {
        return Err(
            Error::new(ErrorCode::CorruptNode, "lazy node-index entry failed validation"),
        );
    }
    Ok(entry.location)
}

/// The first and the last place of a packed node in its object.
pub fn packed_node_range(location: &PackedNodeLocation) -> (r: Result<(u64, u64), Error>)
    ensures
        outcome(r) == if location.len == 0 {
            Err(fault(ErrorCode::CorruptNode, "packed node has zero length"))
        } else if location.absolute_offset + location.len - 1 > u64::MAX {
            Err(fault(ErrorCode::CorruptNode, "packed-node range overflow"))
        } else {
            Ok((location.absolute_offset, (location.absolute_offset + location.len - 1) as u64))
        },
{
    if location.len == 0 {
        return Err(Error::new(ErrorCode::CorruptNode, "packed node has zero length"));
    }
    match location.absolute_offset.checked_add(location.len as u64 - 1) {
        None => Err(Error::new(ErrorCode::CorruptNode, "packed-node range overflow")),
        Some(end) => Ok((location.absolute_offset, end)),
    }
}

/// The node out of a range that was read. It has the length that its location says, and is the node.
pub fn ranged_packed_node(cid: &Cid, location: &PackedNodeLocation, read: Option<Vec<u8>>) -> (r: Result<
    Vec<u8>,
    Error,
>)
    ensures
        match r {
            Ok(bytes) => read == Some(bytes) && bytes@.len() == location.len && is_node(
                *cid,
                bytes@,
            ),
            Err(error) => match read {
                None => error@ == fault(ErrorCode::MissingClosure, "node pack is missing"),
                Some(bytes) => error@ == fault(
                    ErrorCode::CorruptNode,
                    "ranged node-pack read failed CID verification",
                ) && (bytes@.len() != location.len || !is_node(*cid, bytes@)
                    || location.sha256@ != cid@),
            },
        },
        r is Ok <==> read is Some && read->0@.len() == location.len && is_node(*cid, read->0@)
            && location.sha256@ == cid@,
{
    let bytes = match read {
        None => {
            return Err(Error::new(ErrorCode::MissingClosure, "node pack is missing"));
        },
        Some(bytes) => bytes,
    };
    let digest = sha256(&bytes);
    if bytes.len() as u64 != location.len as u64 || !bytes_eq(&digest, &location.sha256)
        || !bytes_eq(cid.as_bytes(), &location.sha256) {
        return Err(
            Error::new(
                ErrorCode::CorruptNode,
                "ranged node-pack read failed CID verification",
            ),
        );
    }
    Ok(bytes)
}

/// The name in a node's key.
pub fn node_name(key: &[u8]) -> (r: Result<Cid, Error>)
    ensures
        match r {
            Ok(cid) => key@.len() == 32 && cid@ == key@,
            Err(error) => key@.len() != 32 && error@ == node_key_length_fault(key@.len()),
        },
{
    if key.len() != 32 {
        return Err(node_key_length_error(key.len()));
    }
    Ok(Cid::from_hash(array_of_32(key)))
}

/// The node out of an object of its own, if there is one.
pub fn get_uncached_direct(key: &[u8], read: Option<Vec<u8>>) -> (r: Result<Option<Vec<u8>>, Error>)
    ensures
        outcome(r) == match read {
            None => Ok(None),
            Some(bytes) => if sha256_of(bytes@) == key@ {
                Ok(Some(bytes))
            } else {
                Err(
                    fault(ErrorCode::CorruptNode, "stored Prolly node does not match its CID"),
                )
            },
        },
{
    match read {
        None => Ok(None),
        Some(bytes) => {
            if !bytes_eq(&sha256(&bytes), key) {
                return Err(
                    Error::new(
                        ErrorCode::CorruptNode,
                        "stored Prolly node does not match its CID",
                    ),
                );
            }
            Ok(Some(bytes))
        },
    }
}

/// Where a new node goes.
#[derive(Clone, Copy, Debug, PartialEq, Eq, Structural)]
pub enum NodeTarget {
    /// To the nodes that wait for their pack.
    Pending,
    /// To an object of its own.
    Object,
}

/// Decides where a new node goes, and refuses one under a wrong name.
pub fn put_node(key: &[u8], value: &[u8], packed: bool, write_direct: bool) -> (r: Result<NodeTarget, Error>)
    ensures
        outcome(r) == if sha256_of(value@) != key@ {
            Err(fault(ErrorCode::CorruptNode, "attempted Prolly node write under the wrong CID"))
        } else if packed && !write_direct {
            Ok(NodeTarget::Pending)
        } else {
            Ok(NodeTarget::Object)
        },
{
    if !bytes_eq(&sha256(value), key) {
        return Err(
            Error::new(
                ErrorCode::CorruptNode,
                "attempted Prolly node write under the wrong CID",
            ),
        );
    }
    if packed && !write_direct {
        Ok(NodeTarget::Pending)
    } else {
        Ok(NodeTarget::Object)
    }
}

/// What deleting the object of a node came to.
pub fn deleted_node(deleted: DeleteOutcome) -> (r: Result<(), Error>)
    ensures
        outcome(r) == if deleted == DeleteOutcome::TokenMismatch {
            Err(fault(ErrorCode::RefConflict, "node changed during exact delete"))
        } else {
            Ok::<(), Fault>(())
        },
{
    if deleted == DeleteOutcome::TokenMismatch {
        return Err(Error::new(ErrorCode::RefConflict, "node changed during exact delete"));
    }
    Ok(())
}

/// A place where a packed node is looked for.
#[derive(Clone, Copy, Debug, PartialEq, Eq, Structural)]
pub enum NodeTier {
    /// The nodes that wait for their pack.
    Pending,
    /// The cache of nodes.
    Cache,
    /// The cache of packs.
    PackCache,
    /// Not a place: wait until no other read of the node is under way.
    FetchLock,
    /// The object of the commit that the node was stored with.
    Range,
    /// An object of its own.
    Object,
}

/// Where a packed node is looked for, in order.
pub open spec fn tiers() -> Seq<NodeTier> {
    seq![
        NodeTier::Pending,
        NodeTier::Cache,
        NodeTier::PackCache,
        NodeTier::FetchLock,
        NodeTier::Pending,
        NodeTier::Cache,
        NodeTier::PackCache,
        NodeTier::Range,
        NodeTier::Object,
    ]
}

/// Where a packed node is looked for, in order.
pub fn packed_tiers() -> (r: Vec<NodeTier>)
    ensures
        r@ == tiers(),
{
    let r = vec![
        NodeTier::Pending,
        NodeTier::Cache,
        NodeTier::PackCache,
        NodeTier::FetchLock,
        NodeTier::Pending,
        NodeTier::Cache,
        NodeTier::PackCache,
        NodeTier::Range,
        NodeTier::Object,
    ];
    assert(r@ =~= tiers());
    r
}

/// Where a node that is an object of its own is looked for, in order.
pub open spec fn direct_tiers_of() -> Seq<NodeTier> {
    seq![NodeTier::Cache, NodeTier::FetchLock, NodeTier::Cache, NodeTier::Object]
}

/// Where a node that is an object of its own is looked for, in order.
pub fn direct_tiers() -> (r: Vec<NodeTier>)
    ensures
        r@ == direct_tiers_of(),
{
    let list = vec![NodeTier::Cache, NodeTier::FetchLock, NodeTier::Cache, NodeTier::Object];
    assert(list@ =~= direct_tiers_of());
    list
}

/// Whether a node that was found in a place is offered to the cache: it is, unless it came from there or
/// waits for its pack.
pub fn is_offered(tier: NodeTier) -> (r: bool)
    ensures
        r == (tier == NodeTier::PackCache || tier == NodeTier::Range || tier == NodeTier::Object),
{
    tier == NodeTier::PackCache || tier == NodeTier::Range || tier == NodeTier::Object
}

/// The provider is asked only under the lock, and after everything at hand was looked at again under it: a
/// burst of reads of one node fetches it once.
pub proof fn law_provider_is_asked_last(i: int)
    requires
        0 <= i < tiers().len(),
        tiers()[i] == NodeTier::Range || tiers()[i] == NodeTier::Object,
    ensures
        exists|lock: int, cache: int|
            0 <= lock < cache < i && tiers()[lock] == NodeTier::FetchLock && tiers()[cache]
                == NodeTier::Cache,
{
    assert(tiers()[3] == NodeTier::FetchLock && tiers()[5] == NodeTier::Cache);
}

/// A node that was packed is read back whole: the range that its location names, cut out of an object that
/// holds the pack's payload from `node_region_offset` on, is the node.
pub proof fn law_packed_node_is_read_back<K>(
    pack: NodePack<K>,
    pending: Seq<PendingNode>,
    attachments: Seq<(K, Vec<u8>)>,
    object: Seq<u8>,
    container: CommitId,
    id: [u8; 32],
    node_region_offset: u64,
    i: int,
)
    requires
        packs_nodes(pack, pending, attachments),
        0 <= i < pending.len(),
        node_region_offset + pack.payload@.len() <= object.len(),
        object.len() <= u64::MAX,
        object.subrange(
            node_region_offset as int,
            node_region_offset + pack.payload@.len(),
        ) == pack.payload@,
    ensures
        ({
            let location = location_of(container, id, node_region_offset, pack.entries@[i]);
            object.subrange(
                location.absolute_offset as int,
                location.absolute_offset + location.len,
            ) == pending[i].bytes@
        }),
{
    let entry = pack.entries@[i];
    let location = location_of(container, id, node_region_offset, entry);
    let region = object.subrange(
        node_region_offset as int,
        node_region_offset + pack.payload@.len(),
    );
    assert(lies_at(pack.payload@, entry.offset, entry.len, pending[i].bytes@));
    assert(object.subrange(
        location.absolute_offset as int,
        location.absolute_offset + location.len,
    ) =~= region.subrange(entry.offset as int, entry.offset + entry.len));
}

/// A pack names each node that it was made of, in order, by its name and its digest, and holds its bytes; the same of
/// what goes with them. It holds nothing else.
pub proof fn law_pack_names_what_it_holds<K>(
    pack: NodePack<K>,
    pending: Seq<PendingNode>,
    attachments: Seq<(K, Vec<u8>)>,
    i: int,
    j: int,
)
    requires
        packs_nodes(pack, pending, attachments),
        0 <= i < pending.len(),
        0 <= j < attachments.len(),
    ensures
        pack.entries@.len() == pending.len(),
        pack.attachments@.len() == attachments.len(),
        pack.entries@[i].cid == pending[i].cid,
        pack.entries@[i].sha256@ == sha256_of(pending[i].bytes@),
        pack.entries@[i].len == pending[i].bytes@.len(),
        pack.entries@[i].offset + pack.entries@[i].len <= pack.payload@.len(),
        pack.payload@.subrange(
            pack.entries@[i].offset as int,
            pack.entries@[i].offset + pack.entries@[i].len,
        ) == pending[i].bytes@,
        pack.attachments@[j].kind == attachments[j].0,
        pack.attachments@[j].digest@ == sha256_of(attachments[j].1@),
        pack.attachments@[j].len == attachments[j].1@.len(),
        pack.attachments@[j].offset + pack.attachments@[j].len <= pack.payload@.len(),
        pack.payload@.subrange(
            pack.attachments@[j].offset as int,
            pack.attachments@[j].offset + pack.attachments@[j].len,
        ) == attachments[j].1@,
        pack.payload@ == joined(pending) + joined_attachments(attachments),
{
    let entry = pack.entries@[i];
    let other = pack.attachments@[j];
    assert(lies_at(pack.payload@, entry.offset, entry.len, pending[i].bytes@));
    assert(lies_at(pack.payload@, other.offset, other.len, attachments[j].1@));
}

/// A pack can be made exactly where each of its parts has a length that it can note.
pub proof fn law_pack_takes_what_it_can_note<K>(pending: Seq<PendingNode>, attachments: Seq<(K, Vec<u8>)>)
    ensures
        pack_fault(pending, attachments) is None <==> (forall|i: int|
            0 <= i < pending.len() ==> (#[trigger] pending[i]).bytes@.len() <= u32::MAX) && (forall|
            i: int,
        |
            0 <= i < attachments.len() ==> (#[trigger] attachments[i]).1@.len() <= u32::MAX),
{
}

/// The place of a packed node is where its pack begins in its container, and the node in the pack.
pub proof fn law_place_of_a_packed_node(
    container: CommitId,
    pack: [u8; 32],
    node_region_offset: u64,
    entry: NodePackEntry,
)
    requires
        node_region_offset + entry.offset <= u64::MAX,
    ensures
        ({
            let place = location_of(container, pack, node_region_offset, entry);
            &&& place.container == container
            &&& place.pack == pack
            &&& place.absolute_offset == node_region_offset + entry.offset
            &&& place.len == entry.len
            &&& place.sha256 == entry.sha256
        }),
{
}

/// A node is looked for close at hand first: among those that wait, among those that were read and in the packs that
/// were read, before the lock and again under it; only then is the provider asked, for the part before the whole.
pub proof fn law_node_is_looked_for_close_at_hand_first()
    ensures
        tiers().len() == 9,
        tiers().take(3) == seq![NodeTier::Pending, NodeTier::Cache, NodeTier::PackCache],
        tiers()[3] == NodeTier::FetchLock,
        tiers().subrange(4, 7) == tiers().take(3),
        tiers()[7] == NodeTier::Range,
        tiers()[8] == NodeTier::Object,
        direct_tiers_of().last() == NodeTier::Object,
        direct_tiers_of().take(3) == seq![NodeTier::Cache, NodeTier::FetchLock, NodeTier::Cache],
{
    assert(tiers().take(3) =~= seq![NodeTier::Pending, NodeTier::Cache, NodeTier::PackCache]);
    assert(tiers().subrange(4, 7) =~= tiers().take(3));
    assert(direct_tiers_of().take(3) =~= seq![NodeTier::Cache, NodeTier::FetchLock, NodeTier::Cache]);
}

/// A sum that would not fit stays at the highest count, and a difference that would be negative at none.
pub proof fn law_counts_stop_at_their_ends(a: u64, b: u64)
    ensures
        a + b <= u64::MAX ==> capped_sum(a, b) == a + b && wrapped_sum(a, b) == a + b,
        a + b > u64::MAX ==> capped_sum(a, b) == u64::MAX && wrapped_sum(a, b) + u64::MAX + 1 == a + b,
        a >= b ==> floored_difference(a, b) == a - b,
        a < b ==> floored_difference(a, b) == 0,
{
}

/// Noting the nodes of a pack notes the last of them for certain, at its place in the container, as long as anything can
/// be noted at all.
pub proof fn law_noted_pack_is_found(
    before: Seq<crate::caches::LocationEntry<PackedNodeLocation>>,
    capacity: nat,
    container: CommitId,
    pack: [u8; 32],
    node_region_offset: u64,
    entries: Seq<NodePackEntry>,
    n: int,
)
    ensures
        n <= 0 ==> noted(before, capacity, container, pack, node_region_offset, entries, n) == before,
        before.len() <= capacity ==> noted(
            before,
            capacity,
            container,
            pack,
            node_region_offset,
            entries,
            n,
        ).len() <= capacity,
        n > 0 && before.len() <= capacity && capacity > 0 ==> noted(
            before,
            capacity,
            container,
            pack,
            node_region_offset,
            entries,
            n,
        ).contains(
            crate::caches::LocationEntry {
                cid: entries[n - 1].cid,
                location: location_of(container, pack, node_region_offset, entries[n - 1]),
            },
        ),
    decreases n,
{
    if n > 0 {
        law_noted_pack_is_found(before, capacity, container, pack, node_region_offset, entries, n - 1);
        let held = noted(before, capacity, container, pack, node_region_offset, entries, n - 1);
        let cid = entries[n - 1].cid;
        let location = location_of(container, pack, node_region_offset, entries[n - 1]);
        let entry = crate::caches::LocationEntry { cid, location };
        let more = crate::caches::with_location(held, cid, location);
        let after = crate::caches::last_of(more, capacity);
        if before.len() <= capacity && capacity > 0 {
            if exists|k: int| #[trigger] crate::caches::node_at(held, cid, k) {
                let k = choose|k: int| #[trigger] crate::caches::node_at(held, cid, k);
                assert(after[k] == entry);
            } else {
                assert(more.last() == entry);
                assert(after[after.len() - 1] == entry);
            }
        }
    }
}

/// Bytes are a node exactly where their digest is its name.
pub proof fn law_node_is_named_by_its_digest(cid: Cid, bytes: Seq<u8>, list: Seq<Cid>, i: int)
    ensures
        is_node(cid, bytes) <==> sha256_of(bytes) == cid@,
        0 <= i < list.len() && list[i] == cid ==> lists(list, cid),
        (forall|k: int| 0 <= k < list.len() ==> #[trigger] list[k] != cid) ==> !lists(list, cid),
{
}

/// A node is in a pack exactly where the pack's table names it and the pack reaches to its end; its bytes are then those
/// at its place.
pub proof fn law_node_lies_where_its_pack_says<K>(pack: NodePack<K>, cid: Cid, i: int, bytes: Seq<u8>)
    ensures
        has_node(pack, cid, i) <==> 0 <= i < pack.entries@.len() && pack.entries@[i].cid == cid
            && pack.entries@[i].offset + pack.entries@[i].len <= pack.payload@.len(),
        has_node(pack, cid, i) ==> (lies_at(
            pack.payload@,
            pack.entries@[i].offset,
            pack.entries@[i].len,
            bytes,
        ) <==> bytes == pack.payload@.subrange(
            pack.entries@[i].offset as int,
            pack.entries@[i].offset + pack.entries@[i].len,
        )),
{
}

/// What a pack holds is its nodes one after another, and behind them what goes with them one after another.
pub proof fn law_parts_of_a_pack_follow_one_another<K>(
    nodes: Seq<PendingNode>,
    node: PendingNode,
    attachments: Seq<(K, Vec<u8>)>,
    attachment: (K, Vec<u8>),
)
    ensures
        joined(Seq::empty()).len() == 0,
        joined(nodes.push(node)) == joined(nodes) + node.bytes@,
        joined_attachments(Seq::<(K, Vec<u8>)>::empty()).len() == 0,
        joined_attachments(attachments.push(attachment)) == joined_attachments(attachments)
            + attachment.1@,
{
    assert(nodes.push(node).drop_last() =~= nodes);
    assert(attachments.push(attachment).drop_last() =~= attachments);
}

} // verus!
