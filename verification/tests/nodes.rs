use prolly_s3_core::caches::{BoundedNodeLocations, CommitMetadataCache, PackedNodeCache};
use prolly_s3_core::error::{Error, ErrorCode};
use prolly_s3_core::ids::{Cid, CommitId, TreeFormatDigest};
use prolly_s3_core::model::DeleteOutcome;
use prolly_s3_core::node_store::{
    admit_node, cached_node, check_located_node, deleted_node, direct_tiers, get_uncached_direct,
    inserted_node, is_offered,
    node_name, node_region, packed_node, packed_node_range, packed_tiers, pin_node, prepare_node_pack, put_node,
    ranged_packed_node, register_node_pack, track_pin, Admission, CacheLookup, LocatedPackedNode,
    NodeCacheSnapshot, NodeTarget, NodeTier, PackedNodeLocation, PendingNode, PinStep,
};
use prolly_s3_core::waiting_nodes::WaitingNodes;
use std::sync::Arc;

fn digest(bytes: &[u8]) -> [u8; 32] {
    <[u8; 32]>::from(<sha2::Sha256 as sha2::Digest>::digest(bytes))
}

fn cid(bytes: &[u8]) -> Cid {
    Cid::from_hash(digest(bytes))
}

fn commit_id(byte: u8) -> CommitId {
    CommitId::from_hash([byte; 32])
}

#[test]
fn commits_leave_the_cache_by_last_use() {
    let mut cache: CommitMetadataCache<&str> = CommitMetadataCache::new(10);
    cache.insert(commit_id(1), Arc::new("one"), 4);
    cache.insert(commit_id(2), Arc::new("two"), 4);
    assert_eq!(*cache.get(commit_id(1)).unwrap(), "one");
    cache.insert(commit_id(3), Arc::new("three"), 4);
    assert!(cache.get(commit_id(2)).is_none());
    assert!(cache.get(commit_id(1)).is_some());
    cache.insert(commit_id(3), Arc::new("big"), 11);
    assert_eq!(*cache.get(commit_id(3)).unwrap(), "three");
    cache.insert(commit_id(3), Arc::new("again"), 10);
    assert_eq!(cache.list.bytes, 10);
    assert!(cache.get(commit_id(1)).is_none());
    assert_eq!(*cache.get(commit_id(3)).unwrap(), "again");
}

#[test]
fn packs_leave_the_cache_in_order() {
    let mut cache: PackedNodeCache<u8> = PackedNodeCache::new(10);
    cache.insert([1; 32], Arc::new(1), 5);
    cache.insert([2; 32], Arc::new(2), 5);
    assert!(cache.get(&[1; 32]).is_some());
    cache.insert([3; 32], Arc::new(3), 1);
    assert!(cache.get(&[1; 32]).is_none());
    assert_eq!(*cache.get(&[2; 32]).unwrap(), 2);
    cache.insert([2; 32], Arc::new(9), 99);
    assert!(cache.get(&[2; 32]).is_none());
    assert_eq!(cache.list.bytes, 1);
}

#[test]
fn locations_leave_in_the_order_they_came() {
    let mut locations: BoundedNodeLocations<u8> = BoundedNodeLocations::new(2);
    locations.insert(cid(b"a"), 1);
    locations.insert(cid(b"b"), 2);
    locations.insert(cid(b"a"), 3);
    assert_eq!(locations.get(&cid(b"a")), Some(&3));
    locations.insert(cid(b"c"), 4);
    assert_eq!(locations.get(&cid(b"a")), None);
    assert_eq!(locations.get(&cid(b"b")), Some(&2));
    let mut none: BoundedNodeLocations<u8> = BoundedNodeLocations::new(0);
    none.insert(cid(b"a"), 1);
    assert_eq!(none.get(&cid(b"a")), None);
}

#[test]
fn counts_add_up_and_stop_at_their_ends() {
    let mut early = NodeCacheSnapshot::new();
    early.hits = 3;
    let mut late = early;
    late.hits = 10;
    late.pinned_bytes = 7;
    let delta = late.delta_since(early);
    assert_eq!(delta.hits, 7);
    assert_eq!(early.saturating_add(delta), late);
    assert_eq!(early.delta_since(late).hits, 0);
    late.hits = u64::MAX;
    assert_eq!(late.saturating_add(early).hits, u64::MAX);
    let mut counts = NodeCacheSnapshot::new();
    counts.record_returned_node(5);
    counts.record_prefetch(1);
    counts.record_prefetch(4);
    counts.record_fetch(6);
    assert_eq!((counts.node_requests, counts.requested_bytes), (1, 5));
    assert_eq!((counts.prefetch_batches, counts.prefetched_nodes), (1, 4));
    assert_eq!((counts.ranged_fetches, counts.fetched_bytes), (1, 6));
}

#[test]
fn the_cache_hands_out_checked_nodes_only() {
    let mut counts = NodeCacheSnapshot::new();
    let node = b"node".to_vec();
    assert!(matches!(
        cached_node(&mut counts, &cid(b"node"), Ok(Some(node.clone()))),
        CacheLookup::Hit(bytes) if bytes == node
    ));
    assert!(matches!(
        cached_node(&mut counts, &cid(b"other"), Ok(Some(node))),
        CacheLookup::Corrupt
    ));
    assert!(matches!(cached_node(&mut counts, &cid(b"x"), Ok(None)), CacheLookup::Miss));
    assert!(matches!(
        cached_node(&mut counts, &cid(b"x"), Err(Error::new(ErrorCode::Transport, "down"))),
        CacheLookup::Failed
    ));
    assert_eq!((counts.hits, counts.misses), (1, 3));
    assert_eq!((counts.corruptions, counts.errors, counts.avoided_bytes), (1, 1, 4));
    assert_eq!(admit_node(&mut counts, &cid(b"n"), b"n", true), Admission::Insert);
    assert_eq!(admit_node(&mut counts, &cid(b"n"), b"n", false), Admission::Rejected);
    assert_eq!(admit_node(&mut counts, &cid(b"n"), b"m", true), Admission::Corrupt);
    inserted_node(&mut counts, true);
    inserted_node(&mut counts, false);
    assert_eq!((counts.insertions, counts.admission_rejections), (1, 1));
    assert_eq!(counts.errors, 2);
}

#[test]
fn pins_are_tracked_once_and_within_bounds() {
    let mut counts = NodeCacheSnapshot::new();
    assert_eq!(pin_node(&mut counts, &cid(b"n"), b"n", true).unwrap(), PinStep::Pin);
    assert_eq!(pin_node(&mut counts, &cid(b"n"), b"n", false).unwrap(), PinStep::Skip);
    assert_eq!(
        pin_node(&mut counts, &cid(b"n"), b"m", true).unwrap_err().code,
        ErrorCode::CorruptNode
    );
    let mut pinned = Vec::new();
    track_pin(&mut counts, &mut pinned, cid(b"a"), 5, 1);
    track_pin(&mut counts, &mut pinned, cid(b"a"), 5, 1);
    track_pin(&mut counts, &mut pinned, cid(b"b"), 5, 1);
    assert_eq!(pinned.len(), 1);
    assert_eq!((counts.pinned_nodes, counts.pinned_bytes), (1, 5));
}

#[test]
fn packed_nodes_are_read_back() {
    let pending = vec![
        PendingNode {
            cid: cid(b"first"),
            bytes: b"first".to_vec(),
        },
        PendingNode {
            cid: cid(b"second!"),
            bytes: b"second!".to_vec(),
        },
    ];
    let format = TreeFormatDigest::from_hash([7; 32]);
    let pack = prepare_node_pack(format, &pending, &vec![(4u8, b"extra".to_vec())])
        .unwrap()
        .unwrap();
    assert_eq!(pack.payload, b"firstsecond!extra".to_vec());
    assert_eq!((pack.entries[1].offset, pack.entries[1].len), (5, 7));
    assert_eq!(pack.entries[0].sha256, digest(b"first"));
    assert_eq!((pack.attachments[0].offset, pack.attachments[0].len), (12, 5));
    assert_eq!(pack.attachments[0].digest, digest(b"extra"));
    let mut locations = BoundedNodeLocations::new(10);
    register_node_pack(&mut locations, commit_id(1), [9; 32], 100, &pack.entries);
    let mut object = vec![0; 100];
    object.extend_from_slice(&pack.payload);
    for node in &pending {
        let location = *locations.get(&node.cid).unwrap();
        let (start, end) = packed_node_range(&location).unwrap();
        let read = object[start as usize..=end as usize].to_vec();
        assert_eq!(
            ranged_packed_node(&node.cid, &location, Some(read)).unwrap(),
            node.bytes
        );
    }
    assert!(prepare_node_pack::<u8>(format, &Vec::new(), &Vec::new()).unwrap().is_none());
}

fn location(len: u32, offset: u64, name: &[u8]) -> PackedNodeLocation {
    PackedNodeLocation {
        container: commit_id(1),
        pack: [9; 32],
        absolute_offset: offset,
        len,
        sha256: digest(name),
    }
}

#[test]
fn damaged_locations_and_ranges_are_refused() {
    let name = cid(b"n");
    let entry = LocatedPackedNode {
        cid: name,
        location: location(1, 0, b"n"),
    };
    assert!(check_located_node(&name, &entry).is_ok());
    assert!(check_located_node(&cid(b"m"), &entry).is_err());
    let empty = LocatedPackedNode {
        cid: name,
        location: location(0, 0, b"n"),
    };
    assert!(check_located_node(&name, &empty).is_err());
    assert_eq!(
        packed_node_range(&location(0, 0, b"n")).unwrap_err().message,
        "packed node has zero length"
    );
    assert_eq!(
        packed_node_range(&location(2, u64::MAX, b"n")).unwrap_err().message,
        "packed-node range overflow"
    );
    assert_eq!(packed_node_range(&location(2, 3, b"n")).unwrap(), (3, 4));
    assert_eq!(
        ranged_packed_node(&name, &location(1, 0, b"n"), None).unwrap_err().code,
        ErrorCode::MissingClosure
    );
    assert_eq!(
        ranged_packed_node(&name, &location(1, 0, b"n"), Some(b"m".to_vec()))
            .unwrap_err()
            .code,
        ErrorCode::CorruptNode
    );
    assert!(ranged_packed_node(&name, &location(2, 0, b"n"), Some(b"n".to_vec())).is_err());
}

#[test]
fn nodes_wait_in_order_until_they_are_packed() {
    let format = TreeFormatDigest::from_hash([7; 32]);
    let none: Vec<(u8, Vec<u8>)> = Vec::new();
    let mut waiting = WaitingNodes::new();
    assert!(waiting.prepare(true, format, &none).unwrap().is_none());
    let bodies: [&[u8]; 4] = [b"one", b"two", b"three", b"one"];
    for body in bodies {
        let target = waiting.put(&digest(body), body, true, false).unwrap();
        assert_eq!(target, NodeTarget::Pending);
    }
    assert_eq!(
        waiting.put(&digest(b"one"), b"two", true, false).unwrap_err().code,
        ErrorCode::CorruptNode
    );
    assert_eq!(
        waiting.put(&digest(b"four"), b"four", true, true).unwrap(),
        NodeTarget::Object
    );
    assert!(waiting.get(&cid(b"four")).is_none());
    assert_eq!(waiting.get(&cid(b"two")).unwrap(), b"two".to_vec());
    waiting.remove(&cid(b"two"));
    assert!(waiting.get(&cid(b"two")).is_none());
    assert!(waiting.prepare(false, format, &none).unwrap().is_none());
    assert_eq!(waiting.get(&cid(b"one")).unwrap(), b"one".to_vec());
    let pack = waiting.prepare(true, format, &none).unwrap().unwrap();
    assert_eq!(pack.entries.len(), 2);
    assert!(pack.entries[0].cid.as_bytes() < pack.entries[1].cid.as_bytes());
    assert_eq!(pack.payload.len(), 8);
    assert!(waiting.get(&cid(b"one")).is_none());
    assert!(waiting.prepare(true, format, &none).unwrap().is_none());
}

#[test]
fn nodes_are_written_under_their_own_names() {
    let key = digest(b"n");
    assert_eq!(put_node(&key, b"n", true, false).unwrap(), NodeTarget::Pending);
    assert_eq!(put_node(&key, b"n", true, true).unwrap(), NodeTarget::Object);
    assert_eq!(put_node(&key, b"n", false, false).unwrap(), NodeTarget::Object);
    assert_eq!(put_node(&key, b"m", false, false).unwrap_err().code, ErrorCode::CorruptNode);
    assert!(node_name(&key).unwrap() == cid(b"n"));
    assert_eq!(
        node_name(&key[..31]).unwrap_err().message,
        "Prolly node key has 31 bytes, expected 32"
    );
    assert_eq!(get_uncached_direct(&key, Some(b"n".to_vec())).unwrap(), Some(b"n".to_vec()));
    assert!(get_uncached_direct(&key, Some(b"m".to_vec())).is_err());
    assert_eq!(get_uncached_direct(&key, None).unwrap(), None);
    assert!(deleted_node(DeleteOutcome::NotFound).is_ok());
    assert_eq!(
        deleted_node(DeleteOutcome::TokenMismatch).unwrap_err().code,
        ErrorCode::RefConflict
    );
}

#[test]
fn the_provider_is_asked_last() {
    let tiers = packed_tiers();
    let lock = tiers.iter().position(|t| *t == NodeTier::FetchLock).unwrap();
    let range = tiers.iter().position(|t| *t == NodeTier::Range).unwrap();
    assert!(lock < range);
    assert!(tiers[lock..range].contains(&NodeTier::Cache));
    assert_eq!(*tiers.last().unwrap(), NodeTier::Object);
}

#[test]
fn a_pack_at_hand_gives_its_nodes() {
    let nodes = vec![
        PendingNode { cid: cid(b"one"), bytes: b"one".to_vec() },
        PendingNode { cid: cid(b"three"), bytes: b"three".to_vec() },
    ];
    let mut pack = prepare_node_pack::<u8>(TreeFormatDigest::from_hash([7; 32]), &nodes, &Vec::new())
        .unwrap()
        .unwrap();
    assert_eq!(packed_node(&pack, &cid(b"one")).unwrap(), b"one");
    assert_eq!(packed_node(&pack, &cid(b"three")).unwrap(), b"three");
    assert!(packed_node(&pack, &cid(b"two")).is_none());
    pack.payload.truncate(4);
    assert!(packed_node(&pack, &cid(b"three")).is_none());
    assert_eq!(node_region(Some(9)).unwrap(), 9);
    assert_eq!(node_region(None).unwrap_err().code, ErrorCode::CorruptCommit);
}

#[test]
fn nodes_of_their_own_are_cached_too() {
    assert_eq!(
        direct_tiers(),
        vec![NodeTier::Cache, NodeTier::FetchLock, NodeTier::Cache, NodeTier::Object]
    );
    let offered: Vec<NodeTier> = packed_tiers().into_iter().filter(|t| is_offered(*t)).collect();
    assert_eq!(
        offered,
        vec![NodeTier::PackCache, NodeTier::PackCache, NodeTier::Range, NodeTier::Object]
    );
}
