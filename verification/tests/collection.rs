use prolly_s3_core::error::{ErrorCode, RetryAdvice};
use prolly_s3_core::gc::{
    gc_mark_commit, gc_mark_node, gc_queue_roots, GcCandidate, GcCommit, GcCoordinator, GcCursor,
    GcEntry, GcNode, GcNodeWork, GcPhase,
};
use prolly_s3_core::gc_run::{
    caught_up_with, coordinator_written, dirty_root_event, dirty_root_sequence,
    expired_ticket_deleted, finish_catch_up, finish_commit_marking, finish_discovery,
    finish_drain, finish_node_marking, finish_scan, keeps_candidate,
    next_dirty_sequence, record_candidate, sweep_deletion, sweep_key, GcDirtyRoot, SweepRun, SweepStart,
    GcPublicationTicket, GcWork, ListedObject, SweepKey,
};
use prolly_s3_core::ids::{Cid, CommitId, OperationId, RepositoryId, TreeFormatDigest};
use prolly_s3_core::keys::{
    gc_candidate_key, gc_commit_mark_key, gc_path_mark_key, gc_physical_mark_key,
};
use prolly_s3_core::model::{
    CanonicalLimits, DeleteOutcome, PayloadBinding, PhysicalVersion, RootManifest, StorageToken,
};
use prolly_s3_core::paths::{
    commit_path, gc_cursor_path, gc_dirty_root_sequence_prefix, path_for_key,
};
use prolly_s3_core::repository::{
    ProviderPerKeyVersionLimit, Repository, RepositoryFormat, RepositoryOptions,
};
use prolly_s3_core::tickets::{needs_ticket, ticket_released, HeldTickets, MutableControlKind};
use prolly_s3_core::tree::Mutation;
use std::collections::BTreeMap;

fn limits() -> CanonicalLimits {
    CanonicalLimits {
        max_key_bytes: 64,
        max_object_bytes: 1_000,
        max_mutations_per_commit: 4,
        max_delete_objects: 3,
        max_list_page: 10,
    }
}

fn options() -> RepositoryOptions {
    RepositoryOptions {
        repository_prefix: ".prolly".to_string(),
        default_branch: "main".to_string(),
        writer: "writer-1".to_string(),
        limits: limits(),
        state_tree_format: vec![1, 2, 3],
        authority_lease_millis: 60_000,
        read_only: false,
        max_cached_node_pack_bytes: 1,
        max_cached_node_locations: 1,
        max_cached_node_bytes: 1,
        mutable_control_versions_to_retain: 2,
        journal_index_max_unindexed_events: 1,
        operation_index_leaf_entries: 1,
        operation_index_merge_fanout: 2,
        operation_index_max_unindexed_events: 1,
        idempotency_retention: vec![9],
        provider_per_key_version_limit: ProviderPerKeyVersionLimit::Unlimited,
    }
}

fn format_of(id: u8) -> RepositoryFormat {
    RepositoryFormat {
        repository_id: RepositoryId::from_hash([id; 32]),
        state_tree_format: vec![1, 2, 3],
        state_tree_digest: TreeFormatDigest::from_hash([7; 32]),
        canonical_limits: limits(),
        idempotency_retention: vec![9],
        provider_per_key_version_limit: ProviderPerKeyVersionLimit::Unlimited,
        created_at_millis: 5,
    }
}

fn repository(id: u8) -> Repository {
    Repository::from_format(options(), format_of(id))
}

fn root(byte: u8) -> RootManifest {
    RootManifest {
        root: Some(Cid::from_hash([byte; 32])),
        format_digest: TreeFormatDigest::from_hash([7; 32]),
    }
}

fn commit_id(byte: u8) -> CommitId {
    CommitId::from_hash([byte; 32])
}

fn epoch() -> OperationId {
    OperationId::from_bytes([3; 16])
}

fn running() -> (Repository, GcCursor) {
    let mut r = repository(1);
    assert_eq!(r.start_gc(10, 100, epoch()).unwrap(), 90);
    let cursor = r.new_gc_cursor(epoch(), 90, root(0));
    (r, cursor)
}

type Tree = BTreeMap<Vec<u8>, GcEntry>;

fn apply(tree: &mut Tree, mutations: Vec<Mutation<GcEntry>>) {
    for mutation in mutations {
        match mutation {
            Mutation::Upsert { key, val } => {
                tree.insert(key, val);
            }
            Mutation::Delete { key } => {
                tree.remove(&key);
            }
        }
    }
}

fn binding(path: &str, version: Option<&str>) -> PayloadBinding {
    PayloadBinding {
        path: path.to_string(),
        checksum_sha256: [1; 32],
        pack_checksum_sha256: None,
        pack_range: None,
        provider_etag: "t".to_string(),
        provider_version_id: version.map(str::to_string),
    }
}

fn listed(path: String, version: Option<&str>, at: u64) -> ListedObject {
    ListedObject {
        path,
        len: 7,
        last_modified_millis: at,
        token: StorageToken {
            etag: "t".to_string(),
            version_id: version.map(str::to_string),
        },
    }
}

fn candidate(path: &str, version: Option<&str>) -> GcCandidate {
    let r = repository(1);
    r.gc_scan_entry(&listed(path.to_string(), version, 1), 9, false, false)
        .unwrap()
}

#[test]
fn collections_begin_one_at_a_time() {
    let mut r = repository(1);
    assert_eq!(r.start_gc(0, 100, epoch()).unwrap_err().code, ErrorCode::InvalidLimit);
    assert_eq!(r.start_gc(101, 100, epoch()).unwrap_err().code, ErrorCode::InvalidLimit);
    r.start_gc(10, 100, epoch()).unwrap();
    assert_eq!(
        r.start_gc(10, 100, epoch()).unwrap_err().message,
        "another GC epoch is active"
    );
    r.clear_gc_epoch();
    r.writable = false;
    assert_eq!(
        r.start_gc(10, 100, epoch()).unwrap_err().code,
        ErrorCode::PreconditionFailed
    );
}

#[test]
fn what_the_references_reach_is_marked_and_kept() {
    let mut tree = Tree::new();
    let leaf = Cid::from_hash([21; 32]);
    let top = Cid::from_hash([20; 32]);
    let mut mutations = Vec::new();
    assert_eq!(gc_queue_roots(&mut mutations, commit_id(2), None, false), 1);
    apply(&mut tree, mutations);
    let commits = |id: CommitId| GcCommit {
        parents: if id == commit_id(2) {
            vec![commit_id(1)]
        } else {
            Vec::new()
        },
        objects: None,
        versions: Some(top),
    };
    let nodes = |cid: Cid| {
        if cid == top {
            GcNode::Inner {
                children: vec![leaf],
            }
        } else {
            GcNode::Leaf {
                bindings: vec![
                    Some(binding(".prolly/payloads/a", Some("v1"))),
                    Some(binding(".prolly/payloads/b", None)),
                    None,
                ],
            }
        }
    };
    loop {
        let work = tree.iter().find_map(|(key, entry)| match entry {
            GcEntry::Mark => None,
            other => Some((key.clone(), *other)),
        });
        let Some((key, work)) = work else {
            break;
        };
        let mutations = match work {
            GcEntry::Commit(id) => {
                if tree.contains_key(&gc_commit_mark_key(id)) {
                    gc_mark_commit(".prolly", &key, id, None)
                } else {
                    gc_mark_commit(".prolly", &key, id, Some(&commits(id)))
                }
            }
            GcEntry::Node(node) => gc_mark_node(".prolly", &key, node, Some(&nodes(node.cid))),
            GcEntry::Mark => unreachable!(),
        };
        apply(&mut tree, mutations);
    }
    for id in [commit_id(1), commit_id(2)] {
        assert!(tree.contains_key(&gc_path_mark_key(&commit_path(".prolly", id))));
    }
    for cid in [top, leaf] {
        let path = path_for_key(".prolly", cid.as_bytes()).unwrap();
        assert!(tree.contains_key(&gc_path_mark_key(&path)));
    }
    assert!(tree.contains_key(&gc_physical_mark_key(".prolly/payloads/a", "v1")));
    assert!(!tree.contains_key(&gc_path_mark_key(".prolly/payloads/a")));
    assert!(tree.contains_key(&gc_path_mark_key(".prolly/payloads/b")));
    let old = candidate(".prolly/payloads/a", Some("v0"));
    let marked = |c: &GcCandidate| {
        let by_path = tree.contains_key(&gc_path_mark_key(&c.path));
        let by_version = match &c.physical_version {
            PhysicalVersion::Versioned { version_id } => {
                tree.contains_key(&gc_physical_mark_key(&c.path, version_id))
            }
            PhysicalVersion::Unversioned { .. } => false,
        };
        keeps_candidate(c, by_path, by_version)
    };
    assert!(!marked(&old));
    assert!(marked(&candidate(".prolly/payloads/a", Some("v1"))));
    assert!(marked(&candidate(".prolly/payloads/b", Some("any"))));
}

#[test]
fn roots_of_deleted_references_are_kept_for_their_log() {
    let mut mutations = Vec::new();
    let queued = gc_queue_roots(&mut mutations, commit_id(1), Some(commit_id(2)), true);
    assert_eq!(queued as usize, mutations.len());
    let mut mutations = Vec::new();
    assert_eq!(
        gc_queue_roots(&mut mutations, commit_id(1), Some(commit_id(2)), false),
        2
    );
}

#[test]
fn only_old_unmarked_managed_objects_are_candidates() {
    let r = repository(1);
    let path = || ".prolly/nodes/sha256/aa/bb/x".to_string();
    assert!(r.gc_scan_entry(&listed(path(), None, 9), 9, false, false).is_some());
    assert!(r.gc_scan_entry(&listed(path(), None, 10), 9, false, false).is_none());
    assert!(r.gc_scan_entry(&listed(path(), None, 9), 9, true, false).is_none());
    assert!(r.gc_scan_entry(&listed(path(), None, 9), 9, false, true).is_some());
    assert!(r.gc_scan_entry(&listed(path(), Some("v"), 9), 9, false, true).is_none());
    assert!(r
        .gc_scan_entry(&listed(".prolly/refs/heads/x".to_string(), None, 1), 9, false, false)
        .is_none());
}

#[test]
fn phases_follow_each_other() {
    let (r, mut c) = running();
    assert_eq!(r.advance_gc(&c, 1).unwrap(), GcWork::DrainTickets);
    assert_eq!(r.advance_gc(&c, 0).unwrap_err().code, ErrorCode::InvalidLimit);
    finish_drain(&mut c, None, true);
    assert_eq!(r.advance_gc(&c, 1).unwrap(), GcWork::DiscoverBranches);
    finish_discovery(&mut c, false, 2, root(1), Some("more".to_string()));
    assert_eq!(c.phase, GcPhase::DiscoverBranches);
    finish_discovery(&mut c, false, 1, root(1), None);
    assert_eq!(c.report.roots, 3);
    assert_eq!(r.advance_gc(&c, 1).unwrap(), GcWork::DiscoverTags);
    finish_discovery(&mut c, true, 0, root(1), None);
    assert_eq!(r.advance_gc(&c, 1).unwrap(), GcWork::MarkCommits);
    finish_commit_marking(&mut c, 5, root(2), true);
    assert_eq!(r.advance_gc(&c, 1).unwrap(), GcWork::MarkNodes);
    finish_node_marking(&mut c, 4, 9, root(3), true);
    assert_eq!(c.report.logical_versions, 9);
    assert_eq!(r.advance_gc(&c, 1).unwrap(), GcWork::ScanCandidates);
    record_candidate(&mut c.report, &candidate(".prolly/payloads/a", None));
    assert_eq!(c.report.candidate_bytes, 7);
    assert_eq!(c.report.candidates_by_kind.payloads, 1);
    finish_scan(&mut c, root(4), None);
    assert!(c.initial_scan_complete);
    assert_eq!(r.advance_gc(&c, 1).unwrap(), GcWork::CatchUpDirtyRoots);
    r.begin_catch_up(&mut c);
    assert_eq!(next_dirty_sequence(&c), None);
    finish_catch_up(&mut c, root(5), false);
    assert_eq!(c.phase, GcPhase::Ready);
    assert_eq!(r.advance_gc(&c, 1).unwrap(), GcWork::Idle { complete: false });
}

#[test]
fn moved_roots_are_caught_up_with_before_the_sweep() {
    let (mut r, mut c) = running();
    c.publication_barrier_drained = true;
    c.phase = GcPhase::Ready;
    c.initial_scan_complete = true;
    r.observe_dirty_sequence(2);
    let SweepStart::Restarted(page) = r.sweep_gc(c, 10).unwrap() else {
        panic!("the collection must catch up");
    };
    assert!(page.restarted_for_new_roots && page.processed == 0);
    c = page.cursor;
    assert_eq!(c.phase, GcPhase::CatchUpDirtyRoots);
    assert_eq!(next_dirty_sequence(&c), Some(1));
    let event = GcDirtyRoot {
        repository: RepositoryId::from_hash([1; 32]),
        epoch: epoch(),
        sequence: 1,
        target: commit_id(1),
        previous_target: None,
    };
    assert!(r.check_dirty_root(&c, 1, &event).is_ok());
    assert_eq!(
        r.check_dirty_root(&c, 2, &event).unwrap_err().code,
        ErrorCode::CorruptCommit
    );
    caught_up_with(&mut c, 1, 1);
    caught_up_with(&mut c, 2, 1);
    assert_eq!(c.report.dirty_roots, 2);
    finish_catch_up(&mut c, root(6), true);
    assert_eq!(c.phase, GcPhase::MarkCommits);
    finish_commit_marking(&mut c, 0, root(6), true);
    finish_node_marking(&mut c, 0, 0, root(6), true);
    assert_eq!(c.phase, GcPhase::CatchUpDirtyRoots);
    finish_catch_up(&mut c, root(6), false);
    assert_eq!(sweeping(&r, c, 10).cursor.phase, GcPhase::Sweeping);
}

fn sweeping(r: &Repository, c: GcCursor, most: usize) -> SweepRun {
    match r.sweep_gc(c, most).unwrap() {
        SweepStart::Sweep(run) => run,
        SweepStart::Restarted(_) => panic!("nothing moved"),
    }
}

#[test]
fn the_sweep_goes_on_and_counts() {
    let (r, mut c) = running();
    c.phase = GcPhase::MarkNodes;
    assert_eq!(
        r.sweep_gc(c.clone(), 1).unwrap_err().message,
        "GC must finish marking before sweeping"
    );
    c.phase = GcPhase::Ready;
    assert_eq!(r.sweep_gc(c.clone(), 0).unwrap_err().code, ErrorCode::InvalidLimit);
    assert!(r.sweep_gc(c.clone(), 1_001).is_err());
    let mut run = sweeping(&r, c, 4);
    let one = candidate(".prolly/nodes/sha256/x", None);
    let key = gc_candidate_key(b"one");
    assert_eq!(sweep_key(&run.cursor, &key), SweepKey::Consider);
    assert_eq!(sweep_key(&run.cursor, b"nm/x"), SweepKey::Stop);
    run.take(key.clone(), &one, Some(DeleteOutcome::Deleted)).unwrap();
    assert_eq!(sweep_key(&run.cursor, &key), SweepKey::Skip);
    run.take(key.clone(), &one, Some(DeleteOutcome::NotFound)).unwrap();
    run.take(key.clone(), &one, None).unwrap();
    assert_eq!(
        run.take(key.clone(), &one, Some(DeleteOutcome::TokenMismatch))
            .unwrap_err()
            .code,
        ErrorCode::PreconditionFailed
    );
    let report = run.cursor.report;
    assert_eq!(report.deleted_versions, 1);
    assert_eq!(report.deleted_bytes, 7);
    assert_eq!(report.deleted_by_kind.nodes, 1);
    assert_eq!(report.already_missing, 1);
    assert_eq!(report.skipped_reachable, 1);
    let page = run.clone().finish();
    assert_eq!(page.processed, 3);
    assert_eq!(page.cursor.phase, GcPhase::Cleanup);
    run.take(key, &one, None).unwrap();
    assert!(!run.wants_key());
    let page = run.finish();
    assert_eq!(page.processed, 4);
    assert_eq!(page.cursor.phase, GcPhase::Sweeping);
}

#[test]
fn a_collection_is_found_again_after_a_restart() {
    let (r, mut c) = running();
    c.phase = GcPhase::MarkNodes;
    let closed = r.publish_gc_coordinator(None, Some(epoch()), 5).unwrap();
    let mut reopened = repository(1);
    assert!(reopened.resume_gc(None).unwrap().is_none());
    assert!(reopened.resume_gc(Some(c.clone())).unwrap().is_none());
    reopened.restore_gc_state(Some(closed)).unwrap();
    let found = reopened.resume_gc(Some(c.clone())).unwrap().unwrap();
    assert_eq!(found.phase, GcPhase::MarkNodes);
    assert!(reopened.validate_gc_cursor(&found).is_ok());
    assert_eq!(
        repository(2).resume_gc(Some(c)).unwrap_err().code,
        ErrorCode::InvalidContinuationToken
    );
    assert_eq!(gc_cursor_path(".prolly"), ".prolly/gc/cursor.cbor");
}

#[test]
fn the_sweep_deletes_exactly_what_is_not_marked() {
    let one = candidate(".prolly/nodes/sha256/x", Some("v7"));
    assert!(sweep_deletion(&one, true, false).is_none());
    assert!(sweep_deletion(&one, false, true).is_none());
    let gone = sweep_deletion(&one, false, false).unwrap();
    assert_eq!(gone.path, ".prolly/nodes/sha256/x");
    assert_eq!(gone.version, one.physical_version);
    assert!(sweep_deletion(&candidate(".prolly/nodes/sha256/x", None), false, true).is_some());
}

#[test]
fn a_collection_ends_when_nothing_is_left() {
    let (mut r, mut c) = running();
    c.phase = GcPhase::Cleanup;
    r.finish_cleanup(&mut c, &vec![DeleteOutcome::Deleted]).unwrap();
    assert_eq!(c.phase, GcPhase::Cleanup);
    assert!(r
        .finish_cleanup(&mut c, &vec![DeleteOutcome::TokenMismatch])
        .is_err());
    r.finish_cleanup(&mut c, &Vec::new()).unwrap();
    assert_eq!(c.phase, GcPhase::Complete);
    assert!(r.active_gc_epoch.is_none());
    assert_eq!(
        r.validate_gc_cursor(&c).unwrap_err().code,
        ErrorCode::InvalidContinuationToken
    );
}

#[test]
fn publications_wait_for_a_collection() {
    let (r, _) = running();
    let closed = r.publish_gc_coordinator(None, Some(epoch()), 5).unwrap();
    assert_eq!(closed.generation, 1);
    let error = r.admit_publication(Some(&closed)).unwrap_err();
    assert_eq!(error.retry, RetryAdvice::AfterMillis(250));
    let open = r.publish_gc_coordinator(Some(closed), None, 6).unwrap();
    assert_eq!(open.generation, 2);
    assert!(r.admit_publication(Some(&open)).is_ok());
    assert!(r.admit_publication(None).is_ok());
    let other = GcCoordinator {
        repository: RepositoryId::from_hash([2; 32]),
        generation: 1,
        active_epoch: None,
        admission_closed: false,
        updated_at_millis: 0,
    };
    assert!(r.admit_publication(Some(&other)).is_err());
    assert_eq!(
        r.publish_gc_coordinator(Some(other), None, 6).unwrap_err().code,
        ErrorCode::CorruptCommit
    );
}

#[test]
fn a_restarted_process_finds_the_collection() {
    let (r, _) = running();
    let closed = r.publish_gc_coordinator(None, Some(epoch()), 5).unwrap();
    let mut fresh = repository(1);
    assert!(fresh.restore_gc_state(Some(closed)).unwrap() == Some(epoch()));
    assert!(fresh.active_gc_epoch == Some(epoch()));
    assert!(fresh.restore_gc_state(None).unwrap().is_none());
}

#[test]
fn tickets_hold_a_collection_back_until_they_expire() {
    let (r, _) = running();
    let ticket = r
        .publication_ticket(OperationId::from_bytes([7; 16]), [1; 32], 100, 50)
        .unwrap();
    assert_eq!(ticket.expires_at_millis, 150);
    assert!(r.ticket_blocks(&ticket, 149).unwrap());
    assert!(!r.ticket_blocks(&ticket, 150).unwrap());
    let foreign = GcPublicationTicket {
        repository: RepositoryId::from_hash([2; 32]),
        ..ticket
    };
    assert_eq!(
        r.ticket_blocks(&foreign, 1).unwrap_err().code,
        ErrorCode::CorruptCommit
    );
    assert_eq!(
        r.publication_ticket(epoch(), [1; 32], u64::MAX, 1).unwrap_err().message,
        "publication ticket expiry overflow"
    );
}

#[test]
fn the_last_holder_releases_a_ticket() {
    let mut held = HeldTickets::new();
    let version = || PhysicalVersion::Versioned {
        version_id: "v".to_string(),
    };
    held.hold([1; 32], "p".to_string(), version());
    held.hold([1; 32], "other".to_string(), version());
    held.hold([2; 32], "q".to_string(), version());
    assert!(held.release(&[1; 32]).is_none());
    let last = held.release(&[1; 32]).unwrap();
    assert_eq!(last.path, "p");
    assert_eq!(last.version, version());
    assert!(held.release(&[1; 32]).is_none());
    assert_eq!(held.release(&[2; 32]).unwrap().path, "q");
    assert!(needs_ticket(MutableControlKind::BranchRef));
    assert!(needs_ticket(MutableControlKind::TagRef));
    assert!(!needs_ticket(MutableControlKind::Other));
    assert!(ticket_released(DeleteOutcome::NotFound).is_ok());
    assert!(ticket_released(DeleteOutcome::TokenMismatch).is_err());
}

#[test]
fn dirty_paths_give_back_their_number() {
    let path = format!(
        "{}main/id",
        gc_dirty_root_sequence_prefix(".prolly", epoch(), 42)
    );
    assert_eq!(dirty_root_sequence(&path).unwrap(), 42);
    assert_eq!(
        dirty_root_sequence("x").unwrap_err().code,
        ErrorCode::CorruptCommit
    );
    assert!(dirty_root_sequence("a/b/c").is_err());
    let work = GcNodeWork {
        cid: Cid::from_hash([1; 32]),
        scan_versions: false,
    };
    assert_eq!(gc_mark_node(".prolly", b"nq/x", work, None).len(), 1);
}

#[test]
fn what_changed_meanwhile_is_refused() {
    assert!(coordinator_written(true).is_ok());
    assert_eq!(
        coordinator_written(false).unwrap_err().code,
        ErrorCode::RefConflict
    );
    assert!(expired_ticket_deleted(DeleteOutcome::Deleted).is_ok());
    assert!(expired_ticket_deleted(DeleteOutcome::NotFound).is_ok());
    assert_eq!(
        expired_ticket_deleted(DeleteOutcome::TokenMismatch).unwrap_err().code,
        ErrorCode::PreconditionFailed
    );
    assert_eq!(dirty_root_event(Some(vec![1])).unwrap(), vec![1]);
    assert_eq!(
        dirty_root_event(None).unwrap_err().code,
        ErrorCode::MissingClosure
    );
}
