use prolly_s3_core::backup::{
    check_backup_metadata, check_backup_pages, compare_backup_bytes, finish_backup_page,
};
use prolly_s3_core::batches::BatchEnd;
use prolly_s3_core::closure::{CommitClosureCursor, CommitClosurePage};
use prolly_s3_core::diffs::ObjectDiff;
use prolly_s3_core::error::ErrorCode;
use prolly_s3_core::fsck::{
    checkpoint_stored, finish_fsck_entries, fsck_commits, record_fsck_entry, verify_payload_metadata, FsckCursor,
    FsckPhase, PayloadFacts,
};
use prolly_s3_core::fsck_run::{fsck_payload_key, FsckRun};
use prolly_s3_core::ids::{
    BatchId, Cid, CommitGeneration, CommitId, ObjectVersionId, OperationId, RefGeneration,
    RepositoryId, TreeFormatDigest,
};
use prolly_s3_core::merge_plan::Diff;
use prolly_s3_core::model::{
    AuthorityScope, AuthorityStamp, BucketCommit, BucketState, CanonicalLimits, Checksums,
    CommitReceipt, CommitSessionState, LogicalObjectVersionBody, LogicalObjectVersionKind,
    MetadataEntry, NodePackRef, ObjectAttributes, ObjectHeaders, ObjectTransition, ObjectVersion,
    PayloadBinding, PhysicalMetadata, RootManifest, StagedMutation, StorageToken,
};
use prolly_s3_core::objects::{ObjectData, ObjectSummary};
use prolly_s3_core::pack_stats::{encode_seen, PayloadPackStats, SeenPayload};
use prolly_s3_core::repair::{
    begin_copy_page, begin_removal_page, check_repair_head, check_repair_request, end_copy_page,
    end_removal_page, must_copy, next_repair_batch, published_repair_batch, repair_source,
    stage_copy, stage_removal, RepairCursor, RepairPhase,
};
use prolly_s3_core::repository::{
    ProviderPerKeyVersionLimit, Repository, RepositoryFormat, RepositoryOptions,
};
use prolly_s3_core::restore::{
    check_reset_head, check_restore_head, check_restore_start, find_in_reflog, next_restore_batch,
    published_restore_batch, recover_branch, ref_move_receipt, stage_restore, JournalEntry,
};
use prolly_s3_core::session::CommitSessionCheckpoint;
use prolly_s3_core::transfer::{
    advance_history_transfer_union, begin_transfer_commit, check_external_transition,
    check_transfer_generation, check_transfer_head, check_transfer_start, count_payload,
    finish_import, finish_transfer_union_page, finish_transition_page,
    external_transitions, history_transfer_version_operation, import_history_transition, inline_transitions,
    mapped_new_version, mapped_parents, next_union_parent, note_origin, payload_to_copy,
    publish_history_transfer, rebound_draft, source_delete_key, source_version, take_pending,
    transfer_start, transfer_walk_went_on, transferred_commit, HistoryTransferCursor, HistoryTransferPhase,
    TransferWork,
};
use prolly_s3_core::tree::Mutation;
use prolly_s3_core::version_key::ObjectVersionOrder;
use prolly_s3_core::texts::NamedTexts;
use std::sync::Arc;

fn limits() -> CanonicalLimits {
    CanonicalLimits {
        max_key_bytes: 64,
        max_object_bytes: 1_000,
        max_mutations_per_commit: 4,
        max_delete_objects: 3,
        max_list_page: 10,
    }
}

fn options() -> RepositoryOptions {
    RepositoryOptions {
        repository_prefix: ".prolly".to_string(),
        default_branch: "main".to_string(),
        writer: "writer-1".to_string(),
        limits: limits(),
        state_tree_format: vec![1, 2, 3],
        authority_lease_millis: 60_000,
        read_only: false,
        max_cached_node_pack_bytes: 1,
        max_cached_node_locations: 1,
        max_cached_node_bytes: 1,
        mutable_control_versions_to_retain: 2,
        journal_index_max_unindexed_events: 1,
        operation_index_leaf_entries: 1,
        operation_index_merge_fanout: 2,
        operation_index_max_unindexed_events: 1,
        idempotency_retention: vec![9],
        provider_per_key_version_limit: ProviderPerKeyVersionLimit::Unlimited,
    }
}

fn format_of(id: u8) -> RepositoryFormat {
    RepositoryFormat {
        repository_id: RepositoryId::from_hash([id; 32]),
        state_tree_format: vec![1, 2, 3],
        state_tree_digest: TreeFormatDigest::from_hash([7; 32]),
        canonical_limits: limits(),
        idempotency_retention: vec![9],
        provider_per_key_version_limit: ProviderPerKeyVersionLimit::Unlimited,
        created_at_millis: 5,
    }
}

fn repository(id: u8) -> Repository {
    Repository::from_format(options(), format_of(id))
}

fn root(byte: u8) -> RootManifest {
    RootManifest {
        root: Some(Cid::from_hash([byte; 32])),
        format_digest: TreeFormatDigest::from_hash([7; 32]),
    }
}

fn commit_id(byte: u8) -> CommitId {
    CommitId::from_hash([byte; 32])
}

fn binding(path: &str) -> PayloadBinding {
    PayloadBinding {
        path: path.to_string(),
        checksum_sha256: [1; 32],
        pack_checksum_sha256: None,
        pack_range: None,
        provider_etag: "tag".to_string(),
        provider_version_id: None,
    }
}

fn packed(path: &str, start: u64, end: u64) -> PayloadBinding {
    let mut b = binding(path);
    b.pack_checksum_sha256 = Some([2; 32]);
    b.pack_range = Some((start, end));
    b
}

fn kind(size: u64, etag: &str) -> LogicalObjectVersionKind {
    LogicalObjectVersionKind::Live {
        size,
        logical_etag: etag.to_string(),
        checksums: Checksums {
            md5: None,
            sha256: Some([1; 32]),
        },
        attributes: Arc::new(ObjectAttributes {
            headers: ObjectHeaders { fields: NamedTexts::new() },
            user_metadata: NamedTexts::new(),
            tags: NamedTexts::new(),
            algorithm_values: NamedTexts::new(),
        }),
    }
}

fn version(id: u8, kind: LogicalObjectVersionKind, binding: Option<PayloadBinding>) -> ObjectVersion {
    ObjectVersion {
        id: ObjectVersionId::from_hash([id; 32]),
        body: LogicalObjectVersionBody {
            order: ObjectVersionOrder {
                commit_generation: CommitGeneration(1),
                mutation_ordinal: 0,
            },
            created_at_millis: 1,
            kind,
        },
        binding,
    }
}

fn metadata(len: u64, sha256: u8) -> PhysicalMetadata {
    PhysicalMetadata {
        len,
        sha256: [sha256; 32],
        token: StorageToken {
            etag: "tag".to_string(),
            version_id: None,
        },
    }
}

fn stamp() -> AuthorityStamp {
    AuthorityStamp {
        scope: AuthorityScope::Branch {
            name: "main".to_string(),
        },
        writer_id: "w".to_string(),
        epoch: 1,
    }
}

fn commit(r: &Repository, parents: Vec<CommitId>, nodes: u32) -> BucketCommit {
    let mut c = r.first_commit(root(0), [0; 32], stamp());
    c.parents = parents;
    c.node_pack = Some(NodePackRef {
        id: [0; 32],
        object_len: 1,
        node_count: nodes,
    });
    c
}

fn closure(r: &Repository) -> CommitClosureCursor {
    r.start_commit_closure(OperationId::from_bytes([1; 16]), root(0), 1).unwrap()
}

fn checkpoint(r: &Repository, sequence: u64, mutations: Vec<StagedMutation>) -> CommitSessionCheckpoint {
    CommitSessionCheckpoint {
        session: r
            .begin_commit_session(
                BatchId::from_bytes([sequence as u8; 16]),
                "main",
                commit_id(1),
                OperationId::from_bytes([5; 16]),
                stamp(),
                "m",
                1,
                1,
            )
            .unwrap(),
        sequence,
        mutations,
        state: CommitSessionState::Open,
    }
}

fn receipt(id: u8) -> CommitReceipt {
    CommitReceipt {
        id: commit_id(id),
        operation: OperationId::from_bytes([5; 16]),
        branch: "main".to_string(),
        parents: Vec::new(),
        changed_keys: 1,
        object_versions: Vec::new(),
        idempotent_replay: false,
    }
}

fn job() -> OperationId {
    OperationId::from_bytes([6; 16])
}

fn fsck(r: &Repository) -> FsckCursor {
    r.start_fsck("main", commit_id(1), job(), closure(r), root(0), false).unwrap()
}

#[test]
fn checks_walk_commits_then_objects_then_versions() {
    let r = repository(1);
    let c = fsck(&r);
    assert_eq!(r.advance_fsck(&c, Some(1), 1).unwrap(), FsckPhase::DiscoverCommits);
    assert_eq!(r.advance_fsck(&c, Some(1), 0).unwrap_err().code, ErrorCode::InvalidLimit);
    assert_eq!(
        repository(2).advance_fsck(&c, Some(1), 1).unwrap_err().code,
        ErrorCode::InvalidContinuationToken
    );
    let page = CommitClosurePage {
        commits: vec![
            (commit_id(1), commit(&r, Vec::new(), 3)),
            (commit_id(2), commit(&r, Vec::new(), 4)),
        ],
        cursor: closure(&r),
        steps: 4,
        complete: true,
        budget_exhausted: false,
    };
    let next = fsck_commits(c, &page).unwrap();
    assert_eq!(next.processed, 4);
    assert_eq!(next.cursor.report.commits, 2);
    assert_eq!(next.cursor.report.reachable_nodes, 7);
    assert_eq!(next.cursor.phase, FsckPhase::VerifyObjects);
    let facts = PayloadFacts {
        payloads: 1,
        bytes: 5,
        deep_bytes: 0,
    };
    let v = version(1, kind(5, "e"), Some(packed("p", 0, 4)));
    let c = record_fsck_entry(next.cursor, b"k".to_vec(), &v, facts, true).unwrap();
    assert_eq!(c.report.current_objects, 1);
    assert_eq!(c.report.packed_payloads_verified, 1);
    assert_eq!(c.report.packed_logical_bytes_verified, 5);
    let page = finish_fsck_entries(c, 1, 2).unwrap();
    assert!(!page.complete);
    assert_eq!(page.cursor.phase, FsckPhase::VerifyVersions);
    let c = record_fsck_entry(page.cursor, b"v".to_vec(), &v, facts, false).unwrap();
    assert_eq!(c.report.logical_versions, 1);
    assert_eq!(c.report.payload_bytes_verified, 10);
    assert!(finish_fsck_entries(c, 1, 2).unwrap().complete);
}

#[test]
fn a_payload_is_read_once() {
    let r = repository(1);
    let mut cursor = fsck(&r);
    cursor.phase = FsckPhase::VerifyObjects;
    let facts = PayloadFacts {
        payloads: 1,
        bytes: 5,
        deep_bytes: 5,
    };
    let one = version(1, kind(5, "e"), Some(binding("one")));
    let two = version(2, kind(5, "f"), Some(binding("two")));
    let gone = version(3, LogicalObjectVersionKind::DeleteMarker, None);
    let nothing = PayloadFacts {
        payloads: 0,
        bytes: 0,
        deep_bytes: 0,
    };
    let mut run = FsckRun::new(cursor, 5);
    assert!(run.needs_read(&one, false) && !run.needs_read(&one, true));
    run = run.record(b"a".to_vec(), &one, facts, false).unwrap();
    assert!(!run.needs_read(&one, false) && run.needs_read(&two, false));
    run = run.record(b"b".to_vec(), &two, facts, false).unwrap();
    run = run.record(b"c".to_vec(), &one, facts, false).unwrap();
    assert!(!run.needs_read(&gone, false));
    run = run.record(b"d".to_vec(), &gone, nothing, false).unwrap();
    assert_eq!(run.mutations.len(), 2);
    let page = run.finish(root(1)).unwrap();
    assert_eq!(page.processed, 4);
    assert_eq!(page.cursor.phase, FsckPhase::VerifyVersions);
    assert!(page.cursor.seen == root(1));
    let mut run = FsckRun::new(page.cursor, 2);
    run = run.record(b"v".to_vec(), &one, facts, true).unwrap();
    run = run.record(b"w".to_vec(), &two, facts, true).unwrap();
    assert!(!run.wants_entry() && run.mutations.is_empty());
    let report = run.finish(root(1)).unwrap().cursor.report;
    assert_eq!(report.physical_payloads_verified, 2);
    assert_eq!(report.deep_physical_bytes_read, 10);
    assert_eq!(report.payloads_verified, 5);
    assert_eq!(report.deep_content_bytes_verified, 25);
    let shared = version(4, kind(5, "e"), Some(packed("pack", 0, 4)));
    let key = fsck_payload_key(&shared).unwrap();
    assert_ne!(key, fsck_payload_key(&version(4, kind(5, "e"), Some(packed("pack", 5, 9)))).unwrap());
    assert!(fsck_payload_key(&gone).is_none());
}

#[test]
fn a_superseded_check_is_fenced() {
    let r = repository(1);
    let initial = fsck(&r);
    assert_eq!(initial.checkpoint_generation, 1);
    let page = CommitClosurePage {
        commits: Vec::new(),
        cursor: closure(&r),
        steps: 1,
        complete: false,
        budget_exhausted: true,
    };
    let first = fsck_commits(initial.clone(), &page).unwrap().cursor;
    assert_eq!(first.checkpoint_generation, 2);
    assert_eq!(
        r.advance_fsck(&initial, Some(2), 1).unwrap_err().code,
        ErrorCode::RefConflict
    );
    assert_eq!(r.advance_fsck(&first, Some(2), 1).unwrap(), FsckPhase::DiscoverCommits);
    assert_eq!(r.advance_fsck(&first, None, 1).unwrap_err().code, ErrorCode::RefConflict);
    assert!(checkpoint_stored(true).is_ok());
    assert_eq!(checkpoint_stored(false).unwrap_err().code, ErrorCode::RefConflict);
    let resumed = r.resume_fsck(job(), Some(first.clone())).unwrap().unwrap();
    assert_eq!(resumed.checkpoint_generation, 2);
    assert!(r.resume_fsck(job(), None).unwrap().is_none());
    assert!(r.resume_fsck(OperationId::from_bytes([7; 16]), Some(first.clone())).is_err());
    assert_eq!(
        r.forget_fsck(&Some(first.clone())).unwrap_err().code,
        ErrorCode::PreconditionFailed
    );
    let done = FsckCursor {
        phase: FsckPhase::Complete,
        ..first.clone()
    };
    assert!(r.forget_fsck(&Some(done)).unwrap());
    assert!(!r.forget_fsck(&None).unwrap());
    assert_eq!(
        r.fsck_checkpoint_path(job()),
        ".prolly/administration/fsck/06060606-0606-0606-0606-060606060606/cursor.cbor"
    );
    let last = FsckCursor {
        checkpoint_generation: u64::MAX,
        ..first
    };
    assert_eq!(fsck_commits(last.clone(), &page).unwrap_err().code, ErrorCode::InvalidLimit);
    assert!(finish_fsck_entries(last, 1, 1).is_err());
}

#[test]
fn full_counters_are_named() {
    let r = repository(1);
    let mut c = fsck(&r);
    c.phase = FsckPhase::VerifyObjects;
    c.report.payload_bytes_verified = u64::MAX;
    let facts = PayloadFacts {
        payloads: 1,
        bytes: 1,
        deep_bytes: 0,
    };
    let v = version(1, kind(1, "e"), Some(binding("p")));
    let error = record_fsck_entry(c, b"k".to_vec(), &v, facts, true).unwrap_err();
    assert_eq!(error.code, ErrorCode::EntityTooLarge);
    assert_eq!(error.message, "fsck payload-byte counter overflow");
}

#[test]
fn payloads_are_held_against_their_provider() {
    let v = version(1, kind(5, "e"), Some(binding("p")));
    let facts = verify_payload_metadata(&v, "p", Some(&metadata(5, 1)), 0).unwrap();
    assert_eq!((facts.payloads, facts.bytes, facts.deep_bytes), (1, 5, 0));
    let code = |path: &str, m: Option<&PhysicalMetadata>| {
        verify_payload_metadata(&v, path, m, 0).unwrap_err().code
    };
    assert_eq!(code("q", Some(&metadata(5, 1))), ErrorCode::CorruptContent);
    assert_eq!(code("p", None), ErrorCode::MissingClosure);
    assert_eq!(code("p", Some(&metadata(6, 1))), ErrorCode::ChecksumMismatch);
    assert_eq!(code("p", Some(&metadata(5, 9))), ErrorCode::ChecksumMismatch);
    let in_pack = version(1, kind(5, "e"), Some(packed("p", 10, 14)));
    assert!(verify_payload_metadata(&in_pack, "p", Some(&metadata(15, 2)), 5).is_ok());
    assert!(verify_payload_metadata(&in_pack, "p", Some(&metadata(14, 2)), 5).is_err());
    let gone = version(1, LogicalObjectVersionKind::DeleteMarker, None);
    assert_eq!(verify_payload_metadata(&gone, "p", None, 9).unwrap().payloads, 0);
    assert_eq!(
        verify_payload_metadata(&version(1, kind(5, "e"), None), "p", None, 0)
            .unwrap_err()
            .code,
        ErrorCode::CorruptCommit
    );
}

#[test]
fn shared_payloads_are_counted_once() {
    let r = repository(1);
    let c = r
        .start_payload_pack_stats("main", commit_id(1), OperationId::from_bytes([1; 16]), root(0))
        .unwrap();
    let mut run = r.advance_payload_pack_stats(c, 10).unwrap().unwrap();
    let objects = [
        (version(1, kind(5, "a"), Some(packed("pack", 0, 4))), metadata(100, 2)),
        (version(2, kind(5, "a"), Some(packed("pack", 0, 4))), metadata(100, 2)),
        (version(3, kind(7, "b"), Some(packed("pack", 5, 11))), metadata(100, 2)),
        (version(4, kind(9, "c"), Some(binding("alone"))), metadata(9, 1)),
    ];
    for (i, (v, m)) in objects.iter().enumerate() {
        let needed = run.needs_metadata(v.binding.as_ref().unwrap(), false);
        assert_eq!(needed, i == 0 || i == 3);
        run = run
            .inspect(vec![i as u8], v, false, if needed { Some(m) } else { None }, false)
            .unwrap();
    }
    assert_eq!(run.mutations.len(), 4);
    let page = run.finish(root(1));
    let report = page.cursor.report;
    assert_eq!(report.current_objects, 4);
    assert_eq!(report.logical_bytes, 26);
    assert_eq!((report.packed_objects, report.direct_objects), (3, 1));
    assert_eq!(report.packed_logical_bytes, 17);
    assert_eq!((report.unique_physical_objects, report.unique_physical_bytes), (2, 109));
    assert_eq!((report.unique_pack_objects, report.unique_pack_bytes), (1, 100));
    assert_eq!((report.unique_packed_extents, report.unique_packed_extent_bytes), (2, 12));
    assert_eq!(report.pack_utilization_basis_points(), 1_200);
    assert!(page.complete);
    assert!(r.advance_payload_pack_stats(page.cursor, 1).unwrap().is_none());
}

#[test]
fn utilization_is_bounded() {
    let mut stats = PayloadPackStats::new();
    assert_eq!(stats.pack_utilization_basis_points(), 10_000);
    stats.unique_pack_bytes = 3;
    stats.unique_packed_extent_bytes = 1;
    assert_eq!(stats.pack_utilization_basis_points(), 3_333);
    stats.unique_packed_extent_bytes = 9;
    assert_eq!(stats.pack_utilization_basis_points(), 10_000);
    stats.unique_pack_bytes = u64::MAX;
    stats.unique_packed_extent_bytes = u64::MAX;
    assert_eq!(stats.pack_utilization_basis_points(), 1);
    assert_eq!(encode_seen(SeenPayload::Physical { len: 258 }), vec![0, 0, 0, 0, 0, 0, 1, 2]);
    assert!(encode_seen(SeenPayload::Extent).is_empty());
}

#[test]
fn inventories_refuse_what_is_not_there() {
    let r = repository(1);
    let begin = || {
        let c = r
            .start_payload_pack_stats("main", commit_id(1), OperationId::from_bytes([1; 16]), root(0))
            .unwrap();
        r.advance_payload_pack_stats(c, 10).unwrap().unwrap()
    };
    let live = version(1, kind(5, "a"), Some(binding("p")));
    let code = |v: &ObjectVersion, m: Option<&PhysicalMetadata>| {
        begin().inspect(Vec::new(), v, false, m, false).unwrap_err().code
    };
    assert_eq!(code(&live, None), ErrorCode::MissingClosure);
    assert_eq!(code(&live, Some(&metadata(5, 9))), ErrorCode::ChecksumMismatch);
    let gone = version(1, LogicalObjectVersionKind::DeleteMarker, None);
    assert_eq!(code(&gone, None), ErrorCode::CorruptCommit);
    let backwards = version(1, kind(5, "a"), Some(packed("p", 9, 3)));
    assert_eq!(code(&backwards, Some(&metadata(5, 2))), ErrorCode::CorruptContent);
    let c = r
        .start_payload_pack_stats("main", commit_id(1), OperationId::from_bytes([0; 16]), root(0))
        .unwrap();
    assert_eq!(
        r.advance_payload_pack_stats(c, 1).unwrap_err().message,
        "payload-pack stats cursor is malformed"
    );
}

#[test]
fn backups_are_compared_object_by_object() {
    let r = repository(1);
    let other = RepositoryId::from_hash([2; 32]);
    let c = r
        .start_backup_verification(other, "main", commit_id(1), "backup", commit_id(2))
        .unwrap();
    assert!(r.advance_backup_verification(other, &c, 5).unwrap());
    assert!(r.advance_backup_verification(other, &c, 11).is_err());
    assert!(r
        .advance_backup_verification(RepositoryId::from_hash([3; 32]), &c, 5)
        .is_err());
    let summary = |key: &[u8], etag: &str| ObjectSummary {
        key: key.to_vec(),
        version: version(1, kind(2, etag), Some(binding("p"))),
    };
    assert!(check_backup_pages(&vec![summary(b"a", "e")], true, &vec![summary(b"a", "e")], true).is_ok());
    assert!(check_backup_pages(&vec![], true, &vec![], false).is_err());
    assert!(check_backup_pages(&vec![summary(b"a", "e")], true, &vec![], true).is_err());
    assert!(check_backup_metadata(&summary(b"a", "e"), &summary(b"a", "e")).is_ok());
    assert!(check_backup_metadata(&summary(b"a", "e"), &summary(b"b", "e")).is_err());
    assert!(check_backup_metadata(&summary(b"a", "e"), &summary(b"a", "f")).is_err());
    let report = compare_backup_bytes(&c.report, Some(&vec![1, 2]), Some(&vec![1, 2])).unwrap();
    assert_eq!((report.objects_verified, report.content_bytes_verified), (1, 2));
    assert_eq!(
        compare_backup_bytes(&report, Some(&vec![1]), Some(&vec![2])).unwrap_err().message,
        "backup snapshots have different payload bytes"
    );
    assert_eq!(
        compare_backup_bytes(&report, None, Some(&vec![2])).unwrap_err().code,
        ErrorCode::MissingClosure
    );
    let page = finish_backup_page(c, report, 1, Some(b"a".to_vec()), Some(b"a".to_vec()), true);
    assert!(!page.complete);
    assert_eq!(page.cursor.source_after, Some(b"a".to_vec()));
    let page = finish_backup_page(page.cursor, report, 0, None, None, false);
    assert!(page.complete);
    assert!(!r.advance_backup_verification(other, &page.cursor, 5).unwrap());
}

fn repair(r: &Repository) -> RepairCursor {
    r.start_repair_from(
        RepositoryId::from_hash([2; 32]),
        "main",
        commit_id(9),
        "main",
        commit_id(1),
        "fix",
        &checkpoint(r, 0, Vec::new()),
    )
}

#[test]
fn repairs_copy_what_differs_and_delete_the_rest() {
    let r = repository(1);
    let source = RepositoryId::from_hash([2; 32]);
    let mut c = repair(&r);
    assert!(r.advance_repair_from(source, &c, 5).unwrap());
    assert!(r.advance_repair_from(r.format.repository_id, &c, 5).is_err());
    assert_eq!(
        r.repair_page_limit(&c, 9, &checkpoint(&r, 0, vec![StagedMutation::delete(b"x".to_vec())]))
            .unwrap(),
        3
    );
    assert_eq!(
        r.repair_page_limit(&c, 9, &checkpoint(&r, 1, Vec::new())).unwrap_err().code,
        ErrorCode::InvalidContinuationToken
    );
    let full = (0..4u8).map(|i| StagedMutation::delete(vec![i])).collect();
    assert_eq!(
        r.repair_page_limit(&c, 9, &checkpoint(&r, 0, full)).unwrap_err().message,
        "repair checkpoint is full but unpublished"
    );
    let mut mutations = Vec::new();
    begin_copy_page(&mut c, 2, Some(b"b".to_vec())).unwrap();
    assert!(!must_copy(&kind(1, "same"), Some(&kind(1, "same"))));
    assert!(must_copy(&kind(1, "new"), Some(&kind(1, "old"))));
    assert!(must_copy(&kind(1, "new"), None));
    stage_copy(&mut c, &mut mutations, b"b".to_vec(), kind(3, "new"), 3, binding("copy")).unwrap();
    assert_eq!(
        stage_copy(
            &mut c,
            &mut mutations,
            b"c".to_vec(),
            LogicalObjectVersionKind::DeleteMarker,
            0,
            binding("x")
        )
        .unwrap_err()
        .code,
        ErrorCode::CorruptCommit
    );
    end_copy_page(&mut c, false);
    assert_eq!(c.phase, RepairPhase::DeleteDestinationOnly);
    assert_eq!(r.end_repair_batch(&c, &mutations, 0).unwrap(), BatchEnd::Checkpoint { sequence: 1 });
    begin_removal_page(&mut c, 2, Some(b"z".to_vec())).unwrap();
    stage_removal(&mut c, &mut mutations, b"b".to_vec(), true).unwrap();
    stage_removal(&mut c, &mut mutations, b"z".to_vec(), false).unwrap();
    end_removal_page(&mut c, false);
    assert_eq!(c.phase, RepairPhase::Complete);
    assert_eq!(mutations.len(), 2);
    assert_eq!(r.end_repair_batch(&c, &mutations, 1).unwrap(), BatchEnd::Publish);
    assert_eq!(r.end_repair_batch(&c, &Vec::new(), 1).unwrap(), BatchEnd::Abort);
    assert!(!published_repair_batch(&mut c, &receipt(5)).unwrap());
    assert!(c.expected_head == commit_id(5));
    assert_eq!(c.report.scanned_source_objects, 2);
    assert_eq!((c.report.copied_objects, c.report.copied_bytes), (1, 3));
    assert_eq!((c.report.scanned_destination_objects, c.report.deleted_objects), (2, 1));
    assert_eq!(c.report.published_commits, 1);
    next_repair_batch(&mut c, &checkpoint(&r, 7, Vec::new()));
    assert_eq!(c.checkpoint_sequence, 7);
    assert!(!r.advance_repair_from(source, &c, 5).unwrap());
}

#[test]
fn repairs_are_asked_for_properly() {
    let r = repository(1);
    assert!(check_repair_request("main", "main", "m").is_ok());
    assert_eq!(
        check_repair_request("main", "main", "").unwrap_err().code,
        ErrorCode::InvalidRequest
    );
    assert_eq!(
        check_repair_request("", "main", "m").unwrap_err().code,
        ErrorCode::InvalidBranch
    );
    assert!(r.check_repair_start(commit_id(1), commit_id(1)).is_ok());
    assert!(r.check_repair_start(commit_id(1), commit_id(2)).is_err());
    assert!(check_repair_head(&repair(&r), commit_id(2)).is_err());
    assert!(repair_source(None).is_err());
    let data = ObjectData {
        key: b"k".to_vec(),
        version: version(1, kind(2, "e"), None),
        bytes: vec![1, 2],
        snapshot: commit_id(1),
    };
    assert_eq!(repair_source(Some(data)).unwrap().1, 2);
    assert_eq!(
        r.end_repair_batch(&repair(&r), &Vec::new(), u64::MAX).unwrap_err().message,
        "repair checkpoint sequence overflow"
    );
}

#[test]
fn restores_bring_back_an_old_snapshot() {
    let r = repository(1);
    let mut c = r.start_restore("main", commit_id(3), commit_id(1), "back", &checkpoint(&r, 0, Vec::new()));
    assert!(r.advance_restore(&c, 5).unwrap());
    assert!(r.advance_restore(&c, 0).is_err());
    assert_eq!(r.restore_page_limit(&c, 9, &checkpoint(&r, 0, Vec::new())).unwrap(), 4);
    let mut mutations = Vec::new();
    let change = |to: Option<u8>| ObjectDiff {
        key: b"k".to_vec(),
        from: None,
        to: to.map(|b| ObjectVersionId::from_hash([b; 32])),
    };
    stage_restore(&mut mutations, change(None), None).unwrap();
    let old = || version(4, kind(2, "old"), Some(binding("kept")));
    stage_restore(&mut mutations, change(Some(4)), Some(old())).unwrap();
    let StagedMutation::Put(put) = &mutations[1] else {
        panic!("not a put");
    };
    assert_eq!(put.binding.path, "kept");
    let message = |change: ObjectDiff, source: Option<ObjectVersion>| {
        stage_restore(&mut Vec::new(), change, source).unwrap_err().message
    };
    assert_eq!(message(change(Some(4)), None), "restore diff points to a missing source object");
    assert_eq!(message(change(Some(5)), Some(old())), "restore diff and source object version disagree");
    assert_eq!(
        message(change(Some(4)), Some(version(4, LogicalObjectVersionKind::DeleteMarker, None))),
        "restore source current object is a delete marker"
    );
    assert_eq!(
        message(change(Some(4)), Some(version(4, kind(2, "old"), None))),
        "restore source object has no payload binding"
    );
    assert_eq!(r.end_restore_page(&mut c, None, &mutations, 0).unwrap(), BatchEnd::Publish);
    assert!(!published_restore_batch(&mut c, &receipt(8)));
    assert!(c.complete && c.expected_head == commit_id(8));
    assert!(!r.advance_restore(&c, 5).unwrap());
    next_restore_batch(&mut c, &checkpoint(&r, 9, Vec::new()));
    assert_eq!(c.checkpoint_sequence, 9);
    assert!(check_restore_start(commit_id(1), commit_id(2)).is_err());
    assert!(check_restore_head(&c, commit_id(8)).is_ok());
}

#[test]
fn branches_are_moved_for_a_reason() {
    let mut r = repository(1);
    assert!(r.reset_branch("main", "undo").is_ok());
    assert_eq!(r.reset_branch("main", " ").unwrap_err().code, ErrorCode::InvalidRequest);
    assert!(r.check_restore_request("main", "").is_err());
    r.writable = false;
    assert!(r.reset_branch("main", "undo").is_err());
    assert!(check_reset_head(commit_id(1), commit_id(1)).is_ok());
    assert!(check_reset_head(commit_id(1), commit_id(2)).is_err());
    let moved = ref_move_receipt(
        "main",
        commit_id(1),
        commit_id(2),
        OperationId::from_bytes([1; 16]),
        RefGeneration(4),
    );
    assert_eq!(moved.generation.0, 4);
    let entries = vec![
        JournalEntry { id: [1; 32], old_target: None },
        JournalEntry { id: [2; 32], old_target: Some(commit_id(7)) },
    ];
    assert!(find_in_reflog(&entries, &[3; 32]).is_none());
    let found = find_in_reflog(&entries, &[2; 32]).unwrap();
    assert!(recover_branch(found).unwrap() == commit_id(7));
    assert_eq!(
        recover_branch(find_in_reflog(&entries, &[1; 32]).unwrap()).unwrap_err().code,
        ErrorCode::InvalidRevision
    );
}

fn transfer(to: &Repository, from: &Repository) -> HistoryTransferCursor {
    to.start_history_transfer_from(
        from,
        "main",
        commit_id(3),
        "main",
        commit_id(1),
        OperationId::from_bytes([1; 16]),
        closure(from),
        root(0),
    )
    .unwrap()
}

#[test]
fn transfers_rebuild_commits_under_mapped_parents() {
    let from = repository(1);
    let to = repository(2);
    let mut c = transfer(&to, &from);
    assert_eq!(to.advance_history_transfer_from(&from, &c, 1).unwrap(), TransferWork::Discover);
    assert!(to.advance_history_transfer_from(&from, &c, 0).is_err());
    assert!(check_transfer_start(commit_id(1), commit_id(2)).is_err());
    assert!(check_transfer_head(&c, commit_id(1)).is_ok());
    let parents = mapped_parents(&vec![Some(vec![11; 32]), Some(vec![12; 32])]).unwrap();
    assert!(parents == vec![commit_id(11), commit_id(12)]);
    assert_eq!(
        mapped_parents(&vec![None]).unwrap_err().message,
        "parent commit was not mapped before its child"
    );
    assert_eq!(
        mapped_parents(&vec![Some(vec![1])]).unwrap_err().message,
        "mapped commit ID has wrong length"
    );
    let start = BucketState {
        objects: root(1),
        versions: root(2),
    };
    assert_eq!(
        take_pending(&mut c).unwrap_err().message,
        "transfer pending commit is absent"
    );
    assert!(transfer_start(Some(start), root(9)) == start);
    assert!(transfer_start(None, root(9)).versions == root(9));
    let begun = begin_transfer_commit(commit_id(3), closure(&from), parents, start, root(3));
    c.pending = Some(begun);
    let mut pending = take_pending(&mut c).unwrap();
    assert!(c.pending.is_none());
    assert_eq!(pending.phase, HistoryTransferPhase::UnionParentVersions);
    let (parent, base) = next_union_parent(&mut pending).unwrap();
    assert!(parent == commit_id(12) && base == root(2));
    assert_eq!(
        advance_history_transfer_union(vec![Diff::Changed {
            key: b"k".to_vec(),
            old: vec![1],
            new: vec![2],
        }])
        .unwrap_err()
        .code,
        ErrorCode::CorruptCommit
    );
    finish_transfer_union_page(&mut pending, root(4), None);
    assert_eq!(pending.phase, HistoryTransferPhase::ApplyTransitions);
    assert!(next_union_parent(&mut pending).is_none());
    let mut source = commit(&from, vec![commit_id(1), commit_id(2)], 0);
    source.generation = CommitGeneration(6);
    source.metadata = vec![MetadataEntry {
        name: "z".to_string(),
        value: vec![1],
    }];
    source.delta.changes = vec![
        ObjectTransition {
            key: b"a".to_vec(),
            previous: None,
            next: ObjectVersionId::from_hash([1; 32]),
            delete_marker: false,
        },
        ObjectTransition {
            key: b"b".to_vec(),
            previous: None,
            next: ObjectVersionId::from_hash([2; 32]),
            delete_marker: true,
        },
    ];
    let (first, last) = inline_transitions(&mut pending, &source.delta, 1);
    assert!(!last && first.len() == 1);
    let found = source_version(&first[0], Some(version(1, kind(4, "e"), Some(binding("s"))))).unwrap();
    assert!(source_version(&first[0], None).is_err());
    assert!(source_version(&first[0], Some(version(9, kind(4, "e"), None))).is_err());
    assert_eq!(payload_to_copy(&found).unwrap().unwrap().path, "s");
    count_payload(&mut c.report, 4, 4).unwrap();
    assert_eq!(
        count_payload(&mut c.report, 4, 5).unwrap_err().code,
        ErrorCode::ChecksumMismatch
    );
    let draft = rebound_draft(&found, Some(binding("copy")));
    assert_eq!(draft.body, found.body);
    mapped_new_version(&mut c, root(5)).unwrap();
    assert_eq!(c.report.rebound_versions, 1);
    let mapped = version(21, kind(4, "e"), Some(binding("copy")));
    let imported = import_history_transition(&first[0], &mapped, None);
    assert!(matches!(imported.object, Mutation::Upsert { .. }));
    assert!(imported.delta.next == mapped.id);
    finish_import(&mut pending, root(6), root(7), root(8)).unwrap();
    assert_eq!(
        finish_transition_page(&mut pending, &source.delta, true).unwrap_err().message,
        "history transfer did not consume the source commit delta exactly"
    );
    let (second, last) = inline_transitions(&mut pending, &source.delta, 9);
    assert!(last && second.len() == 1);
    assert!(source_delete_key(&pending, source.generation, &second[0]).is_ok());
    assert!(check_external_transition(b"b", &second[0]).is_ok());
    assert!(check_external_transition(b"x", &second[0]).is_err());
    let mut external = pending.clone();
    let listed = vec![(b"b".to_vec(), second[0].clone())];
    let (taken, last) = external_transitions(&mut external, listed.clone(), 1).unwrap();
    assert!(!last && taken == vec![second[0].clone()]);
    assert_eq!(external.external_after, Some(b"b".to_vec()));
    assert!(external_transitions(&mut external, listed, 2).unwrap().1);
    assert!(external_transitions(&mut external, Vec::new(), 2).unwrap().1);
    assert_eq!(external.external_after, Some(b"b".to_vec()));
    let misplaced = vec![(b"x".to_vec(), second[0].clone())];
    assert_eq!(
        external_transitions(&mut external, misplaced, 2).unwrap_err().code,
        ErrorCode::CorruptCommit
    );
    let imported = import_history_transition(&second[0], &mapped, Some(mapped.id));
    assert!(matches!(imported.object, Mutation::Delete { .. }));
    finish_import(&mut pending, root(6), root(7), root(8)).unwrap();
    finish_transition_page(&mut pending, &source.delta, true).unwrap();
    assert_eq!(pending.phase, HistoryTransferPhase::FinalizeCommit);
    assert!(check_transfer_generation(&vec![5, 3], source.generation).is_ok());
    assert!(check_transfer_generation(&vec![6], source.generation).is_err());
    assert!(check_transfer_generation(&Vec::new(), CommitGeneration(0)).is_ok());
    let id = pending.source;
    let rebuilt = to.finalize_history_transfer_commit(
        from.format.repository_id,
        pending,
        source,
        [4; 32],
        stamp(),
    );
    assert!(rebuilt.parents == vec![commit_id(11), commit_id(12)]);
    assert_eq!(rebuilt.delta.change_count, 2);
    assert!(rebuilt.delta.changes_root == Some(root(8)));
    let names: Vec<&str> = rebuilt.metadata.iter().map(|m| m.name.as_str()).collect();
    assert_eq!(
        names,
        vec![
            "prolly.transfer.source_commit",
            "prolly.transfer.source_repository",
            "z"
        ]
    );
    assert_eq!(rebuilt.metadata[0].value, vec![3; 32]);
    transferred_commit(&mut c, id, commit_id(33), closure(&from), root(9)).unwrap();
    assert!(c.mapped_head == Some(commit_id(33)));
    assert!(publish_history_transfer(&c).is_err());
    transfer_walk_went_on(&mut c, closure(&from), true).unwrap();
    assert!(publish_history_transfer(&c).unwrap() == commit_id(33));
    assert_eq!(to.advance_history_transfer_from(&from, &c, 1).unwrap(), TransferWork::Idle);
    let mapping = to.history_transfer_mapping(&c, id, Some(&vec![33; 32])).unwrap().unwrap();
    assert!(mapping.destination == commit_id(33));
    assert!(to.history_transfer_mapping(&c, id, None).unwrap().is_none());
}

#[test]
fn transfers_do_not_end_without_their_head() {
    let from = repository(1);
    let to = repository(2);
    let mut c = transfer(&to, &from);
    assert_eq!(
        transfer_walk_went_on(&mut c, closure(&from), true).unwrap_err().code,
        ErrorCode::MissingClosure
    );
    assert_eq!(
        from.validate_history_transfer_cursor(&to, &c).unwrap_err().code,
        ErrorCode::InvalidContinuationToken
    );
    let digest = [7; 32];
    assert_eq!(*history_transfer_version_operation(&digest).as_bytes(), [7; 16]);
    let noted = note_origin(Vec::new(), from.format.repository_id, commit_id(3));
    assert_eq!(noted.len(), 2);
    let again = note_origin(noted, to.format.repository_id, commit_id(4));
    assert_eq!(again.len(), 2);
    assert_eq!(again[0].value, vec![4; 32]);
}
