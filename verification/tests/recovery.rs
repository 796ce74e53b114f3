use prolly_s3_core::batches::BatchEnd;
use prolly_s3_core::closure::CommitClosureCursor;
use prolly_s3_core::diffs::ObjectDiff;
use prolly_s3_core::error::ErrorCode;
use prolly_s3_core::ids::{
    BatchId, Cid, CommitGeneration, CommitId, ObjectVersionId, OperationId, RepositoryId,
    TreeFormatDigest,
};
use prolly_s3_core::model::{
    AuthorityScope, AuthorityStamp, BucketState, CanonicalLimits, Checksums, CommitReceipt,
    CommitSessionManifest, CommitSessionState, LogicalObjectVersionBody, LogicalObjectVersionKind,
    MutationIdentity, ObjectAttributes, ObjectHeaders, ObjectTransition, ObjectVersion,
    PayloadBinding, RootManifest, StagedMutation,
};
use prolly_s3_core::objects::{ObjectData, ObjectSummary};
use prolly_s3_core::repair::{RepairCursor, RepairPhase};
use prolly_s3_core::repair_run::RepairStep;
use prolly_s3_core::repository::{
    ProviderPerKeyVersionLimit, Repository, RepositoryFormat, RepositoryOptions,
};
use prolly_s3_core::restore::RestoreCursor;
use prolly_s3_core::restore_run::RestoreStep;
use prolly_s3_core::session::CommitSessionCheckpoint;
use prolly_s3_core::transfer::{
    begin_transfer_commit, HistoryTransferCursor, PendingHistoryTransferCommit,
};
use prolly_s3_core::transfer_run::{begin_import, ImportStep};
use prolly_s3_core::tree::Mutation;
use prolly_s3_core::version_key::{version_tree_key, ObjectVersionOrder};
use prolly_s3_core::texts::NamedTexts;
use std::collections::BTreeMap;
use std::sync::Arc;

fn limits() -> CanonicalLimits {
    CanonicalLimits {
        max_key_bytes: 64,
        max_object_bytes: 1_000,
        max_mutations_per_commit: 4,
        max_delete_objects: 3,
        max_list_page: 10,
    }
}

fn options() -> RepositoryOptions {
    RepositoryOptions {
        repository_prefix: ".prolly".to_string(),
        default_branch: "main".to_string(),
        writer: "writer-1".to_string(),
        limits: limits(),
        state_tree_format: vec![1, 2, 3],
        authority_lease_millis: 60_000,
        read_only: false,
        max_cached_node_pack_bytes: 1,
        max_cached_node_locations: 1,
        max_cached_node_bytes: 1,
        mutable_control_versions_to_retain: 2,
        journal_index_max_unindexed_events: 1,
        operation_index_leaf_entries: 1,
        operation_index_merge_fanout: 2,
        operation_index_max_unindexed_events: 1,
        idempotency_retention: vec![9],
        provider_per_key_version_limit: ProviderPerKeyVersionLimit::Unlimited,
    }
}

fn format_of(id: u8) -> RepositoryFormat {
    RepositoryFormat {
        repository_id: RepositoryId::from_hash([id; 32]),
        state_tree_format: vec![1, 2, 3],
        state_tree_digest: TreeFormatDigest::from_hash([7; 32]),
        canonical_limits: limits(),
        idempotency_retention: vec![9],
        provider_per_key_version_limit: ProviderPerKeyVersionLimit::Unlimited,
        created_at_millis: 5,
    }
}

fn repository(id: u8) -> Repository {
    Repository::from_format(options(), format_of(id))
}

fn commit_id(byte: u8) -> CommitId {
    CommitId::from_hash([byte; 32])
}

fn binding(path: &str) -> PayloadBinding {
    PayloadBinding {
        path: path.to_string(),
        checksum_sha256: [1; 32],
        pack_checksum_sha256: None,
        pack_range: None,
        provider_etag: "tag".to_string(),
        provider_version_id: None,
    }
}

fn kind(size: u64, etag: &str) -> LogicalObjectVersionKind {
    LogicalObjectVersionKind::Live {
        size,
        logical_etag: etag.to_string(),
        checksums: Checksums {
            md5: None,
            sha256: Some([1; 32]),
        },
        attributes: Arc::new(ObjectAttributes {
            headers: ObjectHeaders { fields: NamedTexts::new() },
            user_metadata: NamedTexts::new(),
            tags: NamedTexts::new(),
            algorithm_values: NamedTexts::new(),
        }),
    }
}

fn version(id: u8, kind: LogicalObjectVersionKind, binding: Option<PayloadBinding>) -> ObjectVersion {
    ObjectVersion {
        id: ObjectVersionId::from_hash([id; 32]),
        body: LogicalObjectVersionBody {
            order: ObjectVersionOrder {
                commit_generation: CommitGeneration(1),
                mutation_ordinal: 0,
            },
            created_at_millis: 1,
            kind,
        },
        binding,
    }
}

fn stamp() -> AuthorityStamp {
    AuthorityStamp {
        scope: AuthorityScope::Branch {
            name: "main".to_string(),
        },
        writer_id: "w".to_string(),
        epoch: 1,
    }
}

fn checkpoint(r: &Repository, sequence: u64, mutations: Vec<StagedMutation>) -> CommitSessionCheckpoint {
    CommitSessionCheckpoint {
        session: r
            .begin_commit_session(
                BatchId::from_bytes([sequence as u8; 16]),
                "main",
                commit_id(1),
                OperationId::from_bytes([5; 16]),
                stamp(),
                "m",
                1,
                1,
            )
            .unwrap(),
        sequence,
        mutations,
        state: CommitSessionState::Open,
    }
}

fn receipt(id: u8) -> CommitReceipt {
    CommitReceipt {
        id: commit_id(id),
        operation: OperationId::from_bytes([5; 16]),
        branch: "main".to_string(),
        parents: Vec::new(),
        changed_keys: 1,
        object_versions: Vec::new(),
        idempotent_replay: false,
    }
}

fn repair(r: &Repository) -> RepairCursor {
    r.start_repair_from(
        RepositoryId::from_hash([2; 32]),
        "main",
        commit_id(9),
        "main",
        commit_id(1),
        "fix",
        &checkpoint(r, 0, Vec::new()),
    )
}


fn root(byte: u8) -> RootManifest {
    RootManifest {
        root: Some(Cid::from_hash([byte; 32])),
        format_digest: TreeFormatDigest::from_hash([7; 32]),
    }
}

fn closure(r: &Repository) -> CommitClosureCursor {
    r.start_commit_closure(OperationId::from_bytes([1; 16]), root(0), 1).unwrap()
}

fn snapshot(keys: &[(&str, u64)]) -> BTreeMap<String, u64> {
    keys.iter().map(|(key, size)| (key.to_string(), *size)).collect()
}

fn found(objects: &BTreeMap<String, u64>, key: &[u8]) -> Option<LogicalObjectVersionKind> {
    let key = String::from_utf8(key.to_vec()).unwrap();
    objects.get(&key).map(|size| kind(*size, &size.to_string()))
}

fn listing(objects: &BTreeMap<String, u64>, after: &Option<Vec<u8>>, room: usize) -> (Vec<ObjectSummary>, bool) {
    let mut left: Vec<ObjectSummary> = objects
        .iter()
        .filter(|(key, _)| after.as_ref().map_or(true, |at| key.as_bytes() > at.as_slice()))
        .map(|(key, size)| ObjectSummary {
            key: key.as_bytes().to_vec(),
            version: version(1, kind(*size, &size.to_string()), Some(binding("p"))),
        })
        .collect();
    let truncated = left.len() > room;
    left.truncate(room);
    (left, truncated)
}

/// Runs one page of a repair against two snapshots, and says how it ended.
fn run_page(
    r: &Repository,
    cursor: RepairCursor,
    source: &BTreeMap<String, u64>,
    destination: &BTreeMap<String, u64>,
    batch: &mut Vec<StagedMutation>,
    steps: usize,
) -> (RepairCursor, bool, Option<Vec<StagedMutation>>) {
    let mut run = r
        .begin_repair_page(RepositoryId::from_hash([2; 32]), cursor.clone(), steps)
        .unwrap()
        .unwrap();
    let mut published = None;
    loop {
        let key = run.current.as_ref().map(|o| o.key.clone()).unwrap_or_default();
        match run.next() {
            RepairStep::ReadHead => run.head(cursor.expected_head).unwrap(),
            RepairStep::ResumeSession => {
                let mut saved = checkpoint(r, cursor.checkpoint_sequence, batch.clone());
                saved.session.base_commit = cursor.expected_head;
                run.resumed(r, saved).unwrap();
            }
            RepairStep::List => {
                let (objects, truncated) = if run.copying {
                    listing(source, &cursor.source_after, run.room)
                } else {
                    listing(destination, &cursor.destination_after, run.room)
                };
                run.listed(objects, truncated).unwrap();
            }
            RepairStep::LookUp => {
                let other = if run.copying { destination } else { source };
                run.looked_up(found(other, &key)).unwrap();
            }
            RepairStep::Fetch => {
                let live = found(source, &key).unwrap();
                let size = source[&String::from_utf8(key.clone()).unwrap()] as usize;
                let bytes = run
                    .fetched(Some(ObjectData {
                        key,
                        version: version(1, live, Some(binding("p"))),
                        bytes: vec![0; size],
                        snapshot: cursor.source_snapshot,
                    }))
                    .unwrap();
                assert_eq!(bytes.len(), size);
            }
            RepairStep::Store => run.stored(binding("copied")).unwrap(),
            RepairStep::EndBatch => {
                let end = run.batch_end(r).unwrap();
                let (session, mutations) = run.take_batch();
                assert!(session.is_some());
                match end {
                    BatchEnd::Checkpoint { sequence } => {
                        *batch = mutations;
                        run.saved(sequence);
                    }
                    BatchEnd::Abort => run.aborted(),
                    BatchEnd::Publish => {
                        batch.clear();
                        published = Some(mutations);
                        run.published(receipt(9)).unwrap();
                    }
                }
            }
            RepairStep::BeginSession => {
                let mut next = checkpoint(r, 0, Vec::new());
                next.session.id = BatchId::from_bytes([8; 16]);
                run.begun(&next);
            }
            RepairStep::Finish => {
                let page = run.finish();
                return (page.cursor, page.complete, published);
            }
        }
    }
}

fn apply(objects: &mut BTreeMap<String, u64>, mutations: Vec<StagedMutation>) {
    for mutation in mutations {
        let key = String::from_utf8(mutation.key().clone()).unwrap();
        match mutation {
            StagedMutation::Put(put) => {
                objects.insert(key, put.size);
            }
            StagedMutation::Delete { .. } => {
                objects.remove(&key);
            }
        }
    }
}

#[test]
fn a_repaired_branch_holds_the_source() {
    let r = repository(1);
    let source = snapshot(&[("a", 1), ("b", 2), ("c", 3), ("d", 4), ("e", 5), ("f", 6)]);
    let destination = snapshot(&[("a", 1), ("b", 9), ("x", 1), ("y", 2)]);
    for steps in [1, 2, 10] {
        let mut branch = destination.clone();
        let mut cursor = repair(&r);
        let mut batch = Vec::new();
        let mut published = 0;
        for _ in 0..100 {
            let (next, complete, commit) =
                run_page(&r, cursor, &source, &destination, &mut batch, steps);
            cursor = next;
            if let Some(mutations) = commit {
                assert!(mutations.len() <= 4);
                published += 1;
                apply(&mut branch, mutations);
            }
            if complete {
                break;
            }
        }
        assert_eq!(branch, source);
        assert_eq!(cursor.phase, RepairPhase::Complete);
        assert_eq!(cursor.report.copied_objects, 5);
        assert_eq!(cursor.report.deleted_objects, 2);
        assert_eq!(cursor.report.published_commits, published);
    }
}

#[test]
fn a_repair_of_equal_snapshots_publishes_nothing() {
    let r = repository(1);
    let same = snapshot(&[("a", 1)]);
    let mut batch = Vec::new();
    let (cursor, complete, commit) = run_page(&r, repair(&r), &same, &same, &mut batch, 10);
    assert!(!complete && commit.is_none());
    let (cursor, complete, commit) = run_page(&r, cursor, &same, &same, &mut batch, 10);
    assert!(complete && commit.is_none());
    let done = r
        .begin_repair_page(RepositoryId::from_hash([2; 32]), cursor, 10)
        .unwrap();
    assert!(done.is_none());
}

#[test]
fn a_repair_stops_where_the_branch_moved() {
    let r = repository(1);
    let begin = || {
        r.begin_repair_page(RepositoryId::from_hash([2; 32]), repair(&r), 1)
            .unwrap()
            .unwrap()
    };
    let mut run = begin();
    assert_eq!(
        run.head(commit_id(77)).unwrap_err().message,
        "destination branch moved during repair"
    );
    run.head(repair(&r).expected_head).unwrap();
    assert_eq!(
        run.resumed(&r, checkpoint(&r, 99, Vec::new())).unwrap_err().code,
        ErrorCode::InvalidContinuationToken
    );
    let mut run = begin();
    run.head(repair(&r).expected_head).unwrap();
    let mut saved = checkpoint(&r, repair(&r).checkpoint_sequence, Vec::new());
    saved.session.base_commit = repair(&r).expected_head;
    run.resumed(&r, saved).unwrap();
    run.listed(listing(&snapshot(&[("a", 1)]), &None, 1).0, false).unwrap();
    run.looked_up(None).unwrap();
    assert_eq!(run.next(), RepairStep::Fetch);
    assert_eq!(
        run.fetched(None).unwrap_err().message,
        "repair listing points to a missing source object"
    );
}

fn restore(r: &Repository) -> RestoreCursor {
    let mut saved = checkpoint(r, 3, Vec::new());
    saved.session.base_commit = commit_id(2);
    r.start_restore("main", commit_id(1), commit_id(2), "back", &saved)
}

fn change(key: &str, to: Option<u8>) -> ObjectDiff {
    ObjectDiff {
        key: key.as_bytes().to_vec(),
        from: Some(ObjectVersionId::from_hash([50; 32])),
        to: to.map(|id| ObjectVersionId::from_hash([id; 32])),
    }
}

#[test]
fn a_restore_looks_up_what_comes_back() {
    let r = repository(1);
    let mut run = r.begin_restore_page(restore(&r), 10).unwrap().unwrap();
    assert_eq!(
        run.head(commit_id(9)).unwrap_err().message,
        "branch moved while restore was in progress"
    );
    run.head(commit_id(2)).unwrap();
    let mut saved = checkpoint(&r, 3, Vec::new());
    saved.session.base_commit = commit_id(2);
    run.resumed(&r, saved).unwrap();
    assert_eq!(run.next(), RestoreStep::Compare);
    assert_eq!(run.room, 4);
    run.compared(
        vec![change("a", None), change("b", Some(7)), change("c", None)],
        None,
    );
    assert_eq!(run.next(), RestoreStep::LookUp);
    assert_eq!(run.current.as_ref().unwrap().key, b"b");
    run.looked_up(Some(version(7, kind(3, "b"), Some(binding("p"))))).unwrap();
    assert_eq!(run.next(), RestoreStep::EndBatch);
    assert_eq!(run.batch_end(&r).unwrap(), BatchEnd::Publish);
    let (session, mutations) = run.take_batch();
    assert!(session.is_some());
    assert_eq!(mutations.len(), 3);
    assert!(matches!(&mutations[0], StagedMutation::Delete { key } if key == b"a"));
    assert!(matches!(&mutations[1], StagedMutation::Put(put) if put.key == b"b" && put.size == 3));
    assert!(matches!(&mutations[2], StagedMutation::Delete { key } if key == b"c"));
    run.published(receipt(9));
    assert_eq!(run.next(), RestoreStep::Finish);
    let page = run.finish();
    assert!(page.complete && page.receipt.is_some());
    assert_eq!(page.processed, 3);
    assert_eq!(page.cursor.expected_head, receipt(9).id);
}

#[test]
fn a_restore_without_differences_is_given_up() {
    let r = repository(1);
    let mut run = r.begin_restore_page(restore(&r), 10).unwrap().unwrap();
    run.head(commit_id(2)).unwrap();
    let mut saved = checkpoint(&r, 3, Vec::new());
    saved.session.base_commit = commit_id(2);
    run.resumed(&r, saved).unwrap();
    run.compared(Vec::new(), None);
    assert_eq!(run.batch_end(&r).unwrap(), BatchEnd::Abort);
    run.aborted();
    let page = run.finish();
    assert!(page.complete && page.receipt.is_none());
    assert!(r.begin_restore_page(page.cursor, 10).unwrap().is_none());
}

#[test]
fn a_restore_refuses_another_version() {
    let r = repository(1);
    let mut run = r.begin_restore_page(restore(&r), 10).unwrap().unwrap();
    run.head(commit_id(2)).unwrap();
    let mut saved = checkpoint(&r, 3, Vec::new());
    saved.session.base_commit = commit_id(2);
    run.resumed(&r, saved).unwrap();
    run.compared(vec![change("b", Some(7))], None);
    assert_eq!(
        run.looked_up(Some(version(8, kind(3, "b"), Some(binding("p")))))
            .unwrap_err()
            .message,
        "restore diff and source object version disagree"
    );
}

fn moved(key: &str, next: u8, delete_marker: bool) -> ObjectTransition {
    ObjectTransition {
        key: key.as_bytes().to_vec(),
        previous: None,
        next: ObjectVersionId::from_hash([next; 32]),
        delete_marker,
    }
}

fn half_built(r: &Repository) -> PendingHistoryTransferCommit {
    let start = BucketState {
        objects: root(1),
        versions: root(2),
    };
    begin_transfer_commit(commit_id(3), closure(r), Vec::new(), start, root(3))
}

fn transfer(r: &Repository) -> HistoryTransferCursor {
    r.start_history_transfer_from(
        r,
        "main",
        commit_id(3),
        "main",
        commit_id(1),
        OperationId::from_bytes([1; 16]),
        closure(r),
        root(0),
    )
    .unwrap()
}

#[test]
fn a_new_version_is_brought_over_with_its_payload() {
    let r = repository(1);
    let mut cursor = transfer(&r);
    let mut pending = half_built(&r);
    let mut run = begin_import(&pending, CommitGeneration(4), moved("k", 7, false)).unwrap();
    assert_eq!(run.key, b"k");
    let source = version(7, kind(3, "k"), Some(binding("there")));
    run.found_source(Some(source.clone())).unwrap();
    run.found_mapping(None).unwrap();
    assert_eq!(run.next(), ImportStep::ReadPayload);
    assert_eq!(run.payload.as_ref().unwrap().path, "there");
    assert_eq!(
        run.read(&mut cursor.report, 2).unwrap_err().code,
        ErrorCode::ChecksumMismatch
    );
    run.read(&mut cursor.report, 3).unwrap();
    assert_eq!(cursor.report.copied_payloads, 1);
    assert_eq!(cursor.report.copied_payload_bytes, 3);
    run.stored(binding("here"));
    run.named(ObjectVersionId::from_hash([8; 32]));
    run.remembered(&mut cursor, root(9)).unwrap();
    assert_eq!(cursor.mappings, root(9));
    assert_eq!(cursor.report.rebound_versions, 1);
    let held = ObjectVersionId::from_hash([6; 32]);
    let imported = run.found_previous(Some(held));
    assert!(matches!(&imported.object, Mutation::Upsert { key, val }
        if key == b"k" && val.body == source.body && val.binding.as_ref().unwrap().path == "here"));
    assert_eq!(imported.delta.previous, Some(held));
    assert_eq!(imported.delta.next, ObjectVersionId::from_hash([8; 32]));
    run.written(&mut pending, root(4), root(5), root(6)).unwrap();
    assert_eq!(run.next(), ImportStep::Finish);
    assert_eq!(pending.transitions_applied, 1);
    assert_eq!(pending.objects, root(4));
}

#[test]
fn a_deletion_is_found_by_its_place_and_has_no_payload() {
    let r = repository(1);
    let pending = half_built(&r);
    let mut run = begin_import(&pending, CommitGeneration(4), moved("k", 7, true)).unwrap();
    let order = ObjectVersionOrder {
        commit_generation: CommitGeneration(4),
        mutation_ordinal: 0,
    };
    let next = ObjectVersionId::from_hash([7; 32]);
    assert_eq!(run.key, version_tree_key(b"k", order, next));
    assert_eq!(
        run.found_source(None).unwrap_err().message,
        "source delete version is missing from its commit"
    );
    let gone = version(7, LogicalObjectVersionKind::DeleteMarker, None);
    run.found_source(Some(gone)).unwrap();
    run.found_mapping(None).unwrap();
    assert_eq!(run.next(), ImportStep::NameVersion);
    run.named(ObjectVersionId::from_hash([8; 32]));
    assert!(run.mapped.as_ref().unwrap().binding.is_none());
}

#[test]
fn a_version_met_before_is_not_copied_again() {
    let r = repository(1);
    let pending = half_built(&r);
    let mut run = begin_import(&pending, CommitGeneration(4), moved("k", 7, false)).unwrap();
    assert_eq!(
        run.found_source(Some(version(5, kind(3, "k"), None))).unwrap_err().message,
        "source transition and object version disagree"
    );
    run.found_source(Some(version(7, kind(3, "k"), Some(binding("p"))))).unwrap();
    run.found_mapping(Some(version(8, kind(3, "k"), Some(binding("q"))))).unwrap();
    assert_eq!(run.next(), ImportStep::FindPrevious);
    assert!(!run.fresh);
    let mut bare = begin_import(&pending, CommitGeneration(4), moved("k", 7, false)).unwrap();
    bare.found_source(Some(version(7, kind(3, "k"), None))).unwrap();
    assert_eq!(
        bare.found_mapping(None).unwrap_err().message,
        "source live version has no payload binding"
    );
    let mut full = half_built(&r);
    full.transitions_applied = u64::from(u32::MAX) + 1;
    assert_eq!(
        begin_import(&full, CommitGeneration(4), moved("k", 7, false)).unwrap_err().code,
        ErrorCode::InvalidLimit
    );
}
