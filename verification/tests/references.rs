use prolly_s3_core::error::{ErrorCode, RetryAdvice};
use prolly_s3_core::ids::{
    CommitId, OperationId, RefGeneration, RepositoryId, TreeFormatDigest,
};
use prolly_s3_core::indexes::{
    advance_operation_index_rebuild, branch_index_health_for, check_branch_index_health,
    cleanup_branch_index_rebuild, start_branch_index_maintenance, start_operation_index_rebuild,
    IndexHead, JournalIndexRebuildCursor, JournalIndexRebuildPhase, OperationIndexRebuildCursor,
};
use prolly_s3_core::model::{
    AuthorityScope, AuthorityStamp, CanonicalLimits, RefTarget, StorageToken,
};
use prolly_s3_core::paths::retention_pin_tag;
use prolly_s3_core::refs::{
    count_repaired_ref, list_branch_catalog_page, list_retention_pins_page, list_tag_catalog_page,
    ref_namespace_path, RefCatalogCursor, RefCatalogEntry, RefCatalogRepairPage, RefKind,
};
use prolly_s3_core::repository::{
    ProviderPerKeyVersionLimit, Repository, RepositoryFormat, RepositoryOptions,
};
use prolly_s3_core::tags::{LoadedTag, LoadedTagV2, TagStore, TagStoreV2, TagValue, TagWrite};

fn limits() -> CanonicalLimits {
    CanonicalLimits {
        max_key_bytes: 64,
        max_object_bytes: 1_000,
        max_mutations_per_commit: 4,
        max_delete_objects: 3,
        max_list_page: 10,
    }
}

fn options() -> RepositoryOptions {
    RepositoryOptions {
        repository_prefix: ".prolly".to_string(),
        default_branch: "main".to_string(),
        writer: "writer-1".to_string(),
        limits: limits(),
        state_tree_format: vec![1, 2, 3],
        authority_lease_millis: 60_000,
        read_only: false,
        max_cached_node_pack_bytes: 1,
        max_cached_node_locations: 1,
        max_cached_node_bytes: 1,
        mutable_control_versions_to_retain: 2,
        journal_index_max_unindexed_events: 1,
        operation_index_leaf_entries: 1,
        operation_index_merge_fanout: 2,
        operation_index_max_unindexed_events: 1,
        idempotency_retention: vec![9],
        provider_per_key_version_limit: ProviderPerKeyVersionLimit::Unlimited,
    }
}

fn format_of(id: u8) -> RepositoryFormat {
    RepositoryFormat {
        repository_id: RepositoryId::from_hash([id; 32]),
        state_tree_format: vec![1, 2, 3],
        state_tree_digest: TreeFormatDigest::from_hash([7; 32]),
        canonical_limits: limits(),
        idempotency_retention: vec![9],
        provider_per_key_version_limit: ProviderPerKeyVersionLimit::Unlimited,
        created_at_millis: 5,
    }
}

fn repository(id: u8) -> Repository {
    Repository::from_format(options(), format_of(id))
}

fn commit_id(byte: u8) -> CommitId {
    CommitId::from_hash([byte; 32])
}

fn stamp(epoch: u64) -> AuthorityStamp {
    AuthorityStamp {
        scope: AuthorityScope::System {
            namespace: "tags".to_string(),
        },
        writer_id: "w".to_string(),
        epoch,
    }
}

fn operation() -> OperationId {
    OperationId::from_bytes([5; 16])
}

fn token(etag: &str) -> StorageToken {
    StorageToken {
        etag: etag.to_string(),
        version_id: None,
    }
}

fn store() -> TagStore {
    TagStore::new(".prolly".to_string(), RepositoryId::from_hash([1; 32]))
}

fn create(existing: Option<LoadedTag>) -> (TagValue, Option<StorageToken>) {
    store()
        .create(existing, "v1", commit_id(1), operation(), "actor", stamp(1), 10)
        .unwrap()
}

#[test]
fn tags_are_created_deleted_and_created_again() {
    let (value, expected) = create(None);
    assert_eq!(value.generation.0, 0);
    assert!(expected.is_none() && value.previous_target.is_none());
    assert_eq!(value.inline_reflog.message, "create tag");
    let live = LoadedTag {
        value,
        token: token("t1"),
    };
    assert_eq!(
        store()
            .create(Some(live.clone()), "v1", commit_id(2), operation(), "a", stamp(1), 11)
            .unwrap_err()
            .message,
        "tag already exists"
    );
    let gone = store()
        .delete(&live, "v1", commit_id(1), operation(), stamp(1), 12)
        .unwrap();
    assert!(gone.tombstone);
    assert_eq!(gone.generation.0, 1);
    assert_eq!(gone.inline_reflog.actor, "w");
    let dead = LoadedTag {
        value: gone,
        token: token("t2"),
    };
    assert_eq!(
        store().load(Some(dead.clone())).unwrap_err().message,
        "tag is deleted"
    );
    assert!(store().load_including_tombstone(Some(dead.clone())).is_ok());
    assert_eq!(store().load(None).unwrap_err().message, "tag is missing");
    let (again, expected) = create(Some(dead));
    assert_eq!(again.generation.0, 2);
    assert_eq!(expected, Some(token("t2")));
    assert!(again.previous_target == Some(commit_id(1)));
}

#[test]
fn tags_are_deleted_only_as_expected() {
    let (value, _) = create(None);
    let live = LoadedTag {
        value,
        token: token("t"),
    };
    let refused = |expected: CommitId, operation: OperationId, stamp: AuthorityStamp| {
        store()
            .delete(&live, "v1", expected, operation, stamp, 1)
            .unwrap_err()
            .code
    };
    assert_eq!(refused(commit_id(2), operation(), stamp(1)), ErrorCode::PreconditionFailed);
    assert_eq!(refused(commit_id(1), operation(), stamp(2)), ErrorCode::PreconditionFailed);
    assert_eq!(
        refused(commit_id(1), OperationId::from_bytes([0; 16]), stamp(1)),
        ErrorCode::PreconditionFailed
    );
    assert_eq!(
        store()
            .delete(&live, "..", commit_id(1), operation(), stamp(1), 1)
            .unwrap_err()
            .code,
        ErrorCode::InvalidBranch
    );
    let mut last = live.clone();
    last.value.generation = RefGeneration(u64::MAX);
    assert_eq!(
        store()
            .delete(&last, "v1", commit_id(1), operation(), stamp(1), 1)
            .unwrap_err()
            .message,
        "tag generation overflow"
    );
}

#[test]
fn tag_requests_and_paths_are_checked() {
    assert!(store().check_create("v1", operation(), "a").is_ok());
    assert_eq!(
        store().check_create("v1", operation(), "").unwrap_err().code,
        ErrorCode::InvalidRequest
    );
    assert!(store().check_create("v1", OperationId::from_bytes([0; 16]), "a").is_err());
    assert_eq!(
        store().check_create("..", operation(), "a").unwrap_err().code,
        ErrorCode::InvalidBranch
    );
    assert_eq!(store().path("v1").unwrap(), ".prolly/refs/tags/7631");
    assert!(store().path("").is_err());
    let v2 = TagStoreV2::new_with_control_retention("r".to_string(), RepositoryId::from_hash([1; 32]), 3);
    assert_eq!(v2.path("v1").unwrap(), "r/refs/v2/tags/7631");
    assert_eq!(v2.control_versions_to_retain, Some(3));
    assert!(TagStoreV2::new("r".to_string(), RepositoryId::from_hash([1; 32]))
        .control_versions_to_retain
        .is_none());
    assert_eq!(
        TagStore::new_with_control_retention("r".to_string(), RepositoryId::from_hash([1; 32]), 4)
            .control_versions_to_retain,
        Some(4)
    );
}

#[test]
fn tags_are_written_only_under_their_own_scope() {
    let over_branch = AuthorityStamp {
        scope: AuthorityScope::Branch {
            name: "tags".to_string(),
        },
        ..stamp(1)
    };
    let error = store()
        .create(None, "v1", commit_id(1), operation(), "a", over_branch.clone(), 1)
        .unwrap_err();
    assert_eq!(error.code, ErrorCode::PreconditionFailed);
    assert_eq!(error.message, "authority stamp does not cover tags");
    let (mut value, _) = create(None);
    value.authority = over_branch.clone();
    let live = LoadedTag {
        value,
        token: token("t"),
    };
    assert_eq!(
        store()
            .delete(&live, "v1", commit_id(1), operation(), over_branch.clone(), 1)
            .unwrap_err()
            .message,
        "authority stamp does not cover tags"
    );
    let v2 = TagStoreV2::new("r".to_string(), RepositoryId::from_hash([1; 32]));
    assert!(v2
        .create(None, "v1", commit_id(1), operation(), "a", over_branch, 1)
        .is_err());
    assert_eq!(
        store()
            .create(None, "..", commit_id(1), operation(), "a", stamp(1), 1)
            .unwrap_err()
            .code,
        ErrorCode::InvalidBranch
    );
}

#[test]
fn a_tag_that_is_there_counts_as_written() {
    let (value, _) = create(None);
    let bytes = vec![1, 2, 3];
    let cas = |wrote: TagWrite| store().cas(wrote, &bytes, value.clone());
    assert_eq!(cas(TagWrite::Applied(token("a"))).unwrap().token, token("a"));
    assert_eq!(
        cas(TagWrite::Conflict(Some((bytes.clone(), token("b"))))).unwrap().token,
        token("b")
    );
    assert_eq!(
        cas(TagWrite::Conflict(Some((vec![9], token("b"))))).unwrap_err().code,
        ErrorCode::RefConflict
    );
    assert!(cas(TagWrite::Conflict(None)).is_err());
    assert!(cas(TagWrite::Unknown("lost".to_string(), Some((bytes.clone(), token("c"))))).is_ok());
    let error = cas(TagWrite::Unknown("lost".to_string(), None)).unwrap_err();
    assert_eq!(error.code, ErrorCode::OutcomeUnknown);
    assert_eq!(error.message, "tag publication outcome is unknown: lost");
    assert_eq!(error.retry, RetryAdvice::ReconcileOperation);
    assert!(error.operation == Some(operation()));
}

#[test]
fn tags_of_the_second_protocol_say_so() {
    let v2 = TagStoreV2::new("r".to_string(), RepositoryId::from_hash([1; 32]));
    assert_eq!(v2.load(None).unwrap_err().message, "v2 tag is missing");
    let (value, _) = v2
        .create(None, "v1", commit_id(1), operation(), "a", stamp(1), 1)
        .unwrap();
    let live = LoadedTagV2 {
        value: value.clone(),
        token: token("t"),
    };
    assert!(v2.load(Some(live.clone())).is_ok());
    assert_eq!(
        v2.create(Some(live.clone()), "v1", commit_id(1), operation(), "a", stamp(1), 1)
            .unwrap_err()
            .message,
        "v2 tag already exists"
    );
    let gone = v2.delete(&live, "v1", commit_id(1), operation(), stamp(1), 1).unwrap();
    let dead = LoadedTagV2 {
        value: gone,
        token: token("t"),
    };
    assert_eq!(v2.load(Some(dead.clone())).unwrap_err().message, "v2 tag is deleted");
    assert!(v2.load_including_tombstone(Some(dead)).is_ok());
    assert_eq!(
        v2.check_create("v1", operation(), "").unwrap_err().message,
        "v2 tag creation requires an operation and actor"
    );
    assert_eq!(
        v2.delete(&live, "v1", commit_id(2), operation(), stamp(1), 1).unwrap_err().message,
        "v2 tag deletion does not match the live tag and authority"
    );
    assert_eq!(
        v2.cas(TagWrite::Conflict(None), &vec![1], value).unwrap_err().message,
        "v2 tag changed concurrently"
    );
}

fn entry(name: &str) -> RefCatalogEntry {
    RefCatalogEntry {
        name: name.to_string(),
        target: commit_id(1),
        generation: RefGeneration(3),
    }
}

#[test]
fn catalog_pages_keep_their_order() {
    let page = list_branch_catalog_page(
        vec![entry("a"), entry("b")],
        Some(RefCatalogCursor {
            place: "next".to_string(),
        }),
    );
    assert_eq!(page.branches[1].name, "b");
    assert_eq!(page.continuation.unwrap().place, "next");
    let pin = retention_pin_tag("nightly").unwrap();
    let tags = list_tag_catalog_page(vec![entry("v1"), entry(&pin)], None);
    let pins = list_retention_pins_page(tags).unwrap();
    assert_eq!(pins.pins.len(), 1);
    assert_eq!(pins.pins[0].name, "nightly");
    assert_eq!(pins.pins[0].generation.0, 3);
    let bad = list_tag_catalog_page(vec![entry("retention-pins/0")], None);
    assert_eq!(
        list_retention_pins_page(bad).unwrap_err().code,
        ErrorCode::CorruptCommit
    );
}

#[test]
fn catalogs_are_repaired_from_paths() {
    let r = repository(1);
    let namespace = r.repair_ref_catalog_page(RefKind::Tag, 10).unwrap();
    assert_eq!(namespace, ".prolly/refs/tags/");
    assert_eq!(
        r.repair_ref_catalog_page(RefKind::Branch, 10).unwrap(),
        ".prolly/refs/heads/"
    );
    assert!(r.repair_ref_catalog_page(RefKind::Tag, 1_001).is_err());
    let path = store().path("release/é").unwrap();
    assert_eq!(
        r.repaired_ref_name(RefKind::Tag, &namespace, &path).unwrap(),
        "release/é"
    );
    let message = |path: &str| {
        r.repaired_ref_name(RefKind::Tag, &namespace, path).unwrap_err().message
    };
    assert_eq!(message("elsewhere/x"), "ref repair escaped its namespace");
    assert_eq!(message(".prolly/refs/tags/zz"), "ref path name is not canonical hex");
    assert_eq!(message(".prolly/refs/tags/ff"), "ref path name is not UTF-8");
    let mut page = RefCatalogRepairPage {
        scanned: 0,
        indexed: 0,
        continuation: None,
    };
    count_repaired_ref(&mut page, true);
    count_repaired_ref(&mut page, false);
    assert_eq!((page.scanned, page.indexed), (2, 1));
}

#[test]
fn indexes_are_ready_when_they_cover_the_head() {
    let reference = RefTarget {
        target: commit_id(5),
        generation: RefGeneration(9),
    };
    let head = |target: u8, generation: u64| {
        Some(IndexHead {
            target: commit_id(target),
            checkpoint_generation: RefGeneration(generation),
        })
    };
    let health = branch_index_health_for("main", &reference, head(5, 7), None, None).unwrap();
    assert!(health.ready && !health.locally_registered);
    assert_eq!(health.lag_generations, 2);
    assert!(check_branch_index_health(&health).is_ok());
    let health =
        branch_index_health_for("main", &reference, head(4, 6), None, Some("why".to_string())).unwrap();
    let error = check_branch_index_health(&health).unwrap_err();
    assert_eq!(
        error.message,
        "repository branch indexes lag 3 generation(s); background catch-up is required"
    );
    assert_eq!(error.retry, RetryAdvice::AfterMillis(250));
    assert_eq!(health.last_error.as_deref(), Some("why"));
    let health = branch_index_health_for("main", &reference, None, Some(commit_id(5)), None).unwrap();
    assert!(health.ready && health.locally_registered);
    assert_eq!(health.lag_generations, 9);
    assert_eq!(
        branch_index_health_for("main", &reference, head(5, 10), None, None)
            .unwrap_err()
            .code,
        ErrorCode::CorruptNode
    );
    assert!(start_branch_index_maintenance(10_000_000).is_ok());
    assert!(start_branch_index_maintenance(9_999_999).is_err());
}

#[test]
fn rebuilds_follow_each_other() {
    let mut journal = JournalIndexRebuildCursor {
        repository: RepositoryId::from_hash([1; 32]),
        branch: "main".to_string(),
        job: operation(),
        snapshot: commit_id(1),
        snapshot_generation: RefGeneration(4),
        phase: JournalIndexRebuildPhase::Apply,
        oldest_chunk: Some(2),
    };
    assert_eq!(
        start_operation_index_rebuild(&journal).unwrap_err().code,
        ErrorCode::InvalidRequest
    );
    journal.phase = JournalIndexRebuildPhase::Complete;
    assert_eq!(start_operation_index_rebuild(&journal).unwrap(), 2);
    let mut operations = OperationIndexRebuildCursor {
        repository: journal.repository,
        branch: "main".to_string(),
        job: operation(),
        snapshot: commit_id(1),
        snapshot_generation: RefGeneration(4),
        next_chunk: Some(2),
        complete: false,
    };
    assert_eq!(advance_operation_index_rebuild(&operations).unwrap(), Some(2));
    assert!(cleanup_branch_index_rebuild(&journal, &operations).is_err());
    operations.next_chunk = None;
    assert!(advance_operation_index_rebuild(&operations).is_err());
    operations.complete = true;
    assert_eq!(advance_operation_index_rebuild(&operations).unwrap(), None);
    assert!(cleanup_branch_index_rebuild(&journal, &operations).is_ok());
    journal.oldest_chunk = None;
    assert!(start_operation_index_rebuild(&journal).is_err());
    journal.snapshot_generation = RefGeneration(5);
    assert!(cleanup_branch_index_rebuild(&journal, &operations).is_err());
}

#[test]
fn references_lie_in_their_namespaces() {
    assert_eq!(ref_namespace_path("p", RefKind::Branch), "p/refs/heads/");
    assert_eq!(ref_namespace_path("p", RefKind::Tag), "p/refs/tags/");
}
