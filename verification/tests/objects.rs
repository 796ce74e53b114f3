use prolly_s3_core::error::ErrorCode;
use prolly_s3_core::diffs::{object_diff, ObjectDiffCursor};
use prolly_s3_core::history::{
    HistoryCursor, HistoryGate, HistoryStart, HistoryStep, TraversalBudget,
};
use prolly_s3_core::ids::{
    Cid, CommitGeneration, CommitId, ObjectVersionId, RepositoryId, TreeFormatDigest,
};
use prolly_s3_core::listing::{
    common_prefix, decode_list_token, decoded_list_cursor, encode_list_token, find_subslice,
    finish_list_page,
    list_objects_delimited_at, VersionSummary,
};
use prolly_s3_core::merge::DiffCursor;
use prolly_s3_core::merge_plan::Diff;
use prolly_s3_core::model::{
    AuthorityScope, AuthorityStamp, BucketCommit, CanonicalLimits, Checksums,
    LogicalObjectVersionBody, LogicalObjectVersionKind, ObjectAttributes, ObjectHeaders,
    ObjectVersion, PayloadBinding, PhysicalMetadata, PhysicalVersion, RootManifest,
    StagedMutation, StorageToken,
};
use prolly_s3_core::objects::{
    check_range_reply, get_object_range, payload_of, ByteRange, ObjectSummary,
};
use prolly_s3_core::repository::{
    ProviderPerKeyVersionLimit, Repository, RepositoryFormat, RepositoryOptions,
};
use prolly_s3_core::version_key::ObjectVersionOrder;
use prolly_s3_core::texts::NamedTexts;
use std::sync::Arc;

fn limits() -> CanonicalLimits {
    CanonicalLimits {
        max_key_bytes: 64,
        max_object_bytes: 1_000,
        max_mutations_per_commit: 4,
        max_delete_objects: 3,
        max_list_page: 10,
    }
}

fn options() -> RepositoryOptions {
    RepositoryOptions {
        repository_prefix: ".prolly".to_string(),
        default_branch: "main".to_string(),
        writer: "writer-1".to_string(),
        limits: limits(),
        state_tree_format: vec![1, 2, 3],
        authority_lease_millis: 60_000,
        read_only: false,
        max_cached_node_pack_bytes: 1,
        max_cached_node_locations: 1,
        max_cached_node_bytes: 1,
        mutable_control_versions_to_retain: 2,
        journal_index_max_unindexed_events: 1,
        operation_index_leaf_entries: 1,
        operation_index_merge_fanout: 2,
        operation_index_max_unindexed_events: 1,
        idempotency_retention: vec![9],
        provider_per_key_version_limit: ProviderPerKeyVersionLimit::Unlimited,
    }
}

fn format_of(id: u8) -> RepositoryFormat {
    RepositoryFormat {
        repository_id: RepositoryId::from_hash([id; 32]),
        state_tree_format: vec![1, 2, 3],
        state_tree_digest: TreeFormatDigest::from_hash([7; 32]),
        canonical_limits: limits(),
        idempotency_retention: vec![9],
        provider_per_key_version_limit: ProviderPerKeyVersionLimit::Unlimited,
        created_at_millis: 5,
    }
}

fn repository(id: u8) -> Repository {
    Repository::from_format(options(), format_of(id))
}

fn root(byte: u8) -> RootManifest {
    RootManifest {
        root: Some(Cid::from_hash([byte; 32])),
        format_digest: TreeFormatDigest::from_hash([7; 32]),
    }
}

fn commit_id(byte: u8) -> CommitId {
    CommitId::from_hash([byte; 32])
}

fn binding() -> PayloadBinding {
    PayloadBinding {
        path: "payload".to_string(),
        checksum_sha256: [1; 32],
        pack_checksum_sha256: None,
        pack_range: None,
        provider_etag: "tag".to_string(),
        provider_version_id: Some("v1".to_string()),
    }
}

fn version(size: u64, binding: Option<PayloadBinding>) -> ObjectVersion {
    ObjectVersion {
        id: ObjectVersionId::from_hash([1; 32]),
        body: LogicalObjectVersionBody {
            order: ObjectVersionOrder {
                commit_generation: CommitGeneration(1),
                mutation_ordinal: 0,
            },
            created_at_millis: 1,
            kind: LogicalObjectVersionKind::Live {
                size,
                logical_etag: "\"t\"".to_string(),
                checksums: Checksums {
                    md5: None,
                    sha256: Some([1; 32]),
                },
                attributes: Arc::new(ObjectAttributes {
                    headers: ObjectHeaders { fields: NamedTexts::new() },
                    user_metadata: NamedTexts::new(),
                    tags: NamedTexts::new(),
                    algorithm_values: NamedTexts::new(),
                }),
            },
        },
        binding,
    }
}

fn deleted() -> ObjectVersion {
    let mut v = version(0, None);
    v.body.kind = LogicalObjectVersionKind::DeleteMarker;
    v
}

fn summary(key: &[u8]) -> ObjectSummary {
    ObjectSummary {
        key: key.to_vec(),
        version: version(1, Some(binding())),
    }
}

fn commit(r: &Repository, parents: Vec<CommitId>) -> BucketCommit {
    let mut c = r.first_commit(
        root(0),
        [0; 32],
        AuthorityStamp {
            scope: AuthorityScope::Branch {
                name: "main".to_string(),
            },
            writer_id: "w".to_string(),
            epoch: 1,
        },
    );
    c.parents = parents;
    c
}

#[test]
fn ranges_are_cut_off_at_the_end() {
    let v = version(10, Some(binding()));
    let error = get_object_range(&v, "payload", 3, 2).unwrap_err();
    assert_eq!(error.code, ErrorCode::InvalidRange);
    assert_eq!(error.message, "range start exceeds end");
    assert!(get_object_range(&v, "payload", 2, 2).is_ok());
    let plan = get_object_range(&v, "payload", 4, 99).unwrap();
    assert_eq!(plan.logical, ByteRange { first: 4, last: 9 });
    assert_eq!(plan.physical, ByteRange { first: 4, last: 9 });
    assert_eq!(
        plan.version,
        Some(PhysicalVersion::Versioned {
            version_id: "v1".to_string()
        })
    );
    assert_eq!(
        get_object_range(&v, "payload", 10, 11).unwrap_err().code,
        ErrorCode::InvalidRange
    );
    assert_eq!(
        get_object_range(&v, "elsewhere", 0, 1).unwrap_err().code,
        ErrorCode::CorruptContent
    );
    assert_eq!(
        get_object_range(&deleted(), "payload", 0, 1).unwrap_err().code,
        ErrorCode::CorruptCommit
    );
    assert_eq!(
        get_object_range(&version(10, None), "payload", 0, 1).unwrap_err().code,
        ErrorCode::CorruptCommit
    );
}

#[test]
fn ranges_of_packed_objects_are_moved() {
    let mut packed = binding();
    packed.pack_range = Some((100, 109));
    let v = version(10, Some(packed.clone()));
    let plan = get_object_range(&v, "payload", 2, 5).unwrap();
    assert_eq!(plan.logical, ByteRange { first: 2, last: 5 });
    assert_eq!(plan.physical, ByteRange { first: 102, last: 105 });
    packed.pack_range = Some((100, 104));
    let v = version(10, Some(packed.clone()));
    assert_eq!(
        get_object_range(&v, "payload", 2, 5).unwrap_err().code,
        ErrorCode::CorruptContent
    );
    packed.pack_range = Some((u64::MAX, u64::MAX));
    let v = version(10, Some(packed));
    assert_eq!(
        get_object_range(&v, "payload", 2, 5).unwrap_err().message,
        "packed payload range overflow"
    );
}

#[test]
fn replies_must_come_from_the_bound_object() {
    let stored = |etag: &str| PhysicalMetadata {
        len: 10,
        sha256: [1; 32],
        token: StorageToken {
            etag: etag.to_string(),
            version_id: Some("v1".to_string()),
        },
    };
    assert!(check_range_reply(&binding(), Some(&stored("tag"))).is_ok());
    assert_eq!(
        check_range_reply(&binding(), Some(&stored("other"))).unwrap_err().code,
        ErrorCode::ChecksumMismatch
    );
    assert_eq!(
        check_range_reply(&binding(), None).unwrap_err().code,
        ErrorCode::MissingClosure
    );
    assert_eq!(payload_of(&version(1, Some(binding())), false).unwrap().path, "payload");
    assert_eq!(
        payload_of(&version(1, None), true).unwrap_err().message,
        "live historical object has no immutable payload binding"
    );
}

#[test]
fn copies_reuse_the_payload() {
    let r = repository(1);
    let StagedMutation::Put(copy) = r.copy_object(Some(summary(b"a")), b"b".to_vec()).unwrap()
    else {
        panic!("not a put");
    };
    assert_eq!(copy.key, b"b");
    assert_eq!(copy.binding, binding());
    assert_eq!(
        r.copy_object(None, b"b".to_vec()).unwrap_err().code,
        ErrorCode::InvalidKey
    );
    let gone = ObjectSummary {
        key: b"a".to_vec(),
        version: deleted(),
    };
    assert_eq!(
        r.copy_object(Some(gone), b"b".to_vec()).unwrap_err().code,
        ErrorCode::InvalidRevision
    );
}

#[test]
fn several_keys_are_deleted_at_once() {
    let r = repository(1);
    let staged = r
        .delete_objects(vec![b"a".to_vec(), b"b".to_vec(), b"c".to_vec()])
        .unwrap();
    assert_eq!(staged.len(), 3);
    assert_eq!(staged[2].key(), b"c");
    assert_eq!(
        r.delete_objects(Vec::new()).unwrap_err().code,
        ErrorCode::InvalidLimit
    );
    assert_eq!(
        r.delete_objects(vec![b"a".to_vec(); 4]).unwrap_err().code,
        ErrorCode::InvalidLimit
    );
    assert_eq!(
        r.delete_objects(vec![b"a".to_vec(), Vec::new()]).unwrap_err().code,
        ErrorCode::InvalidKey
    );
}

#[test]
fn listings_go_on_where_they_ended() {
    let r = repository(1);
    let all: Vec<ObjectSummary> = [&b"a"[..], b"b", b"c", b"d", b"e"]
        .iter()
        .map(|k| summary(k))
        .collect();
    let mut after = None;
    let mut seen = Vec::new();
    loop {
        let mut run = r.list_objects_at(b"", after.clone(), 2).unwrap().unwrap();
        for item in &all {
            if !run.wants_more() {
                break;
            }
            run.accept(item.clone());
        }
        let (page, truncated) = run.finish();
        assert!(page.len() <= 2);
        after = page.last().map(|o| o.key.clone());
        seen.extend(page.into_iter().map(|o| o.key));
        if !truncated {
            break;
        }
    }
    assert_eq!(seen, all.iter().map(|o| o.key.clone()).collect::<Vec<_>>());
    assert!(r.list_objects_at(b"", None, 0).unwrap().is_none());
    assert_eq!(
        r.list_objects_at(&[0xff], None, 1).unwrap_err().message,
        "list prefix is not UTF-8"
    );
    assert_eq!(
        r.list_versions_at(&[0xff], None, 1).unwrap_err().message,
        "version prefix is not UTF-8"
    );
    let mut versions = r.list_versions_at(b"", Some(b"k1".to_vec()), 50).unwrap().unwrap();
    assert_eq!(versions.limit, 10);
    for cursor in [&b"k1"[..], b"k2"] {
        versions.accept(VersionSummary {
            key: b"k".to_vec(),
            version: version(1, None),
            cursor: cursor.to_vec(),
        });
    }
    let (page, truncated) = versions.finish();
    assert_eq!(page.len(), 1);
    assert!(!truncated);
}

#[test]
fn list_cursors_belong_to_one_listing() {
    let r = repository(1);
    assert_eq!(r.begin_list_page(b"", 50).unwrap(), 10);
    assert!(r.begin_list_page(b"", 0).is_err());
    let cursor = r.first_list_cursor("main", commit_id(1), b"p");
    assert!(r.check_list_cursor(&cursor, "main", None, b"p").is_ok());
    assert!(r.check_list_cursor(&cursor, "main", Some(commit_id(1)), b"p").is_ok());
    assert!(r.check_list_cursor(&cursor, "dev", None, b"p").is_err());
    assert!(r.check_list_cursor(&cursor, "main", Some(commit_id(2)), b"p").is_err());
    assert!(r.check_list_cursor(&cursor, "main", None, b"q").is_err());
    assert!(repository(2).check_list_cursor(&cursor, "main", None, b"p").is_err());
    let (page, next) = finish_list_page(
        cursor.clone(),
        vec![summary(b"pa"), summary(b"pb"), summary(b"pc")],
        2,
    );
    assert_eq!(page.len(), 2);
    assert_eq!(next.unwrap().after, Some(b"pb".to_vec()));
    let (page, next) = finish_list_page(cursor, vec![summary(b"pa")], 2);
    assert_eq!(page.len(), 1);
    assert!(next.is_none());
}

#[test]
fn list_tokens_are_hexadecimal() {
    assert_eq!(encode_list_token(&[0x0f, 0xa0]), "0fa0");
    assert_eq!(decode_list_token("0fA0").unwrap(), vec![0x0f, 0xa0]);
    assert_eq!(
        decode_list_token("0f0").unwrap_err().code,
        ErrorCode::InvalidContinuationToken
    );
    assert!(decode_list_token("zz").is_err());
    assert_eq!(
        decoded_list_cursor(None).unwrap_err().message,
        "list continuation is malformed"
    );
}

#[test]
fn delimiters_group_keys() {
    assert_eq!(find_subslice(b"abcabc", 0, b"ca"), Some(2));
    assert_eq!(find_subslice(b"abcabc", 3, b"abc"), Some(0));
    assert_eq!(find_subslice(b"ab", 0, b"abc"), None);
    assert_eq!(
        common_prefix(&b"docs/a/b".to_vec(), 5, b"/"),
        Some(b"docs/a/".to_vec())
    );
    let page = list_objects_delimited_at(
        commit_id(1),
        b"docs/",
        b"/",
        vec![
            summary(b"docs/a/1"),
            summary(b"docs/a/2"),
            summary(b"docs/b"),
            summary(b"docs/c/3"),
        ],
        true,
    )
    .unwrap();
    assert_eq!(page.objects.len(), 1);
    assert_eq!(page.objects[0].key, b"docs/b");
    assert_eq!(
        page.common_prefixes,
        vec![b"docs/a/".to_vec(), b"docs/c/".to_vec()]
    );
    assert!(page.truncated);
    assert_eq!(
        list_objects_delimited_at(commit_id(1), b"", b"", Vec::new(), false)
            .unwrap_err()
            .code,
        ErrorCode::InvalidRequest
    );
    assert_eq!(
        list_objects_delimited_at(commit_id(1), b"docs/", b"/", vec![summary(b"d")], false)
            .unwrap_err()
            .code,
        ErrorCode::InternalInvariant
    );
}

#[test]
fn logs_follow_first_parents_in_pages() {
    let r = repository(1);
    let chain = |id: CommitId| match id.as_bytes()[0] {
        3 => commit(&r, vec![commit_id(2), commit_id(9)]),
        2 => commit(&r, vec![commit_id(1)]),
        _ => commit(&r, Vec::new()),
    };
    let mut cursor: Option<HistoryCursor> = None;
    let mut seen = Vec::new();
    loop {
        let start = r
            .log_page_bounded(
                "main",
                commit_id(3),
                cursor.as_ref(),
                2,
                TraversalBudget::default(),
            )
            .unwrap();
        let HistoryStart::Run(mut run) = start else {
            panic!("nothing to list");
        };
        let mut ended = false;
        while run.gate(0) == HistoryGate::Read {
            let read = chain(run.current);
            if run.take(read, 10).unwrap() == HistoryStep::Root {
                ended = true;
                break;
            }
        }
        let page = run.finish(ended, false);
        seen.extend(page.commits.iter().map(|(id, _)| id.as_bytes()[0]));
        cursor = page.continuation;
        if cursor.is_none() {
            break;
        }
    }
    assert_eq!(seen, vec![3, 2, 1]);
}

#[test]
fn logs_keep_to_their_budget() {
    let r = repository(1);
    let budget = TraversalBudget {
        max_commits: 5,
        max_decoded_bytes: 15,
        max_elapsed_nanos: 100,
    };
    let begin = |budget: TraversalBudget| r.log_page_bounded("main", commit_id(1), None, 9, budget);
    let HistoryStart::Run(mut run) = begin(budget).unwrap() else {
        panic!("nothing to list");
    };
    assert_eq!(run.gate(100), HistoryGate::Exhausted);
    assert_eq!(
        run.take(commit(&r, vec![commit_id(2)]), 16).unwrap_err().message,
        "history byte budget cannot hold one commit"
    );
    assert_eq!(
        run.take(commit(&r, vec![commit_id(2)]), 10).unwrap(),
        HistoryStep::Onward
    );
    assert_eq!(
        run.take(commit(&r, Vec::new()), 10).unwrap(),
        HistoryStep::Exhausted
    );
    let page = run.finish(false, true);
    assert_eq!(page.visited_commits, 1);
    assert_eq!(page.decoded_bytes, 10);
    assert!(page.continuation.unwrap().next == commit_id(2));
    for bad in [
        TraversalBudget { max_commits: 0, ..budget },
        TraversalBudget { max_decoded_bytes: 0, ..budget },
        TraversalBudget { max_elapsed_nanos: 0, ..budget },
    ] {
        assert_eq!(begin(bad).unwrap_err().code, ErrorCode::InvalidLimit);
    }
    let other = HistoryCursor {
        repository: RepositoryId::from_hash([2; 32]),
        branch: "main".to_string(),
        root: commit_id(1),
        next: commit_id(1),
    };
    assert_eq!(
        r.log_page_bounded("main", commit_id(1), Some(&other), 9, budget)
            .unwrap_err()
            .code,
        ErrorCode::InvalidContinuationToken
    );
    assert!(matches!(
        r.log_page_bounded("main", commit_id(1), None, 0, budget).unwrap(),
        HistoryStart::Nothing(_)
    ));
    let standard = TraversalBudget::default();
    assert_eq!(standard.max_commits, 10_000);
    assert_eq!(standard.max_decoded_bytes, 64 * 1024 * 1024);
    assert_eq!(standard.max_elapsed_nanos, 30_000_000_000);
}

#[test]
fn diff_cursors_belong_to_one_comparison() {
    let r = repository(1);
    assert_eq!(
        r.diff_page_bounded("main", commit_id(1), commit_id(2), None, 99).unwrap(),
        10
    );
    assert_eq!(
        r.diff_page_bounded("main", commit_id(1), commit_id(2), None, 0)
            .unwrap_err()
            .code,
        ErrorCode::InvalidLimit
    );
    let traversal = DiffCursor {
        base_root: None,
        other_root: None,
        markers: Vec::new(),
        pending: Vec::new(),
    };
    assert!(r
        .next_diff_cursor("main", commit_id(1), commit_id(2), None)
        .is_none());
    let cursor: ObjectDiffCursor = r
        .next_diff_cursor("main", commit_id(1), commit_id(2), Some(traversal))
        .unwrap();
    assert!(r
        .diff_page_bounded("main", commit_id(1), commit_id(2), Some(&cursor), 1)
        .is_ok());
    assert_eq!(
        r.diff_page_bounded("main", commit_id(1), commit_id(3), Some(&cursor), 1)
            .unwrap_err()
            .code,
        ErrorCode::InvalidContinuationToken
    );
    let diff = object_diff(
        &Diff::Added {
            key: b"k".to_vec(),
            val: vec![1],
        },
        None,
        Some(ObjectVersionId::from_hash([1; 32])),
    );
    assert_eq!(diff.key, b"k");
    assert!(diff.from.is_none());
}
