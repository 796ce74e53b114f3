use prolly_s3_core::error::{Error, ErrorCode};
use prolly_s3_core::ids::{CommitId, OperationId, RepositoryId, TreeFormatDigest, Cid};
use prolly_s3_core::model::{
    AuthorityScope, AuthorityStamp, CanonicalLimits, RootManifest, StagedMutation,
};
use prolly_s3_core::ids::CommitGeneration;
use prolly_s3_core::publish::draft_versions;
use prolly_s3_core::repository::{
    validate_format_compatibility, validate_options, ProviderPerKeyVersionLimit, Repository,
    RepositoryFormat, RepositoryOptions,
};
use prolly_s3_core::setup::{
    advertised_format, initialize, needs_first_commit, opened_format, proposed_intent,
    settled_intent, Creation,
};

fn limits() -> CanonicalLimits {
    CanonicalLimits {
        max_key_bytes: 64,
        max_object_bytes: 1_000,
        max_mutations_per_commit: 4,
        max_delete_objects: 3,
        max_list_page: 10,
    }
}

fn options() -> RepositoryOptions {
    RepositoryOptions {
        repository_prefix: ".prolly".to_string(),
        default_branch: "main".to_string(),
        writer: "writer-1".to_string(),
        limits: limits(),
        state_tree_format: vec![1, 2, 3],
        authority_lease_millis: 60_000,
        read_only: false,
        max_cached_node_pack_bytes: 1,
        max_cached_node_locations: 1,
        max_cached_node_bytes: 1,
        mutable_control_versions_to_retain: 2,
        journal_index_max_unindexed_events: 1,
        operation_index_leaf_entries: 1,
        operation_index_merge_fanout: 2,
        operation_index_max_unindexed_events: 1,
        idempotency_retention: vec![9],
        provider_per_key_version_limit: ProviderPerKeyVersionLimit::Unlimited,
    }
}

fn format_of(id: u8) -> RepositoryFormat {
    RepositoryFormat {
        repository_id: RepositoryId::from_hash([id; 32]),
        state_tree_format: vec![1, 2, 3],
        state_tree_digest: TreeFormatDigest::from_hash([7; 32]),
        canonical_limits: limits(),
        idempotency_retention: vec![9],
        provider_per_key_version_limit: ProviderPerKeyVersionLimit::Unlimited,
        created_at_millis: 5,
    }
}

fn repository(id: u8) -> Repository {
    Repository::from_format(options(), format_of(id))
}

fn root(byte: u8) -> RootManifest {
    RootManifest {
        root: Some(Cid::from_hash([byte; 32])),
        format_digest: TreeFormatDigest::from_hash([7; 32]),
    }
}

fn commit_id(byte: u8) -> CommitId {
    CommitId::from_hash([byte; 32])
}

fn stamp() -> AuthorityStamp {
    AuthorityStamp {
        scope: AuthorityScope::Branch {
            name: "main".to_string(),
        },
        writer_id: "writer-1".to_string(),
        epoch: 1,
    }
}

#[test]
fn logical_delete_has_no_physical_binding_and_provider_limits_fail_closed() {
    let drafts = draft_versions(
        &vec![StagedMutation::delete(b"hot.txt".to_vec())],
        CommitGeneration(2),
        2_000,
    )
    .unwrap();
    assert!(drafts[0].binding.is_none());
    assert!(drafts[0].body.kind.is_delete_marker());

    assert!(ProviderPerKeyVersionLimit::Unlimited
        .validate_immutable_payload_profile(100)
        .is_ok());
    assert!(ProviderPerKeyVersionLimit::Finite(102)
        .validate_immutable_payload_profile(100)
        .is_ok());
    assert_eq!(
        ProviderPerKeyVersionLimit::Finite(101)
            .validate_immutable_payload_profile(100)
            .unwrap_err()
            .code,
        ErrorCode::ProviderNotQualified
    );
    assert_eq!(
        ProviderPerKeyVersionLimit::Unknown
            .validate_immutable_payload_profile(100)
            .unwrap_err()
            .code,
        ErrorCode::ProviderNotQualified
    );
}

#[test]
fn good_options_pass_and_each_bound_is_checked() {
    assert!(validate_options(&options(), Ok(())).is_ok());
    let broken: Vec<fn(&mut RepositoryOptions)> = vec![
        |o| o.repository_prefix = String::new(),
        |o| o.repository_prefix = "a/".to_string(),
        |o| o.writer = "  ".to_string(),
        |o| o.authority_lease_millis = 9_999,
        |o| o.authority_lease_millis = 86_400_001,
        |o| o.max_cached_node_pack_bytes = 0,
        |o| o.max_cached_node_locations = 0,
        |o| o.max_cached_node_bytes = 0,
        |o| o.mutable_control_versions_to_retain = 1,
        |o| o.journal_index_max_unindexed_events = 0,
        |o| o.journal_index_max_unindexed_events = 1_000_001,
        |o| o.operation_index_leaf_entries = 0,
        |o| o.operation_index_merge_fanout = 1,
        |o| o.operation_index_merge_fanout = 33,
        |o| o.operation_index_max_unindexed_events = 1_000_001,
        |o| o.operation_index_leaf_entries = 2,
    ];
    for change in broken {
        let mut o = options();
        change(&mut o);
        let error = validate_options(&o, Ok(())).unwrap_err();
        assert_eq!(error.code, ErrorCode::InvalidRequest);
        assert_eq!(error.message, "repository options are invalid");
    }
    let mut o = options();
    o.default_branch = "a..b".to_string();
    assert_eq!(
        validate_options(&o, Ok(())).unwrap_err().code,
        ErrorCode::InvalidBranch
    );
    let retention = Error::new(ErrorCode::InvalidLimit, "too short");
    assert_eq!(
        validate_options(&options(), Err(retention)).unwrap_err().message,
        "too short"
    );
    let mut o = options();
    o.provider_per_key_version_limit = ProviderPerKeyVersionLimit::Unknown;
    assert_eq!(
        validate_options(&o, Ok(())).unwrap_err().code,
        ErrorCode::ProviderNotQualified
    );
}

#[test]
fn formats_must_match_the_options() {
    assert!(validate_format_compatibility(&format_of(1), &options(), Ok(())).is_ok());
    let mut other = format_of(1);
    other.state_tree_format = vec![4];
    assert_eq!(
        validate_format_compatibility(&other, &options(), Ok(()))
            .unwrap_err()
            .code,
        ErrorCode::RepositoryFormatConflict
    );
}

#[test]
fn a_repository_is_not_set_up_for_reading_only() {
    let mut o = options();
    assert!(initialize(&o, Ok(())).is_ok());
    o.read_only = true;
    assert_eq!(
        initialize(&o, Ok(())).unwrap_err().message,
        "cannot initialize a repository read-only"
    );
}

#[test]
fn the_first_intent_counts() {
    let digest = TreeFormatDigest::from_hash([7; 32]);
    let operation = OperationId::from_bytes([1; 16]);
    let make = |id: u8| {
        proposed_intent(
            &options(),
            RepositoryId::from_hash([id; 32]),
            digest,
            operation,
            77,
        )
    };
    let settled = settled_intent(make(1), Creation::Applied).unwrap();
    assert!(settled.repository_id == RepositoryId::from_hash([1; 32]));
    assert_eq!(settled.format.created_at_millis, 77);
    let settled = settled_intent(make(1), Creation::Conflict(Some(make(2)))).unwrap();
    assert!(settled.repository_id == RepositoryId::from_hash([2; 32]));
    assert_eq!(
        settled_intent(make(1), Creation::Conflict(None)).unwrap_err().code,
        ErrorCode::RefConflict
    );
}

#[test]
fn the_format_is_advertised_once() {
    let bytes = vec![1, 2];
    assert!(advertised_format(&bytes, Creation::Applied).is_ok());
    assert!(advertised_format(&bytes, Creation::Conflict(Some(vec![1, 2]))).is_ok());
    for wrote in [Creation::Conflict(Some(vec![3])), Creation::Conflict(None)] {
        assert_eq!(
            advertised_format(&bytes, wrote).unwrap_err().code,
            ErrorCode::RepositoryFormatConflict
        );
    }
    assert_eq!(
        opened_format(None).unwrap_err().code,
        ErrorCode::RepositoryNotInitialized
    );
    assert!(opened_format(Some(format_of(1))).is_ok());
}

#[test]
fn the_first_commit_is_written_once() {
    assert!(!needs_first_commit(Ok(commit_id(1))).unwrap());
    assert!(needs_first_commit(Err(Error::new(ErrorCode::InvalidRevision, "gone"))).unwrap());
    assert_eq!(
        needs_first_commit(Err(Error::new(ErrorCode::Transport, "down")))
            .unwrap_err()
            .code,
        ErrorCode::Transport
    );
    let first = repository(1).first_commit(root(0), [3; 32], stamp());
    assert!(first.parents.is_empty());
    assert_eq!(first.generation.0, 0);
    assert_eq!(first.created_at_millis, 5);
    assert_eq!(first.message.as_deref(), Some("initialize repository"));
    assert_eq!(first.author, "writer-1");
}

#[test]
fn only_a_writer_acquires_authority_on_opening() {
    assert!(matches!(
        repository(1).open_scope(),
        Some(AuthorityScope::Branch { name }) if name == "main"
    ));
    let mut o = options();
    o.read_only = true;
    let reader = Repository::from_format(o, format_of(1));
    assert!(reader.open_scope().is_none());
    assert!(!reader.writable);
    assert_eq!(
        reader.require_writable().unwrap_err().message,
        "repository is read-only"
    );
}

#[test]
fn keys_follow_the_key_contract() {
    let r = repository(1);
    assert!(r.validate_key(b"documents/readme.txt").is_ok());
    for bad in [
        &b""[..],
        b".prolly/commits/x",
        b".prolly",
        &[0xff, 0xfe],
        &[b'a'; 65],
    ] {
        assert_eq!(r.validate_key(bad).unwrap_err().code, ErrorCode::InvalidKey);
    }
    assert!(r.validate_key(&[b'a'; 64]).is_ok());
}

#[test]
fn roots_of_another_format_are_refused() {
    let r = repository(1);
    assert!(r.tree_from_root(&root(1)).is_ok());
    let mut other = root(1);
    other.format_digest = TreeFormatDigest::from_hash([8; 32]);
    assert_eq!(
        r.tree_from_root(&other).unwrap_err().code,
        ErrorCode::CorruptNode
    );
}
