use prolly_s3_core::authority::AuthorityPermit;
use prolly_s3_core::error::{Error, ErrorCode};
use prolly_s3_core::ids::{
    Cid, CommitGeneration, CommitId, ObjectVersionId, OperationId, RefGeneration, RepositoryId,
    TreeFormatDigest,
};
use prolly_s3_core::model::{
    AuthorityScope, AuthorityStamp, BucketState, CanonicalLimits, LogicalObjectVersionKind,
    ObjectHeaders, ObjectVersion, PayloadBinding, RootManifest,
};
use prolly_s3_core::repository_v2::{
    advertised_format, format_path, initialize, intent_path, opened_format, payload_of,
    proposed_format, put_plan, put_receipt, reconcile_operation, settled_intent,
    validate_format_compatibility, validate_options, BucketCommitV2, BucketDeltaV2, ProtocolV2,
    RepositoryV2, RepositoryV2Options, TailRun, TailStep,
};
use prolly_s3_core::setup::Creation;
use prolly_s3_core::staging::CommitSessionPutInput;
use prolly_s3_core::tree::Mutation;
use prolly_s3_core::texts::NamedTexts;

fn limits() -> CanonicalLimits {
    CanonicalLimits {
        max_key_bytes: 64,
        max_object_bytes: 1_000,
        max_mutations_per_commit: 4,
        max_delete_objects: 3,
        max_list_page: 10,
    }
}

fn options() -> RepositoryV2Options {
    RepositoryV2Options {
        repository_prefix: ".prolly/v2".to_string(),
        default_branch: "main".to_string(),
        writer: "w".to_string(),
        limits: limits(),
        state_tree_format: vec![1],
        authority_lease_millis: 60_000,
        read_only: false,
        max_cached_node_pack_bytes: 1,
        max_cached_node_locations: 1,
        max_cached_node_bytes: 1,
        mutable_control_versions_to_retain: 2,
        idempotency_retention: vec![2],
    }
}

fn protocol() -> ProtocolV2 {
    ProtocolV2 {
        format_version: 2,
        protocol_version: 2,
        capability_profile: 5,
        reader_version: 2,
        writer_version: 2,
    }
}

fn repository() -> RepositoryV2 {
    let format = proposed_format(
        &options(),
        &protocol(),
        RepositoryId::from_hash([1; 32]),
        TreeFormatDigest::from_hash([7; 32]),
        9,
    );
    RepositoryV2::from_format(options(), format)
}

fn root() -> RootManifest {
    RootManifest {
        root: Some(Cid::from_hash([1; 32])),
        format_digest: TreeFormatDigest::from_hash([7; 32]),
    }
}

fn stamp() -> AuthorityStamp {
    AuthorityStamp {
        scope: AuthorityScope::Branch {
            name: "main".to_string(),
        },
        writer_id: "w".to_string(),
        epoch: 1,
    }
}

fn base(generation: u64) -> BucketCommitV2 {
    BucketCommitV2 {
        state: BucketState {
            objects: root(),
            versions: root(),
        },
        parents: Vec::new(),
        generation: CommitGeneration(generation),
        delta: BucketDeltaV2 {
            input_digest: [1; 32],
            changes: Vec::new(),
        },
        node_pack: None,
        authority: stamp(),
        author: "w".to_string(),
        message: None,
        created_at_millis: 1,
        metadata: Vec::new(),
    }
}

fn object() -> CommitSessionPutInput {
    CommitSessionPutInput {
        key: b"k".to_vec(),
        bytes: b"abc".to_vec(),
        headers: ObjectHeaders { fields: NamedTexts::new() },
        user_metadata: NamedTexts::from_pairs(vec![("m".to_string(), "1".to_string())]),
    }
}

fn binding() -> PayloadBinding {
    PayloadBinding {
        path: "p".to_string(),
        checksum_sha256: [1; 32],
        pack_checksum_sha256: None,
        pack_range: None,
        provider_etag: "t".to_string(),
        provider_version_id: None,
    }
}

#[test]
fn second_protocol_options_and_formats_are_checked() {
    assert!(validate_options(&options(), Ok(())).is_ok());
    let mut bad = options();
    bad.writer = " ".to_string();
    assert_eq!(
        validate_options(&bad, Ok(())).unwrap_err().message,
        "protocol-v2 repository options are invalid"
    );
    let format = repository().format;
    assert!(validate_format_compatibility(&format, &options(), &protocol(), Ok(())).is_ok());
    let mut newer = format.clone();
    newer.min_reader_version = 3;
    assert_eq!(
        validate_format_compatibility(&newer, &options(), &protocol(), Ok(()))
            .unwrap_err()
            .code,
        ErrorCode::UnsupportedRepositoryFormat
    );
    let retention = Error::new(ErrorCode::InvalidLimit, "short");
    assert_eq!(
        validate_format_compatibility(&format, &options(), &protocol(), Err(retention))
            .unwrap_err()
            .message,
        "short"
    );
    let mut other = options();
    other.state_tree_format = vec![9];
    assert_eq!(
        validate_format_compatibility(&format, &other, &protocol(), Ok(()))
            .unwrap_err()
            .code,
        ErrorCode::RepositoryFormatConflict
    );
    assert_eq!(format_path("r"), "r/format/v2.cbor");
    assert_eq!(intent_path("r"), "r/format/initialization-v2.cbor");
}

#[test]
fn second_protocol_repositories_are_set_up_once() {
    let mut reader = options();
    reader.read_only = true;
    assert!(initialize(&options(), Ok(())).is_ok());
    assert!(initialize(&reader, Ok(())).is_err());
    assert_eq!(settled_intent(1, Creation::Applied).unwrap(), 1);
    assert_eq!(settled_intent(1, Creation::Conflict(Some(2))).unwrap(), 2);
    assert!(settled_intent(1, Creation::Conflict(None)).is_err());
    assert!(advertised_format(&vec![1], Creation::Conflict(Some(vec![1]))).is_ok());
    assert!(advertised_format(&vec![1], Creation::Conflict(Some(vec![2]))).is_err());
    assert_eq!(
        opened_format(None).unwrap_err().message,
        "protocol-v2 repository format marker does not exist"
    );
}

#[test]
fn second_protocol_branches_are_held_explicitly() {
    let mut r = repository();
    assert_eq!(
        r.active_permit("main").unwrap_err().code,
        ErrorCode::PreconditionFailed
    );
    let permit = |at: u64| AuthorityPermit {
        stamp: stamp(),
        expires_at_millis: at,
    };
    r.install_permit("main", permit(1));
    r.install_permit("dev", permit(2));
    r.install_permit("main", permit(3));
    assert_eq!(r.active_permit("main").unwrap().expires_at_millis, 3);
    assert_eq!(r.active_permit("dev").unwrap().expires_at_millis, 2);
    assert!(r.takeover_branch_writer().is_err());
    r.options.read_only = true;
    assert!(r.takeover_branch_writer().is_ok());
}

#[test]
fn second_protocol_puts_are_checked_and_built() {
    let mut r = repository();
    assert!(r.put_object_with_operation(b"k", 1_000).is_ok());
    assert_eq!(
        r.put_object_with_operation(b"k", 1_001).unwrap_err().code,
        ErrorCode::EntityTooLarge
    );
    assert_eq!(
        r.put_object_with_operation(b".prolly/v2/x", 1).unwrap_err().code,
        ErrorCode::InvalidKey
    );
    let (generation, draft) = r.put_draft(&base(4), object(), binding(), 77).unwrap();
    assert_eq!(generation.0, 5);
    let LogicalObjectVersionKind::Live {
        size, logical_etag, ..
    } = &draft.body.kind
    else {
        panic!("not live");
    };
    assert_eq!(*size, 3);
    assert_eq!(logical_etag, "\"900150983cd24fb0d6963f7d28e17f72\"");
    assert_eq!(
        r.put_draft(&base(u64::MAX), object(), binding(), 1).unwrap_err().message,
        "v2 commit generation overflow"
    );
    let mut foreign = base(1);
    foreign.state.objects.format_digest = TreeFormatDigest::from_hash([1; 32]);
    assert_eq!(
        r.put_draft(&foreign, object(), binding(), 1).unwrap_err().code,
        ErrorCode::CorruptNode
    );
    let version = ObjectVersion {
        id: ObjectVersionId::from_hash([3; 32]),
        body: draft.body,
        binding: draft.binding,
    };
    assert_eq!(payload_of(&version).unwrap().path, "p");
    let plan = put_plan(b"k", &version, None);
    assert!(matches!(plan.object, Mutation::Upsert { .. }));
    let commit = r.put_commit(
        CommitId::from_hash([1; 32]),
        generation,
        base(1).state,
        [6; 32],
        plan.transition,
        None,
        stamp(),
        77,
    );
    assert_eq!(commit.message.as_deref(), Some("PutObject"));
    let operation = OperationId::from_bytes([5; 16]);
    let first = put_receipt(
        CommitId::from_hash([2; 32]),
        operation,
        "main",
        commit.parents.clone(),
        version.id,
    );
    let replay = reconcile_operation(
        "main",
        operation,
        &[6; 32],
        CommitId::from_hash([2; 32]),
        commit.clone(),
    )
    .unwrap();
    assert_eq!(first.changed_keys, replay.changed_keys);
    assert!(first.object_versions == replay.object_versions);
    assert!(replay.idempotent_replay);
    assert_eq!(
        reconcile_operation("main", operation, &[7; 32], CommitId::from_hash([2; 32]), commit)
            .unwrap_err()
            .code,
        ErrorCode::IdempotencyConflict
    );
    r.options.read_only = true;
    assert_eq!(
        r.put_object_with_operation(b"k", 1).unwrap_err().message,
        "protocol-v2 repository is read-only"
    );
}

#[test]
fn journal_tails_are_walked_to_the_checkpoint() {
    let mut run = TailRun::new(Some([2; 32]), 2);
    assert_eq!(run.look(&[1; 32]), TailStep::Load);
    run.loaded().unwrap();
    assert_eq!(
        run.register_unindexed_tail(RefGeneration(3)).unwrap_err().code,
        ErrorCode::CorruptCommit
    );
    assert_eq!(run.look(&[2; 32]), TailStep::Reached);
    assert!(!run.register_unindexed_tail(RefGeneration(3)).unwrap());
    run.loaded().unwrap();
    assert_eq!(run.loaded().unwrap_err().code, ErrorCode::HistoryLimitExceeded);
    let fresh = TailRun::new(None, 2);
    assert!(fresh.register_unindexed_tail(RefGeneration(0)).unwrap());
    assert_eq!(
        fresh.register_unindexed_tail(RefGeneration(1)).unwrap_err().code,
        ErrorCode::PreconditionFailed
    );
}

#[test]
fn a_repository_begins_with_an_empty_commit() {
    let commit = repository().first_commit(root(), [8; 32], stamp());
    assert_eq!(commit.state.objects, root());
    assert_eq!(commit.state.versions, root());
    assert!(commit.parents.is_empty());
    assert_eq!(commit.generation, CommitGeneration(0));
    assert_eq!(commit.delta.input_digest, [8; 32]);
    assert!(commit.delta.changes.is_empty());
    assert_eq!(
        commit.message.as_deref(),
        Some("initialize native protocol-v2 repository")
    );
    assert_eq!(commit.created_at_millis, 9);
}

#[test]
fn a_takeover_makes_the_handle_writable() {
    let mut taken = repository();
    taken.options.read_only = true;
    assert!(taken.takeover_branch_writer().is_ok());
    assert!(taken.active_permit("main").is_err());
    taken.finish_takeover(
        "main",
        AuthorityPermit {
            stamp: stamp(),
            expires_at_millis: 5,
        },
    );
    assert!(!taken.options.read_only);
    assert_eq!(taken.active_permit("main").unwrap().expires_at_millis, 5);
    let error = taken.takeover_branch_writer().unwrap_err();
    assert_eq!(error.code, ErrorCode::PreconditionFailed);
}
