use prolly_s3_core::authority::{AuthorityPermit, AuthorityRegistry, PermitStep};
use prolly_s3_core::error::{Error, ErrorCode};
use prolly_s3_core::ids::{RepositoryId, TreeFormatDigest};
use prolly_s3_core::model::{AuthorityScope, AuthorityStamp, CanonicalLimits};
use prolly_s3_core::repository::{
    ProviderPerKeyVersionLimit, Repository, RepositoryFormat, RepositoryOptions,
};

fn limits() -> CanonicalLimits {
    CanonicalLimits {
        max_key_bytes: 64,
        max_object_bytes: 1_000,
        max_mutations_per_commit: 4,
        max_delete_objects: 3,
        max_list_page: 10,
    }
}

fn options() -> RepositoryOptions {
    RepositoryOptions {
        repository_prefix: ".prolly".to_string(),
        default_branch: "main".to_string(),
        writer: "writer-1".to_string(),
        limits: limits(),
        state_tree_format: vec![1, 2, 3],
        authority_lease_millis: 60_000,
        read_only: false,
        max_cached_node_pack_bytes: 1,
        max_cached_node_locations: 1,
        max_cached_node_bytes: 1,
        mutable_control_versions_to_retain: 2,
        journal_index_max_unindexed_events: 1,
        operation_index_leaf_entries: 1,
        operation_index_merge_fanout: 2,
        operation_index_max_unindexed_events: 1,
        idempotency_retention: vec![9],
        provider_per_key_version_limit: ProviderPerKeyVersionLimit::Unlimited,
    }
}

fn format_of(id: u8) -> RepositoryFormat {
    RepositoryFormat {
        repository_id: RepositoryId::from_hash([id; 32]),
        state_tree_format: vec![1, 2, 3],
        state_tree_digest: TreeFormatDigest::from_hash([7; 32]),
        canonical_limits: limits(),
        idempotency_retention: vec![9],
        provider_per_key_version_limit: ProviderPerKeyVersionLimit::Unlimited,
        created_at_millis: 5,
    }
}

fn repository(id: u8) -> Repository {
    Repository::from_format(options(), format_of(id))
}

fn scope(name: &str) -> AuthorityScope {
    AuthorityScope::Branch {
        name: name.to_string(),
    }
}

fn permit(name: &str, expires_at_millis: u64) -> AuthorityPermit {
    AuthorityPermit {
        stamp: AuthorityStamp {
            scope: scope(name),
            writer_id: "writer-1".to_string(),
            epoch: 1,
        },
        expires_at_millis,
    }
}

#[test]
fn a_scope_is_held_or_fenced_never_both() {
    let mut registry = AuthorityRegistry::new();
    registry.install_permit(permit("main", 10));
    assert!(registry.permit(&scope("main")).is_some());
    assert!(!registry.is_scope_fenced(&scope("main")));
    registry.fence_scope(&scope("main"));
    assert!(registry.permit(&scope("main")).is_none());
    assert!(registry.is_scope_fenced(&scope("main")));
    registry.install_permit(permit("main", 20));
    assert_eq!(registry.permit(&scope("main")).unwrap().expires_at_millis, 20);
    assert!(!registry.is_scope_fenced(&scope("main")));
}

#[test]
fn fenced_branches_are_listed_in_order() {
    let mut r = repository(1);
    r.fence_branch("zeta");
    r.fence_branch("alpha");
    r.fence_branch("zeta");
    r.authority.fence_scope(&AuthorityScope::System {
        namespace: "tags".to_string(),
    });
    assert_eq!(r.fenced_branches(), vec!["alpha".to_string(), "zeta".to_string()]);
}

#[test]
fn a_permit_is_acquired_validated_and_reused() {
    let mut r = repository(1);
    assert!(matches!(
        r.active_scope_permit(&scope("main"), 5).unwrap(),
        PermitStep::Acquire
    ));
    assert!(matches!(
        r.permit_acquired(&scope("main"), Ok(permit("main", 10))).unwrap(),
        PermitStep::Validate(_)
    ));
    let held = r
        .permit_validated(&scope("main"), permit("main", 10), Ok(()))
        .unwrap();
    assert_eq!(held.expires_at_millis, 10);
    assert!(matches!(
        r.active_scope_permit(&scope("main"), 9).unwrap(),
        PermitStep::Validate(_)
    ));
}

#[test]
fn an_expired_permit_fences_its_branch() {
    let mut r = repository(1);
    r.authority.install_permit(permit("main", 10));
    let error = r.active_scope_permit(&scope("main"), 10).unwrap_err();
    assert_eq!(error.code, ErrorCode::PreconditionFailed);
    assert_eq!(
        error.message,
        "repository branch authority expired; explicit takeover is required"
    );
    let error = r.active_scope_permit(&scope("main"), 5).unwrap_err();
    assert_eq!(
        error.message,
        "repository branch authority is fenced in this repository instance"
    );
}

#[test]
fn failed_acquisition_and_validation_fence() {
    let mut r = repository(1);
    let down = || Error::new(ErrorCode::Transport, "down");
    assert_eq!(
        r.permit_acquired(&scope("a"), Err(down())).unwrap_err().code,
        ErrorCode::Transport
    );
    assert!(r.authority.is_scope_fenced(&scope("a")));
    assert!(r
        .permit_validated(&scope("b"), permit("b", 9), Err(down()))
        .is_err());
    assert!(r.authority.is_scope_fenced(&scope("b")));
    r.writable = false;
    assert_eq!(
        r.active_scope_permit(&scope("c"), 1).unwrap_err().message,
        "repository is read-only"
    );
}

#[test]
fn a_failed_renewal_fences_only_its_branch() {
    let mut r = repository(1);
    r.authority.install_permit(permit("a", 10));
    r.authority.install_permit(permit("b", 10));
    assert!(r.check_renewal().is_ok());
    let error = r
        .renew_shard_authorities(vec![
            (scope("a"), Err(Error::new(ErrorCode::Transport, "first"))),
            (scope("b"), Ok(permit("b", 30))),
            (scope("c"), Err(Error::new(ErrorCode::Transport, "second"))),
        ])
        .unwrap_err();
    assert_eq!(error.message, "first");
    assert!(r.authority.is_scope_fenced(&scope("a")));
    assert!(r.authority.is_scope_fenced(&scope("c")));
    assert_eq!(r.authority.permit(&scope("b")).unwrap().expires_at_millis, 30);
    assert!(r.renew_shard_authorities(Vec::new()).is_ok());
    r.writable = false;
    assert_eq!(
        r.check_renewal().unwrap_err().code,
        ErrorCode::MissingCapability
    );
}

#[test]
fn renewals_come_three_times_in_a_lease() {
    let mut r = repository(1);
    assert_eq!(r.start_shard_authority_maintenance().unwrap(), 20_000);
    r.options.authority_lease_millis = 30;
    assert_eq!(r.start_shard_authority_maintenance().unwrap(), 100);
    r.writable = false;
    assert!(r.start_shard_authority_maintenance().is_err());
}

#[test]
fn takeover_needs_a_reader_and_makes_a_writer() {
    let mut r = repository(1);
    assert_eq!(
        r.takeover_branch_writer().unwrap_err().message,
        "repository takeover requires a read-only repository handle"
    );
    r.writable = false;
    assert!(r.takeover_branch_writer().is_ok());
    r.finish_takeover(permit("main", 99));
    assert!(r.writable);
    assert_eq!(r.authority.permit(&scope("main")).unwrap().expires_at_millis, 99);
}

#[test]
fn every_held_permit_is_listed_once() {
    let mut registry = AuthorityRegistry::new();
    registry.install_permit(permit("b", 1));
    registry.install_permit(permit("a", 1));
    registry.install_permit(permit("b", 2));
    let mut held: Vec<(String, u64)> = registry
        .held_permits()
        .into_iter()
        .map(|permit| match permit.stamp.scope {
            AuthorityScope::Branch { name } => (name, permit.expires_at_millis),
            AuthorityScope::System { namespace } => (namespace, permit.expires_at_millis),
        })
        .collect();
    held.sort();
    assert_eq!(held, vec![("a".to_string(), 1), ("b".to_string(), 2)]);
    registry.fence_scope(&scope("a"));
    assert_eq!(registry.held_permits().len(), 1);
}

#[test]
fn a_repository_says_what_it_is() {
    let r = repository(3);
    assert_eq!(r.repository_id(), RepositoryId::from_hash([3; 32]));
    assert_eq!(r.max_object_bytes(), 1_000);
    assert_eq!(r.format().created_at_millis, r.format.created_at_millis);
}
