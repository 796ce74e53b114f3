use prolly_s3_core::error::ErrorCode;
use prolly_s3_core::gc::{gc_commit_work, inner_node, reachable_node, GcNode};
use prolly_s3_core::ids::{BatchId, CommitId, ObjectVersionId, OperationId, RepositoryId};
use prolly_s3_core::indexes::RegisteredBranches;
use prolly_s3_core::inputs::{
    delete_input, initialize_input, publication_ticket_input, put_input, session_input,
    transfer_input, transferred_version_input,
};
use prolly_s3_core::model::{
    AuthorityScope, AuthorityStamp, CommitSessionManifest, MutationIdentity,
};
use prolly_s3_core::paths::{job_tree_path, JobTree};

fn session() -> CommitSessionManifest {
    CommitSessionManifest {
        id: BatchId::from_bytes([1; 16]),
        branch: "main".to_string(),
        base_commit: CommitId::from_hash([2; 32]),
        identity: MutationIdentity {
            repository: RepositoryId::from_hash([3; 32]),
            operation: OperationId::from_bytes([4; 16]),
            authority: AuthorityStamp {
                scope: AuthorityScope::Branch {
                    name: "main".to_string(),
                },
                writer_id: "w".to_string(),
                epoch: 1,
            },
        },
        message: "m".to_string(),
        created_at_millis: 1,
        expires_at_millis: 2,
    }
}

#[test]
fn parts_begin_with_the_kind_of_the_request() {
    assert_eq!(initialize_input(), vec![b"initialize".to_vec()]);
    assert_eq!(
        session_input(&session(), b"changes"),
        vec![
            b"commit-session".to_vec(),
            b"main".to_vec(),
            vec![2; 32],
            b"changes".to_vec(),
        ]
    );
    assert_eq!(
        delete_input("main", b"k"),
        vec![b"delete".to_vec(), b"main".to_vec(), b"k".to_vec()]
    );
    assert_eq!(
        publication_ticket_input("p/refs/heads/6d", b"value"),
        vec![
            b"publication-ticket".to_vec(),
            b"p/refs/heads/6d".to_vec(),
            b"value".to_vec(),
        ]
    );
}

#[test]
fn a_put_stands_for_the_digest_of_its_bytes() {
    let parts = put_input("main", b"k", b"abc", b"h", b"m");
    assert_eq!(parts.len(), 6);
    assert_eq!(parts[0], b"put".to_vec());
    assert_eq!(parts[2], b"k".to_vec());
    assert_eq!(
        hex::encode(&parts[3]),
        "ba7816bf8f01cfea414140de5dae2223b00361a396177a9cb410ff61f20015ad"
    );
    assert_eq!(parts[4], b"h".to_vec());
    assert_eq!(parts[5], b"m".to_vec());
    assert_ne!(parts, put_input("main", b"k", b"abd", b"h", b"m"));
    assert_ne!(parts, put_input("main", b"kh", b"abc", b"", b"m"));
    assert_ne!(parts, put_input("side", b"k", b"abc", b"h", b"m"));
}

#[test]
fn a_transfer_names_both_repositories() {
    let source = RepositoryId::from_hash([1; 32]);
    let destination = RepositoryId::from_hash([2; 32]);
    let commit = CommitId::from_hash([3; 32]);
    assert_eq!(
        transfer_input(source, commit, destination),
        vec![
            b"history-transfer".to_vec(),
            vec![1; 32],
            vec![3; 32],
            vec![2; 32],
        ]
    );
    assert_ne!(
        transfer_input(source, commit, destination),
        transfer_input(destination, commit, source)
    );
    assert_eq!(
        transferred_version_input(destination, ObjectVersionId::from_hash([4; 32])),
        vec![
            b"history-transfer-version".to_vec(),
            vec![2; 32],
            vec![4; 32],
        ]
    );
}

#[test]
fn each_job_has_its_own_tree() {
    let job = OperationId::from_bytes([0x11; 16]);
    let name = "11111111-1111-1111-1111-111111111111";
    let cases = [
        (JobTree::Collection, "gc", "tree"),
        (JobTree::PackInventory, "payload-pack-stats", "tree"),
        (JobTree::CommitClosure, "closure", "tree"),
        (JobTree::TransferMappings, "transfer", "mappings"),
        (JobTree::TransferDelta, "transfer", "delta"),
        (JobTree::MergePlan, "merge", "plan"),
        (JobTree::Check, "fsck", "seen"),
    ];
    for (tree, folder, leaf) in cases {
        assert_eq!(
            job_tree_path("p", tree, job).unwrap(),
            format!("p/administration/{folder}/{name}/{leaf}")
        );
        let error = job_tree_path("p", tree, OperationId::from_bytes([0; 16])).unwrap_err();
        assert_eq!(error.code, ErrorCode::InvalidContinuationToken);
    }
}

#[test]
fn damaged_work_is_refused() {
    assert_eq!(
        gc_commit_work(&vec![5; 32]).unwrap(),
        CommitId::from_hash([5; 32])
    );
    let error = gc_commit_work(&vec![5; 31]).unwrap_err();
    assert_eq!(error.code, ErrorCode::CorruptCommit);
    assert_eq!(reachable_node(Some(vec![1])).unwrap(), vec![1]);
    let error = reachable_node(None).unwrap_err();
    assert_eq!(error.code, ErrorCode::MissingClosure);
    match inner_node(&vec![vec![1; 32], vec![2; 32]]).unwrap() {
        GcNode::Inner { children } => {
            assert_eq!(children.len(), 2);
            assert_eq!(children[1].as_bytes(), &[2; 32]);
        }
        GcNode::Leaf { .. } => panic!("an inner node is no leaf"),
    }
    let error = inner_node(&vec![vec![1; 32], vec![2; 3]]).unwrap_err();
    assert_eq!(error.code, ErrorCode::CorruptNode);
}

#[test]
fn branches_are_registered_once_and_in_order() {
    let mut branches = RegisteredBranches::new();
    assert!(branches.register("main"));
    assert!(branches.register("alpha"));
    assert!(!branches.register("main"));
    assert_eq!(branches.registered_branches(), vec!["alpha", "main"]);
}
