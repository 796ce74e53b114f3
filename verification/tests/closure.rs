use prolly_s3_core::closure::{
    commit_closure_action, extend_commit_closure, sorted_unique, ClosureAction, ClosureEntry,
    CommitClosureCursor, CommitClosurePage, CommitClosureWork,
};
use prolly_s3_core::error::ErrorCode;
use prolly_s3_core::ids::{Cid, CommitId, OperationId, RepositoryId, TreeFormatDigest};
use prolly_s3_core::keys::commit_closure_seen_key;
use prolly_s3_core::model::{
    AuthorityScope, AuthorityStamp, BucketCommit, CanonicalLimits, RootManifest,
};
use prolly_s3_core::repository::{
    ProviderPerKeyVersionLimit, Repository, RepositoryFormat, RepositoryOptions,
};
use prolly_s3_core::tree::Mutation;
use std::collections::BTreeMap;

fn limits() -> CanonicalLimits {
    CanonicalLimits {
        max_key_bytes: 64,
        max_object_bytes: 1_000,
        max_mutations_per_commit: 4,
        max_delete_objects: 3,
        max_list_page: 10,
    }
}

fn options() -> RepositoryOptions {
    RepositoryOptions {
        repository_prefix: ".prolly".to_string(),
        default_branch: "main".to_string(),
        writer: "writer-1".to_string(),
        limits: limits(),
        state_tree_format: vec![1, 2, 3],
        authority_lease_millis: 60_000,
        read_only: false,
        max_cached_node_pack_bytes: 1,
        max_cached_node_locations: 1,
        max_cached_node_bytes: 1,
        mutable_control_versions_to_retain: 2,
        journal_index_max_unindexed_events: 1,
        operation_index_leaf_entries: 1,
        operation_index_merge_fanout: 2,
        operation_index_max_unindexed_events: 1,
        idempotency_retention: vec![9],
        provider_per_key_version_limit: ProviderPerKeyVersionLimit::Unlimited,
    }
}

fn format_of(id: u8) -> RepositoryFormat {
    RepositoryFormat {
        repository_id: RepositoryId::from_hash([id; 32]),
        state_tree_format: vec![1, 2, 3],
        state_tree_digest: TreeFormatDigest::from_hash([7; 32]),
        canonical_limits: limits(),
        idempotency_retention: vec![9],
        provider_per_key_version_limit: ProviderPerKeyVersionLimit::Unlimited,
        created_at_millis: 5,
    }
}

fn repository(id: u8) -> Repository {
    Repository::from_format(options(), format_of(id))
}

fn root(byte: u8) -> RootManifest {
    RootManifest {
        root: Some(Cid::from_hash([byte; 32])),
        format_digest: TreeFormatDigest::from_hash([7; 32]),
    }
}

fn commit_id(byte: u8) -> CommitId {
    CommitId::from_hash([byte; 32])
}

fn commit(r: &Repository, parents: &[u8]) -> BucketCommit {
    let mut c = r.first_commit(
        root(0),
        [0; 32],
        AuthorityStamp {
            scope: AuthorityScope::Branch {
                name: "main".to_string(),
            },
            writer_id: "w".to_string(),
            epoch: 1,
        },
    );
    c.parents = parents.iter().map(|p| commit_id(*p)).collect();
    c
}

type Tree = BTreeMap<Vec<u8>, ClosureEntry>;

fn apply(tree: &mut Tree, mutations: Vec<Mutation<ClosureEntry>>) {
    for mutation in mutations {
        match mutation {
            Mutation::Upsert { key, val } => {
                tree.insert(key, val);
            }
            Mutation::Delete { key } => {
                tree.remove(&key);
            }
        }
    }
}

fn top_of(tree: &Tree) -> Option<(Vec<u8>, CommitClosureWork)> {
    tree.iter().find_map(|(key, entry)| match entry {
        ClosureEntry::Work(work) => Some((key.clone(), *work)),
        ClosureEntry::Mark(_) => None,
    })
}

fn mark_of(tree: &Tree, commit: CommitId) -> Option<Vec<u8>> {
    match tree.get(&commit_closure_seen_key(commit)) {
        Some(ClosureEntry::Mark(state)) => Some(vec![*state]),
        _ => None,
    }
}

fn start(r: &Repository) -> CommitClosureCursor {
    r.start_commit_closure(OperationId::from_bytes([1; 16]), root(0), 1).unwrap()
}

fn attach(r: &Repository, tree: &mut Tree, cursor: &mut CommitClosureCursor, roots: &[u8]) {
    let ids: Vec<CommitId> = roots.iter().map(|b| commit_id(*b)).collect();
    let unique = r.closure_roots(cursor, &ids).unwrap();
    let met = unique.iter().map(|id| mark_of(tree, *id).is_some()).collect();
    let queued = extend_commit_closure(cursor, &unique, &met).unwrap();
    apply(tree, queued);
}

fn one_page(
    r: &Repository,
    graph: &BTreeMap<u8, Vec<u8>>,
    tree: &mut Tree,
    cursor: &CommitClosureCursor,
    size: usize,
) -> CommitClosurePage {
    let mut run = r.commit_closure_page(cursor, size, size).unwrap();
    while run.wants_entry() {
        let Some((key, work)) = top_of(tree) else {
            break;
        };
        let mark = mark_of(tree, work.commit);
        let commit = match commit_closure_action(&work, &mark).unwrap() {
            ClosureAction::Skip => None,
            _ => Some(commit(r, &graph[&work.commit.as_bytes()[0]])),
        };
        let mutations = run.accept(&key, &work, &mark, commit).unwrap();
        apply(tree, mutations);
    }
    run.finish(root(0), top_of(tree).is_none())
}

fn emitted(page: &CommitClosurePage) -> Vec<u8> {
    page.commits.iter().map(|(id, _)| id.as_bytes()[0]).collect()
}

fn walk(r: &Repository, graph: &BTreeMap<u8, Vec<u8>>, roots: &[u8], size: usize) -> Vec<u8> {
    let mut tree = Tree::new();
    let mut cursor = start(r);
    attach(r, &mut tree, &mut cursor, roots);
    let mut order = Vec::new();
    loop {
        let page = one_page(r, graph, &mut tree, &cursor, size);
        assert!(page.steps <= size);
        order.extend(emitted(&page));
        cursor = page.cursor;
        if page.complete {
            let after = one_page(r, graph, &mut tree, &cursor, size);
            assert!(after.complete && after.commits.is_empty());
            return order;
        }
    }
}

fn line() -> BTreeMap<u8, Vec<u8>> {
    BTreeMap::from([(1, vec![]), (2, vec![1]), (3, vec![2])])
}

#[test]
fn a_root_attached_in_mid_walk_is_walked_like_any_other() {
    let r = repository(1);
    let graph = line();
    let mut tree = Tree::new();
    let mut cursor = start(&r);
    attach(&r, &mut tree, &mut cursor, &[2]);
    let first = one_page(&r, &graph, &mut tree, &cursor, 1);
    assert!(first.commits.is_empty() && !first.complete && first.budget_exhausted);
    cursor = first.cursor;
    attach(&r, &mut tree, &mut cursor, &[3]);
    let mut order = Vec::new();
    loop {
        let page = one_page(&r, &graph, &mut tree, &cursor, 1);
        order.extend(emitted(&page));
        cursor = page.cursor;
        if page.complete {
            break;
        }
    }
    assert_eq!(order, vec![1, 2, 3]);
}

#[test]
fn a_walk_that_is_over_takes_new_roots() {
    let r = repository(1);
    let graph = line();
    let mut tree = Tree::new();
    let mut cursor = start(&r);
    attach(&r, &mut tree, &mut cursor, &[1]);
    let first = one_page(&r, &graph, &mut tree, &cursor, 100);
    assert_eq!(emitted(&first), vec![1]);
    cursor = first.cursor;
    attach(&r, &mut tree, &mut cursor, &[1, 3]);
    let second = one_page(&r, &graph, &mut tree, &cursor, 100);
    assert_eq!(emitted(&second), vec![2, 3]);
    assert!(second.complete);
}

#[test]
fn a_cycle_is_refused() {
    let r = repository(1);
    let graph: BTreeMap<u8, Vec<u8>> = BTreeMap::from([(1, vec![2]), (2, vec![1])]);
    let mut tree = Tree::new();
    let mut cursor = start(&r);
    attach(&r, &mut tree, &mut cursor, &[1]);
    let page = one_page(&r, &graph, &mut tree, &cursor, 2);
    let mut run = r.commit_closure_page(&page.cursor, 1, 1).unwrap();
    let (key, work) = top_of(&tree).unwrap();
    let mark = mark_of(&tree, work.commit);
    let error = run.accept(&key, &work, &mark, None).unwrap_err();
    assert_eq!(error.code, ErrorCode::CorruptCommit);
    assert_eq!(error.message, "commit graph contains a cycle");
    assert_eq!(run.steps, 0);
}

#[test]
fn every_commit_comes_once_and_after_its_parents() {
    let r = repository(1);
    let mut graph = BTreeMap::new();
    graph.insert(1, vec![]);
    graph.insert(2, vec![1]);
    graph.insert(3, vec![1]);
    graph.insert(4, vec![2, 3]);
    graph.insert(5, vec![4, 1]);
    graph.insert(6, vec![3]);
    for page in [1, 2, 7, 100] {
        let order = walk(&r, &graph, &[6, 5, 6], page);
        let mut sorted = order.clone();
        sorted.sort();
        assert_eq!(sorted, vec![1, 2, 3, 4, 5, 6], "page {page}");
        for (place, commit) in order.iter().enumerate() {
            for parent in &graph[commit] {
                assert!(order[..place].contains(parent));
            }
        }
    }
}

#[test]
fn walks_that_cannot_begin_are_refused() {
    let r = repository(1);
    let id = OperationId::from_bytes([1; 16]);
    assert_eq!(
        r.start_commit_closure(id, root(0), 0).unwrap_err().code,
        ErrorCode::InvalidLimit
    );
    assert!(r.start_commit_closure(id, root(0), 1_001).is_err());
    let cursor = start(&r);
    assert!(r.validate_commit_closure_cursor(&cursor).is_ok());
    assert_eq!(
        repository(2).validate_commit_closure_cursor(&cursor).unwrap_err().code,
        ErrorCode::InvalidContinuationToken
    );
    let nil = CommitClosureCursor {
        traversal: OperationId::from_bytes([0; 16]),
        ..cursor
    };
    assert!(r.validate_commit_closure_cursor(&nil).is_err());
    assert!(r.commit_closure_page(&cursor, 0, 1).is_err());
    assert!(r.commit_closure_page(&cursor, 1, 1_001).is_err());
}

#[test]
fn marks_decide_what_a_step_does() {
    let visit = CommitClosureWork {
        commit: commit_id(1),
        finish: false,
    };
    let finish = CommitClosureWork {
        commit: commit_id(1),
        finish: true,
    };
    assert_eq!(
        commit_closure_action(&visit, &Some(vec![1])).unwrap(),
        ClosureAction::Skip
    );
    assert_eq!(
        commit_closure_action(&visit, &None).unwrap(),
        ClosureAction::Expand
    );
    assert_eq!(
        commit_closure_action(&finish, &Some(vec![0])).unwrap(),
        ClosureAction::Emit
    );
    assert_eq!(
        commit_closure_action(&finish, &None).unwrap_err().code,
        ErrorCode::CorruptCommit
    );
}

#[test]
fn the_stack_does_not_wrap() {
    let r = repository(1);
    let mut cursor = start(&r);
    cursor.next_root_sequence = u64::MAX;
    assert_eq!(
        extend_commit_closure(&mut cursor, &vec![commit_id(1)], &vec![false])
            .unwrap_err()
            .code,
        ErrorCode::HistoryLimitExceeded
    );
    assert!(sorted_unique(&[commit_id(2), commit_id(1), commit_id(2)])
        == vec![commit_id(1), commit_id(2)]);
}
