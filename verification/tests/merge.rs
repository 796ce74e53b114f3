use prolly_s3_core::error::ErrorCode;
use prolly_s3_core::ids::{
    Cid, CommitGeneration, CommitId, ObjectVersionId, OperationId, RepositoryId, TreeFormatDigest,
};
use prolly_s3_core::inputs::merge_input;
use prolly_s3_core::keys::{
    merge_base_candidate_key, merge_base_candidate_prefix, merge_queue_prefix, merge_seen_key,
};
use prolly_s3_core::merge::{
    advance_merge_version_union, begin_collection, check_merge_request, check_sealed_cursor,
    choose_fast_base, collect_merge_base_one, count_visit, fast_base, finish_base_collection,
    finish_plan_page, finish_union_page, normalized_merge_cursor, plan_buffer, select_merge_base,
    structural_cursor_with_pending, validate_requested_merge_base, MergeCursor, MergePhase,
    MergeRequest,
};
use prolly_s3_core::merge_base::{
    advance_merge_base_one, queued_flags, seed_merge_frontier, JournalCommitGraphEntry,
    MergeBaseEntry, MergeParent, MergeQueueEntry, MergeSeenEntry, MERGE_LEFT, MERGE_RIGHT,
};
use prolly_s3_core::merge_build::{
    advance_merge_object_build, build_roots, check_change_record, check_planned_head,
    draft_merge_deletes,
    finish_build, finish_build_page, merge_generation, merge_receipt, planning_base,
    policy_byte,
    publishable_base, reconcile_merge_operation, union_root, MergeBuildRecord,
};
use prolly_s3_core::merge_pages::{
    is_first_parent_ancestor, merge_base_page, merge_change_from_record,
    merge_conflict_from_record, merge_page_continuation, merge_page_end, EntryVersions,
    FirstParentStep, MergePageKind,
};
use prolly_s3_core::merge_plan::{
    advance_merge_plan, merge_diff_values, plan_keys, Diff, MergePlanEntry, MergePolicy,
};
use prolly_s3_core::merge_run::{
    cleaned_up, finish_cleanup_page, merge_work, MergeCleanupCursor, MergeWork,
};
use prolly_s3_core::model::{
    AuthorityScope, AuthorityStamp, BucketState, CanonicalLimits, DeleteOutcome, RootManifest,
};
use prolly_s3_core::repository::{
    ProviderPerKeyVersionLimit, Repository, RepositoryFormat, RepositoryOptions,
};
use prolly_s3_core::tree::Mutation;
use std::collections::{BTreeMap, BTreeSet};

fn limits() -> CanonicalLimits {
    CanonicalLimits {
        max_key_bytes: 64,
        max_object_bytes: 1_000,
        max_mutations_per_commit: 4,
        max_delete_objects: 3,
        max_list_page: 10,
    }
}

fn options() -> RepositoryOptions {
    RepositoryOptions {
        repository_prefix: ".prolly".to_string(),
        default_branch: "main".to_string(),
        writer: "writer-1".to_string(),
        limits: limits(),
        state_tree_format: vec![1, 2, 3],
        authority_lease_millis: 60_000,
        read_only: false,
        max_cached_node_pack_bytes: 1,
        max_cached_node_locations: 1,
        max_cached_node_bytes: 1,
        mutable_control_versions_to_retain: 2,
        journal_index_max_unindexed_events: 1,
        operation_index_leaf_entries: 1,
        operation_index_merge_fanout: 2,
        operation_index_max_unindexed_events: 1,
        idempotency_retention: vec![9],
        provider_per_key_version_limit: ProviderPerKeyVersionLimit::Unlimited,
    }
}

fn format_of(id: u8) -> RepositoryFormat {
    RepositoryFormat {
        repository_id: RepositoryId::from_hash([id; 32]),
        state_tree_format: vec![1, 2, 3],
        state_tree_digest: TreeFormatDigest::from_hash([7; 32]),
        canonical_limits: limits(),
        idempotency_retention: vec![9],
        provider_per_key_version_limit: ProviderPerKeyVersionLimit::Unlimited,
        created_at_millis: 5,
    }
}

fn repository(id: u8) -> Repository {
    Repository::from_format(options(), format_of(id))
}

fn root(byte: u8) -> RootManifest {
    RootManifest {
        root: Some(Cid::from_hash([byte; 32])),
        format_digest: TreeFormatDigest::from_hash([7; 32]),
    }
}

fn commit_id(byte: u8) -> CommitId {
    CommitId::from_hash([byte; 32])
}

type Tree = BTreeMap<Vec<u8>, MergeBaseEntry>;

fn apply(tree: &mut Tree, mutations: Vec<Mutation<MergeBaseEntry>>) {
    for mutation in mutations {
        match mutation {
            Mutation::Upsert { key, val } => {
                tree.insert(key, val);
            }
            Mutation::Delete { key } => {
                tree.remove(&key);
            }
        }
    }
}

fn cursor(r: &Repository, policy: MergePolicy) -> MergeCursor {
    r.start_merge(
        OperationId::from_bytes([1; 16]),
        OperationId::from_bytes([2; 16]),
        MergeRequest {
            target_branch: "main".to_string(),
            source_branch: "dev".to_string(),
            ours: commit_id(1),
            theirs: commit_id(2),
            requested_base: None,
            policy,
            message: "merge dev".to_string(),
        },
        50,
        root(0),
    )
}

fn generation(graph: &BTreeMap<u8, Vec<u8>>, commit: u8) -> u64 {
    graph[&commit]
        .iter()
        .map(|p| generation(graph, *p) + 1)
        .max()
        .unwrap_or(0)
}

fn seen(tree: &Tree, commit: CommitId) -> Option<MergeSeenEntry> {
    match tree.get(&merge_seen_key(commit)) {
        Some(MergeBaseEntry::Seen(entry)) => Some(*entry),
        _ => None,
    }
}

fn bases(r: &Repository, graph: &BTreeMap<u8, Vec<u8>>, ours: u8, theirs: u8) -> Vec<u8> {
    let mut tree = Tree::new();
    let mut mutations = Vec::new();
    seed_merge_frontier(&mut mutations, commit_id(ours), generation(graph, ours), MERGE_LEFT);
    apply(&mut tree, mutations);
    let mut mutations = Vec::new();
    let flags = seen(&tree, commit_id(theirs)).map_or(MERGE_RIGHT, |s| s.flags | MERGE_RIGHT);
    seed_merge_frontier(&mut mutations, commit_id(theirs), generation(graph, theirs), flags);
    apply(&mut tree, mutations);
    let mut c = cursor(r, MergePolicy::Fail);
    let queue = merge_queue_prefix();
    loop {
        let next = tree.iter().find(|(key, _)| key.starts_with(&queue)).map(|(k, e)| (k.clone(), *e));
        let Some((key, MergeBaseEntry::Queued(queued))) = next else {
            break;
        };
        let visited = queued_flags(&queued, seen(&tree, queued.commit)).unwrap();
        let candidate = |id: CommitId| match tree.get(&merge_base_candidate_key(id)) {
            Some(MergeBaseEntry::Candidate(c)) => Some(*c),
            _ => None,
        };
        let parents: Vec<MergeParent> = graph[&queued.commit.as_bytes()[0]]
            .iter()
            .map(|p| MergeParent {
                commit: commit_id(*p),
                generation: generation(graph, *p),
                previous: seen(&tree, commit_id(*p)),
                candidate: candidate(commit_id(*p)),
            })
            .collect();
        let own = candidate(queued.commit);
        let mutations = advance_merge_base_one(&key, &queued, &visited, own, &parents);
        apply(&mut tree, mutations);
        count_visit(&mut c).unwrap();
    }
    begin_collection(&mut c);
    let prefix = merge_base_candidate_prefix();
    let found: Vec<(Vec<u8>, MergeBaseEntry)> = tree
        .iter()
        .filter(|(key, _)| key.starts_with(&prefix))
        .map(|(k, e)| (k.clone(), *e))
        .collect();
    for (key, entry) in found {
        let MergeBaseEntry::Candidate(candidate) = entry else {
            panic!("not a candidate");
        };
        let mutations = collect_merge_base_one(&mut c, &key, &candidate).unwrap();
        apply(&mut tree, mutations);
    }
    tree.iter()
        .filter(|(_, entry)| matches!(entry, MergeBaseEntry::Base))
        .map(|(key, _)| key[key.len() - 1])
        .collect()
}

fn ancestors(graph: &BTreeMap<u8, Vec<u8>>, commit: u8) -> BTreeSet<u8> {
    let mut out = BTreeSet::new();
    let mut wait = vec![commit];
    while let Some(c) = wait.pop() {
        if out.insert(c) {
            wait.extend(graph[&c].iter());
        }
    }
    out
}

fn best(graph: &BTreeMap<u8, Vec<u8>>, a: u8, b: u8) -> Vec<u8> {
    let common: BTreeSet<u8> = ancestors(graph, a)
        .intersection(&ancestors(graph, b))
        .copied()
        .collect();
    common
        .iter()
        .copied()
        .filter(|c| !common.iter().any(|d| d != c && ancestors(graph, *d).contains(c)))
        .collect()
}

#[test]
fn every_best_base_is_found() {
    let r = repository(1);
    let mut graph: BTreeMap<u8, Vec<u8>> = BTreeMap::new();
    graph.insert(1, vec![]);
    graph.insert(2, vec![1]);
    graph.insert(3, vec![1]);
    graph.insert(4, vec![2, 3]);
    graph.insert(5, vec![3, 2]);
    graph.insert(6, vec![4]);
    graph.insert(7, vec![5]);
    graph.insert(8, vec![1]);
    graph.insert(9, vec![6, 8]);
    assert_eq!(bases(&r, &graph, 6, 7), vec![2, 3]);
    for a in 1..=9 {
        for b in 1..=9 {
            assert_eq!(bases(&r, &graph, a, b), best(&graph, a, b), "{a} {b}");
        }
    }
}

#[test]
fn queue_and_marks_must_agree() {
    let queued = MergeQueueEntry {
        commit: commit_id(1),
        generation: 4,
    };
    assert_eq!(
        queued_flags(&queued, None).unwrap_err().code,
        ErrorCode::CorruptCommit
    );
    assert!(queued_flags(
        &queued,
        Some(MergeSeenEntry {
            generation: 3,
            flags: 1
        })
    )
    .is_err());
}

fn added(key: &[u8], val: u8) -> Diff {
    Diff::Added {
        key: key.to_vec(),
        val: vec![val],
    }
}

fn changed(key: &[u8], old: u8, new: u8) -> Diff {
    Diff::Changed {
        key: key.to_vec(),
        old: vec![old],
        new: vec![new],
    }
}

fn removed(key: &[u8], val: u8) -> Diff {
    Diff::Removed {
        key: key.to_vec(),
        val: vec![val],
    }
}

#[test]
fn plans_take_what_one_side_changed() {
    let page = advance_merge_plan(
        vec![added(b"a", 1), changed(b"c", 1, 2)],
        vec![added(b"a", 1), added(b"b", 5), changed(b"c", 1, 3)],
        MergePolicy::Theirs,
        0,
        0,
        10,
    )
    .unwrap();
    assert_eq!(page.entries.len(), 3);
    assert!(!page.entries[0].conflict);
    assert_eq!(page.entries[0].selected, Some(vec![1]));
    assert_eq!(page.entries[1].selected, Some(vec![5]));
    assert!(page.entries[2].conflict);
    assert_eq!(page.entries[2].selected, Some(vec![3]));
    assert_eq!(page.conflicts, 1);
    assert!(page.ours_left.is_empty() && page.theirs_left.is_empty());
    assert_eq!(page.planned_changes, 2);
}

#[test]
fn the_head_that_leads_is_the_base() {
    let (ours, theirs) = (commit_id(1), commit_id(2));
    assert!(fast_base(ours, theirs, true, false) == Some(ours));
    assert!(fast_base(ours, theirs, true, true) == Some(ours));
    assert!(fast_base(ours, theirs, false, true) == Some(theirs));
    assert!(fast_base(ours, theirs, false, false).is_none());
}

#[test]
fn pages_over_windows_come_to_the_whole_plan() {
    let ours = || vec![added(b"a", 1), changed(b"c", 1, 2), removed(b"e", 3), added(b"g", 7)];
    let theirs = || vec![added(b"b", 5), changed(b"c", 1, 3), added(b"d", 4), added(b"h", 8)];
    let whole = advance_merge_plan(ours(), theirs(), MergePolicy::Ours, 0, 0, 100).unwrap();
    assert_eq!((whole.planned_changes, whole.conflicts), (3, 1));
    let keys: Vec<Vec<u8>> = whole.entries.iter().map(|e| e.key.clone()).collect();
    assert_eq!(keys.concat(), b"abcdegh".to_vec());
    let (mut left, mut right) = (Vec::new(), Vec::new());
    let (mut ours, mut theirs) = (ours().into_iter(), theirs().into_iter());
    let (mut planned, mut changes, mut conflicts) = (Vec::new(), 0, 0);
    loop {
        left.extend(ours.by_ref().take(2));
        right.extend(theirs.by_ref().take(2));
        if left.is_empty() && right.is_empty() {
            break;
        }
        let page =
            advance_merge_plan(left, right, MergePolicy::Ours, changes, conflicts, 2).unwrap();
        planned.extend(page.entries.into_iter().map(|e| (e.key, e.selected)));
        (left, right) = (page.ours_left, page.theirs_left);
        (changes, conflicts) = (page.planned_changes, page.conflicts);
    }
    let expected: Vec<_> = whole.entries.into_iter().map(|e| (e.key, e.selected)).collect();
    assert_eq!(planned, expected);
    assert_eq!((changes, conflicts), (3, 1));
}

#[test]
fn plans_are_the_same_from_both_sides_without_conflicts() {
    let plan = |ours: Vec<Diff>, theirs: Vec<Diff>| {
        advance_merge_plan(ours, theirs, MergePolicy::Fail, 0, 0, 10)
            .unwrap()
            .entries
            .into_iter()
            .map(|e| (e.key, e.selected))
            .collect::<Vec<_>>()
    };
    let a = || vec![added(b"a", 1), removed(b"b", 2)];
    let b = || vec![changed(b"c", 3, 4)];
    assert_eq!(plan(a(), b()), plan(b(), a()));
}

#[test]
fn plan_pages_leave_the_rest() {
    let page = advance_merge_plan(
        vec![added(b"a", 1), added(b"b", 2)],
        vec![],
        MergePolicy::Ours,
        0,
        0,
        1,
    )
    .unwrap();
    assert_eq!(page.entries.len(), 1);
    assert_eq!(page.ours_left.len(), 1);
    let rest = plan_buffer(Some(added(b"x", 1)), page.ours_left);
    assert_eq!(rest.len(), 2);
    let again = structural_cursor_with_pending(None, None, None, rest).unwrap();
    assert_eq!(again.pending.len(), 2);
    assert!(structural_cursor_with_pending(None, None, None, Vec::new()).is_none());
    assert_eq!(merge_diff_values(&removed(b"q", 7)), (b"q".to_vec(), Some(vec![7]), None));
}

#[test]
fn sides_that_disagree_on_the_base_are_refused() {
    assert_eq!(
        advance_merge_plan(
            vec![changed(b"c", 1, 2)],
            vec![changed(b"c", 9, 3)],
            MergePolicy::Ours,
            0,
            0,
            10
        )
        .unwrap_err()
        .code,
        ErrorCode::CorruptCommit
    );
}

#[test]
fn version_trees_are_united() {
    let mutations =
        advance_merge_version_union(vec![added(b"a", 1), removed(b"b", 2)]).unwrap();
    assert_eq!(mutations.len(), 1);
    assert!(matches!(&mutations[0], Mutation::Upsert { key, .. } if key == b"a"));
    assert_eq!(
        advance_merge_version_union(vec![changed(b"a", 1, 2)]).unwrap_err().message,
        "same version-tree key has unequal immutable values"
    );
}

#[test]
fn requests_and_cursors_are_checked() {
    let r = repository(1);
    let check = |t: &str, s: &str, m: &str| {
        check_merge_request(&t.to_string(), &s.to_string(), m).map_err(|e| e.code)
    };
    assert!(check("main", "dev", "m").is_ok());
    assert_eq!(check("main", "main", "m"), Err(ErrorCode::InvalidRequest));
    assert_eq!(check("main", "", "m"), Err(ErrorCode::InvalidBranch));
    assert_eq!(check("main", "dev", " "), Err(ErrorCode::InvalidRequest));
    let c = cursor(&r, MergePolicy::Fail);
    assert!(r.validate_merge_cursor(&c).is_ok());
    assert_eq!(
        repository(2).validate_merge_cursor(&c).unwrap_err().code,
        ErrorCode::InvalidContinuationToken
    );
    let mut unsealed = c.clone();
    unsealed.plan_root = root(9);
    assert_eq!(normalized_merge_cursor(unsealed), normalized_merge_cursor(c));
    assert!(check_sealed_cursor(Some(b"x"), b"x").is_ok());
    assert!(check_sealed_cursor(Some(b"x"), b"y").is_err());
    assert!(check_sealed_cursor(None, b"y").is_err());
    assert!(validate_requested_merge_base(Some(commit_id(1)), commit_id(1)).is_ok());
    assert!(validate_requested_merge_base(Some(commit_id(1)), commit_id(2)).is_err());
}

#[test]
fn a_base_is_chosen() {
    let r = repository(1);
    let mut c = cursor(&r, MergePolicy::Fail);
    choose_fast_base(&mut c, commit_id(1)).unwrap();
    assert_eq!(c.phase, MergePhase::Planning);
    assert!(c.selected_base == Some(commit_id(1)));
    let mut c = cursor(&r, MergePolicy::Fail);
    begin_collection(&mut c);
    assert_eq!(
        finish_base_collection(&mut c, false, None).unwrap_err().code,
        ErrorCode::NoMergeBase
    );
    let mut c = cursor(&r, MergePolicy::Fail);
    c.phase = MergePhase::AwaitingBase;
    c.best_base_count = 2;
    assert!(select_merge_base(&mut c, commit_id(7), false).is_err());
    select_merge_base(&mut c, commit_id(7), true).unwrap();
    assert_eq!(c.phase, MergePhase::Planning);
}

#[test]
fn conflicts_stop_a_merge_that_may_not_choose() {
    let r = repository(1);
    let state = BucketState {
        objects: root(1),
        versions: root(2),
    };
    let mut c = cursor(&r, MergePolicy::Fail);
    choose_fast_base(&mut c, commit_id(1)).unwrap();
    c.ours_finished = true;
    c.theirs_finished = true;
    finish_plan_page(&mut c, 3, 1, None, None, state, root(3));
    assert_eq!(c.phase, MergePhase::Conflicted);
    assert_eq!(
        publishable_base(&c).unwrap_err().code,
        ErrorCode::PreconditionFailed
    );
    let mut c = cursor(&r, MergePolicy::Ours);
    choose_fast_base(&mut c, commit_id(1)).unwrap();
    c.ours_finished = true;
    c.theirs_finished = true;
    finish_plan_page(&mut c, 3, 1, None, None, state, root(3));
    assert_eq!(c.phase, MergePhase::BuildingVersions);
    finish_union_page(&mut c, Some(root(4)), None);
    assert_eq!(c.phase, MergePhase::BuildingObjects);
    finish_build_page(&mut c, root(5), root(6), root(7), 3, b"z".to_vec()).unwrap();
    finish_build(&mut c).unwrap();
    assert_eq!(c.phase, MergePhase::ReadyToPublish);
    assert!(publishable_base(&c).unwrap() == commit_id(1));
    assert!(check_planned_head(c.ours, commit_id(1)).is_ok());
    assert_eq!(
        check_planned_head(c.ours, commit_id(9)).unwrap_err().message,
        "merge target moved after planning"
    );
    let stamp = AuthorityStamp {
        scope: AuthorityScope::Branch {
            name: "main".to_string(),
        },
        writer_id: "w".to_string(),
        epoch: 1,
    };
    let generation = merge_generation(CommitGeneration(4), CommitGeneration(9)).unwrap();
    assert_eq!(generation.0, 10);
    let commit = r.build_merge_commit(&c, generation, [1; 32], stamp).unwrap();
    assert!(commit.parents == vec![commit_id(1), commit_id(2)]);
    let first = merge_receipt(&c, commit_id(8));
    let replay = reconcile_merge_operation(&c, &[1; 32], commit_id(8), &commit).unwrap();
    assert_eq!(first.changed_keys, replay.changed_keys);
    assert!(replay.idempotent_replay);
    assert_eq!(
        reconcile_merge_operation(&c, &[2; 32], commit_id(8), &commit).unwrap_err().code,
        ErrorCode::IdempotencyConflict
    );
    assert_eq!(
        [MergePolicy::Fail, MergePolicy::Ours, MergePolicy::Theirs].map(policy_byte),
        [0, 1, 2]
    );
    assert_eq!(
        merge_generation(CommitGeneration(u64::MAX), CommitGeneration(0)).unwrap_err().code,
        ErrorCode::InternalInvariant
    );
}

fn entry(key: &[u8], ours: Option<u8>, selected: Option<u8>, conflict: bool) -> MergePlanEntry {
    MergePlanEntry {
        key: key.to_vec(),
        base: None,
        ours: ours.map(|v| vec![v]),
        theirs: None,
        selected: selected.map(|v| vec![v]),
        conflict,
    }
}

#[test]
fn merges_write_deletions_as_versions() {
    let records = vec![
        MergeBuildRecord {
            entry: entry(b"a", Some(1), None, false),
            previous: Some(ObjectVersionId::from_hash([1; 32])),
            selected: None,
        },
        MergeBuildRecord {
            entry: entry(b"b", None, Some(2), false),
            previous: None,
            selected: Some(ObjectVersionId::from_hash([2; 32])),
        },
    ];
    let drafts = draft_merge_deletes(&records, 5, CommitGeneration(9), 77).unwrap();
    let order = drafts[0].as_ref().unwrap().body.order;
    assert_eq!(order.mutation_ordinal, 5);
    assert!(drafts[1].is_none());
    let ids = vec![ObjectVersionId::from_hash([3; 32]); 2];
    let page = advance_merge_object_build(&records, drafts, &ids);
    assert_eq!(page.object_mutations.len(), 2);
    assert!(matches!(&page.object_mutations[0], Mutation::Delete { key } if key == b"a"));
    assert_eq!(page.version_mutations.len(), 1);
    assert!(page.transitions[0].delete_marker);
    assert!(page.transitions[0].next == ids[0]);
    assert!(page.transitions[1].next == ObjectVersionId::from_hash([2; 32]));
    assert!(check_change_record(b"m/a", &records[0].entry).is_err());
}

#[test]
fn merge_records_become_pages() {
    let ids = EntryVersions {
        base: None,
        ours: Some(ObjectVersionId::from_hash([1; 32])),
        theirs: None,
        selected: None,
    };
    let change = merge_change_from_record(&entry(b"a", Some(1), None, false), ids);
    assert_eq!(change.key, b"a");
    assert!(change.to.is_none());
    assert_eq!(
        merge_conflict_from_record(&entry(b"a", Some(1), None, false), ids)
            .unwrap_err()
            .code,
        ErrorCode::CorruptCommit
    );
    assert!(merge_conflict_from_record(&entry(b"a", Some(1), None, true), ids).is_ok());
    let (change, conflict) = plan_keys(&entry(b"a", Some(1), Some(2), true));
    assert!(change.is_some() && conflict.is_some());
    assert_eq!(merge_page_end(MergePageKind::Changes).unwrap().len(), 2);
    let r = repository(1);
    let c = cursor(&r, MergePolicy::Fail);
    assert!(merge_page_continuation(&c, Some(b"k"), 2, 2).is_some());
    assert!(merge_page_continuation(&c, Some(b"k"), 1, 2).is_none());
    assert!(merge_base_page(&vec![b"short".to_vec()]).is_err());
    assert!(r.check_merge_page(MergePageKind::Changes, &c, None, 0).is_err());
}

#[test]
fn first_parents_are_followed_by_jumps() {
    let graph = JournalCommitGraphEntry {
        commit: commit_id(9),
        generation: CommitGeneration(9),
        parents: vec![commit_id(8)],
        first_parent_jumps: vec![commit_id(8), commit_id(7), commit_id(5)],
    };
    let step = |floor: u64| {
        is_first_parent_ancestor(commit_id(1), floor, commit_id(9), &graph, &vec![8, 7, 5])
    };
    assert!(matches!(step(5), FirstParentStep::Continue(id) if id == commit_id(5)));
    assert!(matches!(step(6), FirstParentStep::Continue(id) if id == commit_id(7)));
    assert!(matches!(step(9), FirstParentStep::NotFound));
    assert!(matches!(
        is_first_parent_ancestor(commit_id(9), 9, commit_id(9), &graph, &vec![8, 7, 5]),
        FirstParentStep::Found
    ));
}

#[test]
fn merge_pages_stop_where_nothing_moves() {
    let r = repository(1);
    let c = cursor(&r, MergePolicy::Fail);
    assert_eq!(r.advance_merge(&c, 0).unwrap_err().code, ErrorCode::InvalidLimit);
    let mut run = r.advance_merge(&c, 3).unwrap();
    assert_eq!(run.left(), 3);
    assert!(run
        .step(2, MergePhase::Planning, MergePhase::Planning)
        .unwrap());
    assert!(!run
        .step(0, MergePhase::Planning, MergePhase::Planning)
        .unwrap());
    assert!(run
        .step(0, MergePhase::Planning, MergePhase::BuildingVersions)
        .unwrap());
    assert!(!run
        .step(1, MergePhase::Planning, MergePhase::Planning)
        .unwrap());
    assert_eq!(run.left(), 0);
    assert_eq!(merge_work(MergePhase::Conflicted), MergeWork::Wait);
    assert_eq!(merge_work(MergePhase::BuildingObjects), MergeWork::BuildObjects);
}

#[test]
fn plans_are_cleaned_up_by_their_job() {
    let r = repository(1);
    let c = cursor(&r, MergePolicy::Fail);
    assert_eq!(
        r.cleanup_merge(&c, None, 10).unwrap(),
        ".prolly/administration/merge/01010101-0101-0101-0101-010101010101/plan/"
    );
    assert_eq!(r.cleanup_merge(&c, None, 0).unwrap_err().code, ErrorCode::InvalidLimit);
    let mut place = MergeCleanupCursor {
        repository: c.repository,
        job: c.job,
        provider_continuation: "next".to_string(),
    };
    assert!(r.cleanup_merge(&c, Some(&place), 10).is_ok());
    place.job = OperationId::from_bytes([9; 16]);
    assert_eq!(
        r.cleanup_merge(&c, Some(&place), 10).unwrap_err().message,
        "merge cleanup cursor belongs to another job"
    );
    assert_eq!(cleaned_up(1, DeleteOutcome::NotFound).unwrap(), 2);
    assert_eq!(
        cleaned_up(1, DeleteOutcome::TokenMismatch).unwrap_err().code,
        ErrorCode::RefConflict
    );
    let page = finish_cleanup_page(&c, 2, Some("more".to_string()));
    assert_eq!(page.continuation.unwrap().provider_continuation, "more");
}

#[test]
fn the_input_of_a_merge_names_its_sides_and_policy() {
    let r = repository(1);
    let id = r.format.repository_id;
    let parts = merge_input(id, &cursor(&r, MergePolicy::Theirs), commit_id(3));
    assert_eq!(
        parts,
        vec![
            b"merge-".to_vec(),
            id.as_bytes().to_vec(),
            b"main".to_vec(),
            vec![1; 32],
            vec![2; 32],
            vec![3; 32],
            vec![2],
        ]
    );
    assert_ne!(
        parts,
        merge_input(id, &cursor(&r, MergePolicy::Ours), commit_id(3))
    );
}

#[test]
fn a_merge_builds_on_the_trees_it_has() {
    let r = repository(1);
    let mut c = cursor(&r, MergePolicy::Ours);
    assert_eq!(planning_base(&c).unwrap_err().code, ErrorCode::InternalInvariant);
    c.selected_base = Some(commit_id(3));
    assert_eq!(planning_base(&c).unwrap(), commit_id(3));
    assert_eq!(build_roots(&c).unwrap_err().message, "merge object root is absent");
    c.final_objects = Some(root(1));
    assert_eq!(build_roots(&c).unwrap_err().message, "merge version root is absent");
    assert!(union_root(&c).is_err());
    c.final_versions = Some(root(2));
    assert_eq!(union_root(&c).unwrap(), root(2));
    assert_eq!(build_roots(&c).unwrap_err().message, "merge delta root is absent");
    c.delta_root = Some(root(3));
    let roots = build_roots(&c).unwrap();
    assert_eq!((roots.objects, roots.versions, roots.delta), (root(1), root(2), root(3)));
}
