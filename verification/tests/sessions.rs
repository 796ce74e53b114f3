use prolly_s3_core::authority::AuthorityPermit;
use prolly_s3_core::commits::CommitRequest;
use prolly_s3_core::error::{Error, ErrorCode};
use prolly_s3_core::ids::{
    BatchId, Cid, CommitGeneration, CommitId, ObjectVersionId, OperationId, RepositoryId,
    TreeFormatDigest,
};
use prolly_s3_core::model::{
    AuthorityScope, AuthorityStamp, BucketState, CanonicalLimits, Checksums, CommitSessionManifest,
    CommitSessionState, LogicalObjectVersionKind, ObjectHeaders, PayloadBinding, RootManifest,
    StagedMutation,
};
use prolly_s3_core::publish::{
    draft_versions, new_receipt, next_generation, place_delta, plan_commit, reconcile_operation,
    CommitParts, PublicationEnd,
};
use prolly_s3_core::repository::{
    ProviderPerKeyVersionLimit, Repository, RepositoryFormat, RepositoryOptions,
};
use prolly_s3_core::session::{
    adopt_checkpoint, check_session_authority, check_session_base, check_session_time, entity_tag,
    resumable_checkpoint, CommitSessionCheckpoint, PayloadCheck, StagedCandidate,
};
use prolly_s3_core::staging::{
    put_attributes, set_tags, staged_file, staged_in_order, staged_pack, staged_put, CommitSessionPutInput,
    CommitSessionRepackInput,
};
use prolly_s3_core::tree::Mutation;
use prolly_s3_core::write_run::{WriteEvent, WriteRun};
use prolly_s3_core::writes::{reconciles_failure, write_steps, WriteKind, WriteStep};
use prolly_s3_core::texts::NamedTexts;
use std::collections::BTreeMap;

fn limits() -> CanonicalLimits {
    CanonicalLimits {
        max_key_bytes: 64,
        max_object_bytes: 1_000,
        max_mutations_per_commit: 4,
        max_delete_objects: 3,
        max_list_page: 10,
    }
}

fn options() -> RepositoryOptions {
    RepositoryOptions {
        repository_prefix: ".prolly".to_string(),
        default_branch: "main".to_string(),
        writer: "writer-1".to_string(),
        limits: limits(),
        state_tree_format: vec![1, 2, 3],
        authority_lease_millis: 60_000,
        read_only: false,
        max_cached_node_pack_bytes: 1,
        max_cached_node_locations: 1,
        max_cached_node_bytes: 1,
        mutable_control_versions_to_retain: 2,
        journal_index_max_unindexed_events: 1,
        operation_index_leaf_entries: 1,
        operation_index_merge_fanout: 2,
        operation_index_max_unindexed_events: 1,
        idempotency_retention: vec![9],
        provider_per_key_version_limit: ProviderPerKeyVersionLimit::Unlimited,
    }
}

fn format_of(id: u8) -> RepositoryFormat {
    RepositoryFormat {
        repository_id: RepositoryId::from_hash([id; 32]),
        state_tree_format: vec![1, 2, 3],
        state_tree_digest: TreeFormatDigest::from_hash([7; 32]),
        canonical_limits: limits(),
        idempotency_retention: vec![9],
        provider_per_key_version_limit: ProviderPerKeyVersionLimit::Unlimited,
        created_at_millis: 5,
    }
}

fn repository(id: u8) -> Repository {
    Repository::from_format(options(), format_of(id))
}

fn root(byte: u8) -> RootManifest {
    RootManifest {
        root: Some(Cid::from_hash([byte; 32])),
        format_digest: TreeFormatDigest::from_hash([7; 32]),
    }
}

fn commit_id(byte: u8) -> CommitId {
    CommitId::from_hash([byte; 32])
}

fn stamp(epoch: u64) -> AuthorityStamp {
    AuthorityStamp {
        scope: AuthorityScope::Branch {
            name: "main".to_string(),
        },
        writer_id: "writer-1".to_string(),
        epoch,
    }
}

fn texts(pairs: &[(&str, &str)]) -> NamedTexts {
    NamedTexts::from_pairs(pairs.iter().map(|(a, b)| (a.to_string(), b.to_string())).collect())
}

fn headers() -> ObjectHeaders {
    ObjectHeaders { fields: NamedTexts::new() }
}

fn input(key: &[u8], bytes: Vec<u8>) -> CommitSessionPutInput {
    CommitSessionPutInput {
        key: key.to_vec(),
        bytes,
        headers: headers(),
        user_metadata: texts(&[("a", "b")]),
    }
}

fn binding_for(bytes: &[u8]) -> PayloadBinding {
    let digest = <[u8; 32]>::from(<sha2::Sha256 as sha2::Digest>::digest(bytes));
    PayloadBinding {
        path: "payload".to_string(),
        checksum_sha256: digest,
        pack_checksum_sha256: None,
        pack_range: None,
        provider_etag: "tag".to_string(),
        provider_version_id: None,
    }
}

fn put(key: &[u8], bytes: &[u8]) -> StagedMutation {
    staged_put(input(key, bytes.to_vec()), binding_for(bytes))
}

fn candidate(mutation: StagedMutation) -> StagedCandidate {
    StagedCandidate {
        mutation,
        check: PayloadCheck {
            binding: Ok(()),
            expected_path: Ok("payload".to_string()),
        },
    }
}

fn session(r: &Repository) -> CommitSessionManifest {
    r.begin_commit_session(
        BatchId::from_bytes([4; 16]),
        "main",
        commit_id(1),
        OperationId::from_bytes([5; 16]),
        stamp(1),
        "message",
        100,
        50,
    )
    .unwrap()
}

fn checkpoint(r: &Repository) -> CommitSessionCheckpoint {
    CommitSessionCheckpoint {
        session: session(r),
        sequence: 3,
        mutations: Vec::new(),
        state: CommitSessionState::Open,
    }
}

#[test]
fn sessions_say_when_they_end() {
    let r = repository(1);
    let s = session(&r);
    assert_eq!(s.expires_at_millis, 150);
    assert_eq!(s.branch, "main");
    assert!(s.base_commit == commit_id(1));
    assert!(check_session_time(&s, 150).is_ok());
    assert_eq!(
        check_session_time(&s, 151).unwrap_err().code,
        ErrorCode::BatchExpired
    );
    let begin = |branch: &str, after: u64| {
        r.begin_commit_session(
            BatchId::from_bytes([4; 16]),
            branch,
            commit_id(1),
            OperationId::from_bytes([5; 16]),
            stamp(1),
            "m",
            100,
            after,
        )
    };
    assert_eq!(begin("", 1).unwrap_err().code, ErrorCode::InvalidBranch);
    assert_eq!(
        begin("main", u64::MAX).unwrap_err().message,
        "repository commit-session expiry overflow"
    );
}

#[test]
fn sessions_keep_to_their_authority_and_base() {
    let r = repository(1);
    let s = session(&r);
    assert!(check_session_authority(&s, &stamp(1)).is_ok());
    assert_eq!(
        check_session_authority(&s, &stamp(2)).unwrap_err().code,
        ErrorCode::PreconditionFailed
    );
    assert!(check_session_base(&s, commit_id(1)).is_ok());
    let error = check_session_base(&s, commit_id(2)).unwrap_err();
    assert_eq!(error.code, ErrorCode::BatchConflict);
    assert!(error.operation == Some(OperationId::from_bytes([5; 16])));
}

#[test]
fn only_open_sessions_with_time_left_resume() {
    let r = repository(1);
    assert!(resumable_checkpoint(None, 100).is_err());
    assert!(resumable_checkpoint(Some(checkpoint(&r)), 150).is_ok());
    assert_eq!(
        resumable_checkpoint(Some(checkpoint(&r)), 151).unwrap_err().code,
        ErrorCode::BatchExpired
    );
    let mut aborted = checkpoint(&r);
    aborted.state = CommitSessionState::Aborted;
    assert_eq!(
        resumable_checkpoint(Some(aborted), 100).unwrap_err().message,
        "repository commit session was aborted"
    );
}

#[test]
fn a_session_is_adopted_by_its_own_writer_only() {
    let r = repository(1);
    let (same, changed) = adopt_checkpoint(checkpoint(&r), &stamp(1), commit_id(1)).unwrap();
    assert!(!changed);
    assert_eq!(same.sequence, 3);
    let (next, changed) = adopt_checkpoint(checkpoint(&r), &stamp(2), commit_id(1)).unwrap();
    assert!(changed);
    assert_eq!(next.sequence, 4);
    assert_eq!(next.session.identity.authority.epoch, 2);
    let mut other = stamp(1);
    other.writer_id = "writer-2".to_string();
    assert_eq!(
        adopt_checkpoint(checkpoint(&r), &other, commit_id(1)).unwrap_err().code,
        ErrorCode::PreconditionFailed
    );
    assert_eq!(
        adopt_checkpoint(checkpoint(&r), &stamp(1), commit_id(9)).unwrap_err().code,
        ErrorCode::BatchConflict
    );
    let mut last = checkpoint(&r);
    last.sequence = u64::MAX;
    assert_eq!(
        adopt_checkpoint(last, &stamp(2), commit_id(1)).unwrap_err().code,
        ErrorCode::InvalidLimit
    );
}

#[test]
fn staged_objects_carry_their_digests() {
    let staged = put(b"k", b"abc");
    let StagedMutation::Put(p) = &staged else {
        panic!("not a put");
    };
    assert_eq!(p.size, 3);
    assert_eq!(p.logical_etag, "\"900150983cd24fb0d6963f7d28e17f72\"");
    assert_eq!(p.checksums.md5.unwrap()[0], 0x90);
    assert_eq!(p.checksums.sha256.unwrap()[0], 0xba);
    assert_eq!(entity_tag(&[0xab; 16]), format!("\"{}\"", "ab".repeat(16)));
    let file = staged_file(
        b"f".to_vec(),
        9,
        [1; 32],
        [2; 16],
        headers(),
        texts(&[("a", "b")]),
        binding_for(b"x"),
    );
    let StagedMutation::Put(p) = file else {
        panic!("not a put");
    };
    assert_eq!(p.size, 9);
    assert_eq!(p.logical_etag, entity_tag(&[2; 16]));
}

#[test]
fn small_objects_are_packed_and_others_are_not() {
    let r = repository(1);
    let plan = r
        .stage_commit_session_put_batch(
            vec![
                input(b"c", vec![1; 500]),
                input(b"a", Vec::new()),
                input(b"b", vec![2; 10]),
            ],
            2,
        )
        .unwrap();
    assert_eq!(plan.direct.len(), 1);
    assert_eq!(plan.direct[0].key, b"a");
    assert_eq!(plan.packed_groups.len(), 1);
    let keys: Vec<&[u8]> = plan.packed_groups[0].iter().map(|o| &o.key[..]).collect();
    assert_eq!(keys, vec![&b"b"[..], b"c"]);
}

#[test]
fn windows_that_cannot_be_staged_are_refused() {
    let r = repository(1);
    assert_eq!(
        r.stage_commit_session_put_batch(Vec::new(), 0).unwrap_err().code,
        ErrorCode::InvalidLimit
    );
    assert_eq!(
        r.stage_commit_session_put_batch(vec![input(b"a", vec![0; 1_001])], 1)
            .unwrap_err()
            .code,
        ErrorCode::EntityTooLarge
    );
    assert_eq!(
        r.stage_commit_session_put_batch(vec![input(b"", vec![1])], 1)
            .unwrap_err()
            .code,
        ErrorCode::InvalidKey
    );
    assert!(r
        .stage_commit_session_put_batch(vec![input(b"a", vec![1]), input(b"a", vec![2])], 1)
        .is_err());
}

#[test]
fn packed_objects_go_with_their_bindings_in_order() {
    let staged = staged_pack(
        vec![input(b"b", vec![1]), input(b"a", vec![2])],
        vec![binding_for(&[1]), binding_for(&[2])],
    );
    assert_eq!(staged.len(), 2);
    let ordered = staged_in_order(staged);
    assert_eq!(ordered[0].key(), b"a");
    assert_eq!(ordered[1].key(), b"b");
}

#[test]
fn a_session_publishes_its_mutations_in_key_order() {
    let r = repository(1);
    let s = session(&r);
    let mutations = r
        .publish_commit_session(
            &s,
            vec![
                candidate(put(b"b", b"1")),
                candidate(StagedMutation::delete(b"a".to_vec())),
            ],
            150,
        )
        .unwrap();
    assert_eq!(mutations[0].key(), b"a");
    assert_eq!(mutations[1].key(), b"b");
    let again = r
        .publish_commit_session(
            &s,
            vec![
                candidate(StagedMutation::delete(b"a".to_vec())),
                candidate(put(b"b", b"1")),
            ],
            150,
        )
        .unwrap();
    assert_eq!(again, mutations);
    assert_eq!(
        repository(2)
            .publish_commit_session(&s, vec![candidate(put(b"b", b"1"))], 100)
            .unwrap_err()
            .message,
        "commit session belongs to another repository"
    );
    assert!(r.check_session_repository(&s).is_ok());
    assert_eq!(
        r.publish_commit_session(&s, vec![candidate(put(b"b", b"1"))], 151)
            .unwrap_err()
            .message,
        "repository commit session is expired"
    );
    assert_eq!(
        r.publish_commit_session(&s, Vec::new(), 100).unwrap_err().code,
        ErrorCode::InvalidLimit
    );
    let five = (0u8..5)
        .map(|i| candidate(StagedMutation::delete(vec![b'a' + i])))
        .collect::<Vec<_>>();
    assert_eq!(
        r.publish_commit_session(&s, five, 100).unwrap_err().code,
        ErrorCode::InvalidLimit
    );
    assert_eq!(
        r.publish_commit_session(
            &s,
            vec![candidate(put(b"a", b"1")), candidate(put(b"a", b"2"))],
            100
        )
        .unwrap_err()
        .message,
        "repository commit session contains the same key more than once"
    );
}

#[test]
fn staged_puts_must_agree_with_their_payload() {
    let r = repository(1);
    let s = session(&r);
    let mut wrong = candidate(put(b"a", b"1"));
    wrong.check.expected_path = Ok("elsewhere".to_string());
    assert_eq!(
        r.publish_commit_session(&s, vec![wrong], 100).unwrap_err().code,
        ErrorCode::ChecksumMismatch
    );
    let wrong = candidate(staged_put(input(b"a", vec![1]), binding_for(&[2])));
    assert_eq!(
        r.publish_commit_session(&s, vec![wrong], 100).unwrap_err().code,
        ErrorCode::ChecksumMismatch
    );
    let mut broken = candidate(put(b"a", b"1"));
    broken.check.binding = Err(Error::new(ErrorCode::CorruptContent, "bad binding"));
    assert_eq!(
        r.publish_commit_session(&s, vec![broken], 100).unwrap_err().message,
        "bad binding"
    );
}

#[test]
fn checkpoints_may_be_empty_and_keep_their_state() {
    let r = repository(1);
    let saved = r
        .checkpoint_commit_session(session(&r), Vec::new(), 7, CommitSessionState::Aborted)
        .unwrap();
    assert_eq!(saved.sequence, 7);
    assert_eq!(saved.state, CommitSessionState::Aborted);
    assert!(saved.mutations.is_empty());
}

#[test]
fn a_commit_is_read_back() {
    let r = repository(1);
    let base = r.first_commit(root(0), [0; 32], stamp(1));
    let mutations = vec![StagedMutation::delete(b"a".to_vec()), put(b"b", b"new")];
    let (generation, drafts) = r.begin_commit(&base, &mutations, 42).unwrap();
    assert_eq!(generation.0, 1);
    let ids = vec![
        ObjectVersionId::from_hash([1; 32]),
        ObjectVersionId::from_hash([2; 32]),
    ];
    let previous = vec![Some(ObjectVersionId::from_hash([9; 32])), None];
    let plan = plan_commit(&mutations, drafts, &ids, &previous);
    let mut objects: BTreeMap<Vec<u8>, u64> = BTreeMap::new();
    objects.insert(b"a".to_vec(), 1);
    objects.insert(b"z".to_vec(), 26);
    for mutation in plan.object_mutations {
        match mutation {
            Mutation::Upsert { key, val } => {
                let LogicalObjectVersionKind::Live { size, .. } = val.body.kind else {
                    panic!("not live");
                };
                objects.insert(key, size);
            }
            Mutation::Delete { key } => {
                objects.remove(&key);
            }
        }
    }
    assert_eq!(
        objects.into_iter().collect::<Vec<_>>(),
        vec![(b"b".to_vec(), 3), (b"z".to_vec(), 26)]
    );
    assert_eq!(plan.version_mutations.len(), 2);
    assert!(plan.transitions[0].delete_marker);
    assert!(plan.transitions[0].previous == previous[0]);
    let placed = place_delta(plan.transitions);
    assert!(placed.external.is_none());
    assert_eq!(placed.inline.len(), 2);
    let commit = r.build_commit(
        commit_id(1),
        generation,
        CommitParts {
            state: BucketState {
                objects: root(1),
                versions: root(2),
            },
            input_digest: [8; 32],
            changes: placed.inline,
            changes_root: None,
            change_count: placed.change_count,
            node_pack: None,
            authority: stamp(1),
            message: "m".to_string(),
            created_at_millis: 42,
        },
    );
    let first = new_receipt(
        commit_id(7),
        OperationId::from_bytes([5; 16]),
        "main",
        commit.parents.clone(),
        plan.object_versions,
    );
    assert_eq!(first.changed_keys, 2);
    let replay = reconcile_operation(
        "main",
        OperationId::from_bytes([5; 16]),
        &[8; 32],
        commit_id(7),
        commit,
    )
    .unwrap();
    assert!(replay.idempotent_replay && !first.idempotent_replay);
    assert!(replay.object_versions == first.object_versions);
    assert_eq!(replay.changed_keys, first.changed_keys);
}

#[test]
fn an_operation_is_not_reused_for_other_input() {
    let r = repository(1);
    let base = r.first_commit(root(0), [1; 32], stamp(1));
    let error = reconcile_operation(
        "main",
        OperationId::from_bytes([5; 16]),
        &[2; 32],
        commit_id(7),
        base,
    )
    .unwrap_err();
    assert_eq!(error.code, ErrorCode::IdempotencyConflict);
}

#[test]
fn many_transitions_go_to_a_tree_of_their_own() {
    let mutations = (0..129u32)
        .map(|i| StagedMutation::delete(i.to_be_bytes().to_vec()))
        .collect::<Vec<_>>();
    let drafts = draft_versions(&mutations, CommitGeneration(1), 1).unwrap();
    assert_eq!(drafts[128].body.order.mutation_ordinal, 128);
    let ids = vec![ObjectVersionId::from_hash([1; 32]); 129];
    let plan = plan_commit(&mutations, drafts, &ids, &vec![None; 129]);
    let placed = place_delta(plan.transitions);
    assert!(placed.inline.is_empty());
    assert_eq!(placed.change_count, 129);
    assert_eq!(placed.external.unwrap().len(), 129);
}

#[test]
fn commits_need_sound_bases() {
    let r = repository(1);
    let mut base = r.first_commit(root(0), [0; 32], stamp(1));
    base.state.versions.format_digest = TreeFormatDigest::from_hash([1; 32]);
    assert_eq!(
        r.begin_commit(&base, &Vec::new(), 1).unwrap_err().code,
        ErrorCode::CorruptNode
    );
    let mut base = r.first_commit(root(0), [0; 32], stamp(1));
    base.generation = CommitGeneration(u64::MAX);
    assert_eq!(
        r.begin_commit(&base, &Vec::new(), 1).unwrap_err().message,
        "commit generation overflow"
    );
    assert_eq!(next_generation(CommitGeneration(4)).unwrap().0, 5);
}

#[test]
fn a_lost_answer_is_looked_up_or_fences_the_branch() {
    let mut r = repository(1);
    let lost = || Error::new(ErrorCode::Transport, "lost");
    assert!(matches!(
        r.end_publication("main", Ok(1), Ok(None)),
        PublicationEnd::Published(1)
    ));
    assert!(matches!(
        r.end_publication("main", Err(lost()), Ok(Some(2))),
        PublicationEnd::Replayed(2)
    ));
    assert!(r.fenced_branches().is_empty());
    assert!(matches!(
        r.end_publication::<u8>("main", Err(lost()), Err(lost())),
        PublicationEnd::Failed(_)
    ));
    assert!(matches!(
        r.end_publication::<u8>("main", Err(lost()), Ok(None)),
        PublicationEnd::Fenced(_)
    ));
    assert_eq!(r.fenced_branches(), vec!["main".to_string()]);
}

#[test]
fn single_writes_are_checked() {
    let mut r = repository(1);
    assert!(r.put_object_inner(b"k", 1_000).is_ok());
    assert_eq!(
        r.put_object_inner(b"k", 1_001).unwrap_err().code,
        ErrorCode::EntityTooLarge
    );
    assert_eq!(
        r.put_object_inner(b"", 1).unwrap_err().code,
        ErrorCode::InvalidKey
    );
    assert!(r.delete_object_with_operation(b"k".to_vec()).is_ok());
    r.writable = false;
    assert_eq!(
        r.put_object_inner(b"k", 1).unwrap_err().message,
        "repository is read-only"
    );
    assert!(r.delete_object_with_operation(b"k".to_vec()).is_err());
}

#[test]
fn payloads_are_stored_after_their_checks() {
    for kind in [
        WriteKind::Put { caller_named: true },
        WriteKind::Put { caller_named: false },
        WriteKind::PutV2,
    ] {
        let steps = write_steps(kind);
        let store = steps.iter().position(|s| *s == WriteStep::StorePayload).unwrap();
        let check = steps.iter().position(|s| *s == WriteStep::ValidatePermit).unwrap();
        assert!(check < store);
    }
    for kind in [WriteKind::Session, WriteKind::Delete] {
        let steps = write_steps(kind);
        assert_eq!(steps[0], WriteStep::LockBranch);
        assert_eq!(*steps.last().unwrap(), WriteStep::Publish);
        assert!(!steps.contains(&WriteStep::StorePayload));
    }
}

fn permit(epoch: u64) -> AuthorityPermit {
    AuthorityPermit {
        stamp: stamp(epoch),
        expires_at_millis: 1_000,
    }
}

/// Answers every step of a write as it wants to hear.
fn answer(step: WriteStep, clock: &mut u64, epoch: u64, head: CommitId) -> WriteEvent {
    match step {
        WriteStep::LockBranch => WriteEvent::Locked,
        WriteStep::ReadClock => {
            *clock += 1;
            WriteEvent::Clock(*clock)
        }
        WriteStep::ReconcileOperation => WriteEvent::NotPublished,
        WriteStep::FindPermit => WriteEvent::Permit(permit(epoch)),
        WriteStep::ValidatePermit => WriteEvent::PermitHolds,
        WriteStep::RequireIndexes => WriteEvent::IndexesReady,
        WriteStep::StorePayload => WriteEvent::Stored(binding_for(b"abc")),
        WriteStep::LoadTarget => WriteEvent::TargetThere,
        WriteStep::LoadHead => WriteEvent::Head(head),
        WriteStep::Publish => unreachable!(),
    }
}

#[test]
fn a_write_goes_through_its_steps() {
    for run in [
        WriteRun::of_put(true, false),
        WriteRun::of_put(false, false),
        WriteRun::of_delete(),
        WriteRun::of_put(true, true),
        WriteRun::of_merge(commit_id(9)),
        WriteRun::of_reset(commit_id(9)),
    ] {
        let mut run = run;
        let kind = run.kind;
        let mut clock = 10;
        let mut taken = Vec::new();
        while run.next() != WriteStep::Publish {
            taken.push(run.next());
            run.take(answer(run.next(), &mut clock, 1, commit_id(9))).unwrap();
        }
        taken.push(WriteStep::Publish);
        assert_eq!(taken, write_steps(kind));
        let ready = run.ready();
        assert_eq!(ready.now, clock);
        assert_eq!(ready.head, commit_id(9));
        assert_eq!(ready.permit.stamp.epoch, 1);
        let puts = matches!(kind, WriteKind::Put { .. } | WriteKind::PutV2);
        assert_eq!(ready.binding.is_some(), puts);
    }
}

#[test]
fn a_session_publishes_under_its_own_authority_and_on_its_own_base() {
    let r = repository(1);
    let run_with = |epoch: u64, head: CommitId| {
        let mut run = WriteRun::of_session(session(&r));
        let mut clock = 10;
        while run.next() != WriteStep::Publish {
            run.take(answer(run.next(), &mut clock, epoch, head))?;
        }
        Ok::<_, Error>(run.ready())
    };
    let ready = run_with(1, commit_id(1)).unwrap();
    assert_eq!(ready.head, commit_id(1));
    assert!(ready.binding.is_none());
    assert_eq!(
        run_with(2, commit_id(1)).unwrap_err().code,
        ErrorCode::PreconditionFailed
    );
    let moved = run_with(1, commit_id(2)).unwrap_err();
    assert_eq!(moved.code, ErrorCode::BatchConflict);
    assert_eq!(moved.operation, Some(OperationId::from_bytes([5; 16])));
}

#[test]
fn merges_and_movements_expect_the_branch_where_it_was() {
    let run_to_head = |mut run: WriteRun| {
        let mut clock = 0;
        while run.next() != WriteStep::LoadHead {
            run.take(answer(run.next(), &mut clock, 1, commit_id(1))).unwrap();
        }
        run.take(WriteEvent::Head(commit_id(2))).unwrap_err()
    };
    let merge = run_to_head(WriteRun::of_merge(commit_id(1)));
    assert_eq!(merge.code, ErrorCode::RefConflict);
    assert_eq!(merge.message, "merge target moved after planning");
    let reset = run_to_head(WriteRun::of_reset(commit_id(1)));
    assert_eq!(reset.code, ErrorCode::PreconditionFailed);
    assert_eq!(reset.message, "branch head does not match reset expectation");
}

fn request(mutations: Vec<StagedMutation>) -> CommitRequest {
    CommitRequest {
        branch: "main".to_string(),
        operation: OperationId::from_bytes([5; 16]),
        input_digest: [6; 32],
        message: "message".to_string(),
        mutations,
        authority: stamp(1),
        now: 77,
    }
}

fn names(count: usize) -> Vec<ObjectVersionId> {
    (0..count)
        .map(|i| {
            let mut bytes = [0; 32];
            bytes[..8].copy_from_slice(&(i as u64).to_be_bytes());
            ObjectVersionId::from_hash(bytes)
        })
        .collect()
}

#[test]
fn a_commit_is_made_from_its_mutations() {
    let r = repository(1);
    let base = r.first_commit(root(1), [0; 32], stamp(1));
    let mutations = vec![put(b"a", b"abc"), StagedMutation::delete(b"b".to_vec())];
    let drafted = r.draft_commit(request(mutations), commit_id(1), &base).unwrap();
    assert_eq!(drafted.generation, CommitGeneration(1));
    let ids = names(2);
    let (changes, planned) = drafted.plan(&ids, &vec![None, Some(ids[0])]);
    assert!(matches!(&changes.objects[0], Mutation::Upsert { key, val } if key == b"a" && val.id == ids[0]));
    assert!(matches!(&changes.objects[1], Mutation::Delete { key } if key == b"b"));
    assert_eq!(changes.versions.len(), 2);
    assert!(changes.delta.is_none());
    let state = BucketState {
        objects: root(2),
        versions: root(3),
    };
    let sealed = r.seal_commit(planned, state, None, None);
    assert_eq!(sealed.commit.parents, vec![commit_id(1)]);
    assert_eq!(sealed.commit.state.objects, root(2));
    assert_eq!(sealed.commit.delta.changes.len(), 2);
    assert!(sealed.commit.delta.changes[1].delete_marker);
    assert_eq!(sealed.commit.delta.changes[1].previous, Some(ids[0]));
    assert_eq!(sealed.commit.author, "writer-1");
    assert_eq!(sealed.commit.created_at_millis, 77);
    let commit = sealed.commit.clone();
    let first = sealed.receipt(commit_id(4));
    let again = reconcile_operation(
        "main",
        OperationId::from_bytes([5; 16]),
        &[6; 32],
        commit_id(4),
        commit,
    )
    .unwrap();
    assert!(!first.idempotent_replay && again.idempotent_replay);
    assert_eq!(first.id, again.id);
    assert_eq!(first.parents, again.parents);
    assert_eq!(first.changed_keys, again.changed_keys);
    assert_eq!(first.object_versions, again.object_versions);
}

#[test]
fn many_changes_go_to_a_tree_of_their_own() {
    let r = repository(1);
    let base = r.first_commit(root(1), [0; 32], stamp(1));
    let mutations: Vec<StagedMutation> = (0..129u8)
        .map(|byte| StagedMutation::delete(vec![byte]))
        .collect();
    let drafted = r.draft_commit(request(mutations), commit_id(1), &base).unwrap();
    let (changes, planned) = drafted.plan(&names(129), &vec![None; 129]);
    let delta = changes.delta.unwrap();
    assert_eq!(delta.len(), 129);
    assert!(matches!(&delta[5], Mutation::Upsert { key, val } if key == &vec![5] && val.delete_marker));
    let state = BucketState {
        objects: root(2),
        versions: root(3),
    };
    let sealed = r.seal_commit(planned, state, Some(root(4)), None);
    assert!(sealed.commit.delta.changes.is_empty());
    assert_eq!(sealed.commit.delta.logical_change_count(), 129);
    assert_eq!(sealed.receipt(commit_id(4)).changed_keys, 129);
}

#[test]
fn an_object_packed_anew_keeps_its_tags() {
    let repack = |key: &[u8], tags: NamedTexts| CommitSessionRepackInput {
        key: key.to_vec(),
        bytes: b"abc".to_vec(),
        headers: headers(),
        user_metadata: texts(&[("a", "b")]),
        tags,
    };
    let (object, tags) = repack(b"k", texts(&[("t", "v")])).split();
    let (other, no_tags) = repack(b"l", NamedTexts::new()).split();
    let staged: Vec<StagedMutation> = [object, other]
        .into_iter()
        .map(|o| staged_put(o, binding_for(b"abc")))
        .collect();
    for mutation in &staged {
        let StagedMutation::Put(put) = mutation else {
            panic!("a put is staged as a put");
        };
        assert!(put.attributes.tags.is_empty() && put.attributes.algorithm_values.is_empty());
        assert_eq!(put.attributes.user_metadata, texts(&[("a", "b")]));
    }
    let gone = StagedMutation::delete(b"k".to_vec());
    let tagged = set_tags(
        staged.into_iter().chain([gone.clone()]).collect(),
        &vec![no_tags, tags],
    );
    let tags_of = |m: &StagedMutation| match m {
        StagedMutation::Put(put) => put.attributes.tags.clone(),
        StagedMutation::Delete { .. } => panic!("not a put"),
    };
    assert_eq!(tags_of(&tagged[0]), texts(&[("t", "v")]));
    assert!(tags_of(&tagged[1]).is_empty());
    assert_eq!(tagged[2], gone);
    let plain = put_attributes(headers(), NamedTexts::new());
    assert!(plain.tags.is_empty() && plain.algorithm_values.is_empty());
}

#[test]
fn texts_are_kept_by_name() {
    let a = texts(&[("x", "1"), ("y", "2")]);
    let b = texts(&[("y", "2"), ("x", "1")]);
    assert!(a.same(&b));
    assert_eq!(a, b);
    assert_eq!(a.clone(), a);
    let names: Vec<&str> = b.entries().iter().map(|e| e.name.as_str()).collect();
    assert_eq!(names, vec!["x", "y"]);
    let later = texts(&[("x", "0"), ("y", "2"), ("x", "1")]);
    assert!(later.same(&a));
    assert!(!a.same(&texts(&[("x", "1")])));
    assert!(!a.same(&texts(&[("x", "1"), ("y", "3")])));
    assert!(!a.same(&texts(&[("x", "1"), ("z", "2")])));
    assert!(NamedTexts::new().is_empty() && !a.is_empty());
    let kind = |user_metadata: NamedTexts| LogicalObjectVersionKind::Live {
        size: 1,
        logical_etag: "e".to_string(),
        checksums: Checksums { md5: None, sha256: None },
        attributes: std::sync::Arc::new(put_attributes(headers(), user_metadata)),
    };
    assert!(kind(a.clone()).same(&kind(b)));
    assert!(!kind(a).same(&kind(NamedTexts::new())));
}

#[test]
fn a_session_given_up_is_saved_as_such() {
    let r = repository(1);
    let saved = r
        .abort_commit_session(session(&r), vec![candidate(put(b"k", b"abc"))], 4)
        .unwrap();
    assert_eq!(saved.state, CommitSessionState::Aborted);
    assert_eq!(saved.sequence, 4);
    assert_eq!(saved.mutations.len(), 1);
    assert_eq!(
        resumable_checkpoint(Some(saved), 100).unwrap_err().message,
        "repository commit session was aborted"
    );
    let many = (0..5u8).map(|b| candidate(put(&[b'a' + b], b"abc"))).collect();
    assert_eq!(
        r.abort_commit_session(session(&r), many, 4).unwrap_err().code,
        ErrorCode::InvalidLimit
    );
}

#[test]
fn sessions_and_merges_are_looked_up_after_a_failure() {
    assert!(reconciles_failure(WriteKind::Session));
    assert!(reconciles_failure(WriteKind::Merge));
    for caller_named in [true, false] {
        assert!(!reconciles_failure(WriteKind::Put { caller_named }));
    }
    for kind in [WriteKind::Delete, WriteKind::PutV2, WriteKind::Reset] {
        assert!(!reconciles_failure(kind));
    }
}
