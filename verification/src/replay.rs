//! Requests that come again: the same request under the same operation is answered as it was the first
//! time, and another request under a used operation is refused.
use crate::bytes::{lemma_lex_irreflexive, lemma_lex_transitive, lex_lt};
use crate::commits::{
    comes_to, first_answer, seals, transition_views, transitions_of, DraftedCommit, PlannedCommit, SealedCommit,
    TreeChanges,
};
use crate::error::Fault;
use crate::ids::{CommitId, ObjectVersionId, OperationId};
use crate::inputs::{law_parts_tell_requests_apart, RequestView};
use crate::model::{BucketCommit, CommitSessionManifest, RootManifest, StagedMutation};
use crate::ordered::{sorted, Keyed};
use crate::publish::{keys_of, replay_answer, reused_operation, ReceiptView};
use crate::repository::Repository;
use crate::session::{candidate_fault, first_fault, mutations_of, StagedCandidate};
use vstd::prelude::*;

verus! {

/// What a session asks for, with its mutations in stored form.
pub open spec fn session_request(session: CommitSessionManifest, mutations: Seq<u8>) -> RequestView {
    RequestView::Session { branch: session.branch@, base: session.base_commit@, mutations }
}

/// What a put asks for, with its headers and metadata in stored form.
pub open spec fn put_request(
    branch: Seq<char>,
    key: Seq<u8>,
    checksum: Seq<u8>,
    headers: Seq<u8>,
    metadata: Seq<u8>,
) -> RequestView {
    RequestView::Put { branch, key, checksum, headers, metadata }
}

/// Two lists in key order that hold the same entries are the same list.
pub proof fn lemma_same_entries_same_list<T: Keyed>(a: Seq<T>, b: Seq<T>)
    requires
        sorted(a),
        sorted(b),
        forall|x: T| a.contains(x) <==> b.contains(x),
    ensures
        a == b,
    decreases a.len(),
{
    if a.len() == 0 {
        if b.len() > 0 {
            assert(b.contains(b[0]));
        }
        assert(a =~= b);
    } else {
        assert(a.contains(a.last()));
        let j = choose|j: int| 0 <= j < b.len() && b[j] == a.last();
        assert(b.contains(b.last()));
        let i = choose|i: int| 0 <= i < a.len() && a[i] == b.last();
        let x = a.last().sort_key();
        let y = b.last().sort_key();
        if j < b.len() - 1 {
            assert(lex_lt(b[j].sort_key(), b[b.len() - 1].sort_key()));
            if i < a.len() - 1 {
                assert(lex_lt(a[i].sort_key(), a[a.len() - 1].sort_key()));
                lemma_lex_transitive(x, y, x);
            }
            lemma_lex_irreflexive(x);
        }
        assert(a.last() == b.last());
        let fewer_a = a.drop_last();
        let fewer_b = b.drop_last();
        assert forall|e: T| fewer_a.contains(e) <==> fewer_b.contains(e) by {
            if fewer_a.contains(e) {
                let k = choose|k: int| 0 <= k < fewer_a.len() && fewer_a[k] == e;
                assert(a[k] == e);
                assert(a.contains(e));
                assert(lex_lt(a[k].sort_key(), a[a.len() - 1].sort_key()));
                lemma_lex_irreflexive(x);
                let m = choose|m: int| 0 <= m < b.len() && b[m] == e;
                assert(m < b.len() - 1);
                assert(fewer_b[m] == e);
            }
            if fewer_b.contains(e) {
                let k = choose|k: int| 0 <= k < fewer_b.len() && fewer_b[k] == e;
                assert(b[k] == e);
                assert(b.contains(e));
                assert(lex_lt(b[k].sort_key(), b[b.len() - 1].sort_key()));
                lemma_lex_irreflexive(y);
                let m = choose|m: int| 0 <= m < a.len() && a[m] == e;
                assert(m < a.len() - 1);
                assert(fewer_a[m] == e);
            }
        }
        lemma_same_entries_same_list(fewer_a, fewer_b);
        assert(a =~= fewer_a.push(a.last()));
        assert(b =~= fewer_b.push(b.last()));
    }
}

/// Candidates are acceptable exactly when none of them is bad on its own or has the key of one before it.
proof fn lemma_no_fault_each(repository: Repository, candidates: Seq<StagedCandidate>, n: int)
    requires
        0 <= n <= candidates.len(),
    ensures
        first_fault(repository, candidates, n) is None <==> forall|i: int|
            0 <= i < n ==> (#[trigger] candidate_fault(repository, candidates, i)) is None,
    decreases n,
{
    if n > 0 {
        lemma_no_fault_each(repository, candidates, n - 1);
    }
}

/// The mutations of a session are published as one list, in whatever order they come: a session that is
/// acceptable in one order is acceptable in every order, and comes to the same mutations.
pub proof fn law_order_of_mutations_does_not_matter(
    repository: Repository,
    first: Seq<StagedCandidate>,
    again: Seq<StagedCandidate>,
    published: Seq<StagedMutation>,
    republished: Seq<StagedMutation>,
)
    requires
        first.to_multiset() == again.to_multiset(),
        first_fault(repository, first, first.len() as int) is None,
        sorted(published),
        published.to_multiset() == mutations_of(first).to_multiset(),
        sorted(republished),
        republished.to_multiset() == mutations_of(again).to_multiset(),
    ensures
        again.len() == first.len(),
        first_fault(repository, again, again.len() as int) is None,
        republished == published,
{
    first.to_multiset_ensures();
    again.to_multiset_ensures();
    assert(first.len() == again.len());
    lemma_no_fault_each(repository, first, first.len() as int);
    lemma_no_fault_each(repository, again, again.len() as int);
    assert(first.no_duplicates()) by {
        assert forall|i: int, j: int| 0 <= i < first.len() && 0 <= j < first.len() && i != j implies first[i]
            != first[j] by {
            let (low, high) = if i < j {
                (i, j)
            } else {
                (j, i)
            };
            assert(candidate_fault(repository, first, high) is None);
            assert(first[low].mutation.spec_key() != first[high].mutation.spec_key());
        }
    }
    first.lemma_multiset_has_no_duplicates();
    again.lemma_multiset_has_no_duplicates_conv();
    assert forall|c: StagedCandidate| first.contains(c) <==> again.contains(c) by {
        assert(first.contains(c) <==> first.to_multiset().count(c) > 0);
        assert(again.contains(c) <==> again.to_multiset().count(c) > 0);
    }
    assert forall|i: int| 0 <= i < again.len() implies (#[trigger] candidate_fault(
        repository,
        again,
        i,
    )) is None by {
        assert(again.contains(again[i]));
        let k = choose|k: int| 0 <= k < first.len() && first[k] == again[i];
        assert(candidate_fault(repository, first, k) is None);
        if exists|j: int|
            0 <= j < i && #[trigger] again[j].mutation.spec_key() == again[i].mutation.spec_key() {
            let j = choose|j: int|
                0 <= j < i && #[trigger] again[j].mutation.spec_key()
                    == again[i].mutation.spec_key();
            assert(again.contains(again[j]));
            let m = choose|m: int| 0 <= m < first.len() && first[m] == again[j];
            assert(again[j] != again[i]);
            assert(m != k);
            let high = if m < k {
                k
            } else {
                m
            };
            let low = if m < k {
                m
            } else {
                k
            };
            assert(candidate_fault(repository, first, high) is None);
            assert(first[low].mutation.spec_key() == first[high].mutation.spec_key());
        }
    }
    let x = mutations_of(first);
    let y = mutations_of(again);
    published.to_multiset_ensures();
    republished.to_multiset_ensures();
    x.to_multiset_ensures();
    y.to_multiset_ensures();
    assert forall|m: StagedMutation| published.contains(m) <==> republished.contains(m) by {
        assert(published.contains(m) <==> published.to_multiset().count(m) > 0);
        assert(republished.contains(m) <==> republished.to_multiset().count(m) > 0);
        assert(x.contains(m) <==> x.to_multiset().count(m) > 0);
        assert(y.contains(m) <==> y.to_multiset().count(m) > 0);
        if x.contains(m) {
            let i = choose|i: int| 0 <= i < x.len() && x[i] == m;
            assert(first.contains(first[i]));
            let j = choose|j: int| 0 <= j < again.len() && again[j] == first[i];
            assert(y[j] == m);
        }
        if y.contains(m) {
            let i = choose|i: int| 0 <= i < y.len() && y[i] == m;
            assert(again.contains(again[i]));
            let j = choose|j: int| 0 <= j < first.len() && first[j] == again[i];
            assert(x[j] == m);
        }
    }
    lemma_same_entries_same_list(republished, published);
}

/// A request that comes again is answered with the commit that it was published as, its parents and the
/// number of keys that it changed, and, where the commit lists its changes itself, with the same versions;
/// whatever the digest of a request's parts is, and whatever was published since.
pub proof fn law_a_request_that_comes_again_is_answered_as_before(
    request: RequestView,
    digest: spec_fn(Seq<Seq<u8>>) -> Seq<u8>,
    drafted: DraftedCommit,
    ids: Seq<ObjectVersionId>,
    previous: Seq<Option<ObjectVersionId>>,
    changes: TreeChanges,
    planned: PlannedCommit,
    sealed: SealedCommit,
    changes_root: Option<RootManifest>,
    id: CommitId,
)
    requires
        drafted.wf(),
        drafted.request.input_digest@ == digest(request.parts()),
        comes_to(drafted, ids, previous, changes, planned),
        changes_root is Some <==> changes.delta is Some,
        seals(sealed, planned, changes_root),
    ensures
        replay_answer(
            sealed.branch@,
            sealed.operation,
            digest(request.parts()),
            id,
            sealed.commit,
        ) matches Ok(again) && {
            let first = first_answer(sealed, id);
            &&& again.id == first.id
            &&& again.operation == first.operation
            &&& again.branch == first.branch
            &&& again.parents == first.parents
            &&& again.changed_keys == first.changed_keys
            &&& again.idempotent_replay
            &&& changes.delta is None ==> again.object_versions == first.object_versions
        },
{
    let keys = keys_of(drafted.request.mutations@);
    let versions = drafted.versions(ids);
    let transitions = transitions_of(keys, versions, previous);
    if changes.delta is None {
        let listed = planned.inline@;
        assert(transition_views(listed).len() == listed.len());
        assert forall|i: int| 0 <= i < listed.len() implies (#[trigger] listed[i]).next
            == versions[i].id by {
            assert(transition_views(listed)[i] == listed[i]@);
            assert(transitions[i].next == versions[i].id);
        }
        let again = replay_answer(
            sealed.branch@,
            sealed.operation,
            digest(request.parts()),
            id,
            sealed.commit,
        )->Ok_0;
        assert(again.object_versions =~= sealed.object_versions@);
    }
}

/// A session that is published again, its mutations in any order, is answered as before: its digest is the
/// same, and so is the commit that it finds.
pub proof fn law_a_session_published_again_is_answered_as_before(
    repository: Repository,
    session: CommitSessionManifest,
    first: Seq<StagedCandidate>,
    again: Seq<StagedCandidate>,
    republished: Seq<StagedMutation>,
    encode: spec_fn(Seq<StagedMutation>) -> Seq<u8>,
    digest: spec_fn(Seq<Seq<u8>>) -> Seq<u8>,
    drafted: DraftedCommit,
    ids: Seq<ObjectVersionId>,
    previous: Seq<Option<ObjectVersionId>>,
    changes: TreeChanges,
    planned: PlannedCommit,
    sealed: SealedCommit,
    changes_root: Option<RootManifest>,
    id: CommitId,
)
    requires
        first.to_multiset() == again.to_multiset(),
        first_fault(repository, first, first.len() as int) is None,
        sorted(drafted.request.mutations@),
        drafted.request.mutations@.to_multiset() == mutations_of(first).to_multiset(),
        sorted(republished),
        republished.to_multiset() == mutations_of(again).to_multiset(),
        drafted.wf(),
        drafted.request.input_digest@ == digest(
            session_request(session, encode(drafted.request.mutations@)).parts(),
        ),
        comes_to(drafted, ids, previous, changes, planned),
        changes_root is Some <==> changes.delta is Some,
        seals(sealed, planned, changes_root),
    ensures
        replay_answer(
            sealed.branch@,
            sealed.operation,
            digest(session_request(session, encode(republished)).parts()),
            id,
            sealed.commit,
        ) matches Ok(answer) && {
            let before = first_answer(sealed, id);
            &&& answer.id == before.id
            &&& answer.parents == before.parents
            &&& answer.changed_keys == before.changed_keys
            &&& answer.idempotent_replay
            &&& changes.delta is None ==> answer.object_versions == before.object_versions
        },
{
    law_order_of_mutations_does_not_matter(
        repository,
        first,
        again,
        drafted.request.mutations@,
        republished,
    );
    law_a_request_that_comes_again_is_answered_as_before(
        session_request(session, encode(drafted.request.mutations@)),
        digest,
        drafted,
        ids,
        previous,
        changes,
        planned,
        sealed,
        changes_root,
        id,
    );
}

/// A put that comes again under its operation is answered as before, with the same version: a put changes
/// one key, and a commit lists few changes itself.
pub proof fn law_a_put_that_comes_again_is_answered_as_before(
    branch: Seq<char>,
    key: Seq<u8>,
    checksum: Seq<u8>,
    headers: Seq<u8>,
    metadata: Seq<u8>,
    digest: spec_fn(Seq<Seq<u8>>) -> Seq<u8>,
    drafted: DraftedCommit,
    ids: Seq<ObjectVersionId>,
    previous: Seq<Option<ObjectVersionId>>,
    changes: TreeChanges,
    planned: PlannedCommit,
    sealed: SealedCommit,
    id: CommitId,
)
    requires
        drafted.wf(),
        drafted.request.mutations@.len() == 1,
        drafted.request.input_digest@ == digest(
            put_request(branch, key, checksum, headers, metadata).parts(),
        ),
        comes_to(drafted, ids, previous, changes, planned),
        seals(sealed, planned, None),
    ensures
        replay_answer(
            sealed.branch@,
            sealed.operation,
            digest(put_request(branch, key, checksum, headers, metadata).parts()),
            id,
            sealed.commit,
        ) == Ok::<ReceiptView, Fault>(
            ReceiptView { idempotent_replay: true, ..first_answer(sealed, id) },
        ),
{
    law_a_request_that_comes_again_is_answered_as_before(
        put_request(branch, key, checksum, headers, metadata),
        digest,
        drafted,
        ids,
        previous,
        changes,
        planned,
        sealed,
        None,
        id,
    );
}

/// Another request under a used operation is refused, as long as the digest tells the two apart; and two
/// requests that differ in anything have different parts for it to tell apart.
pub proof fn law_another_request_under_a_used_operation_is_refused(
    request: RequestView,
    other: RequestView,
    digest: spec_fn(Seq<Seq<u8>>) -> Seq<u8>,
    branch: Seq<char>,
    operation: OperationId,
    target: CommitId,
    commit: BucketCommit,
)
    requires
        request != other,
        commit.delta.input_digest@ == digest(request.parts()),
        request.parts() != other.parts() ==> digest(request.parts()) != digest(other.parts()),
    ensures
        request.parts() != other.parts(),
        replay_answer(branch, operation, digest(other.parts()), target, commit) == Err::<
            ReceiptView,
            Fault,
        >(reused_operation(operation)),
{
    if request.parts() == other.parts() {
        law_parts_tell_requests_apart(request, other);
    }
}

/// What a request is known by holds all that it asks for: a session its branch, its base and its mutations; a put its
/// branch, its key, and the digest, headers and metadata of what is put.
pub proof fn law_request_names_all_it_asks_for(
    a: CommitSessionManifest,
    b: CommitSessionManifest,
    x: Seq<u8>,
    y: Seq<u8>,
)
    requires
        session_request(a, x).parts() == session_request(b, y).parts(),
    ensures
        a.branch@ == b.branch@,
        a.base_commit@ == b.base_commit@,
        x == y,
{
    law_parts_tell_requests_apart(session_request(a, x), session_request(b, y));
}

/// Two puts are the same request exactly where nothing that was given for them differs.
pub proof fn law_put_request_names_all_it_asks_for(
    branch: Seq<char>,
    key: Seq<u8>,
    checksum: Seq<u8>,
    headers: Seq<u8>,
    metadata: Seq<u8>,
    other_branch: Seq<char>,
    other_key: Seq<u8>,
    other_checksum: Seq<u8>,
    other_headers: Seq<u8>,
    other_metadata: Seq<u8>,
)
    requires
        put_request(branch, key, checksum, headers, metadata).parts() == put_request(
            other_branch,
            other_key,
            other_checksum,
            other_headers,
            other_metadata,
        ).parts(),
    ensures
        branch == other_branch,
        key == other_key,
        checksum == other_checksum,
        headers == other_headers,
        metadata == other_metadata,
{
    law_parts_tell_requests_apart(
        put_request(branch, key, checksum, headers, metadata),
        put_request(other_branch, other_key, other_checksum, other_headers, other_metadata),
    );
}

} // verus!
