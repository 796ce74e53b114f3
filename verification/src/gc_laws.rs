//! Why garbage collection keeps what is reachable.
use crate::gc::{
    commit_marks, commit_path_mark, marked_commit, marked_node, node_leads, node_marks,
    law_live_reference_keeps_its_commits, live_roots, node_path_mark, payload_mark, payload_marks,
    queue_commit, queue_commits, queue_node, set_mark,
    waiting_commit, waiting_node, GcCandidate, GcCommit, GcEntry, GcNode, GcNodeWork,
};
use crate::gc_run::candidate_is_kept;
use crate::ids::{lemma_commit_id_from_bytes, Cid, CommitId};
use crate::keys::{flag_byte, path_mark, physical_mark};
use crate::model::{PayloadBinding, PhysicalVersion};
use crate::paths::{commit_location, node_location};
use crate::tree::{
    applied, lemma_applied_concat, lemma_upserts_add_keys, only_upserts, writes_key, Edit,
};
use vstd::prelude::*;
use vstd::utf8::encode_utf8;

verus! {

/// What commits and nodes hold.
pub struct GcWorld {
    pub commits: spec_fn(CommitId) -> GcCommit,
    pub nodes: spec_fn(Cid) -> GcNode,
}

/// Whether a commit is marked or waits to be.
pub open spec fn commit_pending(tree: Map<Seq<u8>, GcEntry>, id: CommitId) -> bool {
    tree.contains_key(marked_commit(id)) || tree.contains_key(waiting_commit(id))
}

/// Whether a node is marked or waits to be.
pub open spec fn node_pending(tree: Map<Seq<u8>, GcEntry>, cid: Cid, scan_versions: bool) -> bool {
    let work = GcNodeWork { cid, scan_versions };
    tree.contains_key(marked_node(work)) || tree.contains_key(waiting_node(work))
}

/// Whether all that a marked commit leads to is marked or waits to be.
pub open spec fn commit_covered(
    tree: Map<Seq<u8>, GcEntry>,
    prefix: Seq<char>,
    id: CommitId,
    commit: GcCommit,
) -> bool {
    &&& tree.contains_key(commit_path_mark(prefix, id))
    &&& forall|j: int|
        0 <= j < commit.parents@.len() ==> commit_pending(tree, #[trigger] commit.parents@[j])
    &&& commit.objects is Some ==> node_pending(tree, commit.objects->0, false)
    &&& commit.versions is Some ==> node_pending(tree, commit.versions->0, true)
}

/// Whether all that a marked node leads to is marked or waits to be.
pub open spec fn node_covered(
    tree: Map<Seq<u8>, GcEntry>,
    prefix: Seq<char>,
    work: GcNodeWork,
    node: GcNode,
) -> bool {
    &&& tree.contains_key(node_path_mark(prefix, work.cid))
    &&& match node {
        GcNode::Leaf { bindings } => work.scan_versions ==> forall|i: int|
            0 <= i < bindings@.len() && (#[trigger] bindings@[i]) is Some ==> tree.contains_key(
                payload_mark(bindings@[i]->0),
            ),
        GcNode::Inner { children } => forall|i: int|
            0 <= i < children@.len() ==> node_pending(
                tree,
                #[trigger] children@[i],
                work.scan_versions,
            ),
    }
}

/// What holds of a collection between any two steps of marking.
pub open spec fn gc_invariant(
    tree: Map<Seq<u8>, GcEntry>,
    prefix: Seq<char>,
    world: GcWorld,
    roots: Set<CommitId>,
) -> bool {
    &&& forall|id: CommitId| #[trigger] roots.contains(id) ==> commit_pending(tree, id)
    &&& forall|id: CommitId| #[trigger]
        tree.contains_key(marked_commit(id)) ==> commit_covered(
            tree,
            prefix,
            id,
            (world.commits)(id),
        )
    &&& forall|work: GcNodeWork| #[trigger]
        tree.contains_key(marked_node(work)) ==> node_covered(
            tree,
            prefix,
            work,
            (world.nodes)(work.cid),
        )
}

/// The namespace of a working-tree key.
pub open spec fn tag(key: Seq<u8>) -> (u8, u8) {
    (key[0], key[1])
}

proof fn lemma_commit_tags(id: CommitId)
    ensures
        tag(waiting_commit(id)) == (0x63u8, 0x71u8),
        tag(marked_commit(id)) == (0x63u8, 0x6du8),
{
}

proof fn lemma_node_tags(work: GcNodeWork)
    ensures
        tag(waiting_node(work)) == (0x6eu8, 0x71u8),
        tag(marked_node(work)) == (0x6eu8, 0x6du8),
{
}

proof fn lemma_mark_tags(path: Seq<u8>, version: Seq<u8>)
    ensures
        tag(path_mark(path)) == (0x70u8, 0x6du8),
        tag(physical_mark(path, version)) == (0x76u8, 0x6du8),
{
}

proof fn lemma_commit_keys(a: CommitId, b: CommitId)
    ensures
        waiting_commit(a) == waiting_commit(b) <==> a == b,
        marked_commit(a) == marked_commit(b) <==> a == b,
{
    if waiting_commit(a) == waiting_commit(b) {
        assert(waiting_commit(a).skip(3) =~= a@);
        assert(waiting_commit(b).skip(3) =~= b@);
        lemma_commit_id_from_bytes(a, b);
    }
    if marked_commit(a) == marked_commit(b) {
        assert(marked_commit(a).skip(3) =~= a@);
        assert(marked_commit(b).skip(3) =~= b@);
        lemma_commit_id_from_bytes(a, b);
    }
}

proof fn lemma_node_keys(a: GcNodeWork, b: GcNodeWork)
    ensures
        waiting_node(a) == waiting_node(b) <==> a == b,
        marked_node(a) == marked_node(b) <==> a == b,
{
    let (ka, kb) = (waiting_node(a), waiting_node(b));
    if ka == kb {
        assert(ka[3] == flag_byte(a.scan_versions) && kb[3] == flag_byte(b.scan_versions));
        assert(ka.skip(5) =~= a.cid@);
        assert(kb.skip(5) =~= b.cid@);
        assert(a.cid.0 =~= b.cid.0);
    }
    let (ma, mb) = (marked_node(a), marked_node(b));
    if ma == mb {
        assert(ma[3] == flag_byte(a.scan_versions) && mb[3] == flag_byte(b.scan_versions));
        assert(ma.skip(5) =~= a.cid@);
        assert(mb.skip(5) =~= b.cid@);
        assert(a.cid.0 =~= b.cid.0);
    }
}

/// What is left of the tree, with keys taken away and keys added.
spec fn step_keys(
    before: Map<Seq<u8>, GcEntry>,
    after: Map<Seq<u8>, GcEntry>,
    gone: Seq<u8>,
    written: Seq<Edit<GcEntry>>,
) -> bool {
    forall|key: Seq<u8>| #[trigger]
        after.contains_key(key) <==> (before.contains_key(key) && key != gone) || writes_key(
            written,
            key,
        )
}

proof fn lemma_step_keys(before: Map<Seq<u8>, GcEntry>, gone: Seq<u8>, written: Seq<Edit<GcEntry>>)
    requires
        only_upserts(written),
    ensures
        step_keys(
            before,
            applied(before, seq![Edit::Delete { key: gone }] + written),
            gone,
            written,
        ),
{
    let delete = Edit::<GcEntry>::Delete { key: gone };
    lemma_applied_concat(before, seq![delete], written);
    assert(seq![delete].drop_last() =~= Seq::<Edit<GcEntry>>::empty());
    reveal_with_fuel(applied, 2);
    assert(applied(before, seq![delete]) == before.remove(gone));
    lemma_upserts_add_keys(before.remove(gone), written);
}

proof fn lemma_commit_marks(prefix: Seq<char>, id: CommitId, commit: GcCommit)
    ensures
        ({
            let marks = commit_marks(prefix, id, commit);
            &&& only_upserts(marks)
            &&& writes_key(marks, marked_commit(id))
            &&& writes_key(marks, commit_path_mark(prefix, id))
            &&& forall|j: int|
                0 <= j < commit.parents@.len() ==> writes_key(
                    marks,
                    waiting_commit(#[trigger] commit.parents@[j]),
                )
            &&& commit.objects is Some ==> writes_key(
                marks,
                waiting_node(GcNodeWork { cid: commit.objects->0, scan_versions: false }),
            )
            &&& commit.versions is Some ==> writes_key(
                marks,
                waiting_node(GcNodeWork { cid: commit.versions->0, scan_versions: true }),
            )
            &&& forall|key: Seq<u8>| #[trigger]
                writes_key(marks, key) ==> key == marked_commit(id) || (tag(key) != (
                0x63u8,
                0x6du8,
            ) && tag(key) != (0x6eu8, 0x6du8))
        }),
{
    let marks = commit_marks(prefix, id, commit);
    let n = commit.parents@.len() as int;
    let m = n + 2 + if commit.objects is Some {
        1int
    } else {
        0int
    };
    assert(marks[0] == set_mark(marked_commit(id)));
    assert(marks[1] == set_mark(commit_path_mark(prefix, id)));
    assert forall|j: int| 0 <= j < n implies marks[2 + j] == queue_commit(
        #[trigger] commit.parents@[j],
    ) by {}
    if commit.objects is Some {
        assert(marks[n + 2] == queue_node(commit.objects->0, false));
    }
    if commit.versions is Some {
        assert(marks[m] == queue_node(commit.versions->0, true));
    }
    assert(marks.len() == m + if commit.versions is Some {
        1int
    } else {
        0int
    });
    assert forall|i: int| 0 <= i < marks.len() implies #[trigger] marks[i] is Upsert && (
    marks[i]->Upsert_key == marked_commit(id) || (tag(marks[i]->Upsert_key) != (0x63u8, 0x6du8)
        && tag(marks[i]->Upsert_key) != (0x6eu8, 0x6du8))) by {
        lemma_commit_tags(id);
        lemma_node_tags(GcNodeWork { cid: commit.objects->0, scan_versions: false });
        lemma_mark_tags(vstd::utf8::encode_utf8(crate::paths::commit_location(prefix, id)), Seq::empty());
        lemma_commit_tags(id);
        lemma_node_tags(GcNodeWork { cid: commit.versions->0, scan_versions: true });
        if 2 <= i < n + 2 {
            lemma_commit_tags(commit.parents@[i - 2]);
            lemma_node_tags(GcNodeWork { cid: commit.objects->0, scan_versions: false });
            assert(marks[2 + (i - 2)] == queue_commit(commit.parents@[i - 2]));
        } else if i >= n + 2 {
            if commit.objects is Some && i == n + 2 {
                assert(marks[i] == queue_node(commit.objects->0, false));
            } else {
                assert(i == m && commit.versions is Some);
                assert(marks[i] == queue_node(commit.versions->0, true));
            }
        }
    }
    assert(writes_key(marks, marked_commit(id))) by {
        assert(marks[0]->Upsert_key == marked_commit(id));
    }
    assert(writes_key(marks, commit_path_mark(prefix, id))) by {
        assert(marks[1]->Upsert_key == commit_path_mark(prefix, id));
    }
    assert forall|j: int| 0 <= j < n implies writes_key(
        marks,
        waiting_commit(#[trigger] commit.parents@[j]),
    ) by {
        assert(marks[2 + j]->Upsert_key == waiting_commit(commit.parents@[j]));
    }
    if commit.objects is Some {
        assert(marks[n + 2]->Upsert_key == waiting_node(
            GcNodeWork { cid: commit.objects->0, scan_versions: false },
        ));
    }
    if commit.versions is Some {
        assert(marks[m]->Upsert_key == waiting_node(
            GcNodeWork { cid: commit.versions->0, scan_versions: true },
        ));
    }
}

/// Marking one waiting commit keeps what holds of the collection. A commit that is marked already is
/// only taken off the queue.
pub proof fn law_marking_a_commit_keeps_the_invariant(
    tree: Map<Seq<u8>, GcEntry>,
    prefix: Seq<char>,
    world: GcWorld,
    roots: Set<CommitId>,
    id: CommitId,
)
    requires
        gc_invariant(tree, prefix, world, roots),
    ensures
        gc_invariant(
            applied(
                tree,
                seq![Edit::Delete { key: waiting_commit(id) }] + if tree.contains_key(
                    marked_commit(id),
                ) {
                    Seq::empty()
                } else {
                    commit_marks(prefix, id, (world.commits)(id))
                },
            ),
            prefix,
            world,
            roots,
        ),
{
    let commit = (world.commits)(id);
    let marked = tree.contains_key(marked_commit(id));
    let written = if marked {
        Seq::<Edit<GcEntry>>::empty()
    } else {
        commit_marks(prefix, id, commit)
    };
    let gone = waiting_commit(id);
    let after = applied(tree, seq![Edit::Delete { key: gone }] + written);
    lemma_commit_marks(prefix, id, commit);
    lemma_step_keys(tree, gone, written);
    assert(step_keys(tree, after, gone, written));
    assert(after.contains_key(marked_commit(id))) by {
        lemma_commit_tags(id);
    }
    lemma_obligations_persist(tree, after, gone, written);
    assert forall|x: CommitId| commit_pending(tree, x) implies #[trigger] commit_pending(after, x) by {
        lemma_commit_keys(x, id);
        lemma_commit_tags(x);
        lemma_commit_tags(id);
        if x != id && tree.contains_key(waiting_commit(x)) {
            assert(after.contains_key(waiting_commit(x)));
        }
        if tree.contains_key(marked_commit(x)) {
            assert(after.contains_key(marked_commit(x)));
        }
    }
    assert forall|x: CommitId| #[trigger] after.contains_key(marked_commit(x)) implies commit_covered(
        after,
        prefix,
        x,
        (world.commits)(x),
    ) by {
        lemma_commit_tags(x);
        if tree.contains_key(marked_commit(x)) {
            assert(commit_covered(tree, prefix, x, (world.commits)(x)));
            lemma_commit_tags(x);
            lemma_mark_tags(vstd::utf8::encode_utf8(crate::paths::commit_location(prefix, x)), Seq::empty());
            assert(tag(commit_path_mark(prefix, x)) == (0x70u8, 0x6du8));
            lemma_commit_tags(id);
            assert(after.contains_key(commit_path_mark(prefix, x)));
        } else {
            assert(writes_key(written, marked_commit(x)));
            lemma_commit_keys(x, id);
            assert(x == id && !marked);
            assert(after.contains_key(commit_path_mark(prefix, id)));
            assert forall|j: int| 0 <= j < commit.parents@.len() implies commit_pending(
                after,
                #[trigger] commit.parents@[j],
            ) by {
                assert(writes_key(written, waiting_commit(commit.parents@[j])));
                assert(after.contains_key(waiting_commit(commit.parents@[j])));
            }
        }
    }
    assert forall|work: GcNodeWork| #[trigger] after.contains_key(marked_node(work)) implies node_covered(
        after,
        prefix,
        work,
        (world.nodes)(work.cid),
    ) by {
        lemma_commit_tags(id);
        lemma_node_tags(work);
        assert(tree.contains_key(marked_node(work)));
        lemma_node_stays_covered(tree, after, gone, written, prefix, work, (world.nodes)(work.cid));
    }
}

/// Nodes that were marked or waiting still are, unless one of them is what was taken off the queue.
proof fn lemma_obligations_persist(
    before: Map<Seq<u8>, GcEntry>,
    after: Map<Seq<u8>, GcEntry>,
    gone: Seq<u8>,
    written: Seq<Edit<GcEntry>>,
)
    requires
        step_keys(before, after, gone, written),
        tag(gone) == (0x63u8, 0x71u8),
    ensures
        forall|cid: Cid, flag: bool|
            node_pending(before, cid, flag) ==> #[trigger] node_pending(after, cid, flag),
{
    assert forall|cid: Cid, flag: bool| node_pending(before, cid, flag) implies #[trigger] node_pending(
        after,
        cid,
        flag,
    ) by {
        let work = GcNodeWork { cid, scan_versions: flag };
        lemma_node_tags(work);
        if before.contains_key(marked_node(work)) {
            assert(after.contains_key(marked_node(work)));
        } else {
            assert(after.contains_key(waiting_node(work)));
        }
    }
}

/// A covered node stays covered when a commit is taken off the queue.
proof fn lemma_node_stays_covered(
    before: Map<Seq<u8>, GcEntry>,
    after: Map<Seq<u8>, GcEntry>,
    gone: Seq<u8>,
    written: Seq<Edit<GcEntry>>,
    prefix: Seq<char>,
    work: GcNodeWork,
    node: GcNode,
)
    requires
        step_keys(before, after, gone, written),
        tag(gone) == (0x63u8, 0x71u8) || tag(gone) == (0x6eu8, 0x71u8),
        forall|cid: Cid, flag: bool|
            node_pending(before, cid, flag) ==> #[trigger] node_pending(after, cid, flag),
        node_covered(before, prefix, work, node),
    ensures
        node_covered(after, prefix, work, node),
{
    let location = vstd::utf8::encode_utf8(crate::paths::node_location(prefix, work.cid@));
    lemma_node_tags(work);
    lemma_mark_tags(location, Seq::empty());
    assert(after.contains_key(node_path_mark(prefix, work.cid)));
    match node {
        GcNode::Leaf { bindings } => {
            if work.scan_versions {
                assert forall|i: int|
                    0 <= i < bindings@.len() && (#[trigger] bindings@[i]) is Some implies after.contains_key(
                    payload_mark(bindings@[i]->0),
                ) by {
                    lemma_payload_tag(bindings@[i]->0);
                    assert(before.contains_key(payload_mark(bindings@[i]->0)));
                }
            }
        },
        GcNode::Inner { children } => {
            assert forall|i: int| 0 <= i < children@.len() implies node_pending(
                after,
                #[trigger] children@[i],
                work.scan_versions,
            ) by {
                assert(node_pending(before, children@[i], work.scan_versions));
            }
        },
    }
}

proof fn lemma_payload_tag(binding: PayloadBinding)
    ensures
        tag(payload_mark(binding)) == (0x70u8, 0x6du8) || tag(payload_mark(binding)) == (
            0x76u8,
            0x6du8,
        ),
{
    let path = vstd::utf8::encode_utf8(binding.path@);
    match binding.provider_version_id {
        Some(version) => {
            lemma_mark_tags(path, vstd::utf8::encode_utf8(version@));
        },
        None => {
            lemma_mark_tags(path, Seq::empty());
        },
    }
}

proof fn lemma_payload_marks(bindings: Seq<Option<PayloadBinding>>)
    ensures
        only_upserts(payload_marks(bindings)),
        forall|i: int|
            0 <= i < bindings.len() && (#[trigger] bindings[i]) is Some ==> writes_key(
                payload_marks(bindings),
                payload_mark(bindings[i]->0),
            ),
        forall|i: int|
            0 <= i < payload_marks(bindings).len() ==> {
                let key = (#[trigger] payload_marks(bindings)[i])->Upsert_key;
                tag(key) == (0x70u8, 0x6du8) || tag(key) == (0x76u8, 0x6du8)
            },
    decreases bindings.len(),
{
    if bindings.len() > 0 {
        let fewer = bindings.drop_last();
        lemma_payload_marks(fewer);
        let before = payload_marks(fewer);
        let marks = payload_marks(bindings);
        if bindings.last() is Some {
            lemma_payload_tag(bindings.last()->0);
            assert(marks[before.len() as int]->Upsert_key == payload_mark(bindings.last()->0));
        }
        assert forall|i: int| 0 <= i < before.len() implies #[trigger] marks[i] == before[i] by {}
        assert forall|i: int| 0 <= i < bindings.len() && (#[trigger] bindings[i]) is Some implies writes_key(
            marks,
            payload_mark(bindings[i]->0),
        ) by {
            if i < fewer.len() {
                assert(fewer[i] == bindings[i]);
                let key = payload_mark(bindings[i]->0);
                assert(writes_key(before, key));
                let k = choose|k: int| 0 <= k < before.len() && #[trigger] before[k]->Upsert_key == key;
                assert(marks[k]->Upsert_key == key);
            }
        }
        assert forall|i: int| 0 <= i < marks.len() implies ({
            let key = (#[trigger] marks[i])->Upsert_key;
            tag(key) == (0x70u8, 0x6du8) || tag(key) == (0x76u8, 0x6du8)
        }) by {
            if i < before.len() {
                assert(marks[i] == before[i]);
            }
        }
        assert forall|i: int| 0 <= i < marks.len() implies #[trigger] marks[i] is Upsert by {
            if i < before.len() {
                assert(marks[i] == before[i]);
            }
        }
    }
}

proof fn lemma_node_marks(prefix: Seq<char>, work: GcNodeWork, node: GcNode)
    ensures
        ({
            let marks = node_marks(prefix, work, node);
            &&& only_upserts(marks)
            &&& writes_key(marks, marked_node(work))
            &&& writes_key(marks, node_path_mark(prefix, work.cid))
            &&& match node {
                GcNode::Leaf { bindings } => work.scan_versions ==> forall|i: int|
                    0 <= i < bindings@.len() && (#[trigger] bindings@[i]) is Some ==> writes_key(
                        marks,
                        payload_mark(bindings@[i]->0),
                    ),
                GcNode::Inner { children } => forall|i: int|
                    0 <= i < children@.len() ==> writes_key(
                        marks,
                        waiting_node(
                            GcNodeWork {
                                cid: #[trigger] children@[i],
                                scan_versions: work.scan_versions,
                            },
                        ),
                    ),
            }
            &&& forall|key: Seq<u8>| #[trigger]
                writes_key(marks, key) ==> key == marked_node(work) || (tag(key) != (
                0x63u8,
                0x6du8,
            ) && tag(key) != (0x6eu8, 0x6du8))
        }),
{
    let marks = node_marks(prefix, work, node);
    let leads = node_leads(work.scan_versions, node);
    let location = vstd::utf8::encode_utf8(crate::paths::node_location(prefix, work.cid@));
    lemma_node_tags(work);
    lemma_mark_tags(location, Seq::empty());
    assert(marks[0]->Upsert_key == marked_node(work));
    assert(marks[1]->Upsert_key == node_path_mark(prefix, work.cid));
    assert forall|i: int| 0 <= i < leads.len() implies marks[i + 2] == #[trigger] leads[i] by {}
    assert(only_upserts(leads) && forall|i: int|
        0 <= i < leads.len() ==> tag((#[trigger] leads[i])->Upsert_key) != (0x63u8, 0x6du8) && tag(
            leads[i]->Upsert_key,
        ) != (0x6eu8, 0x6du8)) by {
        match node {
            GcNode::Leaf { bindings } => {
                lemma_payload_marks(bindings@);
            },
            GcNode::Inner { children } => {
                assert forall|i: int| 0 <= i < leads.len() implies (#[trigger] leads[i]) is Upsert
                    && tag(leads[i]->Upsert_key) != (0x63u8, 0x6du8) && tag(leads[i]->Upsert_key)
                    != (0x6eu8, 0x6du8) by {
                    lemma_node_tags(GcNodeWork { cid: children@[i], scan_versions: work.scan_versions });
                    assert(leads[i] == queue_node(children@[i], work.scan_versions));
                }
            },
        }
    }
    assert forall|i: int| 0 <= i < marks.len() implies #[trigger] marks[i] is Upsert && (
    marks[i]->Upsert_key == marked_node(work) || (tag(marks[i]->Upsert_key) != (0x63u8, 0x6du8)
        && tag(marks[i]->Upsert_key) != (0x6eu8, 0x6du8))) by {
        if i >= 2 {
            assert(marks[(i - 2) + 2] == leads[i - 2]);
        }
    }
    match node {
        GcNode::Leaf { bindings } => {
            if work.scan_versions {
                lemma_payload_marks(bindings@);
                assert forall|i: int|
                    0 <= i < bindings@.len() && (#[trigger] bindings@[i]) is Some implies writes_key(
                    marks,
                    payload_mark(bindings@[i]->0),
                ) by {
                    let key = payload_mark(bindings@[i]->0);
                    assert(writes_key(leads, key));
                    let k = choose|k: int| 0 <= k < leads.len() && #[trigger] leads[k]->Upsert_key == key;
                    assert(marks[k + 2]->Upsert_key == key);
                }
            }
        },
        GcNode::Inner { children } => {
            assert forall|i: int| 0 <= i < children@.len() implies writes_key(
                marks,
                waiting_node(
                    GcNodeWork { cid: #[trigger] children@[i], scan_versions: work.scan_versions },
                ),
            ) by {
                assert(leads[i] == queue_node(children@[i], work.scan_versions));
                assert(marks[i + 2] == leads[i]);
                assert(marks[i + 2]->Upsert_key == waiting_node(
                    GcNodeWork { cid: children@[i], scan_versions: work.scan_versions },
                ));
            }
        },
    }
}

/// Marking one waiting node keeps what holds of the collection. A node that is marked already is only
/// taken off the queue.
pub proof fn law_marking_a_node_keeps_the_invariant(
    tree: Map<Seq<u8>, GcEntry>,
    prefix: Seq<char>,
    world: GcWorld,
    roots: Set<CommitId>,
    work: GcNodeWork,
)
    requires
        gc_invariant(tree, prefix, world, roots),
    ensures
        gc_invariant(
            applied(
                tree,
                seq![Edit::Delete { key: waiting_node(work) }] + if tree.contains_key(
                    marked_node(work),
                ) {
                    Seq::empty()
                } else {
                    node_marks(prefix, work, (world.nodes)(work.cid))
                },
            ),
            prefix,
            world,
            roots,
        ),
{
    let node = (world.nodes)(work.cid);
    let marked = tree.contains_key(marked_node(work));
    let written = if marked {
        Seq::<Edit<GcEntry>>::empty()
    } else {
        node_marks(prefix, work, node)
    };
    let gone = waiting_node(work);
    let after = applied(tree, seq![Edit::Delete { key: gone }] + written);
    lemma_node_marks(prefix, work, node);
    lemma_step_keys(tree, gone, written);
    assert(step_keys(tree, after, gone, written));
    lemma_node_tags(work);
    assert(after.contains_key(marked_node(work)));
    assert forall|cid: Cid, flag: bool| node_pending(tree, cid, flag) implies #[trigger] node_pending(
        after,
        cid,
        flag,
    ) by {
        let other = GcNodeWork { cid, scan_versions: flag };
        lemma_node_keys(other, work);
        lemma_node_tags(other);
        if tree.contains_key(marked_node(other)) {
            assert(after.contains_key(marked_node(other)));
        } else if other != work {
            assert(after.contains_key(waiting_node(other)));
        }
    }
    assert forall|x: CommitId| commit_pending(tree, x) implies #[trigger] commit_pending(after, x) by {
        lemma_commit_tags(x);
        lemma_node_tags(work);
        if tree.contains_key(marked_commit(x)) {
            assert(after.contains_key(marked_commit(x)));
        } else {
            assert(after.contains_key(waiting_commit(x)));
        }
    }
    assert forall|x: CommitId| #[trigger] after.contains_key(marked_commit(x)) implies commit_covered(
        after,
        prefix,
        x,
        (world.commits)(x),
    ) by {
        lemma_commit_tags(x);
        lemma_node_tags(work);
        lemma_mark_tags(vstd::utf8::encode_utf8(crate::paths::commit_location(prefix, x)), Seq::empty());
        assert(tree.contains_key(marked_commit(x)));
        assert(commit_covered(tree, prefix, x, (world.commits)(x)));
        assert(after.contains_key(commit_path_mark(prefix, x)));
    }
    assert forall|other: GcNodeWork| #[trigger] after.contains_key(marked_node(other)) implies node_covered(
        after,
        prefix,
        other,
        (world.nodes)(other.cid),
    ) by {
        lemma_node_tags(other);
        if tree.contains_key(marked_node(other)) {
            lemma_node_stays_covered(
                tree,
                after,
                gone,
                written,
                prefix,
                other,
                (world.nodes)(other.cid),
            );
        } else {
            assert(writes_key(written, marked_node(other)));
            lemma_node_keys(other, work);
            assert(other == work && !marked);
            assert(after.contains_key(node_path_mark(prefix, work.cid)));
            match node {
                GcNode::Leaf { bindings } => {},
                GcNode::Inner { children } => {
                    assert forall|i: int| 0 <= i < children@.len() implies node_pending(
                        after,
                        #[trigger] children@[i],
                        work.scan_versions,
                    ) by {
                        let child = GcNodeWork {
                            cid: children@[i],
                            scan_versions: work.scan_versions,
                        };
                        assert(writes_key(written, waiting_node(child)));
                        assert(after.contains_key(waiting_node(child)));
                    }
                },
            }
        }
    }
}

/// Queueing commits makes roots of them, and keeps what holds of the collection.
pub proof fn law_new_roots_keep_the_invariant(
    tree: Map<Seq<u8>, GcEntry>,
    prefix: Seq<char>,
    world: GcWorld,
    roots: Set<CommitId>,
    ids: Seq<CommitId>,
)
    requires
        gc_invariant(tree, prefix, world, roots),
    ensures
        gc_invariant(
            applied(tree, queue_commits(ids)),
            prefix,
            world,
            roots.union(ids.to_set()),
        ),
{
    let written = queue_commits(ids);
    let after = applied(tree, written);
    lemma_upserts_add_keys(tree, written);
    assert forall|key: Seq<u8>| #[trigger] writes_key(written, key) implies tag(key) == (
        0x63u8,
        0x71u8,
    ) by {
        let i = choose|i: int| 0 <= i < written.len() && #[trigger] written[i]->Upsert_key == key;
        lemma_commit_tags(ids[i]);
    }
    let more = roots.union(ids.to_set());
    assert forall|id: CommitId| #[trigger] more.contains(id) implies commit_pending(after, id) by {
        if roots.contains(id) {
            assert(commit_pending(tree, id));
        } else {
            let i = choose|i: int| 0 <= i < ids.len() && ids[i] == id;
            assert(written[i]->Upsert_key == waiting_commit(id));
            assert(writes_key(written, waiting_commit(id)));
        }
    }
    assert forall|id: CommitId| #[trigger] after.contains_key(marked_commit(id)) implies commit_covered(
        after,
        prefix,
        id,
        (world.commits)(id),
    ) by {
        lemma_commit_tags(id);
        assert(tree.contains_key(marked_commit(id)));
        let commit = (world.commits)(id);
        assert(commit_covered(tree, prefix, id, commit));
        assert forall|j: int| 0 <= j < commit.parents@.len() implies commit_pending(
            after,
            #[trigger] commit.parents@[j],
        ) by {
            assert(commit_pending(tree, commit.parents@[j]));
        }
    }
    assert forall|work: GcNodeWork| #[trigger] after.contains_key(marked_node(work)) implies node_covered(
        after,
        prefix,
        work,
        (world.nodes)(work.cid),
    ) by {
        lemma_node_tags(work);
        assert(tree.contains_key(marked_node(work)));
        let node = (world.nodes)(work.cid);
        assert(node_covered(tree, prefix, work, node));
        match node {
            GcNode::Leaf { bindings } => {},
            GcNode::Inner { children } => {
                assert forall|i: int| 0 <= i < children@.len() implies node_pending(
                    after,
                    #[trigger] children@[i],
                    work.scan_versions,
                ) by {
                    assert(node_pending(tree, children@[i], work.scan_versions));
                }
            },
        }
    }
}

/// Whether `n` steps from child to parent lead from one commit to another.
pub open spec fn commit_reaches(world: GcWorld, from: CommitId, to: CommitId, n: nat) -> bool
    decreases n,
{
    if n == 0 {
        from == to
    } else {
        exists|i: int|
            0 <= i < (world.commits)(from).parents@.len() && commit_reaches(
                world,
                #[trigger] (world.commits)(from).parents@[i],
                to,
                (n - 1) as nat,
            )
    }
}

/// Whether `n` steps from node to child lead from one node to another.
pub open spec fn node_reaches(world: GcWorld, from: Cid, to: Cid, n: nat) -> bool
    decreases n,
{
    if n == 0 {
        from == to
    } else {
        (world.nodes)(from) matches GcNode::Inner { children } && exists|i: int|
            0 <= i < children@.len() && node_reaches(
                world,
                #[trigger] children@[i],
                to,
                (n - 1) as nat,
            )
    }
}

/// Whether nothing waits to be marked.
pub open spec fn nothing_waits(tree: Map<Seq<u8>, GcEntry>) -> bool {
    &&& forall|id: CommitId| !#[trigger] tree.contains_key(waiting_commit(id))
    &&& forall|work: GcNodeWork| !#[trigger] tree.contains_key(waiting_node(work))
}

/// When nothing waits, every commit that a root reaches is marked, and its path is.
pub proof fn law_reachable_commits_are_marked(
    tree: Map<Seq<u8>, GcEntry>,
    prefix: Seq<char>,
    world: GcWorld,
    roots: Set<CommitId>,
    root: CommitId,
    id: CommitId,
    n: nat,
)
    requires
        gc_invariant(tree, prefix, world, roots),
        nothing_waits(tree),
        roots.contains(root) || tree.contains_key(marked_commit(root)),
        commit_reaches(world, root, id, n),
    ensures
        tree.contains_key(marked_commit(id)),
        tree.contains_key(commit_path_mark(prefix, id)),
    decreases n,
{
    assert(tree.contains_key(marked_commit(root))) by {
        if roots.contains(root) {
            assert(commit_pending(tree, root));
            assert(!tree.contains_key(waiting_commit(root)));
        }
    }
    assert(commit_covered(tree, prefix, root, (world.commits)(root)));
    if n > 0 {
        let i = choose|i: int|
            0 <= i < (world.commits)(root).parents@.len() && commit_reaches(
                world,
                #[trigger] (world.commits)(root).parents@[i],
                id,
                (n - 1) as nat,
            );
        let p = (world.commits)(root).parents@[i];
        assert(commit_pending(tree, p));
        assert(!tree.contains_key(waiting_commit(p)));
        law_reachable_commits_are_marked(tree, prefix, world, roots, p, id, (n - 1) as nat);
    }
}

/// When nothing waits, every node that a marked node reaches is marked, and its path is; and every
/// payload that a reachable leaf of versions names is marked.
pub proof fn law_reachable_nodes_and_payloads_are_marked(
    tree: Map<Seq<u8>, GcEntry>,
    prefix: Seq<char>,
    world: GcWorld,
    roots: Set<CommitId>,
    from: GcNodeWork,
    to: Cid,
    n: nat,
)
    requires
        gc_invariant(tree, prefix, world, roots),
        nothing_waits(tree),
        tree.contains_key(marked_node(from)),
        node_reaches(world, from.cid, to, n),
    ensures
        tree.contains_key(
            marked_node(GcNodeWork { cid: to, scan_versions: from.scan_versions }),
        ),
        tree.contains_key(node_path_mark(prefix, to)),
        from.scan_versions ==> ((world.nodes)(to) matches GcNode::Leaf { bindings } ==> forall|i: int|
            0 <= i < bindings@.len() && (#[trigger] bindings@[i]) is Some ==> tree.contains_key(
                payload_mark(bindings@[i]->0),
            )),
    decreases n,
{
    assert(node_covered(tree, prefix, from, (world.nodes)(from.cid)));
    if n == 0 {
        assert(from == (GcNodeWork { cid: to, scan_versions: from.scan_versions }));
    } else {
        match (world.nodes)(from.cid) {
            GcNode::Inner { children } => {
                let i = choose|i: int|
                    0 <= i < children@.len() && node_reaches(
                        world,
                        #[trigger] children@[i],
                        to,
                        (n - 1) as nat,
                    );
                let child = GcNodeWork { cid: children@[i], scan_versions: from.scan_versions };
                assert(node_pending(tree, children@[i], from.scan_versions));
                assert(!tree.contains_key(waiting_node(child)));
                law_reachable_nodes_and_payloads_are_marked(
                    tree,
                    prefix,
                    world,
                    roots,
                    child,
                    to,
                    (n - 1) as nat,
                );
            },
            GcNode::Leaf { .. } => {},
        }
    }
}

/// Once marking is over, a candidate that lies where a reachable commit lies is kept by its path's
/// mark, whatever physical version it names.
pub proof fn law_reachable_commit_is_never_swept(
    tree: Map<Seq<u8>, GcEntry>,
    prefix: Seq<char>,
    world: GcWorld,
    roots: Set<CommitId>,
    root: CommitId,
    id: CommitId,
    n: nat,
    candidate: GcCandidate,
    version_marked: bool,
)
    requires
        gc_invariant(tree, prefix, world, roots),
        nothing_waits(tree),
        roots.contains(root),
        commit_reaches(world, root, id, n),
        candidate.path@ == commit_location(prefix, id),
    ensures
        candidate_is_kept(
            candidate,
            tree.contains_key(path_mark(encode_utf8(candidate.path@))),
            version_marked,
        ),
{
    law_reachable_commits_are_marked(tree, prefix, world, roots, root, id, n);
}

/// Once marking is over, a candidate that is the payload of a version in a reachable leaf is kept: by
/// its own mark where the provider names versions, else by its path's.
pub proof fn law_reachable_payload_is_never_swept(
    tree: Map<Seq<u8>, GcEntry>,
    prefix: Seq<char>,
    world: GcWorld,
    roots: Set<CommitId>,
    from: GcNodeWork,
    leaf: Cid,
    n: nat,
    i: int,
    candidate: GcCandidate,
)
    requires
        gc_invariant(tree, prefix, world, roots),
        nothing_waits(tree),
        from.scan_versions,
        tree.contains_key(marked_node(from)),
        node_reaches(world, from.cid, leaf, n),
        (world.nodes)(leaf) matches GcNode::Leaf { bindings } && 0 <= i < bindings@.len()
            && bindings@[i] is Some && candidate.path@ == bindings@[i]->0.path@ && (
        match bindings@[i]->0.provider_version_id {
            Some(version) => candidate.physical_version matches PhysicalVersion::Versioned {
                version_id,
            } && version_id@ == version@,
            None => true,
        }),
    ensures
        candidate_is_kept(
            candidate,
            tree.contains_key(path_mark(encode_utf8(candidate.path@))),
            candidate.physical_version matches PhysicalVersion::Versioned { version_id }
                && tree.contains_key(
                physical_mark(encode_utf8(candidate.path@), encode_utf8(version_id@)),
            ),
        ),
{
    law_reachable_nodes_and_payloads_are_marked(tree, prefix, world, roots, from, leaf, n);
    match (world.nodes)(leaf) {
        GcNode::Leaf { bindings } => {
            assert(tree.contains_key(payload_mark(bindings@[i]->0)));
        },
        GcNode::Inner { .. } => {},
    }
}

/// Once the commits of a live reference are queued, its target is a root of the collection, and so is the
/// target before.
pub proof fn law_live_reference_becomes_a_root(
    tree: Map<Seq<u8>, GcEntry>,
    prefix: Seq<char>,
    world: GcWorld,
    roots: Set<CommitId>,
    target: CommitId,
    previous: Option<CommitId>,
)
    requires
        gc_invariant(tree, prefix, world, roots),
    ensures
        ({
            let after = applied(tree, queue_commits(live_roots(target, previous, false)));
            &&& gc_invariant(
                after,
                prefix,
                world,
                if previous is Some {
                    roots.insert(target).insert(previous->0)
                } else {
                    roots.insert(target)
                },
            )
            &&& after.contains_key(seq![0x63u8, 0x6d, 0x2f] + target@) || after.contains_key(
                seq![0x63u8, 0x71, 0x2f] + target@,
            )
            &&& previous is Some ==> after.contains_key(seq![0x63u8, 0x6d, 0x2f] + previous->0@)
                || after.contains_key(seq![0x63u8, 0x71, 0x2f] + previous->0@)
        }),
{
    let ids = live_roots(target, previous, false);
    let after = applied(tree, queue_commits(ids));
    law_new_roots_keep_the_invariant(tree, prefix, world, roots, ids);
    law_live_reference_keeps_its_commits(target, previous);
    let more = roots.union(ids.to_set());
    let named = if previous is Some {
        roots.insert(target).insert(previous->0)
    } else {
        roots.insert(target)
    };
    assert(more =~= named) by {
        assert forall|id: CommitId| more.contains(id) <==> named.contains(id) by {
            if ids.to_set().contains(id) {
                assert(ids.contains(id));
            }
            assert(ids.to_set().contains(target));
            if previous is Some {
                assert(ids.to_set().contains(previous->0));
            }
        }
    }
    assert(named.contains(target));
    assert(commit_pending(after, target));
    if previous is Some {
        assert(named.contains(previous->0));
        assert(commit_pending(after, previous->0));
    }
}

/// What a live reference reaches survives a collection. Once marking is over, every commit that the target of
/// a live reference reaches, or the target before, is marked, and so is its path; no object that lies there is
/// swept.
pub proof fn law_what_a_live_reference_reaches_survives(
    tree: Map<Seq<u8>, GcEntry>,
    prefix: Seq<char>,
    world: GcWorld,
    roots: Set<CommitId>,
    target: CommitId,
    previous: Option<CommitId>,
    id: CommitId,
    n: nat,
    candidate: GcCandidate,
    version_marked: bool,
)
    requires
        gc_invariant(tree, prefix, world, roots),
        nothing_waits(tree),
        forall|root: CommitId| #[trigger]
            live_roots(target, previous, false).contains(root) ==> roots.contains(root),
        commit_reaches(world, target, id, n) || (previous is Some && commit_reaches(
            world,
            previous->0,
            id,
            n,
        )),
        candidate.path@ == commit_location(prefix, id),
    ensures
        tree.contains_key(seq![0x63u8, 0x6d, 0x2f] + id@),
        tree.contains_key(path_mark(encode_utf8(commit_location(prefix, id)))),
        candidate_is_kept(
            candidate,
            tree.contains_key(path_mark(encode_utf8(candidate.path@))),
            version_marked,
        ),
{
    law_live_reference_keeps_its_commits(target, previous);
    let root = if commit_reaches(world, target, id, n) {
        target
    } else {
        previous->0
    };
    assert(live_roots(target, previous, false).contains(root));
    law_reachable_commits_are_marked(tree, prefix, world, roots, root, id, n);
}

/// A commit reaches itself and each of its parents, and what its parents reach; a node reaches itself, each of
/// its children, and what they reach.
pub proof fn law_reach_follows_every_parent_and_child(
    world: GcWorld,
    commit: CommitId,
    ancestor: CommitId,
    node: Cid,
    below: Cid,
    i: int,
    n: nat,
)
    ensures
        commit_reaches(world, commit, commit, 0),
        0 <= i < (world.commits)(commit).parents@.len() && commit_reaches(
            world,
            (world.commits)(commit).parents@[i],
            ancestor,
            n,
        ) ==> commit_reaches(world, commit, ancestor, n + 1),
        node_reaches(world, node, node, 0),
        (world.nodes)(node) matches GcNode::Inner { children } ==> (0 <= i < children@.len()
            && node_reaches(world, children@[i], below, n) ==> node_reaches(world, node, below, n + 1)),
{
}

/// What a live reference holds survives a collection. Once marking is over, every node of the trees of a commit that the
/// reference reaches is marked at its path; and every payload that a version of that commit names is kept, by its own
/// mark where the provider names versions, else by that of its path.
pub proof fn law_what_a_live_reference_holds_survives(
    tree: Map<Seq<u8>, GcEntry>,
    prefix: Seq<char>,
    world: GcWorld,
    roots: Set<CommitId>,
    target: CommitId,
    previous: Option<CommitId>,
    id: CommitId,
    n: nat,
    node: Cid,
    m: nat,
    i: int,
    candidate: GcCandidate,
)
    requires
        gc_invariant(tree, prefix, world, roots),
        nothing_waits(tree),
        forall|root: CommitId| #[trigger]
            live_roots(target, previous, false).contains(root) ==> roots.contains(root),
        commit_reaches(world, target, id, n) || (previous is Some && commit_reaches(
            world,
            previous->0,
            id,
            n,
        )),
    ensures
        (world.commits)(id).objects is Some && node_reaches(
            world,
            (world.commits)(id).objects->0,
            node,
            m,
        ) ==> tree.contains_key(path_mark(encode_utf8(node_location(prefix, node@)))),
        (world.commits)(id).versions is Some && node_reaches(
            world,
            (world.commits)(id).versions->0,
            node,
            m,
        ) ==> tree.contains_key(path_mark(encode_utf8(node_location(prefix, node@)))) && ((
        world.nodes)(node) matches GcNode::Leaf { bindings } ==> (0 <= i < bindings@.len()
            && bindings@[i] is Some && candidate.path@ == bindings@[i]->0.path@ && (
        match bindings@[i]->0.provider_version_id {
            Some(version) => candidate.physical_version matches PhysicalVersion::Versioned {
                version_id,
            } && version_id@ == version@,
            None => true,
        }) ==> candidate_is_kept(
            candidate,
            tree.contains_key(path_mark(encode_utf8(candidate.path@))),
            candidate.physical_version matches PhysicalVersion::Versioned { version_id }
                && tree.contains_key(
                physical_mark(encode_utf8(candidate.path@), encode_utf8(version_id@)),
            ),
        ))),
{
    law_live_reference_keeps_its_commits(target, previous);
    let root = if commit_reaches(world, target, id, n) {
        target
    } else {
        previous->0
    };
    assert(live_roots(target, previous, false).contains(root));
    law_reachable_commits_are_marked(tree, prefix, world, roots, root, id, n);
    let commit = (world.commits)(id);
    assert(commit_covered(tree, prefix, id, commit));
    if commit.objects is Some && node_reaches(world, commit.objects->0, node, m) {
        let from = GcNodeWork { cid: commit.objects->0, scan_versions: false };
        assert(node_pending(tree, commit.objects->0, false));
        assert(!tree.contains_key(waiting_node(from)));
        law_reachable_nodes_and_payloads_are_marked(tree, prefix, world, roots, from, node, m);
    }
    if commit.versions is Some && node_reaches(world, commit.versions->0, node, m) {
        let from = GcNodeWork { cid: commit.versions->0, scan_versions: true };
        assert(node_pending(tree, commit.versions->0, true));
        assert(!tree.contains_key(waiting_node(from)));
        law_reachable_nodes_and_payloads_are_marked(tree, prefix, world, roots, from, node, m);
        if (world.nodes)(node) is Leaf {
            let bindings = (world.nodes)(node)->bindings;
            if 0 <= i < bindings@.len() && bindings@[i] is Some {
                assert(tree.contains_key(payload_mark(bindings@[i]->0)));
            }
        }
    }
}

} // verus!
