//! Garbage collection: mark what the references reach, then delete what is old and unmarked.
//!
//! One working tree holds the commits and tree nodes that wait to be marked, the marks, and what may
//! be deleted. A physical object is kept when its path is marked, or its exact version at that path.
use crate::bytes::to_vec;
use crate::ids::{Cid, CommitId, OperationId, RepositoryId};
use crate::error::{fault, outcome, Error, ErrorCode};
use crate::keys::{array_of_32, 
    flag_byte, gc_commit_mark_key, gc_commit_queue_key, gc_node_mark_key, gc_node_queue_key,
    gc_path_mark_key, gc_physical_mark_key, path_mark, physical_mark,
};
use crate::model::{physical_version, PayloadBinding, PhysicalVersion, RootManifest};
use crate::paths::{commit_location, commit_path, node_location, path_for_key, ManagedKind};
use crate::tree::{edits, lemma_edits_push, Edit, Mutation};
use vstd::prelude::*;
use vstd::utf8::encode_utf8;

verus! {

/// How far a collection has come.
#[derive(Clone, Copy, Debug, PartialEq, Eq, Structural)]
pub enum GcPhase {
    DiscoverBranches,
    DiscoverTags,
    MarkCommits,
    MarkNodes,
    ScanCandidates,
    CatchUpDirtyRoots,
    Ready,
    Sweeping,
    Cleanup,
    Complete,
}

/// How many objects of each sort.
#[derive(Clone, Copy, Debug, PartialEq, Eq, Structural)]
pub struct KindCounts {
    pub commits: u64,
    pub nodes: u64,
    pub payloads: u64,
}

/// What a collection has done so far.
#[derive(Clone, Copy, Debug, PartialEq, Eq, Structural)]
pub struct GcReport {
    pub roots: u64,
    pub dirty_roots: u64,
    pub commits: u64,
    pub nodes: u64,
    pub logical_versions: u64,
    pub candidates: u64,
    pub candidate_bytes: u64,
    pub candidates_by_kind: KindCounts,
    pub skipped_reachable: u64,
    pub deleted_versions: u64,
    pub deleted_bytes: u64,
    pub deleted_by_kind: KindCounts,
    pub already_missing: u64,
}

/// The sum of two counts, or the highest count where it does not fit.
pub open spec fn saturating(a: u64, b: u64) -> u64 {
    if a + b > u64::MAX {
        u64::MAX
    } else {
        (a + b) as u64
    }
}

/// One more of a sort.
pub open spec fn one_more(counts: KindCounts, kind: ManagedKind) -> KindCounts {
    match kind {
        ManagedKind::Commits => KindCounts { commits: saturating(counts.commits, 1), ..counts },
        ManagedKind::Nodes => KindCounts { nodes: saturating(counts.nodes, 1), ..counts },
        ManagedKind::Payloads => KindCounts { payloads: saturating(counts.payloads, 1), ..counts },
    }
}

impl KindCounts {
    /// Counts one more of a sort.
    pub fn count(&mut self, kind: ManagedKind)
        ensures
            *final(self) == one_more(*old(self), kind),
    {
        match kind {
            ManagedKind::Commits => {
                self.commits = self.commits.saturating_add(1);
            },
            ManagedKind::Nodes => {
                self.nodes = self.nodes.saturating_add(1);
            },
            ManagedKind::Payloads => {
                self.payloads = self.payloads.saturating_add(1);
            },
        }
    }
}

/// A tree node that waits to be marked, and whether its leaves hold versions.
#[derive(Clone, Copy, Debug)]
pub struct GcNodeWork {
    pub cid: Cid,
    pub scan_versions: bool,
}

/// A physical version that may be deleted.
#[derive(Clone, Debug)]
pub struct GcCandidate {
    pub path: String,
    pub physical_version: PhysicalVersion,
    pub len: u64,
    pub last_modified_millis: u64,
    pub kind: ManagedKind,
}

/// What the working tree of a collection holds.
#[derive(Clone, Copy, Debug)]
pub enum GcEntry {
    Commit(CommitId),
    Node(GcNodeWork),
    Mark,
}

/// Where a collection stands.
#[derive(Clone, Debug)]
pub struct GcCursor {
    pub repository: RepositoryId,
    pub epoch: OperationId,
    pub cutoff_millis: u64,
    pub phase: GcPhase,
    pub continuation: Option<String>,
    pub work: RootManifest,
    pub dirty_sequence: u64,
    pub dirty_target_sequence: u64,
    pub initial_scan_complete: bool,
    pub publication_barrier_drained: bool,
    pub sweep_after: Option<Vec<u8>>,
    pub report: GcReport,
}

/// What one call on a collection did.
#[derive(Clone, Debug)]
pub struct GcPage {
    pub cursor: GcCursor,
    pub processed: usize,
    pub complete: bool,
    pub restarted_for_new_roots: bool,
}

/// The state that all processes share while a collection runs.
#[derive(Clone, Copy, Debug)]
pub struct GcCoordinator {
    pub repository: RepositoryId,
    pub generation: u64,
    pub active_epoch: Option<OperationId>,
    pub admission_closed: bool,
    pub updated_at_millis: u64,
}

/// The key of a commit that waits.
pub open spec fn waiting_commit(id: CommitId) -> Seq<u8> {
    seq![0x63u8, 0x71, 0x2f] + id@
}

/// The key of a commit that is marked.
pub open spec fn marked_commit(id: CommitId) -> Seq<u8> {
    seq![0x63u8, 0x6d, 0x2f] + id@
}

/// The key of a node that waits.
pub open spec fn waiting_node(work: GcNodeWork) -> Seq<u8> {
    seq![0x6eu8, 0x71, 0x2f, flag_byte(work.scan_versions), 0x2f] + work.cid@
}

/// The key of a node that is marked.
pub open spec fn marked_node(work: GcNodeWork) -> Seq<u8> {
    seq![0x6eu8, 0x6d, 0x2f, flag_byte(work.scan_versions), 0x2f] + work.cid@
}

/// The key that marks the path of a commit.
pub open spec fn commit_path_mark(prefix: Seq<char>, id: CommitId) -> Seq<u8> {
    path_mark(encode_utf8(commit_location(prefix, id)))
}

/// The key that marks the path of a node.
pub open spec fn node_path_mark(prefix: Seq<char>, cid: Cid) -> Seq<u8> {
    path_mark(encode_utf8(node_location(prefix, cid@)))
}

/// The key that marks a payload: its exact version where the provider names one, else its path.
pub open spec fn payload_mark(binding: PayloadBinding) -> Seq<u8> {
    match binding.provider_version_id {
        Some(version) => physical_mark(encode_utf8(binding.path@), encode_utf8(version@)),
        None => path_mark(encode_utf8(binding.path@)),
    }
}

/// Queues a commit to be marked.
pub open spec fn queue_commit(id: CommitId) -> Edit<GcEntry> {
    Edit::Upsert { key: waiting_commit(id), val: GcEntry::Commit(id) }
}

/// Queues a node to be marked.
pub open spec fn queue_node(cid: Cid, scan_versions: bool) -> Edit<GcEntry> {
    Edit::Upsert {
        key: waiting_node(GcNodeWork { cid, scan_versions }),
        val: GcEntry::Node(GcNodeWork { cid, scan_versions }),
    }
}

/// Sets a mark.
pub open spec fn set_mark(key: Seq<u8>) -> Edit<GcEntry> {
    Edit::Upsert { key, val: GcEntry::Mark }
}

/// The roots that a reference keeps alive: its target and the target before, unless it was deleted.
pub open spec fn live_roots(target: CommitId, previous: Option<CommitId>, tombstone: bool) -> Seq<
    CommitId,
> {
    if tombstone {
        Seq::empty()
    } else {
        match previous {
            Some(before) => seq![target, before],
            None => seq![target],
        }
    }
}

/// Queues commits to be marked.
pub open spec fn queue_commits(ids: Seq<CommitId>) -> Seq<Edit<GcEntry>> {
    Seq::new(ids.len(), |i: int| queue_commit(ids[i]))
}

fn push_commit(mutations: &mut Vec<Mutation<GcEntry>>, id: CommitId)
    ensures
        edits(final(mutations)@) == edits(old(mutations)@).push(queue_commit(id)),
{
    let m = Mutation::Upsert { key: gc_commit_queue_key(id), val: GcEntry::Commit(id) };
    proof {
        lemma_edits_push(mutations@, m);
    }
    mutations.push(m);
}

fn push_node(mutations: &mut Vec<Mutation<GcEntry>>, cid: Cid, scan_versions: bool)
    ensures
        edits(final(mutations)@) == edits(old(mutations)@).push(queue_node(cid, scan_versions)),
{
    let m = Mutation::Upsert {
        key: gc_node_queue_key(&cid, scan_versions),
        val: GcEntry::Node(GcNodeWork { cid, scan_versions }),
    };
    proof {
        lemma_edits_push(mutations@, m);
    }
    mutations.push(m);
}

fn push_mark(mutations: &mut Vec<Mutation<GcEntry>>, key: Vec<u8>)
    ensures
        edits(final(mutations)@) == edits(old(mutations)@).push(set_mark(key@)),
{
    let m = Mutation::Upsert { key, val: GcEntry::Mark };
    proof {
        lemma_edits_push(mutations@, m);
    }
    mutations.push(m);
}

/// Queues what a reference keeps alive.
pub fn gc_queue_roots(
    mutations: &mut Vec<Mutation<GcEntry>>,
    target: CommitId,
    previous: Option<CommitId>,
    tombstone: bool,
) -> (r: u64)
    ensures
        edits(final(mutations)@) == edits(old(mutations)@) + queue_commits(
            live_roots(target, previous, tombstone),
        ),
        r == live_roots(target, previous, tombstone).len(),
        tombstone ==> *final(mutations) == *old(mutations),
        !tombstone ==> edits(final(mutations)@).contains(
            Edit::Upsert { key: seq![0x63u8, 0x71, 0x2f] + target@, val: GcEntry::Commit(target) },
        ),
        !tombstone && previous is Some ==> edits(final(mutations)@).contains(
            Edit::Upsert {
                key: seq![0x63u8, 0x71, 0x2f] + previous->0@,
                val: GcEntry::Commit(previous->0),
            },
        ),
        edits(final(mutations)@).take(old(mutations)@.len() as int) == edits(old(mutations)@),
        r == if tombstone {
            0int
        } else if previous is Some {
            2
        } else {
            1
        },
{
    let ghost before = edits(mutations@);
    proof {
        let all = before + queue_commits(live_roots(target, previous, tombstone));
        assert(all.take(mutations@.len() as int) =~= before);
        if !tombstone {
            assert(all[before.len() as int] == queue_commit(target));
            if previous is Some {
                assert(all[before.len() as int + 1] == queue_commit(previous->0));
            }
        }
    }
    if tombstone {
        assert(edits(mutations@) =~= before + queue_commits(
            live_roots(target, previous, tombstone),
        ));
        return 0;
    }
    push_commit(mutations, target);
    match previous {
        Some(commit) => {
            push_commit(mutations, commit);
            assert(edits(mutations@) =~= before + queue_commits(
                live_roots(target, previous, tombstone),
            ));
            2
        },
        None => {
            assert(edits(mutations@) =~= before + queue_commits(
                live_roots(target, previous, tombstone),
            ));
            1
        },
    }
}

/// A commit as far as marking reads it.
#[derive(Clone, Debug)]
pub struct GcCommit {
    pub parents: Vec<CommitId>,
    pub objects: Option<Cid>,
    pub versions: Option<Cid>,
}

/// What marking a commit writes: its mark, the mark of its path, and what it leads to.
pub open spec fn commit_marks(prefix: Seq<char>, id: CommitId, commit: GcCommit) -> Seq<
    Edit<GcEntry>,
> {
    seq![set_mark(marked_commit(id)), set_mark(commit_path_mark(prefix, id))] + queue_commits(
        commit.parents@,
    ) + (match commit.objects {
        Some(root) => seq![queue_node(root, false)],
        None => Seq::empty(),
    }) + (match commit.versions {
        Some(root) => seq![queue_node(root, true)],
        None => Seq::empty(),
    })
}

/// Marks a commit. `commit` is given when the commit is not marked yet.
pub fn gc_mark_commit(prefix: &str, queue_key: &[u8], id: CommitId, commit: Option<&GcCommit>) -> (r: Vec<
    Mutation<GcEntry>,
>)
    ensures
        edits(r@) == seq![Edit::Delete { key: queue_key@ }] + match commit {
            Some(c) => commit_marks(prefix@, id, *c),
            None => Seq::empty(),
        },
        edits(r@).contains(Edit::Delete { key: queue_key@ }),
        commit is None ==> r@.len() == 1,
        commit matches Some(c) ==> {
            &&& edits(r@).contains(
                Edit::Upsert { key: seq![0x63u8, 0x6d, 0x2f] + id@, val: GcEntry::Mark },
            )
            &&& edits(r@).contains(
                Edit::Upsert {
                    key: path_mark(encode_utf8(commit_location(prefix@, id))),
                    val: GcEntry::Mark,
                },
            )
            &&& forall|i: int|
                0 <= i < c.parents@.len() ==> edits(r@).contains(
                    Edit::Upsert {
                        key: seq![0x63u8, 0x71, 0x2f] + (#[trigger] c.parents@[i])@,
                        val: GcEntry::Commit(c.parents@[i]),
                    },
                )
            &&& c.objects is Some ==> edits(r@).contains(
                Edit::Upsert {
                    key: waiting_node(GcNodeWork { cid: c.objects->0, scan_versions: false }),
                    val: GcEntry::Node(GcNodeWork { cid: c.objects->0, scan_versions: false }),
                },
            )
            &&& c.versions is Some ==> edits(r@).contains(
                Edit::Upsert {
                    key: waiting_node(GcNodeWork { cid: c.versions->0, scan_versions: true }),
                    val: GcEntry::Node(GcNodeWork { cid: c.versions->0, scan_versions: true }),
                },
            )
        },
{
    proof {
        let first = Edit::<GcEntry>::Delete { key: queue_key@ };
        if commit is Some {
            law_marking_a_commit_leads_to_all_it_names(prefix@, id, *commit->0);
            lemma_contains_behind(first, commit_marks(prefix@, id, *commit->0));
        } else {
            lemma_contains_behind(first, Seq::empty());
        }
    }
    let mut mutations: Vec<Mutation<GcEntry>> = Vec::new();
    mutations.push(Mutation::Delete { key: to_vec(queue_key) });
    let ghost start = seq![Edit::<GcEntry>::Delete { key: queue_key@ }];
    assert(edits(mutations@) =~= start);
    if let Some(c) = commit {
        push_mark(&mut mutations, gc_commit_mark_key(id));
        let path = commit_path(prefix, id);
        push_mark(&mut mutations, gc_path_mark_key(&path));
        let ghost head = start + seq![
            set_mark(marked_commit(id)),
            set_mark(commit_path_mark(prefix@, id)),
        ];
        assert(edits(mutations@) =~= head);
        let mut i: usize = 0;
        assert(head + queue_commits(c.parents@.take(0)) =~= head);
        while i < c.parents.len()
            invariant
                i <= c.parents@.len(),
                edits(mutations@) == head + queue_commits(c.parents@.take(i as int)),
            decreases c.parents.len() - i,
        {
            push_commit(&mut mutations, c.parents[i]);
            assert(edits(mutations@) =~= head + queue_commits(c.parents@.take(i + 1)));
            i += 1;
        }
        assert(c.parents@.take(c.parents@.len() as int) =~= c.parents@);
        if let Some(root) = c.objects {
            push_node(&mut mutations, root, false);
        }
        if let Some(root) = c.versions {
            push_node(&mut mutations, root, true);
        }
        assert(edits(mutations@) =~= start + commit_marks(prefix@, id, *c));
    } else {
        assert(edits(mutations@) =~= start + Seq::<Edit<GcEntry>>::empty());
    }
    mutations
}

/// A tree node as far as marking reads it.
#[derive(Clone, Debug)]
pub enum GcNode {
    /// A leaf, with the payloads of the versions in it. A leaf of current objects has none to give.
    Leaf { bindings: Vec<Option<PayloadBinding>> },
    /// An inner node, with its children.
    Inner { children: Vec<Cid> },
}

/// Sets the marks of payloads.
pub open spec fn payload_marks(bindings: Seq<Option<PayloadBinding>>) -> Seq<Edit<GcEntry>>
    decreases bindings.len(),
{
    if bindings.len() == 0 {
        Seq::empty()
    } else {
        let before = payload_marks(bindings.drop_last());
        match bindings.last() {
            Some(binding) => before.push(set_mark(payload_mark(binding))),
            None => before,
        }
    }
}

/// What a node leads to: the payloads of its versions, or its children.
pub open spec fn node_leads(scan_versions: bool, node: GcNode) -> Seq<Edit<GcEntry>> {
    match node {
        GcNode::Leaf { bindings } => if scan_versions {
            payload_marks(bindings@)
        } else {
            Seq::empty()
        },
        GcNode::Inner { children } => Seq::new(
            children@.len(),
            |i: int| queue_node(children@[i], scan_versions),
        ),
    }
}

/// What marking a node writes: its mark, the mark of its path, and what it leads to.
pub open spec fn node_marks(prefix: Seq<char>, work: GcNodeWork, node: GcNode) -> Seq<Edit<GcEntry>> {
    seq![set_mark(marked_node(work)), set_mark(node_path_mark(prefix, work.cid))] + node_leads(
        work.scan_versions,
        node,
    )
}

fn mark_payload(mutations: &mut Vec<Mutation<GcEntry>>, binding: &PayloadBinding)
    ensures
        edits(final(mutations)@) == edits(old(mutations)@).push(set_mark(payload_mark(*binding))),
{
    let key = match &binding.provider_version_id {
        Some(version) => gc_physical_mark_key(&binding.path, version),
        None => gc_path_mark_key(&binding.path),
    };
    push_mark(mutations, key);
}

/// Marks a node. `node` is given when the node is not marked yet.
pub fn gc_mark_node(prefix: &str, queue_key: &[u8], work: GcNodeWork, node: Option<&GcNode>) -> (r: Vec<
    Mutation<GcEntry>,
>)
    ensures
        edits(r@) == seq![Edit::Delete { key: queue_key@ }] + match node {
            Some(n) => node_marks(prefix@, work, *n),
            None => Seq::empty(),
        },
        edits(r@).contains(Edit::Delete { key: queue_key@ }),
        node is None ==> r@.len() == 1,
        node is Some ==> edits(r@).contains(
            Edit::Upsert {
                key: path_mark(encode_utf8(node_location(prefix@, work.cid@))),
                val: GcEntry::Mark,
            },
        ),
        node is Some ==> (*node->0 matches GcNode::Inner { children } ==> forall|i: int|
            0 <= i < children@.len() ==> edits(r@).contains(
                Edit::Upsert {
                    key: waiting_node(
                        GcNodeWork {
                            cid: #[trigger] children@[i],
                            scan_versions: work.scan_versions,
                        },
                    ),
                    val: GcEntry::Node(
                        GcNodeWork { cid: children@[i], scan_versions: work.scan_versions },
                    ),
                },
            )),
        node is Some ==> (*node->0 matches GcNode::Leaf { bindings } ==> forall|i: int|
            work.scan_versions && 0 <= i < bindings@.len() && (#[trigger] bindings@[i]) is Some
                ==> edits(r@).contains(
                Edit::Upsert { key: payload_mark(bindings@[i]->0), val: GcEntry::Mark },
            )),
{
    proof {
        let first = Edit::<GcEntry>::Delete { key: queue_key@ };
        if node is Some {
            law_marking_a_node_leads_to_all_it_names(prefix@, work, *node->0);
            lemma_contains_behind(first, node_marks(prefix@, work, *node->0));
        } else {
            lemma_contains_behind(first, Seq::empty());
        }
    }
    let mut mutations: Vec<Mutation<GcEntry>> = Vec::new();
    mutations.push(Mutation::Delete { key: to_vec(queue_key) });
    let ghost start = seq![Edit::<GcEntry>::Delete { key: queue_key@ }];
    assert(edits(mutations@) =~= start);
    let node = match node {
        None => {
            assert(edits(mutations@) =~= start + Seq::<Edit<GcEntry>>::empty());
            return mutations;
        },
        Some(node) => node,
    };
    push_mark(&mut mutations, gc_node_mark_key(&work.cid, work.scan_versions));
    if let Ok(path) = path_for_key(prefix, work.cid.as_bytes()) {
        push_mark(&mut mutations, gc_path_mark_key(&path));
    }
    let ghost head = start + seq![
        set_mark(marked_node(work)),
        set_mark(node_path_mark(prefix@, work.cid)),
    ];
    assert(edits(mutations@) =~= head);
    match node {
        GcNode::Leaf { bindings } => {
            if work.scan_versions {
                let mut i: usize = 0;
                assert(bindings@.take(0) =~= Seq::<Option<PayloadBinding>>::empty());
                assert(head + payload_marks(bindings@.take(0)) =~= head);
                while i < bindings.len()
                    invariant
                        i <= bindings@.len(),
                        edits(mutations@) == head + payload_marks(bindings@.take(i as int)),
                    decreases bindings.len() - i,
                {
                    proof {
                        assert(bindings@.take(i + 1).drop_last() =~= bindings@.take(i as int));
                    }
                    if let Some(binding) = &bindings[i] {
                        mark_payload(&mut mutations, binding);
                    }
                    assert(edits(mutations@) =~= head + payload_marks(bindings@.take(i + 1)));
                    i += 1;
                }
                assert(bindings@.take(bindings@.len() as int) =~= bindings@);
            }
        },
        GcNode::Inner { children } => {
            let mut i: usize = 0;
            while i < children.len()
                invariant
                    i <= children@.len(),
                    edits(mutations@) == head + Seq::new(
                        i as nat,
                        |j: int| queue_node(children@[j], work.scan_versions),
                    ),
                decreases children.len() - i,
            {
                push_node(&mut mutations, children[i], work.scan_versions);
                assert(edits(mutations@) =~= head + Seq::new(
                    (i + 1) as nat,
                    |j: int| queue_node(children@[j], work.scan_versions),
                ));
                i += 1;
            }
        },
    }
    assert(edits(mutations@) =~= start + node_marks(prefix@, work, *node));
    mutations
}

/// The commit that an entry of the queue names.
pub fn gc_commit_work(encoded: &Vec<u8>) -> (r: Result<CommitId, Error>)
    ensures
        match r {
            Ok(id) => encoded@.len() == 32 && id@ == encoded@,
            Err(error) => encoded@.len() != 32 && error@ == fault(
                ErrorCode::CorruptCommit,
                "GC commit work ID has wrong length",
            ),
        },
{
    if encoded.len() != 32 {
        return Err(Error::new(ErrorCode::CorruptCommit, "GC commit work ID has wrong length"));
    }
    Ok(CommitId::from_hash(array_of_32(encoded)))
}

/// The bytes of a node that something reaches.
pub fn reachable_node(read: Option<Vec<u8>>) -> (r: Result<Vec<u8>, Error>)
    ensures
        outcome(r) == match read {
            Some(bytes) => Ok(bytes),
            None => Err(fault(ErrorCode::MissingClosure, "reachable node is missing")),
        },
{
    match read {
        Some(bytes) => Ok(bytes),
        None => Err(Error::new(ErrorCode::MissingClosure, "reachable node is missing")),
    }
}

/// The children of an inner node, out of its values.
pub fn inner_node(values: &Vec<Vec<u8>>) -> (r: Result<GcNode, Error>)
    ensures
        match r {
            Ok(node) => node matches GcNode::Inner { children } && children@.len() == values@.len()
                && forall|i: int|
                0 <= i < values@.len() ==> (#[trigger] values@[i])@.len() == 32 && children@[i]@
                    == values@[i]@,
            Err(error) => error@ == fault(
                ErrorCode::CorruptNode,
                "internal node child CID is invalid",
            ) && exists|i: int| 0 <= i < values@.len() && (#[trigger] values@[i])@.len() != 32,
        },
{
    let mut children: Vec<Cid> = Vec::new();
    let mut i: usize = 0;
    while i < values.len()
        invariant
            i <= values@.len(),
            children@.len() == i,
            forall|j: int|
                0 <= j < i ==> (#[trigger] values@[j])@.len() == 32 && children@[j]@ == values@[j]@,
        decreases values.len() - i,
    {
        if values[i].len() != 32 {
            assert(values@[i as int]@.len() != 32);
            return Err(Error::new(ErrorCode::CorruptNode, "internal node child CID is invalid"));
        }
        children.push(Cid::from_hash(array_of_32(&values[i])));
        i += 1;
    }
    Ok(GcNode::Inner { children })
}

/// A reference that was not deleted keeps its target alive, and the target before where it has one. One that
/// was deleted keeps nothing.
pub proof fn law_live_reference_keeps_its_commits(target: CommitId, previous: Option<CommitId>)
    ensures
        live_roots(target, previous, false).contains(target),
        previous is Some ==> live_roots(target, previous, false).contains(previous->0),
        forall|id: CommitId| #[trigger]
            live_roots(target, previous, false).contains(id) ==> id == target || previous == Some(id),
        live_roots(target, previous, true).len() == 0,
        forall|i: int|
            0 <= i < live_roots(target, previous, false).len() ==> (#[trigger] queue_commits(
                live_roots(target, previous, false),
            )[i]) == (Edit::Upsert {
                key: seq![0x63u8, 0x71, 0x2f] + live_roots(target, previous, false)[i]@,
                val: GcEntry::Commit(live_roots(target, previous, false)[i]),
            }),
        queue_commits(live_roots(target, previous, false)).contains(
            Edit::Upsert { key: seq![0x63u8, 0x71, 0x2f] + target@, val: GcEntry::Commit(target) },
        ),
        previous is Some ==> queue_commits(live_roots(target, previous, false)).contains(
            Edit::Upsert {
                key: seq![0x63u8, 0x71, 0x2f] + previous->0@,
                val: GcEntry::Commit(previous->0),
            },
        ),
{
    let roots = live_roots(target, previous, false);
    assert(roots[0] == target);
    assert(queue_commits(roots)[0] == queue_commit(target));
    if previous is Some {
        assert(roots[1] == previous->0);
        assert(queue_commits(roots)[1] == queue_commit(previous->0));
    }
}

proof fn lemma_contains_behind(first: Edit<GcEntry>, rest: Seq<Edit<GcEntry>>)
    ensures
        (seq![first] + rest).contains(first),
        forall|edit: Edit<GcEntry>| #[trigger]
            rest.contains(edit) ==> (seq![first] + rest).contains(edit),
{
    let all = seq![first] + rest;
    assert(all[0] == first);
    assert forall|edit: Edit<GcEntry>| #[trigger] rest.contains(edit) implies all.contains(edit) by {
        let i = rest.index_of(edit);
        assert(all[i + 1] == edit);
    }
}

/// Marking a commit marks it and its path, and queues all it names: every parent, its tree of objects, and its
/// tree of versions, whose leaves are to be read for payloads.
pub proof fn law_marking_a_commit_leads_to_all_it_names(prefix: Seq<char>, id: CommitId, commit: GcCommit)
    ensures
        commit_marks(prefix, id, commit).contains(
            Edit::Upsert { key: seq![0x63u8, 0x6d, 0x2f] + id@, val: GcEntry::Mark },
        ),
        commit_marks(prefix, id, commit).contains(
            Edit::Upsert {
                key: path_mark(encode_utf8(commit_location(prefix, id))),
                val: GcEntry::Mark,
            },
        ),
        forall|i: int|
            0 <= i < commit.parents@.len() ==> commit_marks(prefix, id, commit).contains(
                Edit::Upsert {
                    key: seq![0x63u8, 0x71, 0x2f] + (#[trigger] commit.parents@[i])@,
                    val: GcEntry::Commit(commit.parents@[i]),
                },
            ),
        commit.objects is Some ==> commit_marks(prefix, id, commit).contains(
            Edit::Upsert {
                key: waiting_node(GcNodeWork { cid: commit.objects->0, scan_versions: false }),
                val: GcEntry::Node(GcNodeWork { cid: commit.objects->0, scan_versions: false }),
            },
        ),
        commit.versions is Some ==> commit_marks(prefix, id, commit).contains(
            Edit::Upsert {
                key: waiting_node(GcNodeWork { cid: commit.versions->0, scan_versions: true }),
                val: GcEntry::Node(GcNodeWork { cid: commit.versions->0, scan_versions: true }),
            },
        ),
{
    let all = commit_marks(prefix, id, commit);
    let n = commit.parents@.len() as int;
    assert(all[0] == set_mark(marked_commit(id)));
    assert(all[1] == set_mark(commit_path_mark(prefix, id)));
    assert forall|i: int| 0 <= i < n implies all.contains(
        Edit::Upsert {
            key: seq![0x63u8, 0x71, 0x2f] + (#[trigger] commit.parents@[i])@,
            val: GcEntry::Commit(commit.parents@[i]),
        },
    ) by {
        assert(all[2 + i] == queue_commit(commit.parents@[i]));
    }
    if commit.objects is Some {
        assert(all[2 + n] == queue_node(commit.objects->0, false));
    }
    if commit.versions is Some {
        let k = if commit.objects is Some {
            3 + n
        } else {
            2 + n
        };
        assert(all[k] == queue_node(commit.versions->0, true));
    }
}

proof fn lemma_payload_is_among_the_marks(bindings: Seq<Option<PayloadBinding>>, i: int)
    requires
        0 <= i < bindings.len(),
        bindings[i] is Some,
    ensures
        payload_marks(bindings).contains(
            Edit::Upsert { key: payload_mark(bindings[i]->0), val: GcEntry::Mark },
        ),
    decreases bindings.len(),
{
    let fewer = bindings.drop_last();
    let before = payload_marks(fewer);
    let all = payload_marks(bindings);
    if i == bindings.len() - 1 {
        assert(all[before.len() as int] == set_mark(payload_mark(bindings[i]->0)));
    } else {
        assert(fewer[i] == bindings[i]);
        lemma_payload_is_among_the_marks(fewer, i);
        let edit = Edit::Upsert { key: payload_mark(bindings[i]->0), val: GcEntry::Mark };
        let k = before.index_of(edit);
        assert(all[k] == edit);
    }
}

/// Marking a node marks its path and leads to all it names: every child of an inner node is queued, for the
/// same purpose as the node; and every payload that a leaf of versions names is marked.
pub proof fn law_marking_a_node_leads_to_all_it_names(prefix: Seq<char>, work: GcNodeWork, node: GcNode)
    ensures
        node_marks(prefix, work, node).contains(
            Edit::Upsert {
                key: path_mark(encode_utf8(node_location(prefix, work.cid@))),
                val: GcEntry::Mark,
            },
        ),
        node matches GcNode::Inner { children } ==> forall|i: int|
            0 <= i < children@.len() ==> node_marks(prefix, work, node).contains(
                Edit::Upsert {
                    key: waiting_node(
                        GcNodeWork {
                            cid: #[trigger] children@[i],
                            scan_versions: work.scan_versions,
                        },
                    ),
                    val: GcEntry::Node(
                        GcNodeWork { cid: children@[i], scan_versions: work.scan_versions },
                    ),
                },
            ),
        node matches GcNode::Leaf { bindings } ==> forall|i: int|
            work.scan_versions && 0 <= i < bindings@.len() && (#[trigger] bindings@[i]) is Some
                ==> node_marks(prefix, work, node).contains(
                Edit::Upsert { key: payload_mark(bindings@[i]->0), val: GcEntry::Mark },
            ),
{
    let all = node_marks(prefix, work, node);
    let leads = node_leads(work.scan_versions, node);
    assert(all[1] == set_mark(node_path_mark(prefix, work.cid)));
    assert forall|edit: Edit<GcEntry>| #[trigger] leads.contains(edit) implies all.contains(edit) by {
        let k = leads.index_of(edit);
        assert(all[k + 2] == edit);
    }
    match node {
        GcNode::Inner { children } => {
            assert forall|i: int| 0 <= i < children@.len() implies all.contains(
                Edit::Upsert {
                    key: waiting_node(
                        GcNodeWork {
                            cid: #[trigger] children@[i],
                            scan_versions: work.scan_versions,
                        },
                    ),
                    val: GcEntry::Node(
                        GcNodeWork { cid: children@[i], scan_versions: work.scan_versions },
                    ),
                },
            ) by {
                assert(leads[i] == queue_node(children@[i], work.scan_versions));
                assert(leads.contains(leads[i]));
            }
        },
        GcNode::Leaf { bindings } => {
            if work.scan_versions {
                assert forall|i: int|
                    0 <= i < bindings@.len() && (#[trigger] bindings@[i]) is Some implies all.contains(
                    Edit::Upsert { key: payload_mark(bindings@[i]->0), val: GcEntry::Mark },
                ) by {
                    lemma_payload_is_among_the_marks(bindings@, i);
                }
            }
        },
    }
}

/// The mark of a payload is of its exact version where the provider names one, and of its path where it does
/// not, so that no version of an unversioned path is left out.
pub proof fn law_payload_mark_names_the_payload(binding: PayloadBinding)
    ensures
        binding.provider_version_id is None ==> payload_mark(binding) == path_mark(
            encode_utf8(binding.path@),
        ),
        binding.provider_version_id is Some ==> payload_mark(binding) == physical_mark(
            encode_utf8(binding.path@),
            encode_utf8(binding.provider_version_id->0@),
        ),
{
}

/// A count goes up by what is added and stops at the highest; and one more of a sort is counted under that sort alone.
pub proof fn law_counts_go_up_and_stop(a: u64, b: u64, counts: KindCounts, kind: ManagedKind)
    ensures
        a + b <= u64::MAX ==> saturating(a, b) == a + b,
        a + b > u64::MAX ==> saturating(a, b) == u64::MAX,
        counts.commits < u64::MAX && kind is Commits ==> one_more(counts, kind).commits == counts.commits
            + 1,
        counts.nodes < u64::MAX && kind is Nodes ==> one_more(counts, kind).nodes == counts.nodes + 1,
        counts.payloads < u64::MAX && kind is Payloads ==> one_more(counts, kind).payloads
            == counts.payloads + 1,
        !(kind is Commits) ==> one_more(counts, kind).commits == counts.commits,
        !(kind is Nodes) ==> one_more(counts, kind).nodes == counts.nodes,
        !(kind is Payloads) ==> one_more(counts, kind).payloads == counts.payloads,
{
}

} // verus!
