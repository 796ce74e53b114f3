//! The nodes that a write session has put and not yet packed, in the order of their names.
use crate::bytes::{lemma_lex_irreflexive, lex_lt, to_vec};
use crate::error::{fault, outcome, Error, ErrorCode};
use crate::ids::{Cid, TreeFormatDigest};
use crate::node_store::{
    pack_fault, packs_nodes, prepare_node_pack, put_node, NodePack, NodeTarget,
    PendingNode,
};
use crate::ordered::{find_key, put_sorted, sorted, Keyed};
use crate::outside::{sha256, sha256_of};
use vstd::prelude::*;

verus! {

impl Keyed for PendingNode {
    open spec fn sort_key(&self) -> Seq<u8> {
        self.cid@
    }

    fn sort_bytes(&self) -> (r: &[u8]) {
        self.cid.as_bytes()
    }
}

/// The nodes that wait for their pack.
#[derive(Debug)]
pub struct WaitingNodes {
    pub nodes: Vec<PendingNode>,
}

/// The place of a node.
pub open spec fn waits_at(nodes: Seq<PendingNode>, key: Seq<u8>, i: int) -> bool {
    0 <= i < nodes.len() && nodes[i].cid@ == key
}

/// The bytes of the nodes that wait, by their names.
pub open spec fn waiting(nodes: Seq<PendingNode>) -> Map<Seq<u8>, Seq<u8>> {
    Map::new(
        |key: Seq<u8>| exists|i: int| waits_at(nodes, key, i),
        |key: Seq<u8>| nodes[choose|i: int| waits_at(nodes, key, i)].bytes@,
    )
}

impl View for WaitingNodes {
    type V = Map<Seq<u8>, Seq<u8>>;

    open spec fn view(&self) -> Map<Seq<u8>, Seq<u8>> {
        waiting(self.nodes@)
    }
}

proof fn lemma_waiting_at(nodes: Seq<PendingNode>, key: Seq<u8>, i: int)
    requires
        sorted(nodes),
        waits_at(nodes, key, i),
    ensures
        waiting(nodes).contains_key(key),
        waiting(nodes)[key] == nodes[i].bytes@,
{
    let j = choose|j: int| waits_at(nodes, key, j);
    assert(waits_at(nodes, key, j));
    lemma_lex_irreflexive(key);
    if i < j {
        assert(lex_lt(nodes[i].sort_key(), nodes[j].sort_key()));
    } else if j < i {
        assert(lex_lt(nodes[j].sort_key(), nodes[i].sort_key()));
    }
}

/// Whether the table of a pack names its nodes in order, each once.
pub open spec fn table_rises<K>(pack: NodePack<K>) -> bool {
    forall|i: int, j: int|
        0 <= i < j < pack.entries@.len() ==> lex_lt(
            #[trigger] pack.entries@[i].cid@,
            #[trigger] pack.entries@[j].cid@,
        )
}

impl WaitingNodes {
    /// Whether the nodes are in the order of their names, each once, and each is under its own name.
    pub open spec fn wf(&self) -> bool {
        &&& sorted(self.nodes@)
        &&& forall|i: int|
            0 <= i < self.nodes@.len() ==> (#[trigger] self.nodes@[i]).cid@ == sha256_of(
                self.nodes@[i].bytes@,
            )
    }

    /// No nodes.
    pub fn new() -> (r: Self)
        ensures
            r.wf(),
            r@ == Map::<Seq<u8>, Seq<u8>>::empty(),
    {
        let r = WaitingNodes { nodes: Vec::new() };
        assert(r@ =~= Map::<Seq<u8>, Seq<u8>>::empty());
        r
    }

    /// Takes a new node, where it is to wait for its pack; a node under a wrong name is refused.
    pub fn put(&mut self, key: &[u8], value: &[u8], packed: bool, write_direct: bool) -> (r: Result<
        NodeTarget,
        Error,
    >)
        requires
            old(self).wf(),
        ensures
            final(self).wf(),
            outcome(r) == if sha256_of(value@) != key@ {
                Err(
                    fault(
                        ErrorCode::CorruptNode,
                        "attempted Prolly node write under the wrong CID",
                    ),
                )
            } else if packed && !write_direct {
                Ok(NodeTarget::Pending)
            } else {
                Ok(NodeTarget::Object)
            },
            final(self)@ == if r == Ok::<NodeTarget, Error>(NodeTarget::Pending) {
                old(self)@.insert(key@, value@)
            } else {
                old(self)@
            },
    {
        let target = match put_node(key, value, packed, write_direct) {
            Err(error) => {
                return Err(error);
            },
            Ok(target) => target,
        };
        if let NodeTarget::Object = target {
            return Ok(target);
        }
        let cid = Cid(sha256(value));
        let node = PendingNode { cid, bytes: to_vec(value) };
        let ghost before = self.nodes@;
        let ghost added = node;
        put_sorted(&mut self.nodes, node);
        proof {
            let now = self.nodes@;
            assert forall|i: int| 0 <= i < now.len() implies (#[trigger] now[i]).cid@ == sha256_of(
                now[i].bytes@,
            ) by {
                assert(now.contains(now[i]));
                if now[i] != added {
                    let j = choose|j: int| 0 <= j < before.len() && before[j] == now[i];
                    assert(before[j].cid@ == sha256_of(before[j].bytes@));
                }
            }
            let target = waiting(before).insert(key@, value@);
            assert forall|k: Seq<u8>|
                #![trigger waiting(now).contains_key(k)]
                #![trigger target.contains_key(k)]
                waiting(now).contains_key(k) == target.contains_key(k) && (target.contains_key(k)
                    ==> waiting(now)[k] == target[k]) by {
                if k == key@ {
                    assert(now.contains(added));
                    let i = choose|i: int| 0 <= i < now.len() && now[i] == added;
                    assert(waits_at(now, k, i));
                    lemma_waiting_at(now, k, i);
                } else {
                    if waiting(before).contains_key(k) {
                        let i = choose|i: int| waits_at(before, k, i);
                        assert(before.contains(before[i]));
                        assert(before[i].sort_key() == k);
                        assert(now.contains(before[i]));
                        let j = choose|j: int| 0 <= j < now.len() && now[j] == before[i];
                        assert(waits_at(now, k, j));
                        lemma_waiting_at(now, k, j);
                        lemma_waiting_at(before, k, i);
                    }
                    if waiting(now).contains_key(k) {
                        let j = choose|j: int| waits_at(now, k, j);
                        assert(now.contains(now[j]));
                        assert(now[j] != added);
                        let i = choose|i: int| 0 <= i < before.len() && before[i] == now[j];
                        assert(waits_at(before, k, i));
                    }
                }
            }
            assert(waiting(now) =~= target);
        }
        Ok(target)
    }

    /// A node that waits.
    pub fn get(&self, cid: &Cid) -> (r: Option<Vec<u8>>)
        requires
            self.wf(),
        ensures
            match r {
                Some(bytes) => self@.contains_pair(cid@, bytes@),
                None => !self@.contains_key(cid@),
            },
    {
        match find_key(&self.nodes, cid.as_bytes()) {
            Some(i) => {
                proof {
                    lemma_waiting_at(self.nodes@, cid@, i as int);
                }
                Some(to_vec(&self.nodes[i].bytes))
            },
            None => {
                proof {
                    if self@.contains_key(cid@) {
                        let i = choose|i: int| waits_at(self.nodes@, cid@, i);
                        assert(self.nodes@[i].sort_key() == cid@);
                    }
                }
                None
            },
        }
    }

    /// Drops a node, if it waits.
    pub fn remove(&mut self, cid: &Cid)
        requires
            old(self).wf(),
        ensures
            final(self).wf(),
            final(self)@ == old(self)@.remove(cid@),
    {
        let ghost before = self.nodes@;
        match find_key(&self.nodes, cid.as_bytes()) {
            Some(at) => {
                let _gone = self.nodes.remove(at);
                proof {
                    let now = self.nodes@;
                    assert(now =~= before.remove(at as int));
                    assert forall|i: int| 0 <= i < now.len() implies #[trigger] now[i] == before[if i < at {
                        i
                    } else {
                        i + 1
                    }] by {}
                    assert(sorted(now)) by {
                        assert forall|i: int, j: int| 0 <= i < j < now.len() implies lex_lt(
                            #[trigger] now[i].sort_key(),
                            #[trigger] now[j].sort_key(),
                        ) by {
                            let x = if i < at {
                                i
                            } else {
                                i + 1
                            };
                            let y = if j < at {
                                j
                            } else {
                                j + 1
                            };
                            assert(now[i] == before[x] && now[j] == before[y]);
                        }
                    }
                    let target = waiting(before).remove(cid@);
                    assert forall|k: Seq<u8>|
                        #![trigger waiting(now).contains_key(k)]
                        #![trigger target.contains_key(k)]
                        waiting(now).contains_key(k) == target.contains_key(k) && (
                        target.contains_key(k) ==> waiting(now)[k] == target[k]) by {
                        if waiting(before).contains_key(k) && k != cid@ {
                            let i = choose|i: int| waits_at(before, k, i);
                            assert(i != at);
                            let j = if i < at {
                                i
                            } else {
                                i - 1
                            };
                            assert(now[j] == before[i]);
                            assert(waits_at(now, k, j));
                            lemma_waiting_at(now, k, j);
                            lemma_waiting_at(before, k, i);
                        }
                        if waiting(now).contains_key(k) {
                            let j = choose|j: int| waits_at(now, k, j);
                            let i = if j < at {
                                j
                            } else {
                                j + 1
                            };
                            assert(waits_at(before, k, i));
                            lemma_lex_irreflexive(k);
                            if i < at {
                                assert(lex_lt(before[i].sort_key(), before[at as int].sort_key()));
                            } else {
                                assert(lex_lt(before[at as int].sort_key(), before[i].sort_key()));
                            }
                        }
                    }
                    assert(waiting(now) =~= target);
                }
            },
            None => {
                proof {
                    if waiting(before).contains_key(cid@) {
                        let i = choose|i: int| waits_at(before, cid@, i);
                        assert(before[i].sort_key() == cid@);
                    }
                    assert(waiting(before) =~= waiting(before).remove(cid@));
                }
            },
        }
    }

    /// Packs the nodes that wait and the attachments, and starts anew. None: nodes are not packed, or
    /// nothing waits and nothing is attached.
    pub fn prepare<K: Copy>(
        &mut self,
        packed: bool,
        format_digest: TreeFormatDigest,
        attachments: &Vec<(K, Vec<u8>)>,
    ) -> (r: Result<Option<NodePack<K>>, Error>)
        requires
            old(self).wf(),
        ensures
            final(self).wf(),
            if !packed || (old(self).nodes@.len() == 0 && attachments@.len() == 0) {
                r matches Ok(None) && final(self)@ == old(self)@
            } else {
                final(self)@ == Map::<Seq<u8>, Seq<u8>>::empty() && match pack_fault(
                    old(self).nodes@,
                    attachments@,
                ) {
                    Some(error) => r matches Err(e) && e@ == error,
                    None => r matches Ok(Some(pack)) && pack.format_digest == format_digest
                        && packs_nodes(pack, old(self).nodes@, attachments@) && table_rises(pack),
                }
            },
    {
        if !packed || (self.nodes.len() == 0 && attachments.len() == 0) {
            return Ok(None);
        }
        let mut drained: Vec<PendingNode> = Vec::new();
        let ghost before = self.nodes@;
        drained.append(&mut self.nodes);
        assert(drained@ =~= before);
        assert(waiting(self.nodes@) =~= Map::<Seq<u8>, Seq<u8>>::empty());
        let prepared = prepare_node_pack(format_digest, &drained, attachments);
        proof {
            if prepared is Ok && prepared->Ok_0 is Some {
                let entries = prepared->Ok_0->0.entries@;
                assert forall|i: int, j: int| 0 <= i < j < entries.len() implies lex_lt(
                    #[trigger] entries[i].cid@,
                    #[trigger] entries[j].cid@,
                ) by {
                    assert(lex_lt(before[i].sort_key(), before[j].sort_key()));
                }
            }
        }
        prepared
    }
}

/// A node that was put is read back while it waits, whatever other nodes are put after it.
pub proof fn law_node_put_is_read_back(
    before: Map<Seq<u8>, Seq<u8>>,
    key: Seq<u8>,
    value: Seq<u8>,
    later_key: Seq<u8>,
    later_value: Seq<u8>,
)
    requires
        sha256_of(value) == key,
        sha256_of(later_value) == later_key,
        later_key == key ==> later_value == value,
    ensures
        before.insert(key, value).contains_pair(key, value),
        before.insert(key, value).insert(later_key, later_value).contains_pair(key, value),
{
}

/// A node waits under its name with its own bytes, and nothing waits under a name that no node has.
pub proof fn law_waiting_node_is_found(nodes: Seq<PendingNode>, key: Seq<u8>, i: int)
    requires
        forall|a: int, b: int|
            0 <= a < b < nodes.len() ==> (#[trigger] nodes[a]).cid@ != (#[trigger] nodes[b]).cid@,
    ensures
        0 <= i < nodes.len() && nodes[i].cid@ == key ==> waiting(nodes).contains_pair(
            key,
            nodes[i].bytes@,
        ),
        (forall|k: int| 0 <= k < nodes.len() ==> (#[trigger] nodes[k]).cid@ != key) ==> !waiting(
            nodes,
        ).contains_key(key),
{
    if 0 <= i < nodes.len() && nodes[i].cid@ == key {
        assert(waits_at(nodes, key, i));
        let k = choose|k: int| waits_at(nodes, key, k);
        assert(waits_at(nodes, key, k));
        assert(nodes[k].cid@ == nodes[i].cid@);
    }
}

/// Whatever waits is named by the digest of its bytes, and nothing waits twice.
pub proof fn law_waiting_nodes_are_named_by_their_digests(waiting: WaitingNodes, i: int, j: int)
    requires
        waiting.wf(),
    ensures
        0 <= i < waiting.nodes@.len() ==> waiting.nodes@[i].cid@ == sha256_of(waiting.nodes@[i].bytes@),
        0 <= i < j < waiting.nodes@.len() ==> lex_lt(waiting.nodes@[i].cid@, waiting.nodes@[j].cid@)
            && waiting.nodes@[i].cid@ != waiting.nodes@[j].cid@,
{
    if 0 <= i < j < waiting.nodes@.len() {
        assert(lex_lt(waiting.nodes@[i].sort_key(), waiting.nodes@[j].sort_key()));
        lemma_lex_irreflexive(waiting.nodes@[i].cid@);
    }
}

} // verus!
