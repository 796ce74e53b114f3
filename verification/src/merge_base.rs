//! The search for merge bases: the best common ancestors of two commits.
//!
//! Flags run from the two heads down to their ancestors. A commit that carries the flags of both
//! heads is a common ancestor, and its own ancestors are stale: they are common too, but not best.
//! A commit whose flags grow is visited again, so the flags come to rest exactly when the queue is
//! empty.
use crate::bytes::to_vec;
use crate::error::{fault, outcome, Error, ErrorCode};
use crate::ids::{CommitGeneration, CommitId};
use crate::keys::{
    base_candidate_prefix, law_commit_keys_are_distinct, law_namespaces_are_disjoint,
    law_queue_keys_are_distinct, merge_base_candidate_key, merge_queue_key, merge_seen_key,
    queue_key, queue_prefix, seen_prefix,
};
use crate::tree::{applied, applied_one, edits, lemma_applied_concat, lemma_edits_push, Edit, Mutation};
use vstd::prelude::*;

verus! {

/// Reached from our head.
pub const MERGE_LEFT: u8 = 1;

/// Reached from their head.
pub const MERGE_RIGHT: u8 = 2;

/// Reached from both heads.
pub const MERGE_BOTH: u8 = 3;

/// Reached from a common ancestor.
pub const MERGE_STALE: u8 = 4;

/// A commit that waits to be visited.
#[derive(Clone, Copy, Debug)]
pub struct MergeQueueEntry {
    pub commit: CommitId,
    pub generation: u64,
}

/// A commit that was met, and the flags that reached it.
#[derive(Clone, Copy, Debug)]
pub struct MergeSeenEntry {
    pub generation: u64,
    pub flags: u8,
}

/// A common ancestor, and whether a better one was found since.
#[derive(Clone, Copy, Debug)]
pub struct MergeBaseCandidate {
    pub generation: u64,
    pub stale: bool,
}

/// What the tree of a search holds.
#[derive(Clone, Copy, Debug)]
pub enum MergeBaseEntry {
    Queued(MergeQueueEntry),
    Seen(MergeSeenEntry),
    Candidate(MergeBaseCandidate),
    Base,
}

/// A commit as the commit graph knows it.
#[derive(Clone, Debug)]
pub struct JournalCommitGraphEntry {
    pub commit: CommitId,
    pub generation: CommitGeneration,
    pub parents: Vec<CommitId>,
    pub first_parent_jumps: Vec<CommitId>,
}

/// A parent of the commit being visited, with what the search knows of it.
#[derive(Clone, Copy, Debug)]
pub struct MergeParent {
    pub commit: CommitId,
    pub generation: u64,
    pub previous: Option<MergeSeenEntry>,
    pub candidate: Option<MergeBaseCandidate>,
}

/// The key of a commit's flags.
pub open spec fn seen_key_of(commit: CommitId) -> Seq<u8> {
    seen_prefix() + commit@
}

/// The key of a commit as a candidate.
pub open spec fn candidate_key_of(commit: CommitId) -> Seq<u8> {
    base_candidate_prefix() + commit@
}

/// Whether the flags are those of both heads.
pub open spec fn is_common(flags: u8) -> bool {
    flags & MERGE_BOTH == MERGE_BOTH
}

/// Whether the flags are those of an ancestor of a common ancestor.
pub open spec fn is_stale(flags: u8) -> bool {
    flags & MERGE_STALE != 0
}

/// The flags that a commit hands on to its parents.
pub open spec fn propagated(flags: u8) -> u8 {
    if is_common(flags) {
        flags | MERGE_STALE
    } else {
        flags
    }
}

/// The flags of a parent once those of its child have reached it.
pub open spec fn joined(previous: Option<MergeSeenEntry>, flags: u8) -> u8 {
    match previous {
        Some(entry) => entry.flags | flags,
        None => flags,
    }
}

/// Whether the flags of a parent grow.
pub open spec fn grows(previous: Option<MergeSeenEntry>, flags: u8) -> bool {
    !(previous is Some && previous->0.flags == joined(previous, flags))
}

/// What a commit's visit does to its own candidate.
pub open spec fn own_candidate_edits(
    commit: CommitId,
    seen: MergeSeenEntry,
    candidate: Option<MergeBaseCandidate>,
) -> Seq<Edit<MergeBaseEntry>> {
    if is_common(seen.flags) && !is_stale(seen.flags) && candidate is None {
        seq![
            Edit::Upsert {
                key: candidate_key_of(commit),
                val: MergeBaseEntry::Candidate(
                    MergeBaseCandidate { generation: seen.generation, stale: false },
                ),
            },
        ]
    } else if is_stale(seen.flags) && candidate is Some && !candidate->0.stale {
        seq![
            Edit::Upsert {
                key: candidate_key_of(commit),
                val: MergeBaseEntry::Candidate(
                    MergeBaseCandidate { generation: seen.generation, stale: true },
                ),
            },
        ]
    } else {
        Seq::empty()
    }
}

/// What flags that reach a parent change.
pub open spec fn parent_edits(flags: u8, parent: MergeParent) -> Seq<Edit<MergeBaseEntry>> {
    let next = joined(parent.previous, flags);
    if !grows(parent.previous, flags) {
        Seq::empty()
    } else {
        let flagged = seq![
            Edit::Upsert {
                key: seen_key_of(parent.commit),
                val: MergeBaseEntry::Seen(
                    MergeSeenEntry { generation: parent.generation, flags: next },
                ),
            },
            Edit::Upsert {
                key: queue_key(parent.generation, parent.commit),
                val: MergeBaseEntry::Queued(
                    MergeQueueEntry { commit: parent.commit, generation: parent.generation },
                ),
            },
        ];
        if is_stale(next) && parent.candidate is Some && !parent.candidate->0.stale {
            flagged.push(
                Edit::Upsert {
                    key: candidate_key_of(parent.commit),
                    val: MergeBaseEntry::Candidate(
                        MergeBaseCandidate {
                            generation: parent.candidate->0.generation,
                            stale: true,
                        },
                    ),
                },
            )
        } else {
            flagged
        }
    }
}

/// What flags that reach the parents change, from the first parent to the last.
pub open spec fn parents_edits(flags: u8, parents: Seq<MergeParent>) -> Seq<Edit<MergeBaseEntry>>
    decreases parents.len(),
{
    if parents.len() == 0 {
        Seq::empty()
    } else {
        parents_edits(flags, parents.drop_last()) + parent_edits(flags, parents.last())
    }
}

/// What the visit of a commit changes.
pub open spec fn visit_edits(
    queued_key: Seq<u8>,
    commit: CommitId,
    seen: MergeSeenEntry,
    candidate: Option<MergeBaseCandidate>,
    parents: Seq<MergeParent>,
) -> Seq<Edit<MergeBaseEntry>> {
    seq![Edit::Delete { key: queued_key }] + own_candidate_edits(commit, seen, candidate)
        + parents_edits(propagated(seen.flags), parents)
}

/// Notes a head with its flag and queues it.
pub fn seed_merge_frontier(
    mutations: &mut Vec<Mutation<MergeBaseEntry>>,
    commit: CommitId,
    generation: u64,
    flags: u8,
)
    ensures
        edits(final(mutations)@) == edits(old(mutations)@) + seed_edits(commit, generation, flags),
{
    let ghost before = mutations@;
    let seen = Mutation::Upsert {
        key: merge_seen_key(commit),
        val: MergeBaseEntry::Seen(MergeSeenEntry { generation, flags }),
    };
    let queued = Mutation::Upsert {
        key: merge_queue_key(generation, commit),
        val: MergeBaseEntry::Queued(MergeQueueEntry { commit, generation }),
    };
    proof {
        lemma_edits_push(before, seen);
        lemma_edits_push(before.push(seen), queued);
    }
    mutations.push(seen);
    mutations.push(queued);
    assert(edits(mutations@) =~= edits(before) + seed_edits(commit, generation, flags));
}

/// What noting and queueing a head changes.
pub open spec fn seed_edits(commit: CommitId, generation: u64, flags: u8) -> Seq<Edit<MergeBaseEntry>> {
    seq![
        Edit::Upsert {
            key: seen_key_of(commit),
            val: MergeBaseEntry::Seen(MergeSeenEntry { generation, flags }),
        },
        Edit::Upsert {
            key: queue_key(generation, commit),
            val: MergeBaseEntry::Queued(MergeQueueEntry { commit, generation }),
        },
    ]
}

/// Finds what a queued commit was met with.
pub fn queued_flags(queued: &MergeQueueEntry, seen: Option<MergeSeenEntry>) -> (r: Result<
    MergeSeenEntry,
    Error,
>)
    ensures
        outcome(r) == match seen {
            None => Err(fault(ErrorCode::CorruptCommit, "merge queue has no seen record")),
            Some(entry) => if entry.generation != queued.generation {
                Err(
                    fault(
                        ErrorCode::CorruptCommit,
                        "merge queue generation disagrees with seen state",
                    ),
                )
            } else {
                Ok(entry)
            },
        },
{
    match seen {
        None => Err(Error::new(ErrorCode::CorruptCommit, "merge queue has no seen record")),
        Some(entry) => {
            if entry.generation != queued.generation {
                return Err(
                    Error::new(
                        ErrorCode::CorruptCommit,
                        "merge queue generation disagrees with seen state",
                    ),
                );
            }
            Ok(entry)
        },
    }
}

fn push_parent(
    mutations: &mut Vec<Mutation<MergeBaseEntry>>,
    flags: u8,
    parent: &MergeParent,
)
    ensures
        edits(final(mutations)@) == edits(old(mutations)@) + parent_edits(flags, *parent),
{
    let ghost before = mutations@;
    let next: u8 = match parent.previous {
        Some(entry) => entry.flags | flags,
        None => flags,
    };
    let unchanged = match parent.previous {
        Some(entry) => entry.flags == next,
        None => false,
    };
    if unchanged {
        assert(edits(mutations@) =~= edits(before) + parent_edits(flags, *parent));
        return;
    }
    let seen = Mutation::Upsert {
        key: merge_seen_key(parent.commit),
        val: MergeBaseEntry::Seen(
            MergeSeenEntry { generation: parent.generation, flags: next },
        ),
    };
    let queued = Mutation::Upsert {
        key: merge_queue_key(parent.generation, parent.commit),
        val: MergeBaseEntry::Queued(
            MergeQueueEntry { commit: parent.commit, generation: parent.generation },
        ),
    };
    proof {
        lemma_edits_push(before, seen);
        lemma_edits_push(before.push(seen), queued);
    }
    mutations.push(seen);
    mutations.push(queued);
    if next & MERGE_STALE != 0 {
        if let Some(candidate) = parent.candidate {
            if !candidate.stale {
                let ghost middle = mutations@;
                let stale = Mutation::Upsert {
                    key: merge_base_candidate_key(parent.commit),
                    val: MergeBaseEntry::Candidate(
                        MergeBaseCandidate { generation: candidate.generation, stale: true },
                    ),
                };
                proof {
                    lemma_edits_push(middle, stale);
                }
                mutations.push(stale);
            }
        }
    }
    assert(edits(mutations@) =~= edits(before) + parent_edits(flags, *parent));
}

/// Visits a queued commit: takes it off the queue, notes it as a candidate or as a stale one, and
/// hands its flags on to its parents.
pub fn advance_merge_base_one(
    queued_key: &[u8],
    queued: &MergeQueueEntry,
    seen: &MergeSeenEntry,
    candidate: Option<MergeBaseCandidate>,
    parents: &Vec<MergeParent>,
) -> (r: Vec<Mutation<MergeBaseEntry>>)
    ensures
        edits(r@) == visit_edits(queued_key@, queued.commit, *seen, candidate, parents@),
{
    let mut mutations: Vec<Mutation<MergeBaseEntry>> = Vec::new();
    mutations.push(Mutation::Delete { key: to_vec(queued_key) });
    let ghost start = seq![Edit::<MergeBaseEntry>::Delete { key: queued_key@ }];
    assert(edits(mutations@) =~= start);
    let common = seen.flags & MERGE_BOTH == MERGE_BOTH;
    let stale = seen.flags & MERGE_STALE != 0;
    let fresh_candidate = match candidate {
        Some(entry) => !entry.stale,
        None => false,
    };
    let ghost before = mutations@;
    if common && !stale && candidate.is_none() {
        let m = Mutation::Upsert {
            key: merge_base_candidate_key(queued.commit),
            val: MergeBaseEntry::Candidate(
                MergeBaseCandidate { generation: seen.generation, stale: false },
            ),
        };
        proof {
            lemma_edits_push(before, m);
        }
        mutations.push(m);
    } else if stale && fresh_candidate {
        let m = Mutation::Upsert {
            key: merge_base_candidate_key(queued.commit),
            val: MergeBaseEntry::Candidate(
                MergeBaseCandidate { generation: seen.generation, stale: true },
            ),
        };
        proof {
            lemma_edits_push(before, m);
        }
        mutations.push(m);
    }
    let ghost head = start + own_candidate_edits(queued.commit, *seen, candidate);
    assert(edits(mutations@) =~= head);
    let flags: u8 = if common {
        seen.flags | MERGE_STALE
    } else {
        seen.flags
    };
    let mut i: usize = 0;
    assert(parents@.take(0) =~= Seq::<MergeParent>::empty());
    assert(edits(mutations@) =~= head + parents_edits(flags, parents@.take(0)));
    while i < parents.len()
        invariant
            i <= parents@.len(),
            edits(mutations@) == head + parents_edits(flags, parents@.take(i as int)),
        decreases parents.len() - i,
    {
        push_parent(&mut mutations, flags, &parents[i]);
        proof {
            assert(parents@.take(i + 1).drop_last() =~= parents@.take(i as int));
            assert(head + parents_edits(flags, parents@.take(i as int)) + parent_edits(
                flags,
                parents@[i as int],
            ) =~= head + parents_edits(flags, parents@.take(i + 1)));
        }
        i += 1;
    }
    assert(parents@.take(parents@.len() as int) =~= parents@);
    mutations
}

/// What the tree of a search stands for: the flags of the commits that were met, the commits that
/// wait, and for each candidate whether it is stale.
#[verifier::ext_equal]
pub struct SearchState {
    pub seen: Map<CommitId, u8>,
    pub queue: Set<CommitId>,
    pub candidates: Map<CommitId, bool>,
}

/// What `tree` stands for, where each commit has the generation that `generation` gives.
pub open spec fn search_state(
    tree: Map<Seq<u8>, MergeBaseEntry>,
    generation: spec_fn(CommitId) -> u64,
) -> SearchState {
    SearchState {
        seen: Map::new(
            |c: CommitId| tree.contains_key(seen_key_of(c)),
            |c: CommitId| tree[seen_key_of(c)]->Seen_0.flags,
        ),
        queue: Set::new(|c: CommitId| tree.contains_key(queue_key(generation(c), c))),
        candidates: Map::new(
            |c: CommitId| tree.contains_key(candidate_key_of(c)),
            |c: CommitId| tree[candidate_key_of(c)]->Candidate_0.stale,
        ),
    }
}

/// Whether each namespace of `tree` holds its own sort of entry.
pub open spec fn search_typed(
    tree: Map<Seq<u8>, MergeBaseEntry>,
    generation: spec_fn(CommitId) -> u64,
) -> bool {
    &&& forall|c: CommitId|
        #![trigger seen_key_of(c)]
        tree.contains_key(seen_key_of(c)) ==> (tree[seen_key_of(c)] matches MergeBaseEntry::Seen(
            entry,
        ) && entry.generation == generation(c))
    &&& forall|c: CommitId|
        #![trigger candidate_key_of(c)]
        tree.contains_key(candidate_key_of(c)) ==> tree[candidate_key_of(c)] is Candidate
}

/// Changes to one commit's entries touch no other commit's.
proof fn lemma_search_upsert(
    tree: Map<Seq<u8>, MergeBaseEntry>,
    generation: spec_fn(CommitId) -> u64,
    c: CommitId,
    entry: MergeSeenEntry,
    queued: MergeQueueEntry,
    candidate: MergeBaseCandidate,
)
    requires
        search_typed(tree, generation),
        entry.generation == generation(c),
    ensures
        ({
            let seen = tree.insert(seen_key_of(c), MergeBaseEntry::Seen(entry));
            let waiting = tree.insert(
                queue_key(generation(c), c),
                MergeBaseEntry::Queued(queued),
            );
            let noted = tree.insert(candidate_key_of(c), MergeBaseEntry::Candidate(candidate));
            let gone = tree.remove(queue_key(generation(c), c));
            let state = search_state(tree, generation);
            &&& search_typed(seen, generation)
            &&& search_typed(waiting, generation)
            &&& search_typed(noted, generation)
            &&& search_typed(gone, generation)
            &&& search_state(seen, generation) == (SearchState {
                seen: state.seen.insert(c, entry.flags),
                ..state
            })
            &&& search_state(waiting, generation) == (SearchState {
                queue: state.queue.insert(c),
                ..state
            })
            &&& search_state(noted, generation) == (SearchState {
                candidates: state.candidates.insert(c, candidate.stale),
                ..state
            })
            &&& search_state(gone, generation) == (SearchState {
                queue: state.queue.remove(c),
                ..state
            })
        }),
{
    let seen = tree.insert(seen_key_of(c), MergeBaseEntry::Seen(entry));
    let waiting = tree.insert(queue_key(generation(c), c), MergeBaseEntry::Queued(queued));
    let noted = tree.insert(candidate_key_of(c), MergeBaseEntry::Candidate(candidate));
    let gone = tree.remove(queue_key(generation(c), c));
    let state = search_state(tree, generation);
    let qc = crate::bytes::be_bytes((u64::MAX - generation(c)) as nat, 8) + c@;
    assert(queue_key(generation(c), c) =~= queue_prefix() + qc);
    assert forall|x: CommitId|
        #![trigger seen_key_of(x)]
        #![trigger candidate_key_of(x)]
        #![trigger queue_key(generation(x), x)]
        {
            &&& seen_key_of(x) != queue_key(generation(c), c)
            &&& candidate_key_of(x) != queue_key(generation(c), c)
            &&& seen_key_of(x) != candidate_key_of(c)
            &&& candidate_key_of(x) != seen_key_of(c)
            &&& queue_key(generation(x), x) != seen_key_of(c)
            &&& queue_key(generation(x), x) != candidate_key_of(c)
            &&& (seen_key_of(x) == seen_key_of(c) <==> x == c)
            &&& (candidate_key_of(x) == candidate_key_of(c) <==> x == c)
            &&& (queue_key(generation(x), x) == queue_key(generation(c), c) <==> x == c)
        } by {
        let qx = crate::bytes::be_bytes((u64::MAX - generation(x)) as nat, 8) + x@;
        assert(queue_key(generation(x), x) =~= queue_prefix() + qx);
        law_namespaces_are_disjoint(qc, x@);
        law_namespaces_are_disjoint(qx, c@);
        law_namespaces_are_disjoint(x@, c@);
        law_namespaces_are_disjoint(c@, x@);
        law_commit_keys_are_distinct(seen_prefix(), x, c);
        law_commit_keys_are_distinct(base_candidate_prefix(), x, c);
        if queue_key(generation(x), x) == queue_key(generation(c), c) {
            law_queue_keys_are_distinct(generation(x), x, generation(c), c);
        }
    }
    assert(search_state(seen, generation).seen =~= state.seen.insert(c, entry.flags));
    assert(search_state(seen, generation).queue =~= state.queue);
    assert(search_state(seen, generation).candidates =~= state.candidates);
    assert(search_state(waiting, generation).seen =~= state.seen);
    assert(search_state(waiting, generation).queue =~= state.queue.insert(c));
    assert(search_state(waiting, generation).candidates =~= state.candidates);
    assert(search_state(noted, generation).seen =~= state.seen);
    assert(search_state(noted, generation).queue =~= state.queue);
    assert(search_state(noted, generation).candidates =~= state.candidates.insert(
        c,
        candidate.stale,
    ));
    assert(search_state(gone, generation).seen =~= state.seen);
    assert(search_state(gone, generation).queue =~= state.queue.remove(c));
    assert(search_state(gone, generation).candidates =~= state.candidates);
}

/// What flags that reach one parent change.
pub open spec fn parent_step(state: SearchState, flags: u8, parent: MergeParent) -> SearchState {
    if !grows(parent.previous, flags) {
        state
    } else {
        let next = joined(parent.previous, flags);
        SearchState {
            seen: state.seen.insert(parent.commit, next),
            queue: state.queue.insert(parent.commit),
            candidates: if is_stale(next) && parent.candidate is Some && !parent.candidate->0.stale {
                state.candidates.insert(parent.commit, true)
            } else {
                state.candidates
            },
        }
    }
}

/// What flags that reach the parents change, from the first parent to the last.
pub open spec fn parents_step(state: SearchState, flags: u8, parents: Seq<MergeParent>) -> SearchState
    decreases parents.len(),
{
    if parents.len() == 0 {
        state
    } else {
        parent_step(parents_step(state, flags, parents.drop_last()), flags, parents.last())
    }
}

/// What the visit of a commit changes.
pub open spec fn visit_step(
    state: SearchState,
    commit: CommitId,
    candidate: Option<MergeBaseCandidate>,
    parents: Seq<MergeParent>,
) -> SearchState {
    let flags = state.seen[commit];
    let noted = SearchState {
        queue: state.queue.remove(commit),
        candidates: if is_common(flags) && !is_stale(flags) && candidate is None {
            state.candidates.insert(commit, false)
        } else if is_stale(flags) && candidate is Some && !candidate->0.stale {
            state.candidates.insert(commit, true)
        } else {
            state.candidates
        },
        ..state
    };
    parents_step(noted, propagated(flags), parents)
}

proof fn lemma_applied_one_edit(tree: Map<Seq<u8>, MergeBaseEntry>, edit: Edit<MergeBaseEntry>)
    ensures
        applied(tree, seq![edit]) == applied_one(tree, edit),
{
    assert(seq![edit].drop_last() =~= Seq::<Edit<MergeBaseEntry>>::empty());
    reveal_with_fuel(applied, 2);
}

proof fn lemma_parent_step(
    tree: Map<Seq<u8>, MergeBaseEntry>,
    generation: spec_fn(CommitId) -> u64,
    flags: u8,
    parent: MergeParent,
)
    requires
        search_typed(tree, generation),
        parent.generation == generation(parent.commit),
    ensures
        search_typed(applied(tree, parent_edits(flags, parent)), generation),
        search_state(applied(tree, parent_edits(flags, parent)), generation) == parent_step(
            search_state(tree, generation),
            flags,
            parent,
        ),
{
    let changes = parent_edits(flags, parent);
    let c = parent.commit;
    let next = joined(parent.previous, flags);
    if grows(parent.previous, flags) {
        let entry = MergeSeenEntry { generation: parent.generation, flags: next };
        let queued = MergeQueueEntry { commit: c, generation: parent.generation };
        let generation_of_candidate = parent.candidate->0.generation;
        let stale = MergeBaseCandidate { generation: generation_of_candidate, stale: true };
        let first = Edit::Upsert { key: seen_key_of(c), val: MergeBaseEntry::Seen(entry) };
        let second = Edit::Upsert {
            key: queue_key(parent.generation, c),
            val: MergeBaseEntry::Queued(queued),
        };
        let third = Edit::Upsert {
            key: candidate_key_of(c),
            val: MergeBaseEntry::Candidate(stale),
        };
        let one = applied_one(tree, first);
        let two = applied_one(one, second);
        lemma_search_upsert(tree, generation, c, entry, queued, stale);
        lemma_search_upsert(one, generation, c, entry, queued, stale);
        lemma_search_upsert(two, generation, c, entry, queued, stale);
        lemma_applied_one_edit(tree, first);
        assert(seq![first, second] =~= seq![first].push(second));
        assert(seq![first].push(second).drop_last() =~= seq![first]);
        assert(applied(tree, seq![first, second]) == two);
        if is_stale(next) && parent.candidate is Some && !parent.candidate->0.stale {
            assert(changes =~= seq![first, second].push(third));
            assert(seq![first, second].push(third).drop_last() =~= seq![first, second]);
        }
    }
}

proof fn lemma_parents_step(
    tree: Map<Seq<u8>, MergeBaseEntry>,
    generation: spec_fn(CommitId) -> u64,
    flags: u8,
    parents: Seq<MergeParent>,
)
    requires
        search_typed(tree, generation),
        forall|i: int|
            0 <= i < parents.len() ==> (#[trigger] parents[i]).generation == generation(
                parents[i].commit,
            ),
    ensures
        search_typed(applied(tree, parents_edits(flags, parents)), generation),
        search_state(applied(tree, parents_edits(flags, parents)), generation) == parents_step(
            search_state(tree, generation),
            flags,
            parents,
        ),
    decreases parents.len(),
{
    if parents.len() > 0 {
        let fewer = parents.drop_last();
        assert forall|i: int| 0 <= i < fewer.len() implies (#[trigger] fewer[i]).generation
            == generation(fewer[i].commit) by {
            assert(fewer[i] == parents[i]);
        }
        lemma_parents_step(tree, generation, flags, fewer);
        let middle = applied(tree, parents_edits(flags, fewer));
        let last = parents[parents.len() - 1];
        lemma_parent_step(middle, generation, flags, last);
        lemma_applied_concat(tree, parents_edits(flags, fewer), parent_edits(flags, last));
    }
}

/// The changes that a visit makes to the tree are the visit that the tree stands for.
pub proof fn law_visit_edits_are_the_visit(
    tree: Map<Seq<u8>, MergeBaseEntry>,
    generation: spec_fn(CommitId) -> u64,
    commit: CommitId,
    candidate: Option<MergeBaseCandidate>,
    parents: Seq<MergeParent>,
)
    requires
        search_typed(tree, generation),
        tree.contains_key(seen_key_of(commit)),
        forall|i: int|
            0 <= i < parents.len() ==> (#[trigger] parents[i]).generation == generation(
                parents[i].commit,
            ),
    ensures
        ({
            let seen = tree[seen_key_of(commit)]->Seen_0;
            let result = applied(
                tree,
                visit_edits(
                    queue_key(generation(commit), commit),
                    commit,
                    seen,
                    candidate,
                    parents,
                ),
            );
            search_typed(result, generation) && search_state(result, generation) == visit_step(
                search_state(tree, generation),
                commit,
                candidate,
                parents,
            )
        }),
{
    let seen = tree[seen_key_of(commit)]->Seen_0;
    let at = queue_key(generation(commit), commit);
    let delete = Edit::<MergeBaseEntry>::Delete { key: at };
    let own = own_candidate_edits(commit, seen, candidate);
    let rest = parents_edits(propagated(seen.flags), parents);
    let queued = MergeQueueEntry { commit, generation: seen.generation };
    let fresh = MergeBaseCandidate { generation: seen.generation, stale: false };
    let stale = MergeBaseCandidate { generation: seen.generation, stale: true };
    let gone = tree.remove(at);
    lemma_search_upsert(tree, generation, commit, seen, queued, fresh);
    lemma_search_upsert(gone, generation, commit, seen, queued, fresh);
    lemma_search_upsert(gone, generation, commit, seen, queued, stale);
    lemma_applied_one_edit(tree, delete);
    lemma_applied_concat(tree, seq![delete], own);
    lemma_applied_concat(tree, seq![delete] + own, rest);
    let noted = applied(tree, seq![delete] + own);
    let fresh_edit = Edit::Upsert {
        key: candidate_key_of(commit),
        val: MergeBaseEntry::Candidate(fresh),
    };
    let stale_edit = Edit::Upsert {
        key: candidate_key_of(commit),
        val: MergeBaseEntry::Candidate(stale),
    };
    lemma_applied_one_edit(gone, fresh_edit);
    lemma_applied_one_edit(gone, stale_edit);
    assert(applied(gone, Seq::<Edit<MergeBaseEntry>>::empty()) == gone);
    assert(own == seq![fresh_edit] || own == seq![stale_edit] || own =~= Seq::<
        Edit<MergeBaseEntry>,
    >::empty());
    assert(search_typed(noted, generation));
    lemma_parents_step(noted, generation, propagated(seen.flags), parents);
    assert(seq![delete] + own + rest =~= visit_edits(at, commit, seen, candidate, parents));
}

/// Whether `n` steps from child to parent lead from one commit to another.
pub open spec fn reaches(
    parents: spec_fn(CommitId) -> Seq<CommitId>,
    from: CommitId,
    to: CommitId,
    n: nat,
) -> bool
    decreases n,
{
    if n == 0 {
        from == to
    } else {
        exists|i: int|
            0 <= i < parents(from).len() && reaches(
                parents,
                #[trigger] parents(from)[i],
                to,
                (n - 1) as nat,
            )
    }
}

/// Whether `c` is `head` or an ancestor of it.
pub open spec fn is_ancestor(
    parents: spec_fn(CommitId) -> Seq<CommitId>,
    head: CommitId,
    c: CommitId,
) -> bool {
    exists|n: nat| reaches(parents, head, c, n)
}

/// Whether `c` is an ancestor of both heads.
pub open spec fn is_common_ancestor(
    parents: spec_fn(CommitId) -> Seq<CommitId>,
    ours: CommitId,
    theirs: CommitId,
    c: CommitId,
) -> bool {
    is_ancestor(parents, ours, c) && is_ancestor(parents, theirs, c)
}

/// Whether a path of at least one step leads from a common ancestor to `c`.
pub open spec fn below_common(
    parents: spec_fn(CommitId) -> Seq<CommitId>,
    ours: CommitId,
    theirs: CommitId,
    c: CommitId,
) -> bool {
    exists|d: CommitId, n: nat|
        is_common_ancestor(parents, ours, theirs, d) && n >= 1 && #[trigger] reaches(
            parents,
            d,
            c,
            n,
        )
}

/// Whether `c` is a best common ancestor: a common ancestor that no other one descends to.
pub open spec fn is_best_base(
    parents: spec_fn(CommitId) -> Seq<CommitId>,
    ours: CommitId,
    theirs: CommitId,
    c: CommitId,
) -> bool {
    is_common_ancestor(parents, ours, theirs, c) && !below_common(parents, ours, theirs, c)
}

/// What holds of a search between any two visits.
pub open spec fn search_invariant(
    state: SearchState,
    ours: CommitId,
    theirs: CommitId,
    parents: spec_fn(CommitId) -> Seq<CommitId>,
) -> bool {
    &&& state.seen.contains_key(ours) && state.seen[ours] & MERGE_LEFT != 0
    &&& state.seen.contains_key(theirs) && state.seen[theirs] & MERGE_RIGHT != 0
    &&& forall|c: CommitId| #[trigger] state.queue.contains(c) ==> state.seen.contains_key(c)
    &&& forall|c: CommitId| #[trigger]
        state.seen.contains_key(c) ==> {
            &&& (state.seen[c] & MERGE_LEFT != 0 ==> is_ancestor(parents, ours, c))
            &&& (state.seen[c] & MERGE_RIGHT != 0 ==> is_ancestor(parents, theirs, c))
            &&& (state.seen[c] & MERGE_STALE != 0 ==> below_common(parents, ours, theirs, c))
        }
    &&& forall|c: CommitId, i: int|
        state.seen.contains_key(c) && !state.queue.contains(c) && 0 <= i < parents(c).len()
            ==> carries(state, #[trigger] parents(c)[i], propagated(state.seen[c]))
    &&& forall|c: CommitId| #[trigger]
        state.candidates.contains_key(c) ==> state.seen.contains_key(c) && is_common(state.seen[c])
            && state.candidates[c] == is_stale(state.seen[c])
    &&& forall|c: CommitId| #[trigger]
        state.seen.contains_key(c) && !state.queue.contains(c) && is_common(state.seen[c])
            && !is_stale(state.seen[c]) ==> state.candidates.contains_key(c)
}

/// Whether a commit was met with at least these flags.
pub open spec fn carries(state: SearchState, c: CommitId, flags: u8) -> bool {
    state.seen.contains_key(c) && state.seen[c] | flags == state.seen[c]
}

proof fn lemma_flags(a: u8, b: u8)
    ensures
        (a | b) & MERGE_LEFT != 0 <==> a & MERGE_LEFT != 0 || b & MERGE_LEFT != 0,
        (a | b) & MERGE_RIGHT != 0 <==> a & MERGE_RIGHT != 0 || b & MERGE_RIGHT != 0,
        (a | b) & MERGE_STALE != 0 <==> a & MERGE_STALE != 0 || b & MERGE_STALE != 0,
        is_common(a) <==> a & MERGE_LEFT != 0 && a & MERGE_RIGHT != 0,
        (a | b) | b == a | b,
        (a | b) | a == a | b,
        a | a == a,
{
    assert((a | b) & 1u8 != 0 <==> a & 1u8 != 0 || b & 1u8 != 0) by (bit_vector);
    assert((a | b) & 2u8 != 0 <==> a & 2u8 != 0 || b & 2u8 != 0) by (bit_vector);
    assert((a | b) & 4u8 != 0 <==> a & 4u8 != 0 || b & 4u8 != 0) by (bit_vector);
    assert(a & 3u8 == 3u8 <==> a & 1u8 != 0 && a & 2u8 != 0) by (bit_vector);
    assert((a | b) | b == a | b && (a | b) | a == a | b && a | a == a) by (bit_vector);
}

proof fn lemma_carries_more(a: u8, b: u8, c: u8)
    ensures
        a | b == a ==> (a | c) | b == a | c,
{
    assert(a | b == a ==> (a | c) | b == a | c) by (bit_vector);
}

proof fn lemma_propagated(a: u8)
    ensures
        propagated(a) & MERGE_LEFT != 0 <==> a & MERGE_LEFT != 0,
        propagated(a) & MERGE_RIGHT != 0 <==> a & MERGE_RIGHT != 0,
        propagated(a) & MERGE_STALE != 0 <==> a & MERGE_STALE != 0 || is_common(a),
{
    assert((a | 4u8) & 1u8 != 0 <==> a & 1u8 != 0) by (bit_vector);
    assert((a | 4u8) & 2u8 != 0 <==> a & 2u8 != 0) by (bit_vector);
    assert((a | 4u8) & 4u8 != 0) by (bit_vector);
}

/// One step more leads on to a parent.
pub proof fn lemma_reaches_parent(
    parents: spec_fn(CommitId) -> Seq<CommitId>,
    from: CommitId,
    to: CommitId,
    n: nat,
    i: int,
)
    requires
        reaches(parents, from, to, n),
        0 <= i < parents(to).len(),
    ensures
        reaches(parents, from, parents(to)[i], n + 1),
    decreases n,
{
    if n == 0 {
        assert(reaches(parents, parents(to)[i], parents(to)[i], 0));
        assert(reaches(parents, parents(from)[i], parents(to)[i], 0));
    } else {
        let j = choose|j: int|
            0 <= j < parents(from).len() && reaches(
                parents,
                #[trigger] parents(from)[j],
                to,
                (n - 1) as nat,
            );
        lemma_reaches_parent(parents, parents(from)[j], to, (n - 1) as nat, i);
        assert(reaches(parents, parents(from)[j], parents(to)[i], n));
    }
}

/// Whether a list of parents names a commit.
pub open spec fn names(parents: Seq<MergeParent>, c: CommitId) -> bool {
    exists|i: int| 0 <= i < parents.len() && #[trigger] parents[i].commit == c
}

/// Whether `parent` says of a parent what the state says.
pub open spec fn faithful_to(state: SearchState, parent: MergeParent) -> bool {
    &&& parent.previous is Some <==> state.seen.contains_key(parent.commit)
    &&& parent.previous is Some ==> parent.previous->0.flags == state.seen[parent.commit]
    &&& parent.candidate is Some <==> state.candidates.contains_key(parent.commit)
    &&& parent.candidate is Some ==> parent.candidate->0.stale == state.candidates[parent.commit]
}

/// The flags of a commit once `flags` have reached it.
pub open spec fn flags_after(state: SearchState, c: CommitId, flags: u8) -> u8 {
    if state.seen.contains_key(c) {
        state.seen[c] | flags
    } else {
        flags
    }
}

/// Whether the flags of a commit grow.
pub open spec fn grows_in(state: SearchState, c: CommitId, flags: u8) -> bool {
    !(state.seen.contains_key(c) && state.seen[c] == flags_after(state, c, flags))
}

/// What the parents' entries are once flags have reached them all.
proof fn lemma_parents_effect(
    start: SearchState,
    origin: SearchState,
    flags: u8,
    parents: Seq<MergeParent>,
)
    requires
        start.seen == origin.seen,
        forall|i: int|
            0 <= i < parents.len() ==> faithful_to(origin, #[trigger] parents[i])
                && start.candidates.contains_key(parents[i].commit)
                == origin.candidates.contains_key(parents[i].commit)
                && start.candidates[parents[i].commit] == origin.candidates[parents[i].commit],
    ensures
        ({
            let end = parents_step(start, flags, parents);
            &&& forall|c: CommitId| #[trigger]
                end.seen.contains_key(c) <==> start.seen.contains_key(c) || names(parents, c)
            &&& forall|c: CommitId|
                #![trigger end.seen[c]]
                end.seen.contains_key(c) ==> end.seen[c] == if names(parents, c) {
                    flags_after(origin, c, flags)
                } else {
                    start.seen[c]
                }
            &&& forall|c: CommitId| #[trigger]
                end.queue.contains(c) <==> start.queue.contains(c) || (names(parents, c)
                    && grows_in(origin, c, flags))
            &&& forall|c: CommitId| #[trigger]
                end.candidates.contains_key(c) <==> start.candidates.contains_key(c)
            &&& forall|c: CommitId|
                #![trigger end.candidates[c]]
                end.candidates.contains_key(c) ==> end.candidates[c] == (start.candidates[c] || (
                names(parents, c) && grows_in(origin, c, flags) && is_stale(
                    flags_after(origin, c, flags),
                )))
        }),
    decreases parents.len(),
{
    if parents.len() > 0 {
        let fewer = parents.drop_last();
        let last = parents.last();
        let n = parents.len() - 1;
        assert forall|i: int| 0 <= i < fewer.len() implies faithful_to(origin, #[trigger] fewer[i])
            && start.candidates.contains_key(fewer[i].commit) == origin.candidates.contains_key(
            fewer[i].commit,
        ) && start.candidates[fewer[i].commit] == origin.candidates[fewer[i].commit] by {
            assert(fewer[i] == parents[i]);
        }
        lemma_parents_effect(start, origin, flags, fewer);
        let middle = parents_step(start, flags, fewer);
        let end = parents_step(start, flags, parents);
        assert(faithful_to(origin, parents[n]));
        assert forall|c: CommitId| #[trigger] names(parents, c) <==> names(fewer, c) || last.commit
            == c by {
            if names(parents, c) {
                let i = choose|i: int| 0 <= i < parents.len() && #[trigger] parents[i].commit == c;
                if i < n {
                    assert(fewer[i].commit == c);
                }
            }
            if names(fewer, c) {
                let i = choose|i: int| 0 <= i < fewer.len() && #[trigger] fewer[i].commit == c;
                assert(parents[i].commit == c);
            }
            if last.commit == c {
                assert(parents[n].commit == c);
            }
        }
        lemma_flags(origin.seen[last.commit], flags);
        assert(joined(last.previous, flags) == flags_after(origin, last.commit, flags));
        assert(grows(last.previous, flags) == grows_in(origin, last.commit, flags));
    } else {
        assert forall|c: CommitId| !#[trigger] names(parents, c) by {}
    }
}

/// Every visit keeps what holds between visits.
pub proof fn law_search_keeps_its_invariant(
    state: SearchState,
    commit: CommitId,
    candidate: Option<MergeBaseCandidate>,
    entries: Seq<MergeParent>,
    ours: CommitId,
    theirs: CommitId,
    parents: spec_fn(CommitId) -> Seq<CommitId>,
)
    requires
        search_invariant(state, ours, theirs, parents),
        state.queue.contains(commit),
        candidate is Some <==> state.candidates.contains_key(commit),
        candidate is Some ==> candidate->0.stale == state.candidates[commit],
        entries.len() == parents(commit).len(),
        forall|i: int|
            0 <= i < entries.len() ==> (#[trigger] entries[i]).commit == parents(commit)[i]
                && faithful_to(state, entries[i]),
        !parents(commit).contains(commit),
    ensures
        search_invariant(
            visit_step(state, commit, candidate, entries),
            ours,
            theirs,
            parents,
        ),
{
    let flags = state.seen[commit];
    let f = propagated(flags);
    lemma_propagated(flags);
    let noted = SearchState {
        queue: state.queue.remove(commit),
        candidates: if is_common(flags) && !is_stale(flags) && candidate is None {
            state.candidates.insert(commit, false)
        } else if is_stale(flags) && candidate is Some && !candidate->0.stale {
            state.candidates.insert(commit, true)
        } else {
            state.candidates
        },
        ..state
    };
    assert(state.seen.contains_key(commit));
    assert(!names(entries, commit)) by {
        if names(entries, commit) {
            let i = choose|i: int| 0 <= i < entries.len() && #[trigger] entries[i].commit == commit;
            assert(parents(commit)[i] == commit);
        }
    }
    assert forall|i: int| 0 <= i < entries.len() implies faithful_to(state, #[trigger] entries[i])
        && noted.candidates.contains_key(entries[i].commit) == state.candidates.contains_key(
        entries[i].commit,
    ) && noted.candidates[entries[i].commit] == state.candidates[entries[i].commit] by {
        assert(entries[i].commit != commit) by {
            if entries[i].commit == commit {
                assert(names(entries, commit));
            }
        }
    }
    lemma_parents_effect(noted, state, f, entries);
    let end = visit_step(state, commit, candidate, entries);
    assert(end == parents_step(noted, f, entries));
    assert forall|c: CommitId| #[trigger] names(entries, c) <==> parents(commit).contains(c) by {
        if names(entries, c) {
            let i = choose|i: int| 0 <= i < entries.len() && #[trigger] entries[i].commit == c;
            assert(parents(commit)[i] == c);
        }
        if parents(commit).contains(c) {
            let i = choose|i: int| 0 <= i < parents(commit).len() && #[trigger] parents(commit)[i] == c;
            assert(entries[i].commit == c);
        }
    }
    assert forall|c: CommitId| #[trigger] end.seen.contains_key(c) implies {
        &&& (end.seen[c] & MERGE_LEFT != 0 ==> is_ancestor(parents, ours, c))
        &&& (end.seen[c] & MERGE_RIGHT != 0 ==> is_ancestor(parents, theirs, c))
        &&& (end.seen[c] & MERGE_STALE != 0 ==> below_common(parents, ours, theirs, c))
    } by {
        if names(entries, c) {
            let i = choose|i: int| 0 <= i < parents(commit).len() && #[trigger] parents(commit)[i] == c;
            lemma_flags(state.seen[c], f);
            if state.seen.contains_key(c) {
                assert(end.seen[c] == state.seen[c] | f);
            } else {
                assert(end.seen[c] == f);
            }
            if f & MERGE_LEFT != 0 {
                let n = choose|n: nat| reaches(parents, ours, commit, n);
                lemma_reaches_parent(parents, ours, commit, n, i);
            }
            if f & MERGE_RIGHT != 0 {
                let n = choose|n: nat| reaches(parents, theirs, commit, n);
                lemma_reaches_parent(parents, theirs, commit, n, i);
            }
            if f & MERGE_STALE != 0 {
                if flags & MERGE_STALE != 0 {
                    let (d, n) = choose|d: CommitId, n: nat|
                        is_common_ancestor(parents, ours, theirs, d) && n >= 1
                            && #[trigger] reaches(parents, d, commit, n);
                    lemma_reaches_parent(parents, d, commit, n, i);
                } else {
                    lemma_flags(flags, f);
                    assert(is_common_ancestor(parents, ours, theirs, commit));
                    assert(reaches(parents, commit, commit, 0));
                    lemma_reaches_parent(parents, commit, commit, 0, i);
                    assert(reaches(parents, commit, c, 1));
                }
            }
        }
    }
    lemma_flags(state.seen[ours], f);
    lemma_flags(state.seen[theirs], f);
    assert forall|c: CommitId, i: int|
        end.seen.contains_key(c) && !end.queue.contains(c) && 0 <= i < parents(c).len() implies carries(
        end,
        #[trigger] parents(c)[i],
        propagated(end.seen[c]),
    ) by {
        let p = parents(c)[i];
        lemma_flags(state.seen[p], f);
        lemma_flags(f, f);
        if c == commit {
            assert(parents(commit).contains(p));
            assert(names(entries, p));
            assert(!names(entries, commit));
            assert(end.seen[c] == flags);
            assert(end.seen[p] | f == end.seen[p]);
        } else {
            if names(entries, c) {
                assert(!grows_in(state, c, f));
                assert(end.seen[c] == state.seen[c]);
            }
            assert(state.seen.contains_key(c));
            assert(!state.queue.contains(c));
            assert(end.seen[c] == state.seen[c]);
            assert(carries(state, p, propagated(state.seen[c])));
            lemma_carries_more(state.seen[p], propagated(state.seen[c]), f);
        }
    }
    assert forall|c: CommitId| #[trigger] end.candidates.contains_key(c) implies end.seen.contains_key(
        c,
    ) && is_common(end.seen[c]) && end.candidates[c] == is_stale(end.seen[c]) by {
        lemma_flags(state.seen[c], f);
        lemma_flags(state.seen[c] | f, f);
        if c == commit {
            assert(end.seen[c] == flags);
        } else {
            assert(state.candidates.contains_key(c));
            assert(state.seen.contains_key(c));
        }
    }
    assert forall|c: CommitId| #[trigger] end.seen.contains_key(c) && !end.queue.contains(c)
        && is_common(end.seen[c]) && !is_stale(end.seen[c]) implies end.candidates.contains_key(c) by {
        if c == commit {
            assert(end.seen[c] == flags);
        } else {
            assert(state.seen.contains_key(c));
            assert(!state.queue.contains(c));
            assert(end.seen[c] == state.seen[c]);
        }
    }
}

/// The invariant holds of a search that has just begun, with two different heads noted and queued.
pub proof fn law_search_begins_with_its_invariant(
    ours: CommitId,
    theirs: CommitId,
    parents: spec_fn(CommitId) -> Seq<CommitId>,
)
    requires
        ours != theirs,
    ensures
        search_invariant(
            SearchState {
                seen: Map::<CommitId, u8>::empty().insert(ours, MERGE_LEFT).insert(
                    theirs,
                    MERGE_RIGHT,
                ),
                queue: Set::<CommitId>::empty().insert(ours).insert(theirs),
                candidates: Map::<CommitId, bool>::empty(),
            },
            ours,
            theirs,
            parents,
        ),
{
    assert(1u8 & 1u8 != 0 && 2u8 & 2u8 != 0 && 1u8 & 2u8 == 0 && 2u8 & 1u8 == 0 && 1u8 & 4u8 == 0
        && 2u8 & 4u8 == 0) by (bit_vector);
    assert(reaches(parents, ours, ours, 0));
    assert(reaches(parents, theirs, theirs, 0));
}

proof fn lemma_flag_travels(
    state: SearchState,
    ours: CommitId,
    theirs: CommitId,
    parents: spec_fn(CommitId) -> Seq<CommitId>,
    from: CommitId,
    to: CommitId,
    n: nat,
)
    requires
        search_invariant(state, ours, theirs, parents),
        state.queue == Set::<CommitId>::empty(),
        state.seen.contains_key(from),
        reaches(parents, from, to, n),
    ensures
        state.seen.contains_key(to),
        state.seen[from] & MERGE_LEFT != 0 ==> state.seen[to] & MERGE_LEFT != 0,
        state.seen[from] & MERGE_RIGHT != 0 ==> state.seen[to] & MERGE_RIGHT != 0,
        n >= 1 && is_common(state.seen[from]) ==> is_stale(state.seen[to]),
        is_stale(state.seen[from]) ==> is_stale(state.seen[to]),
    decreases n,
{
    if n > 0 {
        let i = choose|i: int|
            0 <= i < parents(from).len() && reaches(
                parents,
                #[trigger] parents(from)[i],
                to,
                (n - 1) as nat,
            );
        let p = parents(from)[i];
        assert(carries(state, p, propagated(state.seen[from])));
        lemma_flags(state.seen[p], propagated(state.seen[from]));
        lemma_propagated(state.seen[from]);
        lemma_flag_travels(state, ours, theirs, parents, p, to, (n - 1) as nat);
    }
}

/// When the queue is empty, the candidates that are not stale are exactly the best common
/// ancestors of the two heads.
pub proof fn law_search_finds_every_best_base(
    state: SearchState,
    ours: CommitId,
    theirs: CommitId,
    parents: spec_fn(CommitId) -> Seq<CommitId>,
    c: CommitId,
)
    requires
        search_invariant(state, ours, theirs, parents),
        state.queue == Set::<CommitId>::empty(),
    ensures
        state.candidates.contains_pair(c, false) <==> is_best_base(parents, ours, theirs, c),
{
    lemma_flags(state.seen[c], 0);
    if state.candidates.contains_pair(c, false) {
        assert(is_common_ancestor(parents, ours, theirs, c));
        if below_common(parents, ours, theirs, c) {
            let (d, n) = choose|d: CommitId, n: nat|
                is_common_ancestor(parents, ours, theirs, d) && n >= 1 && #[trigger] reaches(
                    parents,
                    d,
                    c,
                    n,
                );
            lemma_common_is_flagged(state, ours, theirs, parents, d);
            lemma_flag_travels(state, ours, theirs, parents, d, c, n);
        }
    }
    if is_best_base(parents, ours, theirs, c) {
        lemma_common_is_flagged(state, ours, theirs, parents, c);
        assert(!is_stale(state.seen[c]));
    }
}

proof fn lemma_common_is_flagged(
    state: SearchState,
    ours: CommitId,
    theirs: CommitId,
    parents: spec_fn(CommitId) -> Seq<CommitId>,
    c: CommitId,
)
    requires
        search_invariant(state, ours, theirs, parents),
        state.queue == Set::<CommitId>::empty(),
        is_common_ancestor(parents, ours, theirs, c),
    ensures
        state.seen.contains_key(c),
        is_common(state.seen[c]),
{
    let n = choose|n: nat| reaches(parents, ours, c, n);
    let m = choose|m: nat| reaches(parents, theirs, c, m);
    lemma_flag_travels(state, ours, theirs, parents, ours, c, n);
    lemma_flag_travels(state, ours, theirs, parents, theirs, c, m);
    lemma_flags(state.seen[c], 0);
}

/// A commit is its own ancestor, each of its parents is, and so is whatever they descend from.
pub proof fn law_ancestors_follow_every_parent(
    parents: spec_fn(CommitId) -> Seq<CommitId>,
    commit: CommitId,
    c: CommitId,
    i: int,
)
    ensures
        is_ancestor(parents, commit, commit),
        0 <= i < parents(commit).len() && is_ancestor(parents, parents(commit)[i], c) ==> is_ancestor(
            parents,
            commit,
            c,
        ),
        is_ancestor(parents, commit, c) && c != commit ==> exists|k: int|
            0 <= k < parents(commit).len() && is_ancestor(parents, #[trigger] parents(commit)[k], c),
{
    assert(reaches(parents, commit, commit, 0));
    if 0 <= i < parents(commit).len() && is_ancestor(parents, parents(commit)[i], c) {
        let parent = parents(commit)[i];
        let n = choose|n: nat| reaches(parents, parent, c, n);
        assert(reaches(parents, parents(commit)[i], c, n));
        assert(reaches(parents, commit, c, n + 1));
    }
    if is_ancestor(parents, commit, c) && c != commit {
        let n = choose|n: nat| reaches(parents, commit, c, n);
        assert(n > 0);
        let k = choose|k: int|
            0 <= k < parents(commit).len() && reaches(
                parents,
                #[trigger] parents(commit)[k],
                c,
                (n - 1) as nat,
            );
        assert(is_ancestor(parents, parents(commit)[k], c));
    }
}

/// A best base is an ancestor of both sides, and whatever has it among its parents is an ancestor of one side at
/// most.
pub proof fn law_best_base_is_common_and_nearest(
    parents: spec_fn(CommitId) -> Seq<CommitId>,
    ours: CommitId,
    theirs: CommitId,
    c: CommitId,
    child: CommitId,
    i: int,
)
    requires
        is_best_base(parents, ours, theirs, c),
    ensures
        is_ancestor(parents, ours, c),
        is_ancestor(parents, theirs, c),
        0 <= i < parents(child).len() && parents(child)[i] == c ==> !(is_ancestor(parents, ours, child)
            && is_ancestor(parents, theirs, child)),
{
    if 0 <= i < parents(child).len() && parents(child)[i] == c && is_ancestor(parents, ours, child)
        && is_ancestor(parents, theirs, child) {
        assert(is_common_ancestor(parents, ours, theirs, child));
        assert(reaches(parents, c, c, 0));
        assert(reaches(parents, child, c, 1));
        assert(below_common(parents, ours, theirs, c));
    }
}

/// Two sides of which one descends from the other have that other as their best base, if no commit descends from
/// itself.
pub proof fn law_ancestor_is_the_best_base(
    parents: spec_fn(CommitId) -> Seq<CommitId>,
    ours: CommitId,
    theirs: CommitId,
)
    requires
        is_ancestor(parents, ours, theirs),
        forall|c: CommitId, n: nat| n >= 1 ==> !#[trigger] reaches(parents, c, c, n),
    ensures
        is_common_ancestor(parents, ours, theirs, theirs),
        !exists|d: CommitId, n: nat|
            is_ancestor(parents, theirs, d) && n >= 1 && #[trigger] reaches(parents, d, theirs, n),
        is_best_base(parents, ours, theirs, theirs),
{
    assert(reaches(parents, theirs, theirs, 0));
    assert forall|d: CommitId, n: nat| is_ancestor(parents, theirs, d) && n >= 1 implies !#[trigger] reaches(
        parents,
        d,
        theirs,
        n,
    ) by {
        if reaches(parents, d, theirs, n) {
            let m = choose|m: nat| reaches(parents, theirs, d, m);
            lemma_reach_joins(parents, theirs, d, theirs, m, n);
        }
    }
    if below_common(parents, ours, theirs, theirs) {
        let (d, n) = choose|d: CommitId, n: nat|
            is_common_ancestor(parents, ours, theirs, d) && n >= 1 && #[trigger] reaches(
                parents,
                d,
                theirs,
                n,
            );
        assert(is_ancestor(parents, theirs, d));
    }
}

proof fn lemma_reach_joins(
    parents: spec_fn(CommitId) -> Seq<CommitId>,
    a: CommitId,
    b: CommitId,
    c: CommitId,
    m: nat,
    n: nat,
)
    requires
        reaches(parents, a, b, m),
        reaches(parents, b, c, n),
    ensures
        reaches(parents, a, c, m + n),
    decreases m,
{
    if m > 0 {
        let i = choose|i: int|
            0 <= i < parents(a).len() && reaches(parents, #[trigger] parents(a)[i], b, (m - 1) as nat);
        lemma_reach_joins(parents, parents(a)[i], b, c, (m - 1) as nat, n);
        assert(reaches(parents, parents(a)[i], c, (m + n - 1) as nat));
    }
}

/// A search begins with each side noted under its own flag and waiting to be visited.
pub proof fn law_side_is_noted_and_waits(
    tree: Map<Seq<u8>, MergeBaseEntry>,
    commit: CommitId,
    generation: u64,
    flags: u8,
)
    ensures
        applied(tree, seed_edits(commit, generation, flags)) == tree.insert(
            seen_key_of(commit),
            MergeBaseEntry::Seen(MergeSeenEntry { generation, flags }),
        ).insert(
            queue_key(generation, commit),
            MergeBaseEntry::Queued(MergeQueueEntry { commit, generation }),
        ),
{
    let seeds = seed_edits(commit, generation, flags);
    assert(seeds.drop_last() =~= seq![seeds[0]]);
    assert(seeds.drop_last().drop_last() =~= Seq::<Edit<MergeBaseEntry>>::empty());
    assert(applied(tree, seeds.drop_last().drop_last()) == tree);
    assert(applied(tree, seeds.drop_last()) == applied_one(tree, seeds[0]));
}

/// A commit is common where both sides have reached it, and stale where a common commit descends from it; what a common
/// commit passes on to its parents is stale, and what it passes on is otherwise what it has.
pub proof fn law_flags_say_which_sides_reached(flags: u8)
    ensures
        is_common(flags) <==> flags & 1 != 0 && flags & 2 != 0,
        is_stale(flags) <==> flags & 4 != 0,
        is_common(flags) ==> propagated(flags) & 4 != 0 && propagated(flags) & 3 == 3,
        !is_common(flags) ==> propagated(flags) == flags,
{
    assert(flags & 3 == 3 <==> flags & 1 != 0 && flags & 2 != 0) by (bit_vector);
    assert(flags & 3 == 3 ==> (flags | 4) & 4 != 0 && (flags | 4) & 3 == 3) by (bit_vector);
}

} // verus!
