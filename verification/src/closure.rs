//! The durable walk over a commit graph: parents before children, each commit once.
//!
//! The work that waits and the marks of the commits that were met live in one tree. An entry is
//! keyed by a sequence number, and the lowest number is met first. What a step pushes takes numbers
//! that count down from the middle, so the entry pushed last is met first; roots take numbers that
//! count up from there, so a root waits until everything that was begun is done. A commit is marked
//! `0` when its parents are pushed and `1` when it is emitted.
use crate::bytes::to_vec;
use crate::error::{fault, outcome, Error, ErrorCode, Fault};
use crate::ids::{nil_bytes, CommitId, OperationId, RepositoryId};
use crate::keys::{
    commit_closure_seen_key, commit_closure_stack_key, law_commit_keys_are_distinct,
    law_namespaces_are_disjoint, law_stack_keys_sort_by_sequence, seen_prefix, stack_key,
};
use crate::merge_base::{lemma_reaches_parent, reaches};
use crate::model::{BucketCommit, RootManifest};
use crate::ordered::{insert_sorted, sorted, Keyed};
use crate::repository::Repository;
use crate::tree::{applied, edits, lemma_applied_concat, lemma_edits_push, Edit, Mutation};
use vstd::prelude::*;

verus! {

/// The number of the first root of a walk: half of the numbers are for roots, half for the stack.
pub const FIRST_ROOT_SEQUENCE: u64 = 0x8000_0000_0000_0000;

/// One entry of the work stack: visit a commit, or finish it once its parents are done.
#[derive(Clone, Copy, Debug, Eq)]
pub struct CommitClosureWork {
    pub commit: CommitId,
    pub finish: bool,
}

impl PartialEq for CommitClosureWork {
    fn eq(&self, other: &Self) -> (r: bool) {
        self.commit == other.commit && self.finish == other.finish
    }
}

impl vstd::std_specs::cmp::PartialEqSpecImpl for CommitClosureWork {
    open spec fn obeys_eq_spec() -> bool {
        true
    }

    open spec fn eq_spec(&self, other: &Self) -> bool {
        *self == *other
    }
}

/// What the tree of a walk holds: stack entries, and one-byte marks of commits.
#[derive(Clone, Copy, Debug)]
pub enum ClosureEntry {
    Work(CommitClosureWork),
    Mark(u8),
}

/// What one step does with the entry at the top of the stack.
#[derive(Clone, Copy, Debug, PartialEq, Eq, Structural)]
pub enum ClosureAction {
    /// The commit was emitted before: drop the entry.
    Skip,
    /// The commit's parents are done: emit it.
    Emit,
    /// The commit is met for the first time: push it to be finished, and its parents above it.
    Expand,
}

/// What a step does, given what the entry asks for and how its commit is marked.
pub open spec fn action_for(finish: bool, mark: Option<Seq<u8>>) -> Result<ClosureAction, Fault> {
    if mark == Some(seq![1u8]) {
        Ok(ClosureAction::Skip)
    } else if finish {
        if mark == Some(seq![0u8]) {
            Ok(ClosureAction::Emit)
        } else {
            Err(fault(ErrorCode::CorruptCommit, "commit-closure finish record has invalid state"))
        }
    } else if mark == Some(seq![0u8]) {
        Err(fault(ErrorCode::CorruptCommit, "commit graph contains a cycle"))
    } else if mark is None {
        Ok(ClosureAction::Expand)
    } else {
        Err(fault(ErrorCode::CorruptCommit, "commit-closure visited state is malformed"))
    }
}

/// What is pushed for a list of entries, from the sequence number `next` down.
pub open spec fn pushed(next: u64, entries: Seq<CommitClosureWork>) -> Seq<Edit<ClosureEntry>> {
    Seq::new(
        entries.len(),
        |i: int| Edit::Upsert {
            key: stack_key((next - i) as u64),
            val: ClosureEntry::Work(entries[i]),
        },
    )
}

/// The entries that expanding a commit pushes: itself to be finished, then its parents from the
/// last to the first.
pub open spec fn expansion(commit: CommitId, parents: Seq<CommitId>) -> Seq<CommitClosureWork> {
    Seq::new(
        parents.len() + 1,
        |i: int|
            if i == 0 {
                CommitClosureWork { commit, finish: true }
            } else {
                CommitClosureWork { commit: parents[parents.len() - i], finish: false }
            },
    )
}

/// The changes that one step makes to the tree.
pub open spec fn step_edits(
    next: u64,
    top: Seq<u8>,
    work: CommitClosureWork,
    action: ClosureAction,
    parents: Seq<CommitId>,
) -> Seq<Edit<ClosureEntry>> {
    let seen = seen_prefix() + work.commit@;
    match action {
        ClosureAction::Skip => seq![Edit::Delete { key: top }],
        ClosureAction::Emit => seq![
            Edit::Delete { key: top },
            Edit::Upsert { key: seen, val: ClosureEntry::Mark(1) },
        ],
        ClosureAction::Expand => seq![
            Edit::Delete { key: top },
            Edit::Upsert { key: seen, val: ClosureEntry::Mark(0) },
        ] + pushed(next, expansion(work.commit, parents)),
    }
}

/// How many entries a step pushes.
pub open spec fn step_pushes(action: ClosureAction, parents: Seq<CommitId>) -> nat {
    if action == ClosureAction::Expand {
        parents.len() + 1
    } else {
        0
    }
}

/// Decides what one step does with the entry at the top of the stack.
pub fn commit_closure_action(work: &CommitClosureWork, mark: &Option<Vec<u8>>) -> (r: Result<
    ClosureAction,
    Error,
>)
    ensures
        outcome(r) == action_for(work.finish, mark_view(*mark)),
{
    let (done, started) = match mark {
        Some(bytes) => {
            let done = bytes.len() == 1 && bytes[0] == 1;
            let started = bytes.len() == 1 && bytes[0] == 0;
            proof {
                if done {
                    assert(bytes@ =~= seq![1u8]);
                }
                if started {
                    assert(bytes@ =~= seq![0u8]);
                }
                assert(seq![1u8][0] == 1u8 && seq![0u8][0] == 0u8);
            }
            (done, started)
        },
        None => (false, false),
    };
    if done {
        return Ok(ClosureAction::Skip);
    }
    if work.finish {
        if started {
            Ok(ClosureAction::Emit)
        } else {
            Err(
                Error::new(
                    ErrorCode::CorruptCommit,
                    "commit-closure finish record has invalid state",
                ),
            )
        }
    } else if started {
        Err(Error::new(ErrorCode::CorruptCommit, "commit graph contains a cycle"))
    } else if mark.is_none() {
        Ok(ClosureAction::Expand)
    } else {
        Err(Error::new(ErrorCode::CorruptCommit, "commit-closure visited state is malformed"))
    }
}

/// Pushes one entry onto the work stack. The numbers run out below one.
pub fn push_commit_closure_work(
    next_stack_sequence: &mut u64,
    mutations: &mut Vec<Mutation<ClosureEntry>>,
    commit: CommitId,
    finish: bool,
) -> (r: Result<(), Error>)
    ensures
        edits(final(mutations)@) == edits(old(mutations)@).push(
            Edit::Upsert {
                key: stack_key(*old(next_stack_sequence)),
                val: ClosureEntry::Work(CommitClosureWork { commit, finish }),
            },
        ),
        match r {
            Ok(_) => *old(next_stack_sequence) > 0 && *final(next_stack_sequence) == *old(
                next_stack_sequence,
            ) - 1,
            Err(error) => *old(next_stack_sequence) == 0 && *final(next_stack_sequence) == 0
                && error@ == exhausted(),
        },
{
    let ghost before = mutations@;
    let m = Mutation::Upsert {
        key: commit_closure_stack_key(*next_stack_sequence),
        val: ClosureEntry::Work(CommitClosureWork { commit, finish }),
    };
    proof {
        lemma_edits_push(before, m);
    }
    mutations.push(m);
    if *next_stack_sequence == 0 {
        return Err(
            Error::new(
                ErrorCode::HistoryLimitExceeded,
                "commit-closure stack sequence is exhausted",
            ),
        );
    }
    *next_stack_sequence = *next_stack_sequence - 1;
    Ok(())
}

/// The error of a stack whose numbers ran out.
pub open spec fn exhausted() -> Fault {
    fault(ErrorCode::HistoryLimitExceeded, "commit-closure stack sequence is exhausted")
}

/// The changes that one step makes to the tree, and the next number of the stack.
pub fn commit_closure_step(
    next_stack_sequence: u64,
    top: &[u8],
    work: &CommitClosureWork,
    action: ClosureAction,
    parents: &[CommitId],
) -> (r: Result<(Vec<Mutation<ClosureEntry>>, u64), Error>)
    ensures
        match r {
            Ok((mutations, next)) => {
                &&& step_pushes(action, parents@) <= next_stack_sequence
                &&& next == next_stack_sequence - step_pushes(action, parents@)
                &&& edits(mutations@) == step_edits(
                    next_stack_sequence,
                    top@,
                    *work,
                    action,
                    parents@,
                )
            },
            Err(error) => step_pushes(action, parents@) > next_stack_sequence && error@
                == exhausted(),
        },
{
    let mut next: u64 = next_stack_sequence;
    let mut mutations: Vec<Mutation<ClosureEntry>> = Vec::new();
    mutations.push(Mutation::Delete { key: to_vec(top) });
    match action {
        ClosureAction::Skip => {
            assert(edits(mutations@) =~= step_edits(
                next_stack_sequence,
                top@,
                *work,
                action,
                parents@,
            ));
        },
        ClosureAction::Emit => {
            mutations.push(
                Mutation::Upsert {
                    key: commit_closure_seen_key(work.commit),
                    val: ClosureEntry::Mark(1),
                },
            );
            assert(edits(mutations@) =~= step_edits(
                next_stack_sequence,
                top@,
                *work,
                action,
                parents@,
            ));
        },
        ClosureAction::Expand => {
            mutations.push(
                Mutation::Upsert {
                    key: commit_closure_seen_key(work.commit),
                    val: ClosureEntry::Mark(0),
                },
            );
            let ghost whole = step_edits(next_stack_sequence, top@, *work, action, parents@);
            assert(edits(mutations@) =~= whole.take(2));
            if let Err(error) = push_commit_closure_work(
                &mut next,
                &mut mutations,
                work.commit,
                true,
            ) {
                return Err(error);
            }
            assert(edits(mutations@) =~= whole.take(3));
            let mut i: usize = parents.len();
            while i > 0
                invariant
                    i <= parents.len(),
                    whole == step_edits(next_stack_sequence, top@, *work, action, parents@),
                    action == ClosureAction::Expand,
                    parents.len() - i + 1 <= next_stack_sequence,
                    next == next_stack_sequence - (parents.len() - i) - 1,
                    edits(mutations@) == whole.take(3 + parents.len() - i),
                decreases i,
            {
                if let Err(error) = push_commit_closure_work(
                    &mut next,
                    &mut mutations,
                    parents[i - 1],
                    false,
                ) {
                    return Err(error);
                }
                assert(edits(mutations@) =~= whole.take(3 + parents.len() - (i - 1)));
                i -= 1;
            }
            assert(whole.take(3 + parents.len() as int) =~= whole);
        },
    }
    Ok((mutations, next))
}

/// What the tree of a walk stands for: the stack by sequence number, and the marks by commit.
#[verifier::ext_equal]
pub struct ClosureState {
    pub stack: Map<u64, CommitClosureWork>,
    pub marks: Map<CommitId, u8>,
}

/// The key of a commit's mark.
pub open spec fn mark_key(commit: CommitId) -> Seq<u8> {
    seen_prefix() + commit@
}

/// What `tree` stands for.
pub open spec fn closure_state(tree: Map<Seq<u8>, ClosureEntry>) -> ClosureState {
    ClosureState {
        stack: Map::new(
            |s: u64| tree.contains_key(stack_key(s)),
            |s: u64| tree[stack_key(s)]->Work_0,
        ),
        marks: Map::new(
            |c: CommitId| tree.contains_key(mark_key(c)),
            |c: CommitId| tree[mark_key(c)]->Mark_0,
        ),
    }
}

/// Whether each namespace of `tree` holds its own sort of entry.
pub open spec fn well_typed(tree: Map<Seq<u8>, ClosureEntry>) -> bool {
    &&& forall|s: u64| #[trigger]
        tree.contains_key(stack_key(s)) ==> tree[stack_key(s)] is Work
    &&& forall|c: CommitId| #[trigger]
        tree.contains_key(mark_key(c)) ==> tree[mark_key(c)] is Mark
}

/// Whether every parent of a commit comes before it in `emitted`.
pub open spec fn parents_first(
    emitted: Seq<CommitId>,
    parents: spec_fn(CommitId) -> Seq<CommitId>,
) -> bool {
    forall|i: int, j: int|
        0 <= i < emitted.len() && 0 <= j < parents(emitted[i]).len() ==> emitted.take(i).contains(
            #[trigger] parents(emitted[i])[j],
        )
}

/// Whether `c` was emitted, or has an entry above the stack entry `s`.
pub open spec fn settled_above(state: ClosureState, s: u64, c: CommitId) -> bool {
    ||| state.marks.contains_pair(c, 1)
    ||| exists|t: u64| t < s && #[trigger] state.stack.contains_key(t) && state.stack[t].commit == c
}

/// Whether `c` was met, or has an entry on the stack.
pub open spec fn known(state: ClosureState, c: CommitId) -> bool {
    ||| state.marks.contains_key(c)
    ||| exists|t: u64| #[trigger] state.stack.contains_key(t) && state.stack[t].commit == c
}

/// Whether a path of at least one step leads from `from` to `to`.
pub open spec fn is_forebear(
    parents: spec_fn(CommitId) -> Seq<CommitId>,
    from: CommitId,
    to: CommitId,
) -> bool {
    exists|n: nat| n >= 1 && #[trigger] reaches(parents, from, to, n)
}

/// Whether no commit is its own forebear.
pub open spec fn acyclic(parents: spec_fn(CommitId) -> Seq<CommitId>) -> bool {
    forall|c: CommitId| !#[trigger] is_forebear(parents, c, c)
}

/// Whether a path leads from some root to `c`.
pub open spec fn is_reached(
    roots: Set<CommitId>,
    parents: spec_fn(CommitId) -> Seq<CommitId>,
    c: CommitId,
) -> bool {
    exists|root: CommitId, n: nat| roots.contains(root) && #[trigger] reaches(parents, root, c, n)
}

/// What holds of a walk between any two steps. The entries that wait have numbers between `next`
/// and `end`.
pub open spec fn walk_invariant(
    state: ClosureState,
    next: u64,
    end: u64,
    emitted: Seq<CommitId>,
    roots: Set<CommitId>,
    parents: spec_fn(CommitId) -> Seq<CommitId>,
) -> bool {
    &&& forall|s: u64| #[trigger] state.stack.contains_key(s) ==> next < s < end
    &&& forall|s: u64| #[trigger]
        state.stack.contains_key(s) && state.stack[s].finish ==> state.marks.contains_key(
            state.stack[s].commit,
        )
    &&& forall|s: u64, t: u64|
        #![trigger state.stack.contains_key(s), state.stack.contains_key(t)]
        state.stack.contains_key(s) && state.stack.contains_key(t) && t < s && state.stack[s].finish
            ==> is_forebear(parents, state.stack[s].commit, state.stack[t].commit)
    &&& forall|s: u64| #[trigger]
        state.stack.contains_key(s) ==> is_reached(roots, parents, state.stack[s].commit)
    &&& forall|c: CommitId| #[trigger]
        state.marks.contains_key(c) ==> is_reached(roots, parents, c)
    &&& forall|c: CommitId| #[trigger]
        state.marks.contains_key(c) ==> state.marks[c] == 0 || state.marks[c] == 1
    &&& emitted.no_duplicates()
    &&& forall|c: CommitId| #[trigger] emitted.contains(c) <==> state.marks.contains_pair(c, 1)
    &&& parents_first(emitted, parents)
    &&& forall|s: u64, c: CommitId, j: int|
        #![trigger state.stack.contains_pair(s, CommitClosureWork { commit: c, finish: true }), parents(c)[j]]
        state.stack.contains_pair(s, CommitClosureWork { commit: c, finish: true }) && 0 <= j
            < parents(c).len() ==> settled_above(state, s, parents(c)[j])
    &&& forall|c: CommitId| #[trigger]
        state.marks.contains_pair(c, 0) ==> exists|s: u64| #[trigger]
            state.stack.contains_pair(s, CommitClosureWork { commit: c, finish: true })
    &&& forall|c: CommitId| #[trigger] roots.contains(c) ==> known(state, c)
}

/// What the stack holds once `entries` are pushed from the number `next` down.
pub open spec fn stack_with(
    stack: Map<u64, CommitClosureWork>,
    next: u64,
    entries: Seq<CommitClosureWork>,
) -> Map<u64, CommitClosureWork> {
    Map::new(
        |s: u64| next - entries.len() < s <= next || stack.contains_key(s),
        |s: u64|
            if next - entries.len() < s <= next {
                entries[next - s]
            } else {
                stack[s]
            },
    )
}

/// What one step leaves.
pub open spec fn stepped(
    state: ClosureState,
    next: u64,
    top: u64,
    action: ClosureAction,
    parents: Seq<CommitId>,
) -> ClosureState {
    let c = state.stack[top].commit;
    match action {
        ClosureAction::Skip => ClosureState { stack: state.stack.remove(top), marks: state.marks },
        ClosureAction::Emit => ClosureState {
            stack: state.stack.remove(top),
            marks: state.marks.insert(c, 1),
        },
        ClosureAction::Expand => ClosureState {
            stack: stack_with(state.stack.remove(top), next, expansion(c, parents)),
            marks: state.marks.insert(c, 0),
        },
    }
}

/// What has been emitted after one step.
pub open spec fn emitted_after(emitted: Seq<CommitId>, commit: CommitId, action: ClosureAction) -> Seq<
    CommitId,
> {
    if action == ClosureAction::Emit {
        emitted.push(commit)
    } else {
        emitted
    }
}

/// Pushing entries changes the stack and nothing else.
proof fn lemma_pushed(tree: Map<Seq<u8>, ClosureEntry>, next: u64, entries: Seq<CommitClosureWork>)
    requires
        well_typed(tree),
        entries.len() <= next,
    ensures
        well_typed(applied(tree, pushed(next, entries))),
        closure_state(applied(tree, pushed(next, entries))) == (ClosureState {
            stack: stack_with(closure_state(tree).stack, next, entries),
            marks: closure_state(tree).marks,
        }),
    decreases entries.len(),
{
    let result = applied(tree, pushed(next, entries));
    if entries.len() == 0 {
        assert(pushed(next, entries) =~= Seq::<Edit<ClosureEntry>>::empty());
        assert(closure_state(result).stack =~= stack_with(closure_state(tree).stack, next, entries));
    } else {
        let fewer = entries.drop_last();
        lemma_pushed(tree, next, fewer);
        assert(pushed(next, entries).drop_last() =~= pushed(next, fewer));
        let middle = applied(tree, pushed(next, fewer));
        let at = (next - fewer.len()) as u64;
        assert(result == middle.insert(stack_key(at), ClosureEntry::Work(entries.last())));
        assert forall|s: u64|
            #![trigger stack_key(s)]
            result.contains_key(stack_key(s)) == (s == at || middle.contains_key(stack_key(s))) && (s
                != at ==> result[stack_key(s)] == middle[stack_key(s)]) by {
            law_stack_keys_sort_by_sequence(s, at);
        }
        assert forall|c: CommitId|
            #![trigger mark_key(c)]
            result.contains_key(mark_key(c)) == middle.contains_key(mark_key(c))
                && result[mark_key(c)] == middle[mark_key(c)] by {
            law_namespaces_are_disjoint(crate::bytes::be_bytes(at as nat, 8), c@);
        }
        let before = closure_state(middle).stack;
        let now = closure_state(result).stack;
        let target = stack_with(closure_state(tree).stack, next, entries);
        assert forall|s: u64|
            #![trigger now.contains_key(s)]
            #![trigger target.contains_key(s)]
            now.contains_key(s) == target.contains_key(s) && (now.contains_key(s) ==> now[s]
                == target[s]) by {
            assert(result.contains_key(stack_key(s)) == (s == at || middle.contains_key(
                stack_key(s),
            )));
            assert(before.contains_key(s) == middle.contains_key(stack_key(s)));
            assert(before == stack_with(closure_state(tree).stack, next, fewer));
            assert(now.contains_key(s) == result.contains_key(stack_key(s)));
            if s == at {
                assert(next - s == entries.len() - 1);
                assert(entries[next - s] == entries.last());
                assert(now[s] == entries.last());
                assert(target[s] == entries.last());
            } else {
                assert(target.contains_key(s) == before.contains_key(s));
                if now.contains_key(s) {
                    assert(result[stack_key(s)] == middle[stack_key(s)]);
                    assert(now[s] == before[s]);
                    if next - fewer.len() < s <= next {
                        assert(fewer[next - s] == entries[next - s]);
                    }
                    assert(target[s] == before[s]);
                }
            }
        }
        assert(now =~= target);
        assert(closure_state(result).marks =~= closure_state(middle).marks);
    }
}

/// Removing a stack entry and marking a commit change just these.
proof fn lemma_remove_and_mark(
    tree: Map<Seq<u8>, ClosureEntry>,
    top: u64,
    commit: CommitId,
    mark: Option<u8>,
)
    requires
        well_typed(tree),
    ensures
        ({
            let removed = tree.remove(stack_key(top));
            let result = match mark {
                Some(b) => removed.insert(mark_key(commit), ClosureEntry::Mark(b)),
                None => removed,
            };
            well_typed(result) && closure_state(result) == (ClosureState {
                stack: closure_state(tree).stack.remove(top),
                marks: match mark {
                    Some(b) => closure_state(tree).marks.insert(commit, b),
                    None => closure_state(tree).marks,
                },
            })
        }),
{
    let removed = tree.remove(stack_key(top));
    let result = match mark {
        Some(b) => removed.insert(mark_key(commit), ClosureEntry::Mark(b)),
        None => removed,
    };
    assert forall|s: u64|
        #![trigger stack_key(s)]
        result.contains_key(stack_key(s)) == (s != top && tree.contains_key(stack_key(s))) && (s
            != top ==> result[stack_key(s)] == tree[stack_key(s)]) by {
        law_stack_keys_sort_by_sequence(s, top);
        law_namespaces_are_disjoint(crate::bytes::be_bytes(s as nat, 8), commit@);
    }
    assert forall|c: CommitId|
        #![trigger mark_key(c)]
        result.contains_key(mark_key(c)) == ((mark is Some && c == commit) || tree.contains_key(
            mark_key(c),
        )) && (!(mark is Some && c == commit) ==> result[mark_key(c)] == tree[mark_key(c)]) by {
        law_commit_keys_are_distinct(seen_prefix(), c, commit);
        law_namespaces_are_disjoint(crate::bytes::be_bytes(top as nat, 8), c@);
    }
    assert(closure_state(result).stack =~= closure_state(tree).stack.remove(top));
    assert(closure_state(result).marks =~= match mark {
        Some(b) => closure_state(tree).marks.insert(commit, b),
        None => closure_state(tree).marks,
    });
}

/// The changes that a step makes to the tree are the step that the tree stands for.
pub proof fn law_step_edits_are_the_step(
    tree: Map<Seq<u8>, ClosureEntry>,
    next: u64,
    top: u64,
    action: ClosureAction,
    parents: Seq<CommitId>,
)
    requires
        well_typed(tree),
        closure_state(tree).stack.contains_key(top),
        step_pushes(action, parents) <= next,
    ensures
        ({
            let work = closure_state(tree).stack[top];
            let result = applied(tree, step_edits(next, stack_key(top), work, action, parents));
            well_typed(result) && closure_state(result) == stepped(
                closure_state(tree),
                next,
                top,
                action,
                parents,
            )
        }),
{
    let work = closure_state(tree).stack[top];
    let delete = Edit::<ClosureEntry>::Delete { key: stack_key(top) };
    assert(applied(tree, seq![delete]) == tree.remove(stack_key(top))) by {
        assert(seq![delete].drop_last() =~= Seq::<Edit<ClosureEntry>>::empty());
        reveal_with_fuel(applied, 2);
    }
    match action {
        ClosureAction::Skip => {
            lemma_remove_and_mark(tree, top, work.commit, None);
        },
        ClosureAction::Emit => {
            let mark = Edit::Upsert { key: mark_key(work.commit), val: ClosureEntry::Mark(1) };
            assert(seq![delete, mark] =~= seq![delete].push(mark));
            assert(seq![delete].push(mark).drop_last() =~= seq![delete]);
            lemma_remove_and_mark(tree, top, work.commit, Some(1));
        },
        ClosureAction::Expand => {
            let mark = Edit::Upsert { key: mark_key(work.commit), val: ClosureEntry::Mark(0) };
            assert(seq![delete, mark] =~= seq![delete].push(mark));
            assert(seq![delete].push(mark).drop_last() =~= seq![delete]);
            lemma_remove_and_mark(tree, top, work.commit, Some(0));
            let middle = applied(tree, seq![delete, mark]);
            let entries = expansion(work.commit, parents);
            lemma_applied_concat(tree, seq![delete, mark], pushed(next, entries));
            lemma_pushed(middle, next, entries);
        },
    }
}

/// Every step of a walk keeps what holds between steps. In particular each commit is emitted at
/// most once, and only when all its parents were emitted before it.
pub proof fn law_walk_emits_parents_first_and_once(
    state: ClosureState,
    next: u64,
    end: u64,
    top: u64,
    action: ClosureAction,
    emitted: Seq<CommitId>,
    roots: Set<CommitId>,
    parents: spec_fn(CommitId) -> Seq<CommitId>,
)
    requires
        walk_invariant(state, next, end, emitted, roots, parents),
        state.stack.contains_key(top),
        forall|s: u64| #[trigger] state.stack.contains_key(s) ==> top <= s,
        action_for(
            state.stack[top].finish,
            if state.marks.contains_key(state.stack[top].commit) {
                Some(seq![state.marks[state.stack[top].commit]])
            } else {
                None
            },
        ) == Ok::<ClosureAction, Fault>(action),
        step_pushes(action, parents(state.stack[top].commit)) <= next,
    ensures
        walk_invariant(
            stepped(state, next, top, action, parents(state.stack[top].commit)),
            (next - step_pushes(action, parents(state.stack[top].commit))) as u64,
            end,
            emitted_after(emitted, state.stack[top].commit, action),
            roots,
            parents,
        ),
        action == ClosureAction::Emit ==> !emitted.contains(state.stack[top].commit),
        action == ClosureAction::Emit ==> forall|j: int|
            0 <= j < parents(state.stack[top].commit).len() ==> emitted.contains(
                #[trigger] parents(state.stack[top].commit)[j],
            ),
{
    let work = state.stack[top];
    let c = work.commit;
    let after = stepped(state, next, top, action, parents(c));
    let more = emitted_after(emitted, c, action);
    assert(seq![0u8] != seq![1u8]) by {
        assert(seq![0u8][0] != seq![1u8][0]);
    }
    if state.marks.contains_key(c) {
        assert(seq![state.marks[c]][0] == state.marks[c]);
        assert(state.marks[c] == 0 ==> seq![state.marks[c]] =~= seq![0u8]);
        assert(state.marks[c] == 1 ==> seq![state.marks[c]] =~= seq![1u8]);
    }
    match action {
        ClosureAction::Skip => {
            assert(state.marks.contains_pair(c, 1));
            lemma_walk_skip(state, next, end, top, emitted, roots, parents);
        },
        ClosureAction::Emit => {
            assert(work.finish && state.marks[c] == 0);
            assert(state.stack.contains_pair(top, CommitClosureWork { commit: c, finish: true }));
            assert(!emitted.contains(c));
            assert forall|j: int| 0 <= j < parents(c).len() implies emitted.contains(
                #[trigger] parents(c)[j],
            ) by {
                assert(settled_above(state, top, parents(c)[j]));
            }
            lemma_walk_emit(state, next, end, top, emitted, roots, parents);
        },
        ClosureAction::Expand => {
            assert(!work.finish && !state.marks.contains_key(c));
            lemma_walk_expand(state, next, end, top, emitted, roots, parents);
        },
    }
}

proof fn lemma_walk_skip(
    state: ClosureState,
    next: u64,
    end: u64,
    top: u64,
    emitted: Seq<CommitId>,
    roots: Set<CommitId>,
    parents: spec_fn(CommitId) -> Seq<CommitId>,
)
    requires
        walk_invariant(state, next, end, emitted, roots, parents),
        state.stack.contains_key(top),
        state.marks.contains_pair(state.stack[top].commit, 1),
    ensures
        walk_invariant(
            ClosureState { stack: state.stack.remove(top), marks: state.marks },
            next,
            end,
            emitted,
            roots,
            parents,
        ),
{
    let after = ClosureState { stack: state.stack.remove(top), marks: state.marks };
    let c = state.stack[top].commit;
    assert forall|s: u64, d: CommitId, j: int|
        #![trigger after.stack.contains_pair(s, CommitClosureWork { commit: d, finish: true }), parents(d)[j]]
        after.stack.contains_pair(s, CommitClosureWork { commit: d, finish: true }) && 0 <= j
            < parents(d).len() implies settled_above(after, s, parents(d)[j]) by {
        assert(state.stack.contains_pair(s, CommitClosureWork { commit: d, finish: true }));
        assert(settled_above(state, s, parents(d)[j]));
        let p = parents(d)[j];
        if !state.marks.contains_pair(p, 1) {
            let t = choose|t: u64|
                t < s && #[trigger] state.stack.contains_key(t) && state.stack[t].commit == p;
            assert(t != top ==> after.stack.contains_key(t));
        }
    }
    assert forall|d: CommitId| #[trigger] after.marks.contains_pair(d, 0) implies exists|s: u64| #[trigger]
        after.stack.contains_pair(s, CommitClosureWork { commit: d, finish: true }) by {
        assert(state.marks.contains_pair(d, 0));
        let s = choose|s: u64| #[trigger]
            state.stack.contains_pair(s, CommitClosureWork { commit: d, finish: true });
        assert(after.stack.contains_pair(s, CommitClosureWork { commit: d, finish: true }));
    }
    assert forall|d: CommitId| #[trigger] roots.contains(d) implies known(after, d) by {
        assert(known(state, d));
        if !state.marks.contains_key(d) {
            let t = choose|t: u64| #[trigger]
                state.stack.contains_key(t) && state.stack[t].commit == d;
            assert(t != top ==> after.stack.contains_key(t));
        }
    }
}

proof fn lemma_walk_emit(
    state: ClosureState,
    next: u64,
    end: u64,
    top: u64,
    emitted: Seq<CommitId>,
    roots: Set<CommitId>,
    parents: spec_fn(CommitId) -> Seq<CommitId>,
)
    requires
        walk_invariant(state, next, end, emitted, roots, parents),
        state.stack.contains_key(top),
        state.stack[top].finish,
        state.marks.contains_pair(state.stack[top].commit, 0),
        forall|j: int|
            0 <= j < parents(state.stack[top].commit).len() ==> emitted.contains(
                #[trigger] parents(state.stack[top].commit)[j],
            ),
    ensures
        walk_invariant(
            ClosureState {
                stack: state.stack.remove(top),
                marks: state.marks.insert(state.stack[top].commit, 1),
            },
            next,
            end,
            emitted.push(state.stack[top].commit),
            roots,
            parents,
        ),
{
    let c = state.stack[top].commit;
    let more = emitted.push(c);
    let after = ClosureState {
        stack: state.stack.remove(top),
        marks: state.marks.insert(c, 1),
    };
    assert(!emitted.contains(c));
    assert(more.no_duplicates());
    assert forall|d: CommitId| #[trigger] more.contains(d) <==> after.marks.contains_pair(d, 1) by {
        if more.contains(d) {
            let i = choose|i: int| 0 <= i < more.len() && more[i] == d;
            if i < emitted.len() {
                assert(emitted[i] == d);
                assert(emitted.contains(d));
            }
        }
        if after.marks.contains_pair(d, 1) {
            if d == c {
                assert(more[emitted.len() as int] == c);
            } else {
                assert(state.marks.contains_pair(d, 1));
                assert(emitted.contains(d));
                let i = choose|i: int| 0 <= i < emitted.len() && emitted[i] == d;
                assert(more[i] == d);
            }
        }
    }
    assert forall|i: int, j: int|
        0 <= i < more.len() && 0 <= j < parents(more[i]).len() implies more.take(i).contains(
        #[trigger] parents(more[i])[j],
    ) by {
        assert(more.take(i) =~= emitted.take(i));
        if i < emitted.len() {
            assert(more[i] == emitted[i]);
            assert(emitted.take(i).contains(parents(emitted[i])[j]));
        } else {
            assert(emitted.take(i) =~= emitted);
        }
    }
    assert forall|s: u64, d: CommitId, j: int|
        #![trigger after.stack.contains_pair(s, CommitClosureWork { commit: d, finish: true }), parents(d)[j]]
        after.stack.contains_pair(s, CommitClosureWork { commit: d, finish: true }) && 0 <= j
            < parents(d).len() implies settled_above(after, s, parents(d)[j]) by {
        assert(state.stack.contains_pair(s, CommitClosureWork { commit: d, finish: true }));
        assert(settled_above(state, s, parents(d)[j]));
        let p = parents(d)[j];
        if state.marks.contains_pair(p, 1) {
            assert(after.marks.contains_pair(p, 1));
        } else {
            let t = choose|t: u64|
                t < s && #[trigger] state.stack.contains_key(t) && state.stack[t].commit == p;
            assert(t != top ==> after.stack.contains_key(t));
        }
    }
    assert forall|d: CommitId| #[trigger] after.marks.contains_pair(d, 0) implies exists|s: u64| #[trigger]
        after.stack.contains_pair(s, CommitClosureWork { commit: d, finish: true }) by {
        assert(state.marks.contains_pair(d, 0));
        let s = choose|s: u64| #[trigger]
            state.stack.contains_pair(s, CommitClosureWork { commit: d, finish: true });
        assert(after.stack.contains_pair(s, CommitClosureWork { commit: d, finish: true }));
    }
    assert forall|d: CommitId| #[trigger] roots.contains(d) implies known(after, d) by {
        assert(known(state, d));
        if !after.marks.contains_key(d) {
            let t = choose|t: u64| #[trigger]
                state.stack.contains_key(t) && state.stack[t].commit == d;
            assert(t != top ==> after.stack.contains_key(t));
        }
    }
}

proof fn lemma_walk_expand(
    state: ClosureState,
    next: u64,
    end: u64,
    top: u64,
    emitted: Seq<CommitId>,
    roots: Set<CommitId>,
    parents: spec_fn(CommitId) -> Seq<CommitId>,
)
    requires
        walk_invariant(state, next, end, emitted, roots, parents),
        state.stack.contains_key(top),
        forall|s: u64| #[trigger] state.stack.contains_key(s) ==> top <= s,
        !state.stack[top].finish,
        !state.marks.contains_key(state.stack[top].commit),
        parents(state.stack[top].commit).len() + 1 <= next,
    ensures
        walk_invariant(
            ClosureState {
                stack: stack_with(
                    state.stack.remove(top),
                    next,
                    expansion(state.stack[top].commit, parents(state.stack[top].commit)),
                ),
                marks: state.marks.insert(state.stack[top].commit, 0),
            },
            (next - parents(state.stack[top].commit).len() - 1) as u64,
            end,
            emitted,
            roots,
            parents,
        ),
{
    let c = state.stack[top].commit;
    let entries = expansion(c, parents(c));
    let n = parents(c).len();
    let low = (next - n - 1) as u64;
    let after = ClosureState {
        stack: stack_with(state.stack.remove(top), next, entries),
        marks: state.marks.insert(c, 0),
    };
    let finish = CommitClosureWork { commit: c, finish: true };
    assert(after.stack.contains_pair(next, finish));
    assert forall|s: u64, w: CommitClosureWork|
        s != top && #[trigger] state.stack.contains_pair(s, w) implies after.stack.contains_pair(
        s,
        w,
    ) by {
        assert(state.stack.contains_key(s));
        assert(s > next);
    }
    assert forall|d: CommitId| #[trigger] emitted.contains(d) <==> after.marks.contains_pair(d, 1) by {
        assert(emitted.contains(d) <==> state.marks.contains_pair(d, 1));
    }
    assert forall|s: u64, d: CommitId, j: int|
        #![trigger after.stack.contains_pair(s, CommitClosureWork { commit: d, finish: true }), parents(d)[j]]
        after.stack.contains_pair(s, CommitClosureWork { commit: d, finish: true }) && 0 <= j
            < parents(d).len() implies settled_above(after, s, parents(d)[j]) by {
        let p = parents(d)[j];
        if low < s <= next {
            let i = next - s;
            assert(entries[i].finish);
            assert(i == 0);
            assert(d == c);
            let t = (next - (n - j)) as u64;
            assert(entries[next - t].commit == p);
            assert(after.stack.contains_key(t));
        } else {
            assert(state.stack.contains_pair(s, CommitClosureWork { commit: d, finish: true }));
            assert(settled_above(state, s, p));
            if state.marks.contains_pair(p, 1) {
                assert(after.marks.contains_pair(p, 1));
            } else {
                let t = choose|t: u64|
                    t < s && #[trigger] state.stack.contains_key(t) && state.stack[t].commit == p;
                assert(t > next);
                if t == top {
                    assert(p == c && next < s);
                    assert(after.stack.contains_key(next) && after.stack[next].commit == p);
                } else {
                    assert(after.stack.contains_key(t));
                }
            }
        }
    }
    assert forall|d: CommitId| #[trigger] after.marks.contains_pair(d, 0) implies exists|s: u64| #[trigger]
        after.stack.contains_pair(s, CommitClosureWork { commit: d, finish: true }) by {
        if d == c {
            assert(after.stack.contains_pair(next, finish));
        } else {
            assert(state.marks.contains_pair(d, 0));
            let s = choose|s: u64| #[trigger]
                state.stack.contains_pair(s, CommitClosureWork { commit: d, finish: true });
            assert(after.stack.contains_pair(s, CommitClosureWork { commit: d, finish: true }));
        }
    }
    assert forall|d: CommitId| #[trigger] roots.contains(d) implies known(after, d) by {
        assert(known(state, d));
        if !after.marks.contains_key(d) {
            let t = choose|t: u64| #[trigger]
                state.stack.contains_key(t) && state.stack[t].commit == d;
            assert(t != top ==> after.stack.contains_key(t));
        }
    }
    assert(parents_first(emitted, parents));
    assert(is_reached(roots, parents, c));
    assert forall|s: u64| #[trigger] after.stack.contains_key(s) implies low < s < end
        && is_reached(roots, parents, after.stack[s].commit) && (after.stack[s].finish
        ==> after.marks.contains_key(after.stack[s].commit)) by {
        if low < s <= next {
            let i = next - s;
            assert(after.stack[s] == entries[i]);
            if i > 0 {
                let j = n - i;
                assert(entries[i].commit == parents(c)[j]);
                lemma_reached_parent(roots, parents, c, j);
            }
            assert(state.stack.contains_key(top));
        } else {
            assert(state.stack.contains_key(s) && after.stack[s] == state.stack[s]);
        }
    }
    assert forall|s: u64, t: u64|
        #![trigger after.stack.contains_key(s), after.stack.contains_key(t)]
        after.stack.contains_key(s) && after.stack.contains_key(t) && t < s && after.stack[s].finish
            implies is_forebear(parents, after.stack[s].commit, after.stack[t].commit) by {
        let d = after.stack[s].commit;
        if low < t <= next {
            let i = next - t;
            assert(after.stack[t] == entries[i]);
            if s <= next {
                assert(after.stack[s] == entries[next - s]);
                assert(s == next && d == c && i > 0);
                let j = n - i;
                assert(entries[i].commit == parents(c)[j]);
                assert(reaches(parents, c, c, 0));
                lemma_reaches_parent(parents, c, c, 0, j);
                assert(reaches(parents, c, parents(c)[j], 1));
            } else {
                assert(state.stack.contains_key(s) && s != top && top < s);
                assert(state.stack.contains_key(top));
                assert(is_forebear(parents, d, c));
                let k = choose|k: nat| k >= 1 && #[trigger] reaches(parents, d, c, k);
                if i > 0 {
                    let j = n - i;
                    assert(entries[i].commit == parents(c)[j]);
                    lemma_reaches_parent(parents, d, c, k, j);
                    assert(reaches(parents, d, parents(c)[j], k + 1));
                }
            }
        } else {
            assert(state.stack.contains_key(t) && t > next);
            assert(state.stack.contains_key(s));
        }
    }
    assert forall|d: CommitId| #[trigger] after.marks.contains_key(d) implies is_reached(
        roots,
        parents,
        d,
    ) by {
        assert(d != c ==> state.marks.contains_key(d));
    }
}

/// What a reached commit has for parents is reached.
proof fn lemma_reached_parent(
    roots: Set<CommitId>,
    parents: spec_fn(CommitId) -> Seq<CommitId>,
    c: CommitId,
    j: int,
)
    requires
        is_reached(roots, parents, c),
        0 <= j < parents(c).len(),
    ensures
        is_reached(roots, parents, parents(c)[j]),
{
    let (root, n) = choose|root: CommitId, n: nat|
        roots.contains(root) && #[trigger] reaches(parents, root, c, n);
    lemma_reaches_parent(parents, root, c, n, j);
    assert(reaches(parents, root, parents(c)[j], n + 1));
}

/// When nothing is left on the stack, every root was emitted, and with every commit that was emitted
/// its parents were.
pub proof fn law_finished_walk_is_complete(
    state: ClosureState,
    next: u64,
    end: u64,
    emitted: Seq<CommitId>,
    roots: Set<CommitId>,
    parents: spec_fn(CommitId) -> Seq<CommitId>,
)
    requires
        walk_invariant(state, next, end, emitted, roots, parents),
        state.stack == Map::<u64, CommitClosureWork>::empty(),
    ensures
        forall|c: CommitId| #[trigger] roots.contains(c) ==> emitted.contains(c),
        forall|c: CommitId, j: int|
            emitted.contains(c) && 0 <= j < parents(c).len() ==> emitted.contains(
                #[trigger] parents(c)[j],
            ),
{
    assert forall|c: CommitId| #[trigger] roots.contains(c) implies emitted.contains(c) by {
        assert(known(state, c));
        if state.marks[c] == 0 {
            assert(state.marks.contains_pair(c, 0));
            let s = choose|s: u64| #[trigger]
                state.stack.contains_pair(s, CommitClosureWork { commit: c, finish: true });
            assert(state.stack.contains_key(s));
        }
        assert(state.marks.contains_pair(c, 1));
    }
    assert forall|c: CommitId, j: int|
        emitted.contains(c) && 0 <= j < parents(c).len() implies emitted.contains(
        #[trigger] parents(c)[j],
    ) by {
        let i = choose|i: int| 0 <= i < emitted.len() && emitted[i] == c;
        let p = parents(c)[j];
        assert(emitted.take(i).contains(parents(emitted[i])[j]));
        let k = choose|k: int| 0 <= k < emitted.take(i).len() && emitted.take(i)[k] == p;
        assert(emitted[k] == p);
    }
}

/// What is queued for a list of entries, from the sequence number `end` up.
pub open spec fn queued(end: u64, entries: Seq<CommitClosureWork>) -> Seq<Edit<ClosureEntry>> {
    Seq::new(
        entries.len(),
        |i: int| Edit::Upsert {
            key: stack_key((end + i) as u64),
            val: ClosureEntry::Work(entries[i]),
        },
    )
}

/// What waits once `entries` are queued from the number `end` up.
pub open spec fn queue_with(
    stack: Map<u64, CommitClosureWork>,
    end: u64,
    entries: Seq<CommitClosureWork>,
) -> Map<u64, CommitClosureWork> {
    Map::new(
        |s: u64| end <= s < end + entries.len() || stack.contains_key(s),
        |s: u64|
            if end <= s < end + entries.len() {
                entries[s - end]
            } else {
                stack[s]
            },
    )
}

/// The changes that queue roots change what waits and nothing else.
pub proof fn law_queued_edits_are_the_roots(
    tree: Map<Seq<u8>, ClosureEntry>,
    end: u64,
    entries: Seq<CommitClosureWork>,
)
    requires
        well_typed(tree),
        end + entries.len() <= u64::MAX,
    ensures
        well_typed(applied(tree, queued(end, entries))),
        closure_state(applied(tree, queued(end, entries))) == (ClosureState {
            stack: queue_with(closure_state(tree).stack, end, entries),
            marks: closure_state(tree).marks,
        }),
    decreases entries.len(),
{
    let result = applied(tree, queued(end, entries));
    if entries.len() == 0 {
        assert(queued(end, entries) =~= Seq::<Edit<ClosureEntry>>::empty());
        assert(closure_state(result).stack =~= queue_with(closure_state(tree).stack, end, entries));
    } else {
        let fewer = entries.drop_last();
        law_queued_edits_are_the_roots(tree, end, fewer);
        assert(queued(end, entries).drop_last() =~= queued(end, fewer));
        let middle = applied(tree, queued(end, fewer));
        let at = (end + fewer.len()) as u64;
        assert(result == middle.insert(stack_key(at), ClosureEntry::Work(entries.last())));
        assert forall|s: u64|
            #![trigger stack_key(s)]
            result.contains_key(stack_key(s)) == (s == at || middle.contains_key(stack_key(s))) && (s
                != at ==> result[stack_key(s)] == middle[stack_key(s)]) by {
            law_stack_keys_sort_by_sequence(s, at);
        }
        assert forall|c: CommitId|
            #![trigger mark_key(c)]
            result.contains_key(mark_key(c)) == middle.contains_key(mark_key(c))
                && result[mark_key(c)] == middle[mark_key(c)] by {
            law_namespaces_are_disjoint(crate::bytes::be_bytes(at as nat, 8), c@);
        }
        let before = closure_state(middle).stack;
        let now = closure_state(result).stack;
        let target = queue_with(closure_state(tree).stack, end, entries);
        assert forall|s: u64|
            #![trigger now.contains_key(s)]
            #![trigger target.contains_key(s)]
            now.contains_key(s) == target.contains_key(s) && (now.contains_key(s) ==> now[s]
                == target[s]) by {
            assert(result.contains_key(stack_key(s)) == (s == at || middle.contains_key(
                stack_key(s),
            )));
            assert(before.contains_key(s) == middle.contains_key(stack_key(s)));
            assert(before == queue_with(closure_state(tree).stack, end, fewer));
            assert(now.contains_key(s) == result.contains_key(stack_key(s)));
            if s == at {
                assert(entries[s - end] == entries.last());
                assert(now[s] == entries.last());
                assert(target[s] == entries.last());
            } else {
                assert(target.contains_key(s) == before.contains_key(s));
                if now.contains_key(s) {
                    assert(result[stack_key(s)] == middle[stack_key(s)]);
                    assert(now[s] == before[s]);
                    if end <= s < end + fewer.len() {
                        assert(fewer[s - end] == entries[s - end]);
                    }
                    assert(target[s] == before[s]);
                }
            }
        }
        assert(now =~= target);
        assert(closure_state(result).marks =~= closure_state(middle).marks);
    }
}

/// Queueing commits makes roots of them, at any point of a walk: they wait below everything that was
/// begun, so what holds between steps still holds.
pub proof fn law_walk_takes_new_roots(
    state: ClosureState,
    next: u64,
    end: u64,
    emitted: Seq<CommitId>,
    roots: Set<CommitId>,
    parents: spec_fn(CommitId) -> Seq<CommitId>,
    entries: Seq<CommitClosureWork>,
)
    requires
        walk_invariant(state, next, end, emitted, roots, parents),
        next < end,
        end + entries.len() <= u64::MAX,
        forall|i: int| 0 <= i < entries.len() ==> !(#[trigger] entries[i]).finish,
    ensures
        walk_invariant(
            ClosureState { stack: queue_with(state.stack, end, entries), marks: state.marks },
            next,
            (end + entries.len()) as u64,
            emitted,
            roots.union(Set::new(|c: CommitId| visits(entries, c))),
            parents,
        ),
{
    let after = ClosureState { stack: queue_with(state.stack, end, entries), marks: state.marks };
    let high = (end + entries.len()) as u64;
    let more = roots.union(Set::new(|c: CommitId| visits(entries, c)));
    assert forall|s: u64| #[trigger] state.stack.contains_key(s) implies after.stack.contains_key(s)
        && after.stack[s] == state.stack[s] by {
        assert(s < end);
    }
    assert forall|c: CommitId| is_reached(roots, parents, c) implies #[trigger] is_reached(
        more,
        parents,
        c,
    ) by {
        let (root, n) = choose|root: CommitId, n: nat|
            roots.contains(root) && #[trigger] reaches(parents, root, c, n);
        assert(more.contains(root) && reaches(parents, root, c, n));
    }
    assert forall|s: u64| #[trigger] after.stack.contains_key(s) implies next < s < high
        && is_reached(more, parents, after.stack[s].commit) by {
        if end <= s < high {
            let e = entries[s - end];
            assert(visits(entries, e.commit));
            assert(more.contains(e.commit) && reaches(parents, e.commit, e.commit, 0));
        } else {
            assert(state.stack.contains_key(s));
            assert(is_reached(roots, parents, state.stack[s].commit));
        }
    }
    assert forall|s: u64, t: u64|
        #![trigger after.stack.contains_key(s), after.stack.contains_key(t)]
        after.stack.contains_key(s) && after.stack.contains_key(t) && t < s && after.stack[s].finish
            implies is_forebear(parents, after.stack[s].commit, after.stack[t].commit) by {
        if end <= s < high {
            assert(!entries[s - end].finish);
        }
        assert(state.stack.contains_key(s));
        assert(state.stack.contains_key(t));
    }
    assert forall|s: u64, c: CommitId, j: int|
        #![trigger after.stack.contains_pair(s, CommitClosureWork { commit: c, finish: true }), parents(c)[j]]
        after.stack.contains_pair(s, CommitClosureWork { commit: c, finish: true }) && 0 <= j
            < parents(c).len() implies settled_above(after, s, parents(c)[j]) by {
        if end <= s < high {
            assert(!entries[s - end].finish);
        }
        assert(state.stack.contains_pair(s, CommitClosureWork { commit: c, finish: true }));
        let p = parents(c)[j];
        assert(settled_above(state, s, p));
        if !state.marks.contains_pair(p, 1) {
            let t = choose|t: u64|
                t < s && #[trigger] state.stack.contains_key(t) && state.stack[t].commit == p;
            assert(after.stack.contains_key(t));
        }
    }
    assert forall|c: CommitId| #[trigger] after.marks.contains_pair(c, 0) implies exists|s: u64| #[trigger]
        after.stack.contains_pair(s, CommitClosureWork { commit: c, finish: true }) by {
        assert(state.marks.contains_pair(c, 0));
        let s = choose|s: u64| #[trigger]
            state.stack.contains_pair(s, CommitClosureWork { commit: c, finish: true });
        assert(state.stack.contains_key(s));
        assert(after.stack.contains_pair(s, CommitClosureWork { commit: c, finish: true }));
    }
    assert forall|c: CommitId| #[trigger] more.contains(c) implies known(after, c) by {
        if roots.contains(c) {
            assert(known(state, c));
            if !state.marks.contains_key(c) {
                let t = choose|t: u64| #[trigger]
                    state.stack.contains_key(t) && state.stack[t].commit == c;
                assert(after.stack.contains_key(t));
            }
        } else {
            let i = choose|i: int| 0 <= i < entries.len() && #[trigger] entries[i].commit == c;
            let t = (end + i) as u64;
            assert(after.stack.contains_key(t) && after.stack[t] == entries[t - end]);
        }
    }
}

/// Whether some entry of a list visits a commit.
pub open spec fn visits(entries: Seq<CommitClosureWork>, c: CommitId) -> bool {
    exists|i: int| 0 <= i < entries.len() && #[trigger] entries[i].commit == c
}

/// Where a walk stands. The stack and the marks live in the tree `state`.
#[derive(Clone, Copy, Debug)]
pub struct CommitClosureCursor {
    pub repository: RepositoryId,
    pub traversal: OperationId,
    pub state: RootManifest,
    pub next_stack_sequence: u64,
    pub next_root_sequence: u64,
}

/// One page of a walk.
#[derive(Debug)]
pub struct CommitClosurePage {
    pub commits: Vec<(CommitId, BucketCommit)>,
    pub cursor: CommitClosureCursor,
    pub steps: usize,
    pub complete: bool,
    pub budget_exhausted: bool,
}

/// The error of a cursor that is not this repository's.
pub open spec fn foreign_closure() -> Fault {
    fault(
        ErrorCode::InvalidContinuationToken,
        "commit-closure cursor is malformed or belongs to another repository",
    )
}

/// Whether a cursor is one of this repository.
pub open spec fn closure_cursor_sound(repository: Repository, cursor: CommitClosureCursor) -> bool {
    &&& cursor.repository == repository.format.repository_id
    &&& cursor.traversal@ != nil_bytes()
    &&& cursor.state.format_digest == repository.format.state_tree_digest
}

impl Keyed for CommitId {
    open spec fn sort_key(&self) -> Seq<u8> {
        self@
    }

    fn sort_bytes(&self) -> (r: &[u8]) {
        self.as_bytes()
    }
}

/// The commits of a list in the order of their bytes, each once.
pub fn sorted_unique(commits: &[CommitId]) -> (r: Vec<CommitId>)
    ensures
        sorted(r@),
        forall|c: CommitId| r@.contains(c) <==> commits@.contains(c),
{
    let mut out: Vec<CommitId> = Vec::new();
    let mut i: usize = 0;
    while i < commits.len()
        invariant
            i <= commits@.len(),
            sorted(out@),
            forall|c: CommitId| out@.contains(c) <==> commits@.take(i as int).contains(c),
        decreases commits.len() - i,
    {
        let ghost before = out@;
        let ghost x = commits@[i as int];
        let inserted = insert_sorted(&mut out, commits[i]);
        proof {
            let head = commits@.take(i as int);
            let more = commits@.take(i + 1);
            assert(more =~= head.push(x));
            assert forall|c: CommitId| out@.contains(c) <==> more.contains(c) by {
                vstd::seq_lib::to_multiset_contains(out@, c);
                vstd::seq_lib::to_multiset_contains(before, c);
                if more.contains(c) {
                    let k = choose|k: int| 0 <= k < more.len() && more[k] == c;
                    if k < head.len() {
                        assert(head[k] == c);
                        assert(head.contains(c));
                    }
                }
                if head.contains(c) {
                    let k = choose|k: int| 0 <= k < head.len() && head[k] == c;
                    assert(more[k] == c);
                }
                assert(more[i as int] == x);
                if !inserted && c == x {
                    let k = choose|k: int| 0 <= k < before.len() && #[trigger] before[k].sort_key()
                        == x.sort_key();
                    crate::ids::lemma_commit_id_from_bytes(before[k], x);
                    assert(before[k] == x);
                    assert(out@.contains(x));
                }
            }
        }
        i += 1;
    }
    assert(commits@.take(commits@.len() as int) =~= commits@);
    out
}

/// The entries that visit the first `n` commits of a list, those left out that were met.
pub open spec fn root_entries(commits: Seq<CommitId>, met: Seq<bool>, n: int) -> Seq<
    CommitClosureWork,
>
    decreases n,
{
    if n <= 0 {
        Seq::empty()
    } else {
        let before = root_entries(commits, met, n - 1);
        if met[n - 1] {
            before
        } else {
            before.push(CommitClosureWork { commit: commits[n - 1], finish: false })
        }
    }
}

impl Repository {
    /// Refuses a cursor that is not this repository's.
    pub fn validate_commit_closure_cursor(&self, cursor: &CommitClosureCursor) -> (r: Result<
        (),
        Error,
    >)
        ensures
            outcome(r) == if closure_cursor_sound(*self, *cursor) {
                Ok::<(), Fault>(())
            } else {
                Err(foreign_closure())
            },
    {
        if cursor.repository != self.format.repository_id || cursor.traversal.is_nil()
            || cursor.state.format_digest != self.format.state_tree_digest {
            return Err(
                Error::new(
                    ErrorCode::InvalidContinuationToken,
                    "commit-closure cursor is malformed or belongs to another repository",
                ),
            );
        }
        Ok(())
    }

    /// The cursor of a walk that begins, with nothing on its stack.
    pub fn start_commit_closure(
        &self,
        traversal: OperationId,
        empty_tree: RootManifest,
        roots: usize,
    ) -> (r: Result<CommitClosureCursor, Error>)
        ensures
            outcome(r) == if 1 <= roots <= 1_000 {
                Ok(
                    CommitClosureCursor {
                        repository: self.format.repository_id,
                        traversal,
                        state: empty_tree,
                        next_stack_sequence: (FIRST_ROOT_SEQUENCE - 1) as u64,
                        next_root_sequence: FIRST_ROOT_SEQUENCE,
                    },
                )
            } else {
                Err(
                    fault(
                        ErrorCode::InvalidLimit,
                        "commit-closure start requires between 1 and 1,000 roots",
                    ),
                )
            },
    {
        if roots == 0 || roots > 1_000 {
            return Err(
                Error::new(
                    ErrorCode::InvalidLimit,
                    "commit-closure start requires between 1 and 1,000 roots",
                ),
            );
        }
        Ok(
            CommitClosureCursor {
                repository: self.format.repository_id,
                traversal,
                state: empty_tree,
                next_stack_sequence: FIRST_ROOT_SEQUENCE - 1,
                next_root_sequence: FIRST_ROOT_SEQUENCE,
            },
        )
    }

    /// The roots to add to a walk, in the order of their bytes, each once.
    pub fn closure_roots(&self, cursor: &CommitClosureCursor, roots: &[CommitId]) -> (r: Result<
        Vec<CommitId>,
        Error,
    >)
        ensures
            match r {
                Ok(unique) => {
                    &&& closure_cursor_sound(*self, *cursor)
                    &&& 1 <= roots@.len() <= 1_000
                    &&& sorted(unique@)
                    &&& forall|c: CommitId| unique@.contains(c) <==> roots@.contains(c)
                },
                Err(error) => if !closure_cursor_sound(*self, *cursor) {
                    error@ == foreign_closure()
                } else {
                    !(1 <= roots@.len() <= 1_000) && error@ == fault(
                        ErrorCode::InvalidLimit,
                        "commit-closure extension requires between 1 and 1,000 roots",
                    )
                },
            },
    {
        if let Err(error) = self.validate_commit_closure_cursor(cursor) {
            return Err(error);
        }
        if roots.len() == 0 || roots.len() > 1_000 {
            return Err(
                Error::new(
                    ErrorCode::InvalidLimit,
                    "commit-closure extension requires between 1 and 1,000 roots",
                ),
            );
        }
        Ok(sorted_unique(roots))
    }
}

/// Queues the roots that the walk has not met, below everything that waits. `met` says of each root
/// whether it is marked. A walk whose numbers ran out stays as it is.
pub fn extend_commit_closure(
    cursor: &mut CommitClosureCursor,
    roots: &Vec<CommitId>,
    met: &Vec<bool>,
) -> (r: Result<Vec<Mutation<ClosureEntry>>, Error>)
    requires
        met@.len() == roots@.len(),
    ensures
        ({
            let entries = root_entries(roots@, met@, roots@.len() as int);
            let end = old(cursor).next_root_sequence;
            match r {
                Ok(mutations) => {
                    &&& end + entries.len() <= u64::MAX
                    &&& edits(mutations@) == queued(end, entries)
                    &&& *final(cursor) == (CommitClosureCursor {
                        next_root_sequence: (end + entries.len()) as u64,
                        ..*old(cursor)
                    })
                },
                Err(error) => end + entries.len() > u64::MAX && error@ == exhausted()
                    && *final(cursor) == *old(cursor),
            }
        }),
{
    let mut mutations: Vec<Mutation<ClosureEntry>> = Vec::new();
    let start: u64 = cursor.next_root_sequence;
    let mut end: u64 = start;
    let mut i: usize = 0;
    assert(edits(mutations@) =~= queued(start, root_entries(roots@, met@, 0)));
    while i < roots.len()
        invariant
            i <= roots@.len(),
            met@.len() == roots@.len(),
            *cursor == *old(cursor),
            start == old(cursor).next_root_sequence,
            end == start + root_entries(roots@, met@, i as int).len(),
            edits(mutations@) == queued(start, root_entries(roots@, met@, i as int)),
        decreases roots.len() - i,
    {
        let ghost entries = root_entries(roots@, met@, i as int);
        if !met[i] {
            if end == 0xffff_ffff_ffff_ffff {
                proof {
                    lemma_root_entries_grow(roots@, met@, i + 1, roots@.len() as int);
                }
                return Err(
                    Error::new(
                        ErrorCode::HistoryLimitExceeded,
                        "commit-closure stack sequence is exhausted",
                    ),
                );
            }
            let ghost before = mutations@;
            let m = Mutation::Upsert {
                key: commit_closure_stack_key(end),
                val: ClosureEntry::Work(CommitClosureWork { commit: roots[i], finish: false }),
            };
            proof {
                lemma_edits_push(before, m);
            }
            mutations.push(m);
            end = end + 1;
            assert(edits(mutations@) =~= queued(start, root_entries(roots@, met@, i + 1)));
        }
        i += 1;
    }
    cursor.next_root_sequence = end;
    Ok(mutations)
}

proof fn lemma_root_entries_grow(commits: Seq<CommitId>, met: Seq<bool>, a: int, b: int)
    requires
        0 <= a <= b <= commits.len(),
    ensures
        root_entries(commits, met, a).len() <= root_entries(commits, met, b).len(),
    decreases b - a,
{
    if a < b {
        lemma_root_entries_grow(commits, met, a, b - 1);
    }
}

/// A page of a walk in the making.
#[derive(Debug)]
pub struct CommitClosureRun {
    pub cursor: CommitClosureCursor,
    pub max_steps: usize,
    pub max_commits: usize,
    pub steps: usize,
    pub commits: Vec<(CommitId, BucketCommit)>,
}

/// A mark as it is read.
pub open spec fn mark_view(mark: Option<Vec<u8>>) -> Option<Seq<u8>> {
    match mark {
        Some(bytes) => Some(bytes@),
        None => None,
    }
}

/// The parents of a commit, where one was read.
pub open spec fn parents_of(commit: Option<BucketCommit>) -> Seq<CommitId> {
    match commit {
        Some(value) => value.parents@,
        None => Seq::empty(),
    }
}

impl Repository {
    /// Begins a page of a walk.
    pub fn commit_closure_page(
        &self,
        cursor: &CommitClosureCursor,
        max_steps: usize,
        max_commits: usize,
    ) -> (r: Result<CommitClosureRun, Error>)
        ensures
            match r {
                Ok(run) => {
                    &&& closure_cursor_sound(*self, *cursor)
                    &&& 1 <= max_steps <= 100_000
                    &&& 1 <= max_commits <= 1_000
                    &&& run.cursor == *cursor
                    &&& run.max_steps == max_steps
                    &&& run.max_commits == max_commits
                    &&& run.steps == 0
                    &&& run.commits@.len() == 0
                },
                Err(error) => if !closure_cursor_sound(*self, *cursor) {
                    error@ == foreign_closure()
                } else {
                    !(1 <= max_steps <= 100_000 && 1 <= max_commits <= 1_000) && error@ == fault(
                        ErrorCode::InvalidLimit,
                        "commit-closure page requires 1..=100,000 steps and 1..=1,000 commits",
                    )
                },
            },
    {
        if let Err(error) = self.validate_commit_closure_cursor(cursor) {
            return Err(error);
        }
        if max_steps < 1 || max_steps > 100_000 || max_commits < 1 || max_commits > 1_000 {
            return Err(
                Error::new(
                    ErrorCode::InvalidLimit,
                    "commit-closure page requires 1..=100,000 steps and 1..=1,000 commits",
                ),
            );
        }
        Ok(
            CommitClosureRun {
                cursor: *cursor,
                max_steps,
                max_commits,
                steps: 0,
                commits: Vec::new(),
            },
        )
    }
}

impl CommitClosureRun {
    /// Whether the page is within its bounds.
    pub open spec fn wf(&self) -> bool {
        self.steps <= self.max_steps && self.commits@.len() <= self.max_commits
    }

    /// Whether the page may take another entry off the stack.
    pub open spec fn has_room(&self) -> bool {
        self.steps < self.max_steps && self.commits@.len() < self.max_commits
    }

    /// Whether the page may take another entry off the stack.
    pub fn wants_entry(&self) -> (r: bool)
        ensures
            r == self.has_room(),
    {
        self.steps < self.max_steps && self.commits.len() < self.max_commits
    }

    /// Takes the entry at the top of the stack. `mark` is how its commit is marked, and `commit` is the
    /// commit itself, where the entry does not ask for one that was emitted before. A step that fails
    /// leaves the page as it is.
    pub fn accept(
        &mut self,
        top: &[u8],
        work: &CommitClosureWork,
        mark: &Option<Vec<u8>>,
        commit: Option<BucketCommit>,
    ) -> (r: Result<Vec<Mutation<ClosureEntry>>, Error>)
        requires
            old(self).wf(),
            old(self).has_room(),
            action_for(work.finish, mark_view(*mark)) matches Ok(action) ==> action
                == ClosureAction::Skip || commit is Some,
        ensures
            final(self).wf(),
            ({
                let before = *old(self);
                let after = *final(self);
                let next = before.cursor.next_stack_sequence;
                match action_for(work.finish, mark_view(*mark)) {
                    Err(error) => outcome(r) == Err::<Vec<Mutation<ClosureEntry>>, Fault>(error)
                        && after == before,
                    Ok(action) => {
                        let pushes = step_pushes(action, parents_of(commit));
                        match r {
                            Ok(mutations) => {
                                &&& pushes <= next
                                &&& edits(mutations@) == step_edits(
                                    next,
                                    top@,
                                    *work,
                                    action,
                                    parents_of(commit),
                                )
                                &&& after.cursor == (CommitClosureCursor {
                                    next_stack_sequence: (next - pushes) as u64,
                                    ..before.cursor
                                })
                                &&& after.steps == before.steps + 1
                                &&& after.max_steps == before.max_steps
                                &&& after.max_commits == before.max_commits
                                &&& after.commits@ == if action == ClosureAction::Emit {
                                    before.commits@.push((work.commit, commit->0))
                                } else {
                                    before.commits@
                                }
                            },
                            Err(error) => pushes > next && error@ == exhausted() && after == before,
                        }
                    },
                }
            }),
    {
        let action = match commit_closure_action(work, mark) {
            Err(error) => {
                return Err(error);
            },
            Ok(action) => action,
        };
        let next: u64 = self.cursor.next_stack_sequence;
        let none: [CommitId; 0] = [];
        let stepped = match &commit {
            None => {
                assert(none@ =~= Seq::<CommitId>::empty());
                commit_closure_step(next, top, work, action, &none)
            },
            Some(value) => commit_closure_step(next, top, work, action, &value.parents),
        };
        match stepped {
            Err(error) => Err(error),
            Ok((mutations, lower)) => {
                self.cursor.next_stack_sequence = lower;
                self.steps = self.steps + 1;
                if let ClosureAction::Emit = action {
                    if let Some(value) = commit {
                        self.commits.push((work.commit, value));
                    }
                }
                Ok(mutations)
            },
        }
    }

    /// Ends the page: the tree as the steps left it, and whether anything is left on the stack.
    pub fn finish(self, state: RootManifest, stack_is_empty: bool) -> (r: CommitClosurePage)
        requires
            self.wf(),
        ensures
            r.steps <= self.max_steps,
            r.commits@.len() <= self.max_commits,
            r.commits == self.commits,
            r.cursor == (CommitClosureCursor { state, ..self.cursor }),
            r.steps == self.steps,
            r.complete == stack_is_empty,
            r.budget_exhausted == (!stack_is_empty && self.steps == self.max_steps),
    {
        CommitClosurePage {
            commits: self.commits,
            cursor: CommitClosureCursor {
                repository: self.cursor.repository,
                traversal: self.cursor.traversal,
                state,
                next_stack_sequence: self.cursor.next_stack_sequence,
                next_root_sequence: self.cursor.next_root_sequence,
            },
            steps: self.steps,
            complete: stack_is_empty,
            budget_exhausted: !stack_is_empty && self.steps == self.max_steps,
        }
    }
}

/// What a walk does with a commit is told by how often it was met: never, it is expanded; while it is being expanded, it
/// is emitted when its turn comes back, and a second visit is a cycle; once emitted it is passed over.
pub proof fn law_commit_is_expanded_once_and_emitted_once(finish: bool, mark: Option<Seq<u8>>)
    ensures
        action_for(finish, mark) == Ok::<ClosureAction, Fault>(ClosureAction::Skip) <==> mark == Some(
            seq![1u8],
        ),
        action_for(finish, mark) == Ok::<ClosureAction, Fault>(ClosureAction::Emit) <==> finish && mark
            == Some(seq![0u8]),
        action_for(finish, mark) == Ok::<ClosureAction, Fault>(ClosureAction::Expand) <==> !finish
            && mark is None,
{
    assert(seq![0u8][0] != seq![1u8][0]);
}

/// Expanding a commit puts all of its parents before the commit itself: its own return lies below them, and the first
/// parent on top.
pub proof fn law_parents_are_walked_before_their_child(commit: CommitId, parents: Seq<CommitId>, i: int)
    requires
        0 <= i < parents.len(),
    ensures
        expansion(commit, parents).len() == parents.len() + 1,
        expansion(commit, parents)[0].commit == commit,
        expansion(commit, parents)[0].finish,
        expansion(commit, parents)[parents.len() - i].commit == parents[i],
        !expansion(commit, parents)[parents.len() - i].finish,
{
}

/// A walk goes on with a cursor exactly where it is of this repository and its tree format, and is named.
pub proof fn law_closure_goes_on_with_its_own_cursor(repository: Repository, cursor: CommitClosureCursor)
    ensures
        closure_cursor_sound(repository, cursor) <==> cursor.repository
            == repository.format.repository_id && cursor.traversal@ != nil_bytes()
            && cursor.state.format_digest == repository.format.state_tree_digest,
{
}

/// A walk takes another entry exactly where neither the steps nor the commits of its page are used up.
pub proof fn law_page_takes_entries_within_its_bounds(run: CommitClosureRun)
    ensures
        run.has_room() <==> run.steps < run.max_steps && run.commits@.len() < run.max_commits,
{
}

} // verus!
