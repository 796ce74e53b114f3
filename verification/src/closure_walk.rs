//! A commit walk as a whole: what it emits, however it is cut into pages.
use crate::closure::{
    acyclic, action_for, closure_state, emitted_after, exhausted, is_forebear, is_reached, known,
    law_finished_walk_is_complete, law_queued_edits_are_the_roots, law_step_edits_are_the_step,
    law_walk_emits_parents_first_and_once, law_walk_takes_new_roots, parents_first, queue_with,
    queued, root_entries, step_edits, step_pushes, stepped, visits, walk_invariant, well_typed,
    ClosureAction, ClosureEntry, ClosureState, CommitClosureWork, FIRST_ROOT_SEQUENCE,
};
use crate::error::Fault;
use crate::ids::CommitId;
use crate::keys::stack_key;
use crate::merge_base::reaches;
use crate::tree::applied;
use vstd::prelude::*;

verus! {

/// A walk between two steps: what its tree stands for, the next numbers of its stack and of its
/// roots, and what it has emitted.
pub struct Walk {
    pub state: ClosureState,
    pub next: u64,
    pub end: u64,
    pub emitted: Seq<CommitId>,
}

/// How a commit is marked, as it is read.
pub open spec fn mark_of(state: ClosureState, c: CommitId) -> Option<Seq<u8>> {
    if state.marks.contains_key(c) {
        Some(seq![state.marks[c]])
    } else {
        None
    }
}

/// Whether `s` is the lowest number that waits.
pub open spec fn is_top(stack: Map<u64, CommitClosureWork>, s: u64) -> bool {
    stack.contains_key(s) && forall|t: u64| #[trigger] stack.contains_key(t) ==> s <= t
}

/// The entry that a step takes: the one with the lowest number.
pub open spec fn top_of(stack: Map<u64, CommitClosureWork>) -> u64 {
    choose|s: u64| is_top(stack, s)
}

/// One step of a walk.
pub open spec fn walk_step(walk: Walk, parents: spec_fn(CommitId) -> Seq<CommitId>) -> Result<
    Walk,
    Fault,
> {
    let top = top_of(walk.state.stack);
    let work = walk.state.stack[top];
    match action_for(work.finish, mark_of(walk.state, work.commit)) {
        Err(error) => Err(error),
        Ok(action) => if step_pushes(action, parents(work.commit)) > walk.next {
            Err(exhausted())
        } else {
            Ok(
                Walk {
                    state: stepped(walk.state, walk.next, top, action, parents(work.commit)),
                    next: (walk.next - step_pushes(action, parents(work.commit))) as u64,
                    end: walk.end,
                    emitted: emitted_after(walk.emitted, work.commit, action),
                },
            )
        },
    }
}

/// Whether nothing waits.
pub open spec fn is_over(walk: Walk) -> bool {
    walk.state.stack == Map::<u64, CommitClosureWork>::empty()
}

/// At most `n` steps of a walk. A walk that is over takes none.
pub open spec fn walk_steps(
    walk: Walk,
    parents: spec_fn(CommitId) -> Seq<CommitId>,
    n: nat,
) -> Result<Walk, Fault>
    decreases n,
{
    if n == 0 || is_over(walk) {
        Ok(walk)
    } else {
        match walk_step(walk, parents) {
            Err(error) => Err(error),
            Ok(after) => walk_steps(after, parents, (n - 1) as nat),
        }
    }
}

/// The entries that visit a list of commits.
pub open spec fn visit_all(roots: Seq<CommitId>) -> Seq<CommitClosureWork> {
    roots.map_values(|c: CommitId| CommitClosureWork { commit: c, finish: false })
}

/// A walk that begins: its roots wait, and nothing was met.
pub open spec fn begun(roots: Seq<CommitId>) -> Walk {
    Walk {
        state: ClosureState {
            stack: queue_with(
                Map::<u64, CommitClosureWork>::empty(),
                FIRST_ROOT_SEQUENCE,
                visit_all(roots),
            ),
            marks: Map::empty(),
        },
        next: (FIRST_ROOT_SEQUENCE - 1) as u64,
        end: (FIRST_ROOT_SEQUENCE + roots.len()) as u64,
        emitted: Seq::empty(),
    }
}

/// A walk to which roots are attached.
pub open spec fn attached(walk: Walk, roots: Seq<CommitId>) -> Walk {
    Walk {
        state: ClosureState {
            stack: queue_with(walk.state.stack, walk.end, visit_all(roots)),
            marks: walk.state.marks,
        },
        end: (walk.end + roots.len()) as u64,
        ..walk
    }
}

/// Whether a walk from these roots can stand where this one does.
pub open spec fn walk_holds(
    walk: Walk,
    roots: Set<CommitId>,
    parents: spec_fn(CommitId) -> Seq<CommitId>,
) -> bool {
    &&& walk_invariant(walk.state, walk.next, walk.end, walk.emitted, roots, parents)
    &&& walk.next < walk.end
}

/// In a history without cycles no step of a walk is refused: the entry at the top is always one that
/// can be taken.
pub proof fn law_no_entry_is_refused(
    state: ClosureState,
    next: u64,
    end: u64,
    top: u64,
    emitted: Seq<CommitId>,
    roots: Set<CommitId>,
    parents: spec_fn(CommitId) -> Seq<CommitId>,
)
    requires
        acyclic(parents),
        walk_invariant(state, next, end, emitted, roots, parents),
        is_top(state.stack, top),
    ensures
        action_for(state.stack[top].finish, mark_of(state, state.stack[top].commit)) is Ok,
{
    let work = state.stack[top];
    let c = work.commit;
    if state.marks.contains_key(c) {
        assert(state.marks[c] == 0 ==> seq![state.marks[c]] =~= seq![0u8]);
        assert(state.marks[c] == 1 ==> seq![state.marks[c]] =~= seq![1u8]);
        if state.marks[c] == 0 && !work.finish {
            assert(state.marks.contains_pair(c, 0));
            let s = choose|s: u64| #[trigger]
                state.stack.contains_pair(s, CommitClosureWork { commit: c, finish: true });
            assert(state.stack.contains_key(s) && state.stack.contains_key(top));
            assert(top < s);
            assert(is_forebear(parents, c, c));
        }
    }
}

/// Something that waits has a lowest number.
proof fn lemma_has_top(stack: Map<u64, CommitClosureWork>, s: u64)
    requires
        stack.contains_key(s),
    ensures
        is_top(stack, top_of(stack)),
    decreases s,
{
    if !is_top(stack, s) {
        let t = choose|t: u64| #[trigger] stack.contains_key(t) && t < s;
        lemma_has_top(stack, t);
    }
}

/// One step keeps what holds of a walk.
proof fn lemma_step_holds(
    walk: Walk,
    roots: Set<CommitId>,
    parents: spec_fn(CommitId) -> Seq<CommitId>,
)
    requires
        acyclic(parents),
        walk_holds(walk, roots, parents),
        !is_over(walk),
    ensures
        match walk_step(walk, parents) {
            Ok(after) => walk_holds(after, roots, parents) && walk.next - after.next <= parents(
                walk.state.stack[top_of(walk.state.stack)].commit,
            ).len() + 1,
            Err(error) => error == exhausted() && walk.next < parents(
                walk.state.stack[top_of(walk.state.stack)].commit,
            ).len() + 1,
        },
{
    let stack = walk.state.stack;
    if forall|s: u64| !stack.contains_key(s) {
        assert(stack =~= Map::<u64, CommitClosureWork>::empty());
    }
    let s = choose|s: u64| stack.contains_key(s);
    lemma_has_top(stack, s);
    let top = top_of(stack);
    law_no_entry_is_refused(
        walk.state,
        walk.next,
        walk.end,
        top,
        walk.emitted,
        roots,
        parents,
    );
    let work = stack[top];
    let action = action_for(work.finish, mark_of(walk.state, work.commit))->Ok_0;
    if step_pushes(action, parents(work.commit)) <= walk.next {
        law_walk_emits_parents_first_and_once(
            walk.state,
            walk.next,
            walk.end,
            top,
            action,
            walk.emitted,
            roots,
            parents,
        );
    }
}

/// Every number of steps keeps what holds of a walk.
proof fn lemma_steps_hold(
    walk: Walk,
    roots: Set<CommitId>,
    parents: spec_fn(CommitId) -> Seq<CommitId>,
    n: nat,
)
    requires
        acyclic(parents),
        walk_holds(walk, roots, parents),
    ensures
        match walk_steps(walk, parents, n) {
            Ok(after) => walk_holds(after, roots, parents),
            Err(error) => error == exhausted(),
        },
    decreases n,
{
    if n > 0 && !is_over(walk) {
        lemma_step_holds(walk, roots, parents);
        if let Ok(after) = walk_step(walk, parents) {
            lemma_steps_hold(after, roots, parents, (n - 1) as nat);
        }
    }
}

/// However a walk is cut into pages, it comes to the same: `a` steps and then `b` steps are `a + b`
/// steps.
pub proof fn law_walk_pages_join(
    walk: Walk,
    parents: spec_fn(CommitId) -> Seq<CommitId>,
    a: nat,
    b: nat,
)
    ensures
        walk_steps(walk, parents, a + b) == match walk_steps(walk, parents, a) {
            Ok(middle) => walk_steps(middle, parents, b),
            Err(error) => Err(error),
        },
    decreases a,
{
    if a > 0 && !is_over(walk) {
        if let Ok(after) = walk_step(walk, parents) {
            law_walk_pages_join(after, parents, (a - 1) as nat, b);
        }
    }
}

/// What is reached from a commit that was emitted was emitted, once a walk is over.
proof fn lemma_reached_was_emitted(
    emitted: Seq<CommitId>,
    parents: spec_fn(CommitId) -> Seq<CommitId>,
    from: CommitId,
    to: CommitId,
    n: nat,
)
    requires
        forall|c: CommitId, j: int|
            emitted.contains(c) && 0 <= j < parents(c).len() ==> emitted.contains(
                #[trigger] parents(c)[j],
            ),
        emitted.contains(from),
        reaches(parents, from, to, n),
    ensures
        emitted.contains(to),
    decreases n,
{
    if n > 0 {
        let i = choose|i: int|
            0 <= i < parents(from).len() && reaches(
                parents,
                #[trigger] parents(from)[i],
                to,
                (n - 1) as nat,
            );
        lemma_reached_was_emitted(emitted, parents, parents(from)[i], to, (n - 1) as nat);
    }
}

/// In a history without cycles, a walk fails only when its numbers run out. What it emits is reached
/// from its roots, each commit once and after all its parents; and when it is over, it has emitted
/// everything that its roots reach.
pub proof fn law_walk_emits_exactly_what_its_roots_reach(
    walk: Walk,
    roots: Set<CommitId>,
    parents: spec_fn(CommitId) -> Seq<CommitId>,
    n: nat,
)
    requires
        acyclic(parents),
        walk_holds(walk, roots, parents),
    ensures
        match walk_steps(walk, parents, n) {
            Ok(after) => {
                &&& walk_holds(after, roots, parents)
                &&& after.emitted.no_duplicates()
                &&& parents_first(after.emitted, parents)
                &&& forall|c: CommitId| #[trigger]
                    after.emitted.contains(c) ==> is_reached(roots, parents, c)
                &&& is_over(after) ==> forall|c: CommitId| #[trigger]
                    is_reached(roots, parents, c) ==> after.emitted.contains(c)
            },
            Err(error) => error == exhausted(),
        },
{
    lemma_steps_hold(walk, roots, parents, n);
    if let Ok(after) = walk_steps(walk, parents, n) {
        assert forall|c: CommitId| #[trigger] after.emitted.contains(c) implies is_reached(
            roots,
            parents,
            c,
        ) by {
            assert(after.state.marks.contains_pair(c, 1));
            assert(after.state.marks.contains_key(c));
        }
        if is_over(after) {
            law_finished_walk_is_complete(
                after.state,
                after.next,
                after.end,
                after.emitted,
                roots,
                parents,
            );
            assert forall|c: CommitId| #[trigger] is_reached(roots, parents, c) implies
                after.emitted.contains(c) by {
                let (root, k) = choose|root: CommitId, k: nat|
                    roots.contains(root) && #[trigger] reaches(parents, root, c, k);
                assert(after.emitted.contains(root));
                lemma_reached_was_emitted(after.emitted, parents, root, c, k);
            }
        }
    }
}

/// Taking the entry at the top of the stack makes the step that the walk makes: the changes to the tree turn
/// what it stands for into what it stands for after the step.
pub proof fn law_accepted_entry_is_a_step(
    tree: Map<Seq<u8>, ClosureEntry>,
    next: u64,
    end: u64,
    emitted: Seq<CommitId>,
    parents: spec_fn(CommitId) -> Seq<CommitId>,
    top: u64,
    action: ClosureAction,
)
    requires
        well_typed(tree),
        is_top(closure_state(tree).stack, top),
        action_for(
            closure_state(tree).stack[top].finish,
            mark_of(closure_state(tree), closure_state(tree).stack[top].commit),
        ) == Ok::<ClosureAction, Fault>(action),
        step_pushes(action, parents(closure_state(tree).stack[top].commit)) <= next,
    ensures
        ({
            let work = closure_state(tree).stack[top];
            let changed = applied(
                tree,
                step_edits(next, stack_key(top), work, action, parents(work.commit)),
            );
            &&& well_typed(changed)
            &&& walk_step(Walk { state: closure_state(tree), next, end, emitted }, parents) == Ok::<
                Walk,
                Fault,
            >(
                Walk {
                    state: closure_state(changed),
                    next: (next - step_pushes(action, parents(work.commit))) as u64,
                    end,
                    emitted: emitted_after(emitted, work.commit, action),
                },
            )
        }),
{
    let stack = closure_state(tree).stack;
    lemma_has_top(stack, top);
    assert(top_of(stack) == top);
    law_step_edits_are_the_step(tree, next, top, action, parents(stack[top].commit));
}

/// Commits that the walk has met may be called roots as well.
proof fn lemma_met_roots(
    walk: Walk,
    roots: Set<CommitId>,
    met: Set<CommitId>,
    parents: spec_fn(CommitId) -> Seq<CommitId>,
)
    requires
        walk_holds(walk, roots, parents),
        forall|c: CommitId| #[trigger] met.contains(c) ==> walk.state.marks.contains_key(c),
    ensures
        walk_holds(walk, roots.union(met), parents),
{
    let more = roots.union(met);
    assert forall|c: CommitId| is_reached(roots, parents, c) implies #[trigger] is_reached(
        more,
        parents,
        c,
    ) by {
        let (root, n) = choose|root: CommitId, n: nat|
            roots.contains(root) && #[trigger] reaches(parents, root, c, n);
        assert(more.contains(root) && reaches(parents, root, c, n));
    }
    assert forall|s: u64| #[trigger] walk.state.stack.contains_key(s) implies is_reached(
        more,
        parents,
        walk.state.stack[s].commit,
    ) by {
        assert(is_reached(roots, parents, walk.state.stack[s].commit));
    }
    assert forall|c: CommitId| #[trigger] walk.state.marks.contains_key(c) implies is_reached(
        more,
        parents,
        c,
    ) by {
        assert(is_reached(roots, parents, c));
    }
    assert forall|c: CommitId| #[trigger] more.contains(c) implies known(walk.state, c) by {
        if roots.contains(c) {
            assert(known(walk.state, c));
        }
    }
}

/// The first `n` commits of a list, those left out that were met.
pub open spec fn unmet(commits: Seq<CommitId>, met: Seq<bool>, n: int) -> Seq<CommitId>
    decreases n,
{
    if n <= 0 {
        Seq::empty()
    } else if met[n - 1] {
        unmet(commits, met, n - 1)
    } else {
        unmet(commits, met, n - 1).push(commits[n - 1])
    }
}

proof fn lemma_unmet(commits: Seq<CommitId>, met: Seq<bool>, n: int)
    requires
        0 <= n <= commits.len(),
        met.len() == commits.len(),
    ensures
        root_entries(commits, met, n) == visit_all(unmet(commits, met, n)),
        unmet(commits, met, n).len() <= n,
        forall|i: int|
            0 <= i < n && !met[i] ==> unmet(commits, met, n).contains(#[trigger] commits[i]),
        forall|c: CommitId| #[trigger]
            unmet(commits, met, n).contains(c) ==> commits.contains(c),
    decreases n,
{
    if n > 0 {
        lemma_unmet(commits, met, n - 1);
        let before = unmet(commits, met, n - 1);
        let after = unmet(commits, met, n);
        assert(root_entries(commits, met, n) =~= visit_all(after));
        assert forall|i: int| 0 <= i < n && !met[i] implies after.contains(#[trigger] commits[i]) by {
            if i == n - 1 {
                assert(after[before.len() as int] == commits[i]);
            } else {
                assert(before.contains(commits[i]));
                let k = choose|k: int| 0 <= k < before.len() && before[k] == commits[i];
                assert(after[k] == commits[i]);
            }
        }
        assert forall|c: CommitId| #[trigger] after.contains(c) implies commits.contains(c) by {
            let k = choose|k: int| 0 <= k < after.len() && after[k] == c;
            if k < before.len() {
                assert(before[k] == c);
                assert(before.contains(c));
            } else {
                assert(commits[n - 1] == c);
            }
        }
    } else {
        assert(root_entries(commits, met, n) =~= visit_all(unmet(commits, met, n)));
    }
}

/// Attaching roots, of which some were met, makes roots of all of them: the changes to the tree queue those
/// that were not met, and the walk then holds what is asked of a walk from all the roots together.
pub proof fn law_extending_a_walk_takes_every_root(
    tree: Map<Seq<u8>, ClosureEntry>,
    next: u64,
    end: u64,
    emitted: Seq<CommitId>,
    roots: Set<CommitId>,
    parents: spec_fn(CommitId) -> Seq<CommitId>,
    commits: Seq<CommitId>,
    met: Seq<bool>,
)
    requires
        well_typed(tree),
        walk_holds(Walk { state: closure_state(tree), next, end, emitted }, roots, parents),
        met.len() == commits.len(),
        end + commits.len() <= u64::MAX,
        forall|i: int|
            0 <= i < commits.len() ==> met[i] == closure_state(tree).marks.contains_key(
                #[trigger] commits[i],
            ),
    ensures
        ({
            let entries = root_entries(commits, met, commits.len() as int);
            let extended = applied(tree, queued(end, entries));
            &&& well_typed(extended)
            &&& walk_holds(
                Walk {
                    state: closure_state(extended),
                    next,
                    end: (end + entries.len()) as u64,
                    emitted,
                },
                roots.union(commits.to_set()),
                parents,
            )
        }),
{
    let n = commits.len() as int;
    let more = unmet(commits, met, n);
    let walk = Walk { state: closure_state(tree), next, end, emitted };
    lemma_unmet(commits, met, n);
    law_queued_edits_are_the_roots(tree, end, visit_all(more));
    law_attached_roots_are_walked(walk, roots, parents, more);
    let known_ones = commits.to_set().filter(|c: CommitId| walk.state.marks.contains_key(c));
    let after = attached(walk, more);
    lemma_met_roots(after, roots.union(more.to_set()), known_ones, parents);
    assert forall|c: CommitId| roots.union(more.to_set()).union(known_ones).contains(c)
        == roots.union(commits.to_set()).contains(c) by {
        if commits.contains(c) {
            let i = choose|i: int| 0 <= i < commits.len() && commits[i] == c;
            if !met[i] {
                assert(more.contains(commits[i]));
            } else {
                assert(known_ones.contains(c));
            }
        }
        if more.contains(c) {
            assert(commits.contains(c));
        }
    }
    assert(roots.union(more.to_set()).union(known_ones) =~= roots.union(commits.to_set()));
}

/// A walk that begins holds what is asked of a walk from its roots.
pub proof fn law_walk_begins(roots: Seq<CommitId>, parents: spec_fn(CommitId) -> Seq<CommitId>)
    requires
        roots.len() <= 1_000,
    ensures
        walk_holds(begun(roots), roots.to_set(), parents),
{
    let nothing = Walk {
        state: ClosureState { stack: Map::empty(), marks: Map::empty() },
        next: (FIRST_ROOT_SEQUENCE - 1) as u64,
        end: FIRST_ROOT_SEQUENCE,
        emitted: Seq::empty(),
    };
    assert(walk_holds(nothing, Set::empty(), parents));
    law_attached_roots_are_walked(nothing, Set::empty(), parents, roots);
    assert(attached(nothing, roots) == begun(roots));
    assert(Set::<CommitId>::empty().union(roots.to_set()) =~= roots.to_set());
}

/// Roots may be attached at any point of a walk, also of one that is over: the walk then holds what is
/// asked of a walk from all the roots together.
pub proof fn law_attached_roots_are_walked(
    walk: Walk,
    roots: Set<CommitId>,
    parents: spec_fn(CommitId) -> Seq<CommitId>,
    more: Seq<CommitId>,
)
    requires
        walk_holds(walk, roots, parents),
        walk.end + more.len() <= u64::MAX,
    ensures
        walk_holds(attached(walk, more), roots.union(more.to_set()), parents),
{
    let entries = visit_all(more);
    law_walk_takes_new_roots(
        walk.state,
        walk.next,
        walk.end,
        walk.emitted,
        roots,
        parents,
        entries,
    );
    let visited = Set::new(|c: CommitId| visits(entries, c));
    assert forall|c: CommitId| visited.contains(c) == more.to_set().contains(c) by {
        if visits(entries, c) {
            let i = choose|i: int| 0 <= i < entries.len() && #[trigger] entries[i].commit == c;
            assert(more[i] == c);
        }
        if more.contains(c) {
            let i = choose|i: int| 0 <= i < more.len() && more[i] == c;
            assert(entries[i].commit == c);
        }
    }
    assert(visited =~= more.to_set());
}

/// The numbers of a walk do not run out early: where no commit has more than `most` parents, each step takes at
/// most one number more than that, and a walk that has so many left makes all its steps.
pub proof fn law_numbers_suffice(
    walk: Walk,
    roots: Set<CommitId>,
    parents: spec_fn(CommitId) -> Seq<CommitId>,
    most: nat,
    n: nat,
)
    requires
        acyclic(parents),
        walk_holds(walk, roots, parents),
        forall|c: CommitId| (#[trigger] parents(c)).len() <= most,
        n * (most + 1) <= walk.next,
    ensures
        walk_steps(walk, parents, n) is Ok,
    decreases n,
{
    if n > 0 && !is_over(walk) {
        assert(n * (most + 1) == (n - 1) * (most + 1) + (most + 1)) by (nonlinear_arith);
        assert((n - 1) * (most + 1) >= 0) by (nonlinear_arith)
            requires
                n > 0,
        ;
        lemma_step_holds(walk, roots, parents);
        let c = walk.state.stack[top_of(walk.state.stack)].commit;
        assert(parents(c).len() <= most);
        if let Ok(after) = walk_step(walk, parents) {
            law_numbers_suffice(after, roots, parents, most, (n - 1) as nat);
        }
    }
}

} // verus!
