//! The plan of a merge: two lists of changes against one base, joined key by key.
use crate::bytes::{bytes_eq, bytes_lt, lemma_lex_irreflexive, lemma_lex_total, lemma_lex_transitive, lex_lt, to_vec};
use crate::error::{fault, Error, ErrorCode, Fault};
use crate::keys::{change_prefix, conflict_prefix, merge_change_key, merge_conflict_key};
use vstd::prelude::*;

verus! {

/// What a merge does where both sides changed one key in different ways.
#[derive(Clone, Copy, Debug, PartialEq, Eq, Structural)]
pub enum MergePolicy {
    Fail,
    Ours,
    Theirs,
}

/// One difference between two trees.
#[derive(Clone, Debug, PartialEq, Eq)]
pub enum Diff {
    Added { key: Vec<u8>, val: Vec<u8> },
    Removed { key: Vec<u8>, val: Vec<u8> },
    Changed { key: Vec<u8>, old: Vec<u8>, new: Vec<u8> },
}

/// The contents of a difference: what a key held, and what it holds.
#[verifier::ext_equal]
pub struct Change {
    pub key: Seq<u8>,
    pub old: Option<Seq<u8>>,
    pub new: Option<Seq<u8>>,
}

impl View for Diff {
    type V = Change;

    open spec fn view(&self) -> Change {
        match *self {
            Diff::Added { key, val } => Change { key: key@, old: None, new: Some(val@) },
            Diff::Removed { key, val } => Change { key: key@, old: Some(val@), new: None },
            Diff::Changed { key, old, new } => Change {
                key: key@,
                old: Some(old@),
                new: Some(new@),
            },
        }
    }
}

/// The bytes of an optional value.
pub open spec fn value_view(value: Option<Vec<u8>>) -> Option<Seq<u8>> {
    match value {
        Some(bytes) => Some(bytes@),
        None => None,
    }
}

/// A copy of an optional value.
pub fn copy_value(value: &Option<Vec<u8>>) -> (r: Option<Vec<u8>>)
    ensures
        value_view(r) == value_view(*value),
{
    match value {
        Some(bytes) => Some(to_vec(bytes)),
        None => None,
    }
}

/// Whether two optional values are the same.
pub fn same_value(a: &Option<Vec<u8>>, b: &Option<Vec<u8>>) -> (r: bool)
    ensures
        r == (value_view(*a) == value_view(*b)),
{
    match (a, b) {
        (Some(x), Some(y)) => bytes_eq(x, y),
        (None, None) => true,
        _ => false,
    }
}

impl Diff {
    /// The key that differs.
    pub fn key(&self) -> (r: &Vec<u8>)
        ensures
            r@ == self@.key,
    {
        match self {
            Diff::Added { key, .. } => key,
            Diff::Removed { key, .. } => key,
            Diff::Changed { key, .. } => key,
        }
    }
}

/// The key that differs, what it held and what it holds.
pub fn merge_diff_values(diff: &Diff) -> (r: (Vec<u8>, Option<Vec<u8>>, Option<Vec<u8>>))
    ensures
        r.0@ == diff@.key,
        value_view(r.1) == diff@.old,
        value_view(r.2) == diff@.new,
{
    match diff {
        Diff::Added { key, val } => (to_vec(key), None, Some(to_vec(val))),
        Diff::Removed { key, val } => (to_vec(key), Some(to_vec(val)), None),
        Diff::Changed { key, old, new } => (to_vec(key), Some(to_vec(old)), Some(to_vec(new))),
    }
}

/// What a merge found of one key, and what it holds after the merge.
#[derive(Clone, Debug, PartialEq, Eq)]
pub struct MergePlanEntry {
    pub key: Vec<u8>,
    pub base: Option<Vec<u8>>,
    pub ours: Option<Vec<u8>>,
    pub theirs: Option<Vec<u8>>,
    pub selected: Option<Vec<u8>>,
    pub conflict: bool,
}

/// The contents of a plan entry.
#[verifier::ext_equal]
pub struct Planned {
    pub key: Seq<u8>,
    pub base: Option<Seq<u8>>,
    pub ours: Option<Seq<u8>>,
    pub theirs: Option<Seq<u8>>,
    pub selected: Option<Seq<u8>>,
    pub conflict: bool,
}

impl View for MergePlanEntry {
    type V = Planned;

    open spec fn view(&self) -> Planned {
        Planned {
            key: self.key@,
            base: value_view(self.base),
            ours: value_view(self.ours),
            theirs: value_view(self.theirs),
            selected: value_view(self.selected),
            conflict: self.conflict,
        }
    }
}

/// Whether both sides changed a value, and in different ways.
pub open spec fn in_conflict(
    base: Option<Seq<u8>>,
    ours: Option<Seq<u8>>,
    theirs: Option<Seq<u8>>,
) -> bool {
    ours != theirs && ours != base && theirs != base
}

/// The value after a merge: the one that changed, and where both did, the one the policy takes.
pub open spec fn resolved(
    base: Option<Seq<u8>>,
    ours: Option<Seq<u8>>,
    theirs: Option<Seq<u8>>,
    policy: MergePolicy,
) -> Option<Seq<u8>> {
    if in_conflict(base, ours, theirs) {
        if policy == MergePolicy::Theirs {
            theirs
        } else {
            ours
        }
    } else if ours == base {
        theirs
    } else {
        ours
    }
}

/// The plan entry of a key.
pub open spec fn plan_of(
    key: Seq<u8>,
    base: Option<Seq<u8>>,
    ours: Option<Seq<u8>>,
    theirs: Option<Seq<u8>>,
    policy: MergePolicy,
) -> Planned {
    Planned {
        key,
        base,
        ours,
        theirs,
        selected: resolved(base, ours, theirs, policy),
        conflict: in_conflict(base, ours, theirs),
    }
}

/// Where the join of two lists of changes stands.
#[verifier::ext_equal]
pub struct JoinState {
    pub entries: Seq<Planned>,
    pub ours: Seq<Change>,
    pub theirs: Seq<Change>,
    pub planned_changes: int,
    pub conflicts: int,
}

/// The error of two lists that were not made against one base.
pub open spec fn base_disagreement() -> Fault {
    fault(ErrorCode::CorruptCommit, "structural merge streams disagree on their base value")
}

/// The next entry of a join: the lowest key that either list changes.
pub open spec fn next_entry(ours: Seq<Change>, theirs: Seq<Change>, policy: MergePolicy) -> Result<
    Planned,
    Fault,
> {
    if theirs.len() == 0 || (ours.len() > 0 && lex_lt(ours[0].key, theirs[0].key)) {
        Ok(plan_of(ours[0].key, ours[0].old, ours[0].new, ours[0].old, policy))
    } else if ours.len() == 0 || lex_lt(theirs[0].key, ours[0].key) {
        Ok(plan_of(theirs[0].key, theirs[0].old, theirs[0].old, theirs[0].new, policy))
    } else if ours[0].old != theirs[0].old {
        Err(base_disagreement())
    } else {
        Ok(plan_of(ours[0].key, ours[0].old, ours[0].new, theirs[0].new, policy))
    }
}

/// The list after an entry for `key` was taken off it.
pub open spec fn without_key(list: Seq<Change>, key: Seq<u8>) -> Seq<Change> {
    if list.len() > 0 && list[0].key == key {
        list.drop_first()
    } else {
        list
    }
}

/// One step of a join.
pub open spec fn join_step(state: JoinState, policy: MergePolicy) -> Result<JoinState, Fault> {
    match next_entry(state.ours, state.theirs, policy) {
        Err(error) => Err(error),
        Ok(entry) => {
            let changes = entry.selected != entry.ours;
            if changes && state.planned_changes == u64::MAX {
                Err(fault(ErrorCode::InternalInvariant, "merge change count overflow"))
            } else if entry.conflict && state.conflicts == u64::MAX {
                Err(fault(ErrorCode::InternalInvariant, "merge conflict count overflow"))
            } else {
                Ok(
                    JoinState {
                        entries: state.entries.push(entry),
                        ours: without_key(state.ours, entry.key),
                        theirs: without_key(state.theirs, entry.key),
                        planned_changes: state.planned_changes + if changes {
                            1int
                        } else {
                            0
                        },
                        conflicts: state.conflicts + if entry.conflict {
                            1int
                        } else {
                            0
                        },
                    },
                )
            }
        },
    }
}

/// At most `n` steps of a join.
pub open spec fn join_steps(state: JoinState, policy: MergePolicy, n: nat) -> Result<
    JoinState,
    Fault,
>
    decreases n,
{
    if n == 0 || (state.ours.len() == 0 && state.theirs.len() == 0) {
        Ok(state)
    } else {
        match join_step(state, policy) {
            Err(error) => Err(error),
            Ok(next) => join_steps(next, policy, (n - 1) as nat),
        }
    }
}

/// The contents of a list of differences.
pub open spec fn changes_of(diffs: Seq<Diff>) -> Seq<Change> {
    diffs.map_values(|d: Diff| d@)
}

/// The contents of a list of plan entries.
pub open spec fn planned_of(entries: Seq<MergePlanEntry>) -> Seq<Planned> {
    entries.map_values(|e: MergePlanEntry| e@)
}

/// What one page of planning gives.
#[derive(Debug)]
pub struct MergePlanPage {
    pub entries: Vec<MergePlanEntry>,
    pub ours_left: Vec<Diff>,
    pub theirs_left: Vec<Diff>,
    pub planned_changes: u64,
    pub conflicts: u64,
}

impl MergePlanPage {
    /// Where the join stands after the page.
    pub open spec fn state(&self) -> JoinState {
        JoinState {
            entries: planned_of(self.entries@),
            ours: changes_of(self.ours_left@),
            theirs: changes_of(self.theirs_left@),
            planned_changes: self.planned_changes as int,
            conflicts: self.conflicts as int,
        }
    }
}

/// The plan entry of a key.
fn plan_entry(
    key: Vec<u8>,
    base: Option<Vec<u8>>,
    ours: Option<Vec<u8>>,
    theirs: Option<Vec<u8>>,
    policy: MergePolicy,
) -> (r: MergePlanEntry)
    ensures
        r@ == plan_of(key@, value_view(base), value_view(ours), value_view(theirs), policy),
        r.key == key,
        r.base == base,
        r.ours == ours,
        r.theirs == theirs,
        r.conflict <==> value_view(ours) != value_view(theirs) && value_view(ours) != value_view(base)
            && value_view(theirs) != value_view(base),
        r.conflict && policy == MergePolicy::Theirs ==> value_view(r.selected) == value_view(theirs),
        r.conflict && policy != MergePolicy::Theirs ==> value_view(r.selected) == value_view(ours),
        value_view(ours) != value_view(base) && !r.conflict ==> value_view(r.selected) == value_view(
            ours,
        ),
        value_view(theirs) != value_view(base) && !r.conflict ==> value_view(r.selected)
            == value_view(theirs),
        value_view(ours) == value_view(base) && value_view(theirs) == value_view(base) ==> value_view(
            r.selected,
        ) == value_view(base),
{
    let same = same_value(&ours, &theirs);
    let ours_kept = same_value(&ours, &base);
    let theirs_kept = same_value(&theirs, &base);
    let conflict = !same && !ours_kept && !theirs_kept;
    let selected = if same {
        copy_value(&ours)
    } else if ours_kept {
        copy_value(&theirs)
    } else if theirs_kept {
        copy_value(&ours)
    } else {
        match policy {
            MergePolicy::Fail | MergePolicy::Ours => copy_value(&ours),
            MergePolicy::Theirs => copy_value(&theirs),
        }
    };
    MergePlanEntry { key, base, ours, theirs, selected, conflict }
}

/// The next entry of a join, and how many differences of each list it takes.
fn take_entry(
    ours: &Vec<Diff>,
    i: usize,
    theirs: &Vec<Diff>,
    j: usize,
    policy: MergePolicy,
) -> (r: Result<(MergePlanEntry, usize, usize), Error>)
    requires
        i <= ours@.len(),
        j <= theirs@.len(),
        i < ours@.len() || j < theirs@.len(),
    ensures
        ({
            let a = changes_of(ours@).skip(i as int);
            let b = changes_of(theirs@).skip(j as int);
            match r {
                Ok((entry, x, y)) => {
                    &&& next_entry(a, b, policy) == Ok::<Planned, Fault>(entry@)
                    &&& i <= x <= ours@.len()
                    &&& j <= y <= theirs@.len()
                    &&& changes_of(ours@).skip(x as int) == without_key(a, entry@.key)
                    &&& changes_of(theirs@).skip(y as int) == without_key(b, entry@.key)
                    &&& x + y > i + j
                },
                Err(error) => next_entry(a, b, policy) == Err::<Planned, Fault>(error@),
            }
        }),
{
    let ghost a = changes_of(ours@).skip(i as int);
    let ghost b = changes_of(theirs@).skip(j as int);
    proof {
        if i < ours@.len() {
            assert(a[0] == ours@[i as int]@);
            assert(changes_of(ours@).skip(i + 1) =~= a.drop_first());
        } else {
            assert(a.len() == 0);
        }
        if j < theirs@.len() {
            assert(b[0] == theirs@[j as int]@);
            assert(changes_of(theirs@).skip(j + 1) =~= b.drop_first());
        } else {
            assert(b.len() == 0);
        }
    }
    if j >= theirs.len() || (i < ours.len() && bytes_lt(ours[i].key(), theirs[j].key())) {
        assert(i < ours.len());
        let (key, base, new) = merge_diff_values(&ours[i]);
        let kept = copy_value(&base);
        proof {
            if b.len() > 0 {
                lemma_lex_irreflexive(a[0].key);
            }
        }
        return Ok((plan_entry(key, base, new, kept, policy), i + 1, j));
    }
    if i >= ours.len() || bytes_lt(theirs[j].key(), ours[i].key()) {
        assert(j < theirs.len());
        let (key, base, new) = merge_diff_values(&theirs[j]);
        let kept = copy_value(&base);
        proof {
            if a.len() > 0 {
                lemma_lex_irreflexive(b[0].key);
            }
        }
        return Ok((plan_entry(key, base, kept, new, policy), i, j + 1));
    }
    proof {
        lemma_lex_total(a[0].key, b[0].key);
    }
    let (key, ours_base, ours_new) = merge_diff_values(&ours[i]);
    let (_, theirs_base, theirs_new) = merge_diff_values(&theirs[j]);
    if !same_value(&ours_base, &theirs_base) {
        return Err(
            Error::new(
                ErrorCode::CorruptCommit,
                "structural merge streams disagree on their base value",
            ),
        );
    }
    Ok((plan_entry(key, ours_base, ours_new, theirs_new, policy), i + 1, j + 1))
}

/// Joins two lists of changes for at most `max_steps` keys.
pub fn advance_merge_plan(
    ours: Vec<Diff>,
    theirs: Vec<Diff>,
    policy: MergePolicy,
    planned_changes: u64,
    conflicts: u64,
    max_steps: usize,
) -> (r: Result<MergePlanPage, Error>)
    ensures
        ({
            let start = JoinState {
                entries: Seq::empty(),
                ours: changes_of(ours@),
                theirs: changes_of(theirs@),
                planned_changes: planned_changes as int,
                conflicts: conflicts as int,
            };
            match r {
                Ok(page) => join_steps(start, policy, max_steps as nat) == Ok::<JoinState, Fault>(
                    page.state(),
                ),
                Err(error) => join_steps(start, policy, max_steps as nat) == Err::<
                    JoinState,
                    Fault,
                >(error@),
            }
        }),
        r matches Ok(page) ==> {
            &&& page.entries@.len() <= max_steps
            &&& page.entries@.len() == max_steps || (page.ours_left@.len() == 0
                && page.theirs_left@.len() == 0)
        },
        r matches Ok(page) ==> forall|k: int|
            0 <= k < page.entries@.len() ==> {
                let e = (#[trigger] page.entries@[k])@;
                &&& e.conflict <==> e.ours != e.theirs && e.ours != e.base && e.theirs != e.base
                &&& e.conflict && policy == MergePolicy::Theirs ==> e.selected == e.theirs
                &&& e.conflict && policy != MergePolicy::Theirs ==> e.selected == e.ours
                &&& !e.conflict && e.ours != e.base ==> e.selected == e.ours
                &&& !e.conflict && e.theirs != e.base ==> e.selected == e.theirs
            },
{
    let mut ours = ours;
    let mut theirs = theirs;
    let mut entries: Vec<MergePlanEntry> = Vec::new();
    let mut planned: u64 = planned_changes;
    let mut found: u64 = conflicts;
    let mut i: usize = 0;
    let mut j: usize = 0;
    let mut processed: usize = 0;
    let ghost start = JoinState {
        entries: Seq::empty(),
        ours: changes_of(ours@),
        theirs: changes_of(theirs@),
        planned_changes: planned_changes as int,
        conflicts: conflicts as int,
    };
    assert(changes_of(ours@).skip(0) =~= changes_of(ours@));
    assert(changes_of(theirs@).skip(0) =~= changes_of(theirs@));
    assert(planned_of(entries@) =~= Seq::<Planned>::empty());
    #[verifier::loop_isolation(false)]
    while processed < max_steps && (i < ours.len() || j < theirs.len())
        invariant
            processed <= max_steps,
            entries@.len() == processed,
            i <= ours@.len(),
            j <= theirs@.len(),
            join_steps(start, policy, max_steps as nat) == join_steps(
                JoinState {
                    entries: planned_of(entries@),
                    ours: changes_of(ours@).skip(i as int),
                    theirs: changes_of(theirs@).skip(j as int),
                    planned_changes: planned as int,
                    conflicts: found as int,
                },
                policy,
                (max_steps - processed) as nat,
            ),
            forall|k: int|
                0 <= k < entries@.len() ==> {
                    let e = (#[trigger] entries@[k])@;
                    &&& e.conflict <==> e.ours != e.theirs && e.ours != e.base && e.theirs != e.base
                    &&& e.conflict && policy == MergePolicy::Theirs ==> e.selected == e.theirs
                    &&& e.conflict && policy != MergePolicy::Theirs ==> e.selected == e.ours
                    &&& !e.conflict && e.ours != e.base ==> e.selected == e.ours
                    &&& !e.conflict && e.theirs != e.base ==> e.selected == e.theirs
                },
        decreases max_steps - processed,
    {
        let ghost state = JoinState {
            entries: planned_of(entries@),
            ours: changes_of(ours@).skip(i as int),
            theirs: changes_of(theirs@).skip(j as int),
            planned_changes: planned as int,
            conflicts: found as int,
        };
        match take_entry(&ours, i, &theirs, j, policy) {
            Err(error) => {
                return Err(error);
            },
            Ok((entry, x, y)) => {
                let changes = !same_value(&entry.selected, &entry.ours);
                let conflict = entry.conflict;
                if changes {
                    if planned == u64::MAX {
                        return Err(
                            Error::new(
                                ErrorCode::InternalInvariant,
                                "merge change count overflow",
                            ),
                        );
                    }
                    planned = planned + 1;
                }
                if conflict {
                    if found == u64::MAX {
                        return Err(
                            Error::new(
                                ErrorCode::InternalInvariant,
                                "merge conflict count overflow",
                            ),
                        );
                    }
                    found = found + 1;
                }
                let ghost before = entries@;
                entries.push(entry);
                assert(planned_of(entries@) =~= planned_of(before).push(entry@));
                i = x;
                j = y;
                processed += 1;
            },
        }
    }
    let ghost all_ours = ours@;
    let ghost all_theirs = theirs@;
    let ours_left = ours.split_off(i);
    let theirs_left = theirs.split_off(j);
    assert(changes_of(ours_left@) =~= changes_of(all_ours).skip(i as int));
    assert(changes_of(theirs_left@) =~= changes_of(all_theirs).skip(j as int));
    Ok(
        MergePlanPage {
            entries,
            ours_left,
            theirs_left,
            planned_changes: planned,
            conflicts: found,
        },
    )
}

/// The keys under which a plan keeps an entry: one if the merge changes our value, one if the two
/// sides disagree.
pub fn plan_keys(entry: &MergePlanEntry) -> (r: (Option<Vec<u8>>, Option<Vec<u8>>))
    ensures
        value_view(r.0) == if entry@.selected != entry@.ours {
            Some(change_prefix() + entry@.key)
        } else {
            None
        },
        value_view(r.1) == if entry@.conflict {
            Some(conflict_prefix() + entry@.key)
        } else {
            None
        },
{
    let change = if same_value(&entry.selected, &entry.ours) {
        None
    } else {
        Some(merge_change_key(&entry.key))
    };
    let conflict = if entry.conflict {
        Some(merge_conflict_key(&entry.key))
    } else {
        None
    };
    (change, conflict)
}

/// A merge that is stopped after any number of keys and taken up again comes to the same plan.
pub proof fn law_plan_pages_compose(state: JoinState, policy: MergePolicy, a: nat, b: nat)
    ensures
        join_steps(state, policy, a + b) == match join_steps(state, policy, a) {
            Ok(middle) => join_steps(middle, policy, b),
            Err(error) => Err(error),
        },
    decreases a,
{
    if a == 0 {
    } else if state.ours.len() == 0 && state.theirs.len() == 0 {
    } else {
        match join_step(state, policy) {
            Err(_) => {},
            Ok(next) => {
                law_plan_pages_compose(next, policy, (a - 1) as nat, b);
                assert((a - 1) as nat + b == (a + b - 1) as nat);
            },
        }
    }
}

/// What a tree holds under a key.
pub open spec fn held(tree: Map<Seq<u8>, Seq<u8>>, key: Seq<u8>) -> Option<Seq<u8>> {
    if tree.contains_key(key) {
        Some(tree[key])
    } else {
        None
    }
}

/// Whether the keys of a list of changes rise.
pub open spec fn rising(list: Seq<Change>) -> bool {
    forall|i: int, j: int| 0 <= i < j < list.len() ==> lex_lt(#[trigger] list[i].key, #[trigger] list[j].key)
}

/// Whether each change of a list says what the two trees hold.
pub open spec fn truthful(
    from: Map<Seq<u8>, Seq<u8>>,
    to: Map<Seq<u8>, Seq<u8>>,
    list: Seq<Change>,
) -> bool {
    forall|i: int|
        0 <= i < list.len() ==> (#[trigger] list[i]).old == held(from, list[i].key) && list[i].new
            == held(to, list[i].key)
}

/// Whether a list names a key.
pub open spec fn changes_key(list: Seq<Change>, key: Seq<u8>) -> bool {
    exists|i: int| 0 <= i < list.len() && #[trigger] list[i].key == key
}

/// Whether a list holds the differences between two trees, all of them, in the order of their keys.
pub open spec fn is_difference(
    from: Map<Seq<u8>, Seq<u8>>,
    to: Map<Seq<u8>, Seq<u8>>,
    list: Seq<Change>,
) -> bool {
    &&& rising(list)
    &&& truthful(from, to, list)
    &&& forall|key: Seq<u8>| held(from, key) != held(to, key) ==> #[trigger] changes_key(list, key)
}

/// Whether a plan has an entry for a key.
pub open spec fn plans_key(entries: Seq<Planned>, key: Seq<u8>) -> bool {
    exists|i: int| 0 <= i < entries.len() && #[trigger] entries[i].key == key
}

/// What holds of a join of the differences of two trees from one base, between any two steps.
pub open spec fn join_invariant(
    state: JoinState,
    policy: MergePolicy,
    base: Map<Seq<u8>, Seq<u8>>,
    ours: Map<Seq<u8>, Seq<u8>>,
    theirs: Map<Seq<u8>, Seq<u8>>,
) -> bool {
    &&& forall|i: int|
        0 <= i < state.entries.len() ==> #[trigger] state.entries[i] == plan_of(
            state.entries[i].key,
            held(base, state.entries[i].key),
            held(ours, state.entries[i].key),
            held(theirs, state.entries[i].key),
            policy,
        )
    &&& forall|i: int, j: int|
        0 <= i < j < state.entries.len() ==> lex_lt(
            #[trigger] state.entries[i].key,
            #[trigger] state.entries[j].key,
        )
    &&& rising(state.ours)
    &&& rising(state.theirs)
    &&& truthful(base, ours, state.ours)
    &&& truthful(base, theirs, state.theirs)
    &&& forall|key: Seq<u8>|
        held(base, key) != held(ours, key) ==> #[trigger] plans_key(state.entries, key)
            || changes_key(state.ours, key)
    &&& forall|key: Seq<u8>|
        held(base, key) != held(theirs, key) ==> #[trigger] plans_key(state.entries, key)
            || changes_key(state.theirs, key)
    &&& forall|i: int, j: int|
        0 <= i < state.entries.len() && 0 <= j < state.ours.len() ==> lex_lt(
            #[trigger] state.entries[i].key,
            #[trigger] state.ours[j].key,
        )
    &&& forall|i: int, j: int|
        0 <= i < state.entries.len() && 0 <= j < state.theirs.len() ==> lex_lt(
            #[trigger] state.entries[i].key,
            #[trigger] state.theirs[j].key,
        )
}

/// A key below the first of a rising list is not in it.
proof fn lemma_below_first(list: Seq<Change>, key: Seq<u8>)
    requires
        rising(list),
        list.len() == 0 || lex_lt(key, list[0].key),
    ensures
        !changes_key(list, key),
{
    if changes_key(list, key) {
        let i = choose|i: int| 0 <= i < list.len() && #[trigger] list[i].key == key;
        lemma_lex_irreflexive(key);
        if i > 0 {
            lemma_lex_transitive(key, list[0].key, list[i].key);
        }
    }
}

/// Taking a key off the front of a rising list leaves the keys above it.
proof fn lemma_without_key(list: Seq<Change>, key: Seq<u8>)
    requires
        rising(list),
        list.len() == 0 || list[0].key == key || lex_lt(key, list[0].key),
    ensures
        rising(without_key(list, key)),
        forall|j: int|
            0 <= j < without_key(list, key).len() ==> lex_lt(
                key,
                #[trigger] without_key(list, key)[j].key,
            ),
        forall|k: Seq<u8>| #[trigger]
            changes_key(list, k) ==> k == key || changes_key(without_key(list, key), k),
{
    let rest = without_key(list, key);
    if list.len() > 0 && list[0].key == key {
        assert forall|i: int, j: int| 0 <= i < j < rest.len() implies lex_lt(
            #[trigger] rest[i].key,
            #[trigger] rest[j].key,
        ) by {
            assert(rest[i] == list[i + 1] && rest[j] == list[j + 1]);
        }
        assert forall|j: int| 0 <= j < rest.len() implies lex_lt(key, #[trigger] rest[j].key) by {
            assert(rest[j] == list[j + 1]);
            assert(lex_lt(list[0].key, list[j + 1].key));
        }
        assert forall|k: Seq<u8>| #[trigger] changes_key(list, k) implies k == key || changes_key(
            rest,
            k,
        ) by {
            let i = choose|i: int| 0 <= i < list.len() && #[trigger] list[i].key == k;
            if i > 0 {
                assert(rest[i - 1].key == k);
            }
        }
    } else {
        assert forall|j: int| 0 <= j < rest.len() implies lex_lt(key, #[trigger] rest[j].key) by {
            if j > 0 {
                assert(lex_lt(list[0].key, list[j].key));
                lemma_lex_transitive(key, list[0].key, list[j].key);
            }
        }
    }
}

/// The key of the next entry of a join.
pub open spec fn next_key(ours: Seq<Change>, theirs: Seq<Change>) -> Seq<u8> {
    if theirs.len() == 0 || (ours.len() > 0 && lex_lt(ours[0].key, theirs[0].key)) {
        ours[0].key
    } else {
        theirs[0].key
    }
}

proof fn lemma_next_entry(
    state: JoinState,
    policy: MergePolicy,
    base: Map<Seq<u8>, Seq<u8>>,
    ours: Map<Seq<u8>, Seq<u8>>,
    theirs: Map<Seq<u8>, Seq<u8>>,
)
    requires
        join_invariant(state, policy, base, ours, theirs),
        state.ours.len() > 0 || state.theirs.len() > 0,
    ensures
        ({
            let key = next_key(state.ours, state.theirs);
            let a = state.ours;
            let b = state.theirs;
            &&& next_entry(a, b, policy) == Ok::<Planned, Fault>(
                plan_of(key, held(base, key), held(ours, key), held(theirs, key), policy),
            )
            &&& a.len() == 0 || a[0].key == key || lex_lt(key, a[0].key)
            &&& b.len() == 0 || b[0].key == key || lex_lt(key, b[0].key)
            &&& (a.len() > 0 && a[0].key == key) || (b.len() > 0 && b[0].key == key)
            &&& forall|i: int|
                0 <= i < state.entries.len() ==> lex_lt(#[trigger] state.entries[i].key, key)
        }),
{
    let a = state.ours;
    let b = state.theirs;
    let key = next_key(a, b);
    if a.len() > 0 && b.len() > 0 {
        lemma_lex_total(a[0].key, b[0].key);
        lemma_lex_irreflexive(a[0].key);
        if lex_lt(a[0].key, b[0].key) && lex_lt(b[0].key, a[0].key) {
            lemma_lex_transitive(a[0].key, b[0].key, a[0].key);
        }
    }
    assert forall|i: int| 0 <= i < state.entries.len() implies lex_lt(
        #[trigger] state.entries[i].key,
        key,
    ) by {
        if a.len() > 0 && a[0].key == key {
            assert(lex_lt(state.entries[i].key, a[0].key));
        } else {
            assert(lex_lt(state.entries[i].key, b[0].key));
        }
    }
    assert(!plans_key(state.entries, key)) by {
        if plans_key(state.entries, key) {
            let i = choose|i: int| 0 <= i < state.entries.len() && #[trigger] state.entries[i].key == key;
            lemma_lex_irreflexive(key);
        }
    }
    if !(a.len() > 0 && a[0].key == key) {
        lemma_below_first(a, key);
        assert(held(base, key) == held(ours, key));
    }
    if !(b.len() > 0 && b[0].key == key) {
        lemma_below_first(b, key);
        assert(held(base, key) == held(theirs, key));
    }
}

proof fn lemma_lists_after(
    list: Seq<Change>,
    key: Seq<u8>,
    from: Map<Seq<u8>, Seq<u8>>,
    to: Map<Seq<u8>, Seq<u8>>,
    entries: Seq<Planned>,
    entry: Planned,
)
    requires
        rising(list),
        truthful(from, to, list),
        list.len() == 0 || list[0].key == key || lex_lt(key, list[0].key),
        entry.key == key,
        forall|k: Seq<u8>|
            held(from, k) != held(to, k) ==> #[trigger] plans_key(entries, k) || changes_key(list, k),
        forall|i: int, j: int|
            0 <= i < entries.len() && 0 <= j < list.len() ==> lex_lt(
                #[trigger] entries[i].key,
                #[trigger] list[j].key,
            ),
    ensures
        rising(without_key(list, key)),
        truthful(from, to, without_key(list, key)),
        forall|k: Seq<u8>|
            held(from, k) != held(to, k) ==> #[trigger] plans_key(entries.push(entry), k)
                || changes_key(without_key(list, key), k),
        forall|i: int, j: int|
            0 <= i < entries.push(entry).len() && 0 <= j < without_key(list, key).len() ==> lex_lt(
                #[trigger] entries.push(entry)[i].key,
                #[trigger] without_key(list, key)[j].key,
            ),
{
    lemma_without_key(list, key);
    let rest = without_key(list, key);
    let more = entries.push(entry);
    let n = entries.len() as int;
    let d = if list.len() > 0 && list[0].key == key {
        1int
    } else {
        0int
    };
    assert(truthful(from, to, rest)) by {
        assert forall|j: int| 0 <= j < rest.len() implies (#[trigger] rest[j]).old == held(
            from,
            rest[j].key,
        ) && rest[j].new == held(to, rest[j].key) by {
            assert(rest[j] == list[j + d]);
        }
    }
    assert forall|k: Seq<u8>| held(from, k) != held(to, k) implies #[trigger] plans_key(more, k)
        || changes_key(rest, k) by {
        if plans_key(entries, k) {
            let i = choose|i: int| 0 <= i < entries.len() && #[trigger] entries[i].key == k;
            assert(more[i].key == k);
        } else {
            assert(changes_key(list, k));
            if k == key {
                assert(more[n].key == k);
            }
        }
    }
    assert forall|i: int, j: int| 0 <= i < more.len() && 0 <= j < rest.len() implies lex_lt(
        #[trigger] more[i].key,
        #[trigger] rest[j].key,
    ) by {
        if i < n {
            assert(more[i] == entries[i]);
            assert(rest[j] == list[j + d]);
            assert(lex_lt(entries[i].key, list[j + d].key));
        }
    }
}

proof fn lemma_join_step(
    state: JoinState,
    policy: MergePolicy,
    base: Map<Seq<u8>, Seq<u8>>,
    ours: Map<Seq<u8>, Seq<u8>>,
    theirs: Map<Seq<u8>, Seq<u8>>,
)
    requires
        join_invariant(state, policy, base, ours, theirs),
        state.ours.len() > 0 || state.theirs.len() > 0,
        state.planned_changes < u64::MAX,
        state.conflicts < u64::MAX,
    ensures
        join_step(state, policy) matches Ok(next) && {
            &&& join_invariant(next, policy, base, ours, theirs)
            &&& next.ours.len() + next.theirs.len() < state.ours.len() + state.theirs.len()
            &&& next.planned_changes <= state.planned_changes + 1
            &&& next.conflicts <= state.conflicts + 1
        },
{
    lemma_next_entry(state, policy, base, ours, theirs);
    let key = next_key(state.ours, state.theirs);
    let entry = plan_of(key, held(base, key), held(ours, key), held(theirs, key), policy);
    lemma_lists_after(state.ours, key, base, ours, state.entries, entry);
    lemma_lists_after(state.theirs, key, base, theirs, state.entries, entry);
    let next = join_step(state, policy)->Ok_0;
    assert(next.entries == state.entries.push(entry));
    let n = state.entries.len() as int;
    assert forall|i: int, j: int| 0 <= i < j < next.entries.len() implies lex_lt(
        #[trigger] next.entries[i].key,
        #[trigger] next.entries[j].key,
    ) by {
        assert(next.entries[i] == state.entries[i]);
        if j < n {
            assert(next.entries[j] == state.entries[j]);
        }
    }
    assert forall|i: int| 0 <= i < next.entries.len() implies #[trigger] next.entries[i] == plan_of(
        next.entries[i].key,
        held(base, next.entries[i].key),
        held(ours, next.entries[i].key),
        held(theirs, next.entries[i].key),
        policy,
    ) by {
        if i < n {
            assert(next.entries[i] == state.entries[i]);
        }
    }
}

proof fn lemma_join_ends(
    state: JoinState,
    policy: MergePolicy,
    base: Map<Seq<u8>, Seq<u8>>,
    ours: Map<Seq<u8>, Seq<u8>>,
    theirs: Map<Seq<u8>, Seq<u8>>,
    n: nat,
)
    requires
        join_invariant(state, policy, base, ours, theirs),
        state.ours.len() + state.theirs.len() <= n,
        state.planned_changes + n <= u64::MAX,
        state.conflicts + n <= u64::MAX,
    ensures
        join_steps(state, policy, n) matches Ok(end) && join_invariant(
            end,
            policy,
            base,
            ours,
            theirs,
        ) && end.ours.len() == 0 && end.theirs.len() == 0,
    decreases n,
{
    if state.ours.len() > 0 || state.theirs.len() > 0 {
        lemma_join_step(state, policy, base, ours, theirs);
        let next = join_step(state, policy)->Ok_0;
        lemma_join_ends(next, policy, base, ours, theirs, (n - 1) as nat);
    }
}

/// How many entries of a plan change our value.
pub open spec fn changing(entries: Seq<Planned>) -> int
    decreases entries.len(),
{
    if entries.len() == 0 {
        0
    } else {
        changing(entries.drop_last()) + if entries.last().selected != entries.last().ours {
            1int
        } else {
            0
        }
    }
}

/// How many entries of a plan are conflicts.
pub open spec fn conflicting(entries: Seq<Planned>) -> int
    decreases entries.len(),
{
    if entries.len() == 0 {
        0
    } else {
        conflicting(entries.drop_last()) + if entries.last().conflict {
            1int
        } else {
            0
        }
    }
}

/// The two counts of a plan are the numbers of its changes and of its conflicts, however far it has come.
pub proof fn law_plan_counts_its_entries(state: JoinState, policy: MergePolicy, n: nat)
    requires
        state.planned_changes == changing(state.entries),
        state.conflicts == conflicting(state.entries),
    ensures
        join_steps(state, policy, n) matches Ok(end) ==> end.planned_changes == changing(
            end.entries,
        ) && end.conflicts == conflicting(end.entries),
    decreases n,
{
    if n > 0 && (state.ours.len() > 0 || state.theirs.len() > 0) {
        if let Ok(next) = join_step(state, policy) {
            assert(next.entries.drop_last() =~= state.entries);
            law_plan_counts_its_entries(next, policy, (n - 1) as nat);
        }
    }
}

/// The state of a join with more changes behind those that it has.
pub open spec fn followed_by(state: JoinState, ours: Seq<Change>, theirs: Seq<Change>) -> JoinState {
    JoinState { ours: state.ours + ours, theirs: state.theirs + theirs, ..state }
}

/// A page of a plan needs no more than a window of each list: as many changes as the page has steps, or all
/// there are. What the page leaves over goes before what follows the windows.
pub proof fn law_windows_are_enough(
    state: JoinState,
    ours: Seq<Change>,
    theirs: Seq<Change>,
    policy: MergePolicy,
    n: nat,
)
    requires
        state.ours.len() >= n || ours.len() == 0,
        state.theirs.len() >= n || theirs.len() == 0,
    ensures
        join_steps(followed_by(state, ours, theirs), policy, n) == match join_steps(state, policy, n) {
            Ok(end) => Ok(followed_by(end, ours, theirs)),
            Err(error) => Err(error),
        },
    decreases n,
{
    let whole = followed_by(state, ours, theirs);
    if n > 0 && (state.ours.len() > 0 || state.theirs.len() > 0) {
        assert(state.ours.len() > 0 ==> whole.ours[0] == state.ours[0]);
        assert(state.theirs.len() > 0 ==> whole.theirs[0] == state.theirs[0]);
        assert(state.ours.len() == 0 ==> whole.ours.len() == 0);
        assert(state.theirs.len() == 0 ==> whole.theirs.len() == 0);
        assert(next_entry(whole.ours, whole.theirs, policy) == next_entry(
            state.ours,
            state.theirs,
            policy,
        ));
        if let Ok(next) = join_step(state, policy) {
            let key = next.entries.last().key;
            assert(without_key(whole.ours, key) =~= without_key(state.ours, key) + ours);
            assert(without_key(whole.theirs, key) =~= without_key(state.theirs, key) + theirs);
            assert(join_step(whole, policy) == Ok::<JoinState, Fault>(
                followed_by(next, ours, theirs),
            ));
            law_windows_are_enough(next, ours, theirs, policy, (n - 1) as nat);
        }
    }
}

/// Planning the merge of two trees that came from one base succeeds, and its plan is the three-way
/// merge: an entry says what its key holds after the merge and whether the two sides are in
/// conflict over it, and a key without an entry keeps our value, which is what the merge gives it.
/// The entries are in the order of their keys, each key once, and the counts are theirs.
pub proof fn law_plan_is_the_three_way_merge(
    base: Map<Seq<u8>, Seq<u8>>,
    ours: Map<Seq<u8>, Seq<u8>>,
    theirs: Map<Seq<u8>, Seq<u8>>,
    our_changes: Seq<Change>,
    their_changes: Seq<Change>,
    policy: MergePolicy,
    n: nat,
)
    requires
        is_difference(base, ours, our_changes),
        is_difference(base, theirs, their_changes),
        our_changes.len() + their_changes.len() <= n <= u64::MAX,
    ensures
        ({
            let start = JoinState {
                entries: Seq::empty(),
                ours: our_changes,
                theirs: their_changes,
                planned_changes: 0,
                conflicts: 0,
            };
            join_steps(start, policy, n) matches Ok(end) && {
                &&& end.ours.len() == 0 && end.theirs.len() == 0
                &&& forall|i: int, j: int|
                    0 <= i < j < end.entries.len() ==> lex_lt(
                        #[trigger] end.entries[i].key,
                        #[trigger] end.entries[j].key,
                    )
                &&& end.planned_changes == changing(end.entries)
                &&& end.conflicts == conflicting(end.entries)
                &&& forall|i: int|
                    0 <= i < end.entries.len() ==> {
                        let e = #[trigger] end.entries[i];
                        e.selected == resolved(
                            held(base, e.key),
                            held(ours, e.key),
                            held(theirs, e.key),
                            policy,
                        ) && e.conflict == in_conflict(
                            held(base, e.key),
                            held(ours, e.key),
                            held(theirs, e.key),
                        )
                    }
                &&& forall|key: Seq<u8>|
                    !#[trigger] plans_key(end.entries, key) ==> resolved(
                        held(base, key),
                        held(ours, key),
                        held(theirs, key),
                        policy,
                    ) == held(ours, key)
            }
        }),
{
    let start = JoinState {
        entries: Seq::empty(),
        ours: our_changes,
        theirs: their_changes,
        planned_changes: 0,
        conflicts: 0,
    };
    assert(join_invariant(start, policy, base, ours, theirs)) by {
        assert forall|key: Seq<u8>| held(base, key) != held(ours, key) implies #[trigger] plans_key(
            start.entries,
            key,
        ) || changes_key(start.ours, key) by {}
        assert forall|key: Seq<u8>| held(base, key) != held(theirs, key) implies #[trigger] plans_key(
            start.entries,
            key,
        ) || changes_key(start.theirs, key) by {}
    }
    lemma_join_ends(start, policy, base, ours, theirs, n);
    law_plan_counts_its_entries(start, policy, n);
    let end = join_steps(start, policy, n)->Ok_0;
    assert forall|key: Seq<u8>| !#[trigger] plans_key(end.entries, key) implies resolved(
        held(base, key),
        held(ours, key),
        held(theirs, key),
        policy,
    ) == held(ours, key) by {
        assert(!changes_key(end.ours, key));
        assert(!changes_key(end.theirs, key));
    }
}

/// Where the two sides are not in conflict, it does not matter which of them is called ours, nor
/// which policy is set; and a side that left a value alone takes the other's.
pub proof fn law_merge_without_conflict_is_symmetric(
    base: Option<Seq<u8>>,
    ours: Option<Seq<u8>>,
    theirs: Option<Seq<u8>>,
    p: MergePolicy,
    q: MergePolicy,
)
    ensures
        in_conflict(base, ours, theirs) == in_conflict(base, theirs, ours),
        !in_conflict(base, ours, theirs) ==> resolved(base, ours, theirs, p) == resolved(
            base,
            theirs,
            ours,
            q,
        ),
        resolved(base, base, theirs, p) == theirs,
        resolved(base, ours, base, p) == ours,
        resolved(base, ours, ours, p) == ours,
        in_conflict(base, ours, theirs) ==> resolved(base, ours, theirs, MergePolicy::Ours) == ours
            && resolved(base, ours, theirs, MergePolicy::Theirs) == theirs,
{
}

/// A merge loses no change. Both sides are in conflict over a key exactly where each of them departs from the
/// base and from the other; that a key is absent counts as a value, so deleting what the other side changes is
/// a conflict. In a conflict the policy takes one side whole. Outside of one the value that departs from the
/// base is taken, and where neither does the base stays.
pub proof fn law_merge_loses_no_change(
    key: Seq<u8>,
    base: Option<Seq<u8>>,
    ours: Option<Seq<u8>>,
    theirs: Option<Seq<u8>>,
    policy: MergePolicy,
)
    ensures
        in_conflict(base, ours, theirs) <==> ours != theirs && ours != base && theirs != base,
        base is Some && ours is None && theirs is Some && theirs != base ==> in_conflict(
            base,
            ours,
            theirs,
        ),
        base is Some && theirs is None && ours is Some && ours != base ==> in_conflict(
            base,
            ours,
            theirs,
        ),
        base is None && ours is Some && theirs is Some && ours != theirs ==> in_conflict(
            base,
            ours,
            theirs,
        ),
        ours != theirs && ours != base && theirs != base && policy == MergePolicy::Theirs ==> resolved(
            base,
            ours,
            theirs,
            policy,
        ) == theirs,
        ours != theirs && ours != base && theirs != base && policy != MergePolicy::Theirs ==> resolved(
            base,
            ours,
            theirs,
            policy,
        ) == ours,
        ours == base ==> resolved(base, ours, theirs, policy) == theirs,
        theirs == base ==> resolved(base, ours, theirs, policy) == ours,
        ours == theirs ==> resolved(base, ours, theirs, policy) == ours,
        plan_of(key, base, ours, theirs, policy).key == key,
        plan_of(key, base, ours, theirs, policy).base == base,
        plan_of(key, base, ours, theirs, policy).ours == ours,
        plan_of(key, base, ours, theirs, policy).theirs == theirs,
        plan_of(key, base, ours, theirs, policy).conflict <==> ours != theirs && ours != base && theirs
            != base,
        ours != base && theirs == base ==> plan_of(key, base, ours, theirs, policy).selected == ours,
        theirs != base && ours == base ==> plan_of(key, base, ours, theirs, policy).selected == theirs,
        ours == theirs ==> plan_of(key, base, ours, theirs, policy).selected == ours,
        ours != theirs && ours != base && theirs != base ==> plan_of(
            key,
            base,
            ours,
            theirs,
            policy,
        ).selected == if policy == MergePolicy::Theirs {
            theirs
        } else {
            ours
        },
{
}

/// A whole merge, key by key. Each key that a side changed, added or took away has an entry, which says what
/// the three trees hold under it. The entry is a conflict exactly where both sides departed from the base in
/// different ways.
pub proof fn law_merge_accounts_for_every_key(
    base: Map<Seq<u8>, Seq<u8>>,
    ours: Map<Seq<u8>, Seq<u8>>,
    theirs: Map<Seq<u8>, Seq<u8>>,
    our_changes: Seq<Change>,
    their_changes: Seq<Change>,
    policy: MergePolicy,
    n: nat,
    key: Seq<u8>,
)
    requires
        is_difference(base, ours, our_changes),
        is_difference(base, theirs, their_changes),
        our_changes.len() + their_changes.len() <= n <= u64::MAX,
    ensures
        ({
            let start = JoinState {
                entries: Seq::empty(),
                ours: our_changes,
                theirs: their_changes,
                planned_changes: 0,
                conflicts: 0,
            };
            let changed_by_us = ours.contains_key(key) != base.contains_key(key) || (
            ours.contains_key(key) && ours[key] != base[key]);
            let changed_by_them = theirs.contains_key(key) != base.contains_key(key) || (
            theirs.contains_key(key) && theirs[key] != base[key]);
            let sides_agree = ours.contains_key(key) == theirs.contains_key(key) && (ours.contains_key(
                key,
            ) ==> ours[key] == theirs[key]);
            join_steps(start, policy, n) matches Ok(end) && {
                &&& changed_by_us || changed_by_them ==> exists|i: int|
                    0 <= i < end.entries.len() && (#[trigger] end.entries[i]).key == key
                &&& forall|i: int|
                    0 <= i < end.entries.len() && (#[trigger] end.entries[i]).key == key ==> {
                        let e = end.entries[i];
                        &&& e.base is Some <==> base.contains_key(key)
                        &&& e.base is Some ==> e.base->0 == base[key]
                        &&& e.ours is Some <==> ours.contains_key(key)
                        &&& e.ours is Some ==> e.ours->0 == ours[key]
                        &&& e.theirs is Some <==> theirs.contains_key(key)
                        &&& e.theirs is Some ==> e.theirs->0 == theirs[key]
                        &&& e.conflict <==> changed_by_us && changed_by_them && !sides_agree
                        &&& changed_by_us && !changed_by_them ==> e.selected == e.ours
                        &&& changed_by_them && !changed_by_us ==> e.selected == e.theirs
                        &&& sides_agree ==> e.selected == e.ours
                        &&& e.conflict ==> e.selected == if policy == MergePolicy::Theirs {
                            e.theirs
                        } else {
                            e.ours
                        }
                    }
            }
        }),
{
    let start = JoinState {
        entries: Seq::empty(),
        ours: our_changes,
        theirs: their_changes,
        planned_changes: 0,
        conflicts: 0,
    };
    assert(join_invariant(start, policy, base, ours, theirs)) by {
        assert forall|key: Seq<u8>| held(base, key) != held(ours, key) implies #[trigger] plans_key(
            start.entries,
            key,
        ) || changes_key(start.ours, key) by {}
        assert forall|key: Seq<u8>| held(base, key) != held(theirs, key) implies #[trigger] plans_key(
            start.entries,
            key,
        ) || changes_key(start.theirs, key) by {}
    }
    lemma_join_ends(start, policy, base, ours, theirs, n);
    let end = join_steps(start, policy, n)->Ok_0;
    assert(!changes_key(end.ours, key));
    assert(!changes_key(end.theirs, key));
    if held(base, key) != held(ours, key) || held(base, key) != held(theirs, key) {
        assert(plans_key(end.entries, key));
    }
}

/// A page of a plan makes as many entries as it may, or all there are; entries that were made before stay before them.
pub proof fn law_plan_page_is_full_or_the_last(state: JoinState, policy: MergePolicy, n: nat)
    ensures
        join_steps(state, policy, n) matches Ok(end) ==> {
            &&& state.entries.len() <= end.entries.len() <= state.entries.len() + n
            &&& end.entries.len() == state.entries.len() + n || (end.ours.len() == 0 && end.theirs.len()
                == 0)
            &&& end.entries.take(state.entries.len() as int) == state.entries
        },
    decreases n,
{
    if n > 0 && (state.ours.len() > 0 || state.theirs.len() > 0) {
        if let Ok(next) = join_step(state, policy) {
            law_plan_page_is_full_or_the_last(next, policy, (n - 1) as nat);
            if let Ok(end) = join_steps(state, policy, n) {
                assert(next.entries.take(state.entries.len() as int) =~= state.entries);
                assert(end.entries.take(state.entries.len() as int) =~= end.entries.take(
                    next.entries.len() as int,
                ).take(state.entries.len() as int));
            }
        }
    } else {
        assert(state.entries.take(state.entries.len() as int) =~= state.entries);
    }
}

/// The counts of a plan go up by one for each entry that changes our value, and for each that is a conflict.
pub proof fn law_plan_counts_go_up_by_entries(entries: Seq<Planned>, entry: Planned)
    ensures
        changing(Seq::empty()) == 0,
        conflicting(Seq::empty()) == 0,
        changing(entries.push(entry)) == changing(entries) + if entry.selected != entry.ours {
            1int
        } else {
            0
        },
        conflicting(entries.push(entry)) == conflicting(entries) + if entry.conflict {
            1int
        } else {
            0
        },
{
    assert(entries.push(entry).drop_last() =~= entries);
}

/// The value of an entry is its bytes, and what is absent has none; a difference says what its key held and what it
/// holds.
pub proof fn law_difference_says_what_was_and_what_is(value: Vec<u8>, diff: Diff)
    ensures
        value_view(Some(value)) == Some(value@),
        value_view(None) is None,
        diff matches Diff::Added { key, val } ==> diff@.key == key@ && diff@.old is None && diff@.new
            == Some(val@),
        diff matches Diff::Removed { key, val } ==> diff@.key == key@ && diff@.old == Some(val@)
            && diff@.new is None,
        diff matches Diff::Changed { key, old, new } ==> diff@.key == key@ && diff@.old == Some(old@)
            && diff@.new == Some(new@),
{
}

} // verus!
