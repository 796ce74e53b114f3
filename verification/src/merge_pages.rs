//! Reading a merge plan page by page, and walking first parents.
use crate::bytes::{has_prefix, lemma_lex_append, lemma_lex_transitive, lex_lt, starts_with, to_vec};
use crate::error::{fault, outcome, Error, ErrorCode, Fault};
use crate::ids::{CommitId, ObjectVersionId, OperationId, RepositoryId};
use crate::keys::{
    base_result_prefix, change_prefix, commit_from_suffix, conflict_prefix, merge_base_result_prefix,
    merge_change_prefix, merge_conflict_prefix,
};
use crate::listing::{entries_after, lemma_left_after, lemma_page_before, place_after};
use crate::merge::MergeCursor;
use crate::merge_base::JournalCommitGraphEntry;
use crate::merge_plan::MergePlanEntry;
use crate::model::RootManifest;
use crate::ordered::{sorted, Keyed};
use crate::outside::{prefix_end_of, prefix_range_end};
use crate::repository::Repository;
use vstd::prelude::*;

verus! {

/// Where the reading of a merge plan stands.
#[derive(Clone, Debug)]
pub struct MergePageCursor {
    pub repository: RepositoryId,
    pub job: OperationId,
    pub plan_root: RootManifest,
    pub after: Vec<u8>,
}

/// The sorts of entries that a merge plan is read for.
#[derive(Clone, Copy, Debug, PartialEq, Eq, Structural)]
pub enum MergePageKind {
    Bases,
    Changes,
    Conflicts,
}

/// The namespace of a sort of entries.
pub open spec fn page_prefix(kind: MergePageKind) -> Seq<u8> {
    match kind {
        MergePageKind::Bases => base_result_prefix(),
        MergePageKind::Changes => change_prefix(),
        MergePageKind::Conflicts => conflict_prefix(),
    }
}

/// The namespace of a sort of entries.
pub fn merge_page_prefix(kind: MergePageKind) -> (r: [u8; 2])
    ensures
        r@ == page_prefix(kind),
{
    match kind {
        MergePageKind::Bases => merge_base_result_prefix(),
        MergePageKind::Changes => merge_change_prefix(),
        MergePageKind::Conflicts => merge_conflict_prefix(),
    }
}

/// The first key beyond a sort of entries.
pub fn merge_page_end(kind: MergePageKind) -> (r: Option<Vec<u8>>)
    ensures
        crate::merge_plan::value_view(r) == prefix_end_of(page_prefix(kind)),
{
    prefix_range_end(&merge_page_prefix(kind))
}

/// The error of a page of no entries.
pub open spec fn empty_page_fault(kind: MergePageKind) -> Fault {
    match kind {
        MergePageKind::Bases => fault(
            ErrorCode::InvalidLimit,
            "merge-base page limit must be greater than zero",
        ),
        MergePageKind::Changes => fault(
            ErrorCode::InvalidLimit,
            "merge change page limit must be greater than zero",
        ),
        MergePageKind::Conflicts => fault(
            ErrorCode::InvalidLimit,
            "merge conflict page limit must be greater than zero",
        ),
    }
}

/// The error of a page cursor that was made for another plan.
pub open spec fn foreign_page_fault(kind: MergePageKind) -> Fault {
    match kind {
        MergePageKind::Bases => fault(
            ErrorCode::InvalidContinuationToken,
            "merge-base cursor belongs to another plan",
        ),
        MergePageKind::Changes => fault(
            ErrorCode::InvalidContinuationToken,
            "merge change cursor belongs to another plan",
        ),
        MergePageKind::Conflicts => fault(
            ErrorCode::InvalidContinuationToken,
            "merge conflict cursor belongs to another plan",
        ),
    }
}

/// Whether a page cursor continues the reading of this plan.
pub open spec fn continues(kind: MergePageKind, cursor: MergeCursor, page: MergePageCursor) -> bool {
    &&& page.repository == cursor.repository
    &&& page.job == cursor.job
    &&& page.plan_root == cursor.plan_root
    &&& has_prefix(page.after@, page_prefix(kind))
}

/// The smaller of two numbers.
pub open spec fn at_most(a: usize, b: u32) -> int {
    if a < b {
        a as int
    } else {
        b as int
    }
}

impl Repository {
    /// How many entries a page may hold. Refuses a page of none, and a continuation of another plan.
    pub fn check_merge_page(
        &self,
        kind: MergePageKind,
        cursor: &MergeCursor,
        continuation: Option<&MergePageCursor>,
        limit: usize,
    ) -> (r: Result<usize, Error>)
        ensures
            outcome(r) == if at_most(limit, self.format.canonical_limits.max_list_page) == 0 {
                Err(empty_page_fault(kind))
            } else if continuation is Some && !continues(kind, *cursor, *continuation->0) {
                Err(foreign_page_fault(kind))
            } else {
                Ok(at_most(limit, self.format.canonical_limits.max_list_page) as usize)
            },
    {
        let max: usize = self.format.canonical_limits.max_list_page as usize;
        let limit: usize = if limit < max {
            limit
        } else {
            max
        };
        if limit == 0 {
            let message = match kind {
                MergePageKind::Bases => "merge-base page limit must be greater than zero",
                MergePageKind::Changes => "merge change page limit must be greater than zero",
                MergePageKind::Conflicts => "merge conflict page limit must be greater than zero",
            };
            return Err(Error::new(ErrorCode::InvalidLimit, message));
        }
        if let Some(page) = continuation {
            let prefix = merge_page_prefix(kind);
            if page.repository != cursor.repository || page.job != cursor.job || page.plan_root
                != cursor.plan_root || !starts_with(&page.after, &prefix) {
                let message = match kind {
                    MergePageKind::Bases => "merge-base cursor belongs to another plan",
                    MergePageKind::Changes => "merge change cursor belongs to another plan",
                    MergePageKind::Conflicts => "merge conflict cursor belongs to another plan",
                };
                return Err(Error::new(ErrorCode::InvalidContinuationToken, message));
            }
        }
        Ok(limit)
    }
}

/// The cursor of the next page: there is one when this page is full.
pub fn merge_page_continuation(cursor: &MergeCursor, last: Option<&[u8]>, count: usize, limit: usize) -> (r: Option<
    MergePageCursor,
>)
    requires
        count == limit ==> last is Some,
    ensures
        r is Some <==> count == limit,
        r matches Some(page) ==> page.repository == cursor.repository && page.job == cursor.job
            && page.plan_root == cursor.plan_root && page.after@ == last->0@,
{
    if count != limit {
        return None;
    }
    match last {
        Some(key) => Some(
            MergePageCursor {
                repository: cursor.repository,
                job: cursor.job,
                plan_root: cursor.plan_root,
                after: to_vec(key),
            },
        ),
        None => None,
    }
}

/// What is wrong with a key that is to name a merge base.
pub open spec fn base_key_fault(key: Seq<u8>) -> Option<Fault> {
    if !has_prefix(key, base_result_prefix()) {
        Some(fault(ErrorCode::CorruptCommit, "merge-state key uses the wrong namespace"))
    } else if key.len() != 34 {
        Some(fault(ErrorCode::CorruptCommit, "merge-state commit key has the wrong length"))
    } else {
        None
    }
}

/// One page of merge bases, from the keys that were read. The first key that names none decides the error.
pub fn merge_base_page(keys: &Vec<Vec<u8>>) -> (r: Result<Vec<CommitId>, Error>)
    ensures
        match r {
            Ok(bases) => bases@.len() == keys@.len() && forall|i: int|
                0 <= i < keys@.len() ==> #[trigger] keys@[i]@ == base_result_prefix() + bases@[i]@,
            Err(error) => exists|i: int|
                0 <= i < keys@.len() && base_key_fault(#[trigger] keys@[i]@) == Some(error@) && (
                forall|j: int| 0 <= j < i ==> base_key_fault(#[trigger] keys@[j]@) is None),
        },
{
    let mut bases: Vec<CommitId> = Vec::new();
    let mut i: usize = 0;
    while i < keys.len()
        invariant
            i <= keys@.len(),
            bases@.len() == i,
            forall|j: int|
                0 <= j < i ==> #[trigger] keys@[j]@ == base_result_prefix() + bases@[j]@,
            forall|j: int| 0 <= j < i ==> base_key_fault(#[trigger] keys@[j]@) is None,
        decreases keys.len() - i,
    {
        match commit_from_suffix(&keys[i], &merge_base_result_prefix()) {
            Ok(base) => {
                assert(base_key_fault(keys@[i as int]@) is None) by {
                    let key = keys@[i as int]@;
                    assert(key.subrange(0, 2) =~= base_result_prefix());
                }
                bases.push(base);
            },
            Err(error) => {
                assert(base_key_fault(keys@[i as int]@) == Some(error@));
                return Err(error);
            },
        }
        i += 1;
    }
    Ok(bases)
}

/// A change that a merge makes, by the versions before and after.
#[derive(Clone, Debug, PartialEq, Eq)]
pub struct MergeChange {
    pub key: Vec<u8>,
    pub from: Option<ObjectVersionId>,
    pub to: Option<ObjectVersionId>,
}

/// A key on which both sides disagree, by the versions of the base and of each side.
#[derive(Clone, Debug, PartialEq, Eq)]
pub struct MergeConflict {
    pub key: Vec<u8>,
    pub base: Option<ObjectVersionId>,
    pub ours: Option<ObjectVersionId>,
    pub theirs: Option<ObjectVersionId>,
}

/// The versions that the values of a plan entry name.
#[derive(Clone, Copy, Debug)]
pub struct EntryVersions {
    pub base: Option<ObjectVersionId>,
    pub ours: Option<ObjectVersionId>,
    pub theirs: Option<ObjectVersionId>,
    pub selected: Option<ObjectVersionId>,
}

/// The change that a plan entry stands for.
pub fn merge_change_from_record(record: &MergePlanEntry, versions: EntryVersions) -> (r: MergeChange)
    ensures
        r.key@ == record.key@,
        r.from == versions.ours,
        r.to == versions.selected,
{
    MergeChange { key: to_vec(&record.key), from: versions.ours, to: versions.selected }
}

/// The disagreement that a plan entry stands for.
pub fn merge_conflict_from_record(record: &MergePlanEntry, versions: EntryVersions) -> (r: Result<
    MergeConflict,
    Error,
>)
    ensures
        match r {
            Ok(conflict) => record.conflict && conflict.key@ == record.key@ && conflict.base
                == versions.base && conflict.ours == versions.ours && conflict.theirs
                == versions.theirs,
            Err(error) => !record.conflict && error@ == fault(
                ErrorCode::CorruptCommit,
                "merge conflict index points to a non-conflict record",
            ),
        },
{
    if !record.conflict {
        return Err(
            Error::new(
                ErrorCode::CorruptCommit,
                "merge conflict index points to a non-conflict record",
            ),
        );
    }
    Ok(
        MergeConflict {
            key: to_vec(&record.key),
            base: versions.base,
            ours: versions.ours,
            theirs: versions.theirs,
        },
    )
}

/// How a walk along first parents goes on.
#[derive(Clone, Copy, Debug)]
pub enum FirstParentStep {
    Found,
    NotFound,
    Continue(CommitId),
}

/// The highest of the first `n` jumps that does not pass below a generation.
pub open spec fn highest_jump(jumps: Seq<CommitId>, generations: Seq<u64>, floor: u64, n: int) -> Option<
    CommitId,
>
    decreases n,
{
    if n <= 0 {
        None
    } else if generations[n - 1] >= floor {
        Some(jumps[n - 1])
    } else {
        highest_jump(jumps, generations, floor, n - 1)
    }
}

/// One step of a walk from `descendant` towards `ancestor`, along first parents: the longest jump that
/// does not pass the ancestor's generation, or the first parent.
pub open spec fn first_parent_step(
    ancestor: CommitId,
    floor: u64,
    descendant: CommitId,
    entry: JournalCommitGraphEntry,
    generations: Seq<u64>,
) -> FirstParentStep {
    let jump = highest_jump(
        entry.first_parent_jumps@,
        generations,
        floor,
        generations.len() as int,
    );
    if descendant == ancestor {
        FirstParentStep::Found
    } else if entry.generation.0 <= floor {
        FirstParentStep::NotFound
    } else if jump is Some {
        FirstParentStep::Continue(jump->0)
    } else if entry.parents@.len() > 0 {
        FirstParentStep::Continue(entry.parents@[0])
    } else {
        FirstParentStep::NotFound
    }
}

/// One step of the question whether `ancestor` is on the line of first parents of `descendant`.
/// `generations` gives the generation of each jump.
pub fn is_first_parent_ancestor(
    ancestor: CommitId,
    floor: u64,
    descendant: CommitId,
    entry: &JournalCommitGraphEntry,
    generations: &Vec<u64>,
) -> (r: FirstParentStep)
    requires
        generations@.len() == entry.first_parent_jumps@.len(),
    ensures
        r == first_parent_step(ancestor, floor, descendant, *entry, generations@),
{
    if descendant == ancestor {
        return FirstParentStep::Found;
    }
    if entry.generation.0 <= floor {
        return FirstParentStep::NotFound;
    }
    let mut i: usize = generations.len();
    while i > 0
        invariant
            i <= generations@.len(),
            generations@.len() == entry.first_parent_jumps@.len(),
            descendant != ancestor,
            entry.generation.0 > floor,
            highest_jump(
                entry.first_parent_jumps@,
                generations@,
                floor,
                generations@.len() as int,
            ) == highest_jump(entry.first_parent_jumps@, generations@, floor, i as int),
        decreases i,
    {
        if generations[i - 1] >= floor {
            return FirstParentStep::Continue(entry.first_parent_jumps[i - 1]);
        }
        i -= 1;
    }
    if entry.parents.len() > 0 {
        FirstParentStep::Continue(entry.parents[0])
    } else {
        FirstParentStep::NotFound
    }
}

/// The commit `n` first parents above another, where there is one.
pub open spec fn first_parent_at(
    parents: spec_fn(CommitId) -> Seq<CommitId>,
    c: CommitId,
    n: nat,
) -> Option<CommitId>
    decreases n,
{
    if n == 0 {
        Some(c)
    } else if parents(c).len() == 0 {
        None
    } else {
        first_parent_at(parents, parents(c)[0], (n - 1) as nat)
    }
}

/// Whether an entry says of a commit what the graph says, with jumps along its first parents.
pub open spec fn true_entry(
    entry: JournalCommitGraphEntry,
    generations: Seq<u64>,
    parents: spec_fn(CommitId) -> Seq<CommitId>,
    generation: spec_fn(CommitId) -> u64,
) -> bool {
    &&& entry.parents@ == parents(entry.commit)
    &&& entry.generation.0 == generation(entry.commit)
    &&& generations.len() == entry.first_parent_jumps@.len()
    &&& forall|i: int|
        0 <= i < generations.len() ==> #[trigger] generations[i] == generation(
            entry.first_parent_jumps@[i],
        )
    &&& forall|i: int|
        0 <= i < entry.first_parent_jumps@.len() ==> exists|n: nat|
            n >= 1 && #[trigger] first_parent_at(parents, entry.commit, n) == Some(
                #[trigger] entry.first_parent_jumps@[i],
            )
}

/// Whether generations fall from each commit to its first parent.
pub open spec fn falling(
    parents: spec_fn(CommitId) -> Seq<CommitId>,
    generation: spec_fn(CommitId) -> u64,
) -> bool {
    forall|c: CommitId|
        #![trigger parents(c)]
        parents(c).len() > 0 ==> generation(parents(c)[0]) < generation(c)
}

proof fn lemma_first_parent_falls(
    parents: spec_fn(CommitId) -> Seq<CommitId>,
    generation: spec_fn(CommitId) -> u64,
    c: CommitId,
    n: nat,
)
    requires
        falling(parents, generation),
        first_parent_at(parents, c, n) is Some,
    ensures
        generation(first_parent_at(parents, c, n)->0) + n <= generation(c),
    decreases n,
{
    if n > 0 {
        lemma_first_parent_falls(parents, generation, parents(c)[0], (n - 1) as nat);
    }
}

proof fn lemma_first_parent_compose(
    parents: spec_fn(CommitId) -> Seq<CommitId>,
    c: CommitId,
    n: nat,
    m: nat,
)
    requires
        first_parent_at(parents, c, n) is Some,
    ensures
        first_parent_at(parents, first_parent_at(parents, c, n)->0, m) == first_parent_at(
            parents,
            c,
            n + m,
        ),
    decreases n,
{
    if n > 0 {
        lemma_first_parent_compose(parents, parents(c)[0], (n - 1) as nat, m);
        assert((n - 1) as nat + m == (n + m - 1) as nat);
    }
}

proof fn lemma_highest_jump(jumps: Seq<CommitId>, generations: Seq<u64>, floor: u64, n: int)
    requires
        0 <= n <= generations.len(),
        generations.len() == jumps.len(),
    ensures
        highest_jump(jumps, generations, floor, n) is Some ==> exists|i: int|
            0 <= i < n && #[trigger] jumps[i] == highest_jump(jumps, generations, floor, n)->0
                && generations[i] >= floor,
    decreases n,
{
    if n > 0 {
        if generations[n - 1] >= floor {
            assert(jumps[n - 1] == highest_jump(jumps, generations, floor, n)->0);
        } else {
            lemma_highest_jump(jumps, generations, floor, n - 1);
        }
    }
}

/// The walk neither misses an ancestor nor makes one up: each step says that the ancestor is found
/// only where it stands, says that it is not there only when it is not on the line, and otherwise
/// goes on to a lower commit whose line holds the ancestor exactly when the present one does.
pub proof fn law_first_parent_walk_is_exact(
    ancestor: CommitId,
    entry: JournalCommitGraphEntry,
    generations: Seq<u64>,
    parents: spec_fn(CommitId) -> Seq<CommitId>,
    generation: spec_fn(CommitId) -> u64,
)
    requires
        true_entry(entry, generations, parents, generation),
        falling(parents, generation),
    ensures
        match first_parent_step(ancestor, generation(ancestor), entry.commit, entry, generations) {
            FirstParentStep::Found => entry.commit == ancestor,
            FirstParentStep::NotFound => forall|n: nat|
                first_parent_at(parents, entry.commit, n) != Some(ancestor),
            FirstParentStep::Continue(next) => {
                &&& generation(next) < generation(entry.commit)
                &&& (exists|n: nat| #[trigger]
                    first_parent_at(parents, next, n) == Some(ancestor)) <==> (exists|n: nat| #[trigger]
                    first_parent_at(parents, entry.commit, n) == Some(ancestor))
            },
        },
{
    let c = entry.commit;
    let floor = generation(ancestor);
    match first_parent_step(ancestor, floor, c, entry, generations) {
        FirstParentStep::Found => {},
        FirstParentStep::NotFound => {
            assert forall|n: nat| first_parent_at(parents, c, n) != Some(ancestor) by {
                if first_parent_at(parents, c, n) == Some(ancestor) {
                    lemma_first_parent_falls(parents, generation, c, n);
                }
            }
        },
        FirstParentStep::Continue(next) => {
            let jump = highest_jump(
                entry.first_parent_jumps@,
                generations,
                floor,
                generations.len() as int,
            );
            let k: nat = if jump is Some {
                lemma_highest_jump(
                    entry.first_parent_jumps@,
                    generations,
                    floor,
                    generations.len() as int,
                );
                let i = choose|i: int|
                    0 <= i < generations.len() && #[trigger] entry.first_parent_jumps@[i] == next
                        && generations[i] >= floor;
                assert(generations[i] == generation(next));
                choose|n: nat|
                    n >= 1 && #[trigger] first_parent_at(parents, c, n) == Some(next)
            } else {
                assert(first_parent_at(parents, next, 0) == Some(next));
                1
            };
            if jump is None {
                assert(first_parent_at(parents, parents(c)[0], 0) == Some(next));
                assert(first_parent_at(parents, c, 1) == Some(next));
            }
            assert(first_parent_at(parents, c, k) == Some(next) && k >= 1);
            lemma_first_parent_falls(parents, generation, c, k);
            if exists|n: nat| #[trigger] first_parent_at(parents, next, n) == Some(ancestor) {
                let n = choose|n: nat| #[trigger] first_parent_at(parents, next, n) == Some(ancestor);
                lemma_first_parent_compose(parents, c, k, n);
                assert(first_parent_at(parents, c, k + n) == Some(ancestor));
            }
            if exists|n: nat| #[trigger] first_parent_at(parents, c, n) == Some(ancestor) {
                let n = choose|n: nat| #[trigger] first_parent_at(parents, c, n) == Some(ancestor);
                if n < k {
                    lemma_first_parent_compose(parents, c, n, (k - n) as nat);
                    lemma_first_parent_falls(parents, generation, ancestor, (k - n) as nat);
                    if jump is None {
                        assert(n == 0);
                    }
                    assert(generation(next) < floor);
                    assert(false);
                }
                lemma_first_parent_compose(parents, c, k, (n - k) as nat);
                assert(first_parent_at(parents, next, (n - k) as nat) == Some(ancestor));
            }
        },
    }
}

/// The end of a prefix's range is above every key with the prefix, and every key between the prefix
/// and the end has it.
pub proof fn law_prefix_range_is_exact(prefix: Seq<u8>, key: Seq<u8>)
    requires
        prefix_end_of(prefix) is Some,
    ensures
        has_prefix(key, prefix) <==> !lex_lt(key, prefix) && lex_lt(key, prefix_end_of(prefix)->0),
    decreases prefix.len(),
{
    let end = prefix_end_of(prefix)->0;
    if prefix.last() == 255 {
        let shorter = prefix.drop_last();
        law_prefix_range_is_exact(shorter, key);
        lemma_prefix_grows(shorter, 255, key);
        assert(prefix =~= shorter.push(255));
    } else {
        let shorter = prefix.drop_last();
        assert(prefix =~= shorter.push(prefix.last()));
        lemma_prefix_step(shorter, prefix.last(), key);
    }
}

/// A key is in the range of a prefix, or beyond it, as its bytes compare.
proof fn lemma_prefix_step(shorter: Seq<u8>, last: u8, key: Seq<u8>)
    requires
        last < 255,
    ensures
        has_prefix(key, shorter.push(last)) <==> !lex_lt(key, shorter.push(last)) && lex_lt(
            key,
            shorter.push((last + 1) as u8),
        ),
{
    let low = shorter.push(last);
    let high = shorter.push((last + 1) as u8);
    let n = shorter.len() as int;
    if key.len() <= n {
        let head = shorter.take(key.len() as int);
        let tail_low = low.skip(key.len() as int);
        let tail_high = high.skip(key.len() as int);
        assert(low =~= head + tail_low);
        assert(high =~= head + tail_high);
        assert(key =~= key + Seq::<u8>::empty());
        lemma_lex_append(key, head, Seq::<u8>::empty(), tail_low);
        lemma_lex_append(key, head, Seq::<u8>::empty(), tail_high);
        assert(lex_lt(key, low) == lex_lt(key, high));
    } else {
        let head = key.take(n);
        let rest = key.skip(n);
        assert(key =~= head + rest);
        assert(low =~= shorter + seq![last]);
        assert(high =~= shorter + seq![(last + 1) as u8]);
        lemma_lex_append(head, shorter, rest, seq![last]);
        lemma_lex_append(head, shorter, rest, seq![(last + 1) as u8]);
        if head == shorter {
            assert(rest[0] == key[n]);
            assert(seq![last].drop_first() =~= Seq::<u8>::empty());
            assert(seq![(last + 1) as u8].drop_first() =~= Seq::<u8>::empty());
            reveal_with_fuel(lex_lt, 2);
            if key[n] == last {
                assert(key.subrange(0, n + 1) =~= low);
            } else if has_prefix(key, low) {
                assert(key.subrange(0, n + 1)[n] == key[n]);
                assert(low[n] == last);
            }
        } else if has_prefix(key, low) {
            assert(head =~= shorter) by {
                assert forall|i: int| 0 <= i < n implies head[i] == shorter[i] by {
                    assert(key.subrange(0, n + 1)[i] == low[i]);
                }
            }
        }
    }
}

/// Among the keys with a prefix, those that go on with `0xff` are the ones not below it.
proof fn lemma_prefix_grows(shorter: Seq<u8>, last: u8, key: Seq<u8>)
    requires
        last == 255,
    ensures
        has_prefix(key, shorter.push(last)) <==> has_prefix(key, shorter) && !lex_lt(
            key,
            shorter.push(last),
        ),
        lex_lt(key, shorter) ==> lex_lt(key, shorter.push(last)),
{
    let low = shorter.push(last);
    let n = shorter.len() as int;
    if lex_lt(key, shorter) {
        lemma_lex_extends(shorter, seq![last]);
        assert(shorter + seq![last] =~= low);
        lemma_lex_transitive(key, shorter, low);
    }
    if has_prefix(key, shorter) {
        let rest = key.skip(n);
        assert(key =~= shorter + rest);
        assert(low =~= shorter + seq![last]);
        lemma_lex_append(shorter, shorter, rest, seq![last]);
        assert(seq![last].drop_first() =~= Seq::<u8>::empty());
        reveal_with_fuel(lex_lt, 2);
        if rest.len() > 0 {
            assert(rest[0] == key[n]);
            if key[n] == 255 {
                assert(key.subrange(0, n + 1) =~= low);
            } else if has_prefix(key, low) {
                assert(key.subrange(0, n + 1)[n] == low[n]);
            }
        }
    }
    if has_prefix(key, low) {
        assert(key.subrange(0, n) =~= shorter) by {
            assert forall|i: int| 0 <= i < n implies key.subrange(0, n)[i] == shorter[i] by {
                assert(key.subrange(0, n + 1)[i] == low[i]);
            }
        }
    }
}

/// A byte string sorts before its extensions.
proof fn lemma_lex_extends(a: Seq<u8>, more: Seq<u8>)
    requires
        more.len() > 0,
    ensures
        lex_lt(a, a + more),
{
    assert(a =~= a + Seq::<u8>::empty());
    lemma_lex_append(a, a, Seq::<u8>::empty(), more);
}

/// The pages of a plan's entries, each going on after the last key of the one before as long as it is full;
/// `most` bounds how many.
pub open spec fn full_pages<T: Keyed>(
    list: Seq<T>,
    after: Option<Seq<u8>>,
    limit: int,
    most: nat,
) -> Seq<Seq<T>>
    decreases most,
{
    let left = entries_after(list, after);
    if left.len() < limit || most == 0 {
        seq![left]
    } else {
        seq![left.take(limit)] + full_pages(
            list,
            Some(left[limit - 1].sort_key()),
            limit,
            (most - 1) as nat,
        )
    }
}

/// The pages after the first entries of a list: the next page, and those after it.
proof fn lemma_full_pages_at<T: Keyed>(list: Seq<T>, n: int, limit: int, most: nat)
    requires
        sorted(list),
        0 <= n <= list.len(),
        limit > 0,
        list.len() - n < most,
    ensures
        full_pages(list, place_after(list, n), limit, most) == if n + limit <= list.len() {
            seq![list.subrange(n, n + limit)] + full_pages(
                list,
                place_after(list, n + limit),
                limit,
                (most - 1) as nat,
            )
        } else {
            seq![list.skip(n)]
        },
{
    lemma_left_after(list, n);
    let left = list.skip(n);
    if n + limit <= list.len() {
        assert(left.take(limit) =~= list.subrange(n, n + limit));
        assert(left[limit - 1] == list[n + limit - 1]);
    }
}

/// The pages of bases, of changes or of conflicts hold every entry of the plan once and in order, and each page
/// but the last is full.
#[verifier::spinoff_prover]
pub proof fn law_plan_pages_are_the_whole_plan<T: Keyed>(list: Seq<T>, n: int, limit: int, most: nat)
    requires
        sorted(list),
        0 <= n <= list.len(),
        limit > 0,
        list.len() - n < most,
    ensures
        ({
            let pages = full_pages(list, place_after(list, n), limit, most);
            &&& pages.len() > 0
            &&& pages.flatten() == list.skip(n)
            &&& forall|i: int| 0 <= i < pages.len() - 1 ==> (#[trigger] pages[i]).len() == limit
            &&& pages.last().len() < limit
        }),
    decreases most,
{
    lemma_full_pages_at(list, n, limit, most);
    if n + limit <= list.len() {
        let next = n + limit;
        let page = list.subrange(n, next);
        law_plan_pages_are_the_whole_plan(list, next, limit, (most - 1) as nat);
        let rest = full_pages(list, place_after(list, next), limit, (most - 1) as nat);
        lemma_page_before(page, rest, limit);
        assert(page + list.skip(next) =~= list.skip(n));
    } else {
        seq![list.skip(n)].lemma_flatten_one_element();
    }
}

/// A page of a plan goes on with a place exactly where it is of the same merge and the same plan, and lies in the part
/// of the plan that is listed.
pub proof fn law_plan_page_goes_on_in_its_own_part(
    kind: MergePageKind,
    cursor: MergeCursor,
    page: MergePageCursor,
)
    ensures
        continues(kind, cursor, page) <==> page.repository == cursor.repository && page.job == cursor.job
            && page.plan_root == cursor.plan_root && page.after@.len() >= 2 && page.after@.take(2) == (
        match kind {
            MergePageKind::Bases => seq![0x72u8, 0x2f],
            MergePageKind::Changes => seq![0x63u8, 0x2f],
            MergePageKind::Conflicts => seq![0x66u8, 0x2f],
        }),
{
    if page.after@.len() >= 2 {
        assert(page.after@.subrange(0, 2) =~= page.after@.take(2));
    }
}

/// A page holds no more than is asked for and no more than may be.
pub proof fn law_page_keeps_to_both_bounds(a: usize, b: u32)
    ensures
        at_most(a, b) <= a,
        at_most(a, b) <= b,
        at_most(a, b) == a || at_most(a, b) == b,
{
}

/// The jump that a walk takes goes as far as it may without passing the generation that it looks for: it is the last
/// of the jumps that stay at or above it.
pub proof fn law_jump_goes_as_far_as_it_may(
    jumps: Seq<CommitId>,
    generations: Seq<u64>,
    floor: u64,
    n: int,
    i: int,
)
    requires
        0 <= n <= jumps.len(),
        jumps.len() == generations.len(),
    ensures
        0 <= i < n && generations[i] >= floor && (forall|k: int|
            i < k < n ==> (#[trigger] generations[k]) < floor) ==> highest_jump(
            jumps,
            generations,
            floor,
            n,
        ) == Some(jumps[i]),
        (forall|k: int| 0 <= k < n ==> (#[trigger] generations[k]) < floor) <==> highest_jump(
            jumps,
            generations,
            floor,
            n,
        ) is None,
    decreases n,
{
    if n > 0 {
        law_jump_goes_as_far_as_it_may(jumps, generations, floor, n - 1, i);
        if generations[n - 1] >= floor {
            if 0 <= i < n - 1 && (forall|k: int| i < k < n ==> (#[trigger] generations[k]) < floor) {
                assert(generations[n - 1] < floor);
            }
        }
    }
}

/// A walk along first parents ends where it finds what it looks for, and gives up where nothing further back can be
/// it; until then it goes back.
pub proof fn law_walk_step_goes_back_or_ends(
    ancestor: CommitId,
    floor: u64,
    descendant: CommitId,
    entry: JournalCommitGraphEntry,
    generations: Seq<u64>,
)
    ensures
        ({
            let step = first_parent_step(ancestor, floor, descendant, entry, generations);
            &&& step is Found <==> descendant == ancestor
            &&& descendant != ancestor && entry.generation.0 <= floor ==> step is NotFound
            &&& descendant != ancestor && entry.generation.0 > floor && entry.parents@.len() > 0
                ==> step is Continue
            &&& step matches FirstParentStep::Continue(next) ==> (entry.parents@.len() > 0 && next
                == entry.parents@[0]) || highest_jump(
                entry.first_parent_jumps@,
                generations,
                floor,
                generations.len() as int,
            ) == Some(next)
        }),
{
}

/// A key is that of a base exactly where it lies among the bases and holds a whole name.
pub proof fn law_base_key_holds_a_whole_name(key: Seq<u8>)
    ensures
        base_key_fault(key) is None <==> key.len() == 34 && key[0] == 0x72 && key[1] == 0x2f,
{
    if key.len() == 34 {
        let head = key.subrange(0, 2);
        assert(head[0] == key[0] && head[1] == key[1]);
        if key[0] == 0x72 && key[1] == 0x2f {
            assert(head =~= seq![0x72u8, 0x2f]);
        }
    }
}

/// The first parents of a commit are followed one by one: none of them is skipped, and no other parent is followed.
pub proof fn law_first_parents_are_followed_one_by_one(
    parents: spec_fn(CommitId) -> Seq<CommitId>,
    c: CommitId,
    n: nat,
)
    ensures
        first_parent_at(parents, c, 0) == Some(c),
        parents(c).len() > 0 ==> first_parent_at(parents, c, n + 1) == first_parent_at(
            parents,
            parents(c)[0],
            n,
        ),
        parents(c).len() == 0 ==> first_parent_at(parents, c, n + 1) is None,
{
}

} // verus!
