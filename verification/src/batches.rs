//! Long changes made in batches: what a list of staged changes does to a snapshot, and what becomes of
//! a batch when a page of the work is over.
use crate::error::{fault, outcome, Error, ErrorCode, Fault};
use crate::model::{KindView, StagedMutation};
use crate::publish::drafted_kind;
use vstd::prelude::*;

verus! {

/// The live objects of a snapshot after one staged change.
pub open spec fn live_after_one(live: Map<Seq<u8>, KindView>, mutation: StagedMutation) -> Map<
    Seq<u8>,
    KindView,
> {
    match mutation {
        StagedMutation::Put(put) => live.insert(put.key@, drafted_kind(mutation)@),
        StagedMutation::Delete { key } => live.remove(key@),
    }
}

/// The live objects of a snapshot after a list of staged changes.
pub open spec fn live_after(live: Map<Seq<u8>, KindView>, mutations: Seq<StagedMutation>) -> Map<
    Seq<u8>,
    KindView,
>
    decreases mutations.len(),
{
    if mutations.len() == 0 {
        live
    } else {
        live_after_one(live_after(live, mutations.drop_last()), mutations.last())
    }
}

/// Whether a staged change brings its key to what a snapshot holds.
pub open spec fn brings_to(target: Map<Seq<u8>, KindView>, mutation: StagedMutation) -> bool {
    match mutation {
        StagedMutation::Put(put) => target.contains_key(put.key@) && target[put.key@]
            == drafted_kind(mutation)@,
        StagedMutation::Delete { key } => !target.contains_key(key@),
    }
}

/// Whether a key holds the same in two snapshots.
pub open spec fn same_at(a: Map<Seq<u8>, KindView>, b: Map<Seq<u8>, KindView>, key: Seq<u8>) -> bool {
    a.contains_key(key) == b.contains_key(key) && (a.contains_key(key) ==> a[key] == b[key])
}

/// Whether a list of staged changes names a key.
pub open spec fn changes_key(mutations: Seq<StagedMutation>, key: Seq<u8>) -> bool {
    exists|i: int| 0 <= i < mutations.len() && (#[trigger] mutations[i]).spec_key() == key
}

/// Staged changes may be published in any number of batches: what counts is their order.
pub proof fn law_batches_compose(
    live: Map<Seq<u8>, KindView>,
    first: Seq<StagedMutation>,
    second: Seq<StagedMutation>,
)
    ensures
        live_after(live, first + second) == live_after(live_after(live, first), second),
    decreases second.len(),
{
    if second.len() == 0 {
        assert(first + second =~= first);
    } else {
        let all = first + second;
        assert(all.drop_last() =~= first + second.drop_last());
        assert(all.last() == second.last());
        law_batches_compose(live, first, second.drop_last());
    }
}

/// Staged changes that bring every key on which two snapshots differ to what the second holds turn the
/// first into the second.
pub proof fn law_changes_turn_one_snapshot_into_the_other(
    from: Map<Seq<u8>, KindView>,
    to: Map<Seq<u8>, KindView>,
    mutations: Seq<StagedMutation>,
)
    requires
        forall|i: int|
            0 <= i < mutations.len() ==> brings_to(to, #[trigger] mutations[i]),
        forall|key: Seq<u8>| #[trigger] same_at(from, to, key) || changes_key(mutations, key),
    ensures
        live_after(from, mutations) == to,
{
    assert forall|key: Seq<u8>| #[trigger]
        same_at(live_after(from, mutations), to, key) by {
        lemma_key_after(from, to, mutations, key);
        assert(same_at(from, to, key) || changes_key(mutations, key));
    }
    let after = live_after(from, mutations);
    assert forall|key: Seq<u8>| after.contains_key(key) == to.contains_key(key) by {
        assert(same_at(after, to, key));
    }
    assert forall|key: Seq<u8>| after.contains_key(key) implies after[key] == to[key] by {
        assert(same_at(after, to, key));
    }
    assert(after =~= to);
}

proof fn lemma_key_after(
    from: Map<Seq<u8>, KindView>,
    to: Map<Seq<u8>, KindView>,
    mutations: Seq<StagedMutation>,
    key: Seq<u8>,
)
    requires
        forall|i: int|
            0 <= i < mutations.len() ==> brings_to(to, #[trigger] mutations[i]),
    ensures
        changes_key(mutations, key) ==> same_at(live_after(from, mutations), to, key),
        !changes_key(mutations, key) ==> same_at(live_after(from, mutations), from, key),
    decreases mutations.len(),
{
    if mutations.len() > 0 {
        let before = mutations.drop_last();
        assert forall|i: int| 0 <= i < before.len() implies brings_to(to, #[trigger] before[i]) by {
            assert(before[i] == mutations[i]);
        }
        lemma_key_after(from, to, before, key);
        let last = mutations.last();
        assert(brings_to(to, mutations[mutations.len() - 1]));
        if last.spec_key() == key {
            assert(mutations[mutations.len() - 1].spec_key() == key);
        } else {
            if changes_key(mutations, key) {
                let i = choose|i: int|
                    0 <= i < mutations.len() && (#[trigger] mutations[i]).spec_key() == key;
                assert(before[i].spec_key() == key);
            }
            if changes_key(before, key) {
                let i = choose|i: int|
                    0 <= i < before.len() && (#[trigger] before[i]).spec_key() == key;
                assert(mutations[i].spec_key() == key);
            }
        }
    }
}

/// What becomes of a batch when a page of the work is over.
#[derive(Clone, Copy, Debug, PartialEq, Eq, Structural)]
pub enum BatchEnd {
    /// It has room and there is more to do: it is saved under the next number.
    Checkpoint { sequence: u64 },
    /// There is no more to do and nothing was changed.
    Abort,
    /// It is full, or there is no more to do.
    Publish,
}

/// What becomes of a batch: it is published when it is full or the work is over, unless it is empty.
pub open spec fn batch_end_of(
    mutations: nat,
    limit: u32,
    finished: bool,
    sequence: u64,
    overflow: &str,
) -> Result<BatchEnd, Fault> {
    if mutations < limit && !finished {
        if sequence == u64::MAX {
            Err(fault(ErrorCode::InvalidLimit, overflow))
        } else {
            Ok(BatchEnd::Checkpoint { sequence: (sequence + 1) as u64 })
        }
    } else if mutations == 0 {
        Ok(BatchEnd::Abort)
    } else {
        Ok(BatchEnd::Publish)
    }
}

/// Says what becomes of a batch.
pub fn batch_end(
    mutations: &Vec<StagedMutation>,
    limit: u32,
    finished: bool,
    sequence: u64,
    overflow: &str,
) -> (r: Result<BatchEnd, Error>)
    ensures
        outcome(r) == batch_end_of(mutations@.len(), limit, finished, sequence, overflow),
{
    if mutations.len() < limit as usize && !finished {
        return match sequence.checked_add(1) {
            None => Err(Error::new(ErrorCode::InvalidLimit, overflow)),
            Some(sequence) => Ok(BatchEnd::Checkpoint { sequence }),
        };
    }
    if mutations.len() == 0 {
        return Ok(BatchEnd::Abort);
    }
    Ok(BatchEnd::Publish)
}

/// How many changes a page may still add to a batch: no more than asked for, no more than it has room
/// for.
pub open spec fn batch_room_of(
    mutations: nat,
    limit: u32,
    wanted: usize,
    too_many: &str,
    full: &str,
) -> Result<usize, Fault> {
    if mutations > limit {
        Err(fault(ErrorCode::CorruptCommit, too_many))
    } else if mutations == limit {
        Err(fault(ErrorCode::CorruptCommit, full))
    } else if wanted <= limit - mutations {
        Ok(wanted)
    } else {
        Ok((limit - mutations) as usize)
    }
}

/// Says how many changes a page may still add to a batch.
pub fn batch_room(
    mutations: &Vec<StagedMutation>,
    limit: u32,
    wanted: usize,
    too_many: &str,
    full: &str,
) -> (r: Result<usize, Error>)
    ensures
        outcome(r) == batch_room_of(mutations@.len(), limit, wanted, too_many, full),
{
    if mutations.len() > limit as usize {
        return Err(Error::new(ErrorCode::CorruptCommit, too_many));
    }
    let remaining: usize = limit as usize - mutations.len();
    if remaining == 0 {
        return Err(Error::new(ErrorCode::CorruptCommit, full));
    }
    if wanted <= remaining {
        Ok(wanted)
    } else {
        Ok(remaining)
    }
}

/// A staged put makes its key live with just what was put, a staged deletion makes its key dead, and no other key
/// is touched.
pub proof fn law_staged_change_touches_only_its_key(
    live: Map<Seq<u8>, KindView>,
    mutation: StagedMutation,
    other: Seq<u8>,
)
    ensures
        mutation matches StagedMutation::Put(put) ==> live_after_one(live, mutation).contains_pair(
            put.key@,
            KindView::Live {
                size: put.size,
                logical_etag: put.logical_etag@,
                checksums: put.checksums,
                attributes: put.attributes@,
            },
        ),
        mutation matches StagedMutation::Delete { key } ==> !live_after_one(
            live,
            mutation,
        ).contains_key(key@),
        (mutation matches StagedMutation::Put(put) ==> put.key@ != other) && (
        mutation matches StagedMutation::Delete { key } ==> key@ != other) ==> live_after_one(
            live,
            mutation,
        ).contains_key(other) == live.contains_key(other) && live_after_one(live, mutation)[other]
            == live[other],
        live_after(live, seq![mutation]) == live_after_one(live, mutation),
{
    assert(seq![mutation].drop_last() =~= Seq::<StagedMutation>::empty());
    assert(live_after(live, seq![mutation].drop_last()) == live);
}

/// A change brings its key to a snapshot exactly where applying it to anything leaves the key as the snapshot has
/// it.
pub proof fn law_bringing_a_key_to_a_snapshot(
    from: Map<Seq<u8>, KindView>,
    target: Map<Seq<u8>, KindView>,
    mutation: StagedMutation,
)
    ensures
        brings_to(target, mutation) <==> {
            let key = match mutation {
                StagedMutation::Put(put) => put.key@,
                StagedMutation::Delete { key } => key@,
            };
            let after = live_after_one(from, mutation);
            after.contains_key(key) == target.contains_key(key) && (after.contains_key(key)
                ==> after[key] == target[key])
        },
{
}

/// A batch is published when it is full or the last and holds something, given up when it is the last and holds
/// nothing, and put off, with a higher sequence number, in every other case. None that waits is ever published
/// empty.
pub proof fn law_batch_ends_when_full_or_last(
    mutations: nat,
    limit: u32,
    finished: bool,
    sequence: u64,
    overflow: &str,
)
    requires
        limit > 0,
    ensures
        ({
            let end = batch_end_of(mutations, limit, finished, sequence, overflow);
            &&& mutations >= limit ==> end == Ok::<BatchEnd, Fault>(BatchEnd::Publish)
            &&& finished && mutations > 0 ==> end == Ok::<BatchEnd, Fault>(BatchEnd::Publish)
            &&& finished && mutations == 0 ==> end == Ok::<BatchEnd, Fault>(BatchEnd::Abort)
            &&& !finished && mutations < limit && sequence < u64::MAX ==> (
            end matches Ok(BatchEnd::Checkpoint { sequence: next }) && next == sequence + 1)
            &&& !finished && mutations < limit && sequence == u64::MAX ==> end is Err
        }),
{
}

/// A batch that is not full takes what is wanted as far as it has room, and never more than its limit; one that is
/// full, or fuller, takes nothing more.
pub proof fn law_batch_room_fills_to_the_limit(
    mutations: nat,
    limit: u32,
    wanted: usize,
    too_many: &str,
    full: &str,
)
    ensures
        mutations >= limit <==> batch_room_of(mutations, limit, wanted, too_many, full) is Err,
        batch_room_of(mutations, limit, wanted, too_many, full) matches Ok(room) ==> {
            &&& room <= wanted
            &&& mutations + room <= limit
            &&& room == wanted || mutations + room == limit
        },
{
}

} // verus!
