//! Bounded caches: commits and node packs within a number of bytes, node locations within a number of
//! entries. The oldest entries leave first.
use crate::bytes::bytes_eq;
use crate::ids::{Cid, CommitId};
use std::sync::Arc;
use vstd::prelude::*;

verus! {

/// An entry of a cache that counts bytes.
#[derive(Debug)]
pub struct SizedEntry<T> {
    pub id: [u8; 32],
    pub value: Arc<T>,
    pub bytes: usize,
}

/// How many bytes some entries have.
pub open spec fn entry_bytes<T>(entries: Seq<SizedEntry<T>>) -> nat
    decreases entries.len(),
{
    if entries.len() == 0 {
        0
    } else {
        entry_bytes(entries.drop_first()) + entries[0].bytes as nat
    }
}

/// The place of an entry.
pub open spec fn entry_at<T>(entries: Seq<SizedEntry<T>>, id: Seq<u8>, i: int) -> bool {
    0 <= i < entries.len() && entries[i].id@ == id
}

/// Whether an entry with this name is there.
pub open spec fn has_entry<T>(entries: Seq<SizedEntry<T>>, id: Seq<u8>) -> bool {
    exists|i: int| #[trigger] entry_at(entries, id, i)
}

/// Whether no name occurs twice.
pub open spec fn distinct_entries<T>(entries: Seq<SizedEntry<T>>) -> bool {
    forall|i: int, j: int|
        0 <= i < j < entries.len() ==> (#[trigger] entries[i]).id@ != (#[trigger] entries[j]).id@
}

/// The entries without the one with this name.
pub open spec fn without<T>(entries: Seq<SizedEntry<T>>, id: Seq<u8>) -> Seq<SizedEntry<T>>
    decreases entries.len(),
{
    if entries.len() == 0 {
        entries
    } else if entries[0].id@ == id {
        entries.drop_first()
    } else {
        seq![entries[0]] + without(entries.drop_first(), id)
    }
}

/// The entries that stay when no more than `room` bytes may: the oldest leave until the rest fits.
pub open spec fn fitting<T>(entries: Seq<SizedEntry<T>>, room: int) -> Seq<SizedEntry<T>>
    decreases entries.len(),
{
    if entries.len() == 0 || entry_bytes(entries) <= room {
        entries
    } else {
        fitting(entries.drop_first(), room)
    }
}

proof fn lemma_without<T>(entries: Seq<SizedEntry<T>>, id: Seq<u8>)
    requires
        distinct_entries(entries),
    ensures
        distinct_entries(without(entries, id)),
        !has_entry(without(entries, id), id),
        forall|i: int| #[trigger]
            entry_at(entries, id, i) ==> without(entries, id) == entries.remove(i)
                && entry_bytes(without(entries, id)) == entry_bytes(entries) - entries[i].bytes,
        !has_entry(entries, id) ==> without(entries, id) == entries,
        entry_bytes(without(entries, id)) <= entry_bytes(entries),
    decreases entries.len(),
{
    if entries.len() > 0 {
        let rest = entries.drop_first();
        let out = without(entries, id);
        assert forall|i: int, j: int| 0 <= i < j < rest.len() implies (#[trigger] rest[i]).id@ != (
        #[trigger] rest[j]).id@ by {
            assert(rest[i] == entries[i + 1] && rest[j] == entries[j + 1]);
        }
        lemma_without(rest, id);
        if entries[0].id@ == id {
            assert(entry_at(entries, id, 0));
            assert forall|i: int| #[trigger] entry_at(entries, id, i) implies out == entries.remove(
                i,
            ) && entry_bytes(out) == entry_bytes(entries) - entries[i].bytes by {
                if i > 0 {
                    assert(entries[0].id@ != entries[i].id@);
                }
                assert(out =~= entries.remove(0));
            }
            if has_entry(out, id) {
                let i = choose|i: int| #[trigger] entry_at(out, id, i);
                assert(entries[0].id@ != entries[i + 1].id@);
            }
        } else {
            let short = without(rest, id);
            assert(out.drop_first() =~= short);
            assert forall|i: int, j: int| 0 <= i < j < out.len() implies (#[trigger] out[i]).id@
                != (#[trigger] out[j]).id@ by {
                if i == 0 {
                    lemma_without_members(rest, id, j - 1);
                    let k = choose|k: int|
                        0 <= k < rest.len() && #[trigger] rest[k] == short[j - 1];
                    assert(entries[k + 1] == rest[k]);
                } else {
                    assert(out[i] == short[i - 1] && out[j] == short[j - 1]);
                }
            }
            if has_entry(out, id) {
                let i = choose|i: int| #[trigger] entry_at(out, id, i);
                assert(i > 0);
                assert(entry_at(short, id, i - 1));
            }
            assert forall|i: int| #[trigger] entry_at(entries, id, i) implies out == entries.remove(
                i,
            ) && entry_bytes(out) == entry_bytes(entries) - entries[i].bytes by {
                assert(i > 0);
                assert(entry_at(rest, id, i - 1));
                assert(short == rest.remove(i - 1));
                assert(out =~= entries.remove(i));
            }
            if !has_entry(entries, id) {
                if has_entry(rest, id) {
                    let i = choose|i: int| #[trigger] entry_at(rest, id, i);
                    assert(entry_at(entries, id, i + 1));
                }
                assert(out =~= entries);
            }
        }
    }
}

proof fn lemma_without_members<T>(entries: Seq<SizedEntry<T>>, id: Seq<u8>, i: int)
    requires
        0 <= i < without(entries, id).len(),
    ensures
        exists|k: int| 0 <= k < entries.len() && #[trigger] entries[k] == without(entries, id)[i],
    decreases entries.len(),
{
    if entries.len() > 0 {
        let rest = entries.drop_first();
        let out = without(entries, id);
        if entries[0].id@ == id {
            assert(entries[i + 1] == out[i]);
        } else if i == 0 {
            assert(entries[0] == out[0]);
        } else {
            lemma_without_members(rest, id, i - 1);
            let k = choose|k: int|
                0 <= k < rest.len() && #[trigger] rest[k] == without(rest, id)[i - 1];
            assert(entries[k + 1] == out[i]);
        }
    }
}

/// What stays is the end of the list, it fits, and nothing that could stay has left.
pub proof fn law_the_newest_stay<T>(entries: Seq<SizedEntry<T>>, room: int) -> (left: int)
    requires
        0 <= room,
    ensures
        0 <= left <= entries.len(),
        fitting(entries, room) == entries.skip(left),
        entry_bytes(fitting(entries, room)) <= room,
        left > 0 ==> entry_bytes(entries.skip(left - 1)) > room,
        distinct_entries(entries) ==> distinct_entries(fitting(entries, room)),
    decreases entries.len(),
{
    if entries.len() == 0 || entry_bytes(entries) <= room {
        assert(entries.skip(0) =~= entries);
        0
    } else {
        let rest = entries.drop_first();
        if distinct_entries(entries) {
            assert forall|i: int, j: int| 0 <= i < j < rest.len() implies (#[trigger] rest[i]).id@
                != (#[trigger] rest[j]).id@ by {
                assert(rest[i] == entries[i + 1] && rest[j] == entries[j + 1]);
            }
        }
        let left = law_the_newest_stay(rest, room);
        assert(rest.skip(left) =~= entries.skip(left + 1));
        if left > 0 {
            assert(rest.skip(left - 1) =~= entries.skip(left));
        } else {
            assert(entries.skip(0) =~= entries);
        }
        left + 1
    }
}

proof fn lemma_bytes_push<T>(entries: Seq<SizedEntry<T>>, entry: SizedEntry<T>)
    ensures
        entry_bytes(entries.push(entry)) == entry_bytes(entries) + entry.bytes,
    decreases entries.len(),
{
    if entries.len() == 0 {
        assert(entries.push(entry).drop_first() =~= Seq::<SizedEntry<T>>::empty());
        assert(entry_bytes(Seq::<SizedEntry<T>>::empty()) == 0);
    } else {
        assert(entries.push(entry).drop_first() =~= entries.drop_first().push(entry));
        lemma_bytes_push(entries.drop_first(), entry);
    }
}

/// Entries in the order in which they leave, with their bytes counted.
#[derive(Debug)]
pub struct SizedList<T> {
    pub entries: Vec<SizedEntry<T>>,
    pub bytes: usize,
    pub max_bytes: usize,
}

impl<T> SizedList<T> {
    /// Whether the count is right, the bound is kept and no name occurs twice.
    pub open spec fn wf(&self) -> bool {
        &&& self.bytes == entry_bytes(self.entries@)
        &&& self.bytes <= self.max_bytes
        &&& distinct_entries(self.entries@)
    }

    /// An empty list.
    pub fn new(max_bytes: usize) -> (r: Self)
        ensures
            r.wf(),
            r.entries@.len() == 0,
            r.max_bytes == max_bytes,
    {
        SizedList { entries: Vec::new(), bytes: 0, max_bytes }
    }

    /// The place of an entry.
    pub fn find(&self, id: &[u8; 32]) -> (r: Option<usize>)
        ensures
            match r {
                Some(i) => entry_at(self.entries@, id@, i as int),
                None => !has_entry(self.entries@, id@),
            },
    {
        let mut i: usize = 0;
        while i < self.entries.len()
            invariant
                i <= self.entries@.len(),
                forall|j: int| 0 <= j < i ==> !(#[trigger] entry_at(self.entries@, id@, j)),
            decreases self.entries.len() - i,
        {
            if bytes_eq(&self.entries[i].id, id) {
                return Some(i);
            }
            i += 1;
        }
        None
    }

    /// Takes an entry out.
    pub fn take(&mut self, id: &[u8; 32]) -> (r: Option<SizedEntry<T>>)
        requires
            old(self).wf(),
        ensures
            final(self).wf(),
            final(self).max_bytes == old(self).max_bytes,
            final(self).entries@ == without(old(self).entries@, id@),
            match r {
                Some(entry) => exists|i: int| #[trigger]
                    entry_at(old(self).entries@, id@, i) && entry == old(self).entries@[i],
                None => !has_entry(old(self).entries@, id@),
            },
    {
        proof {
            lemma_without(self.entries@, id@);
        }
        match self.find(id) {
            None => None,
            Some(i) => {
                let ghost before = self.entries@;
                assert(entry_at(before, id@, i as int));
                let entry = self.entries.remove(i);
                assert(self.entries@ =~= before.remove(i as int));
                self.bytes = self.bytes - entry.bytes;
                Some(entry)
            },
        }
    }

    /// Lets the oldest entries leave until no more than `room` bytes are left.
    pub fn shrink(&mut self, room: usize)
        requires
            old(self).wf(),
        ensures
            final(self).wf(),
            final(self).max_bytes == old(self).max_bytes,
            final(self).entries@ == fitting(old(self).entries@, room as int),
            final(self).bytes <= room,
    {
        let ghost target = fitting(self.entries@, room as int);
        let ghost most = self.max_bytes;
        while self.bytes > room
            invariant
                self.wf(),
                self.max_bytes == most,
                fitting(self.entries@, room as int) == target,
            decreases self.entries.len(),
        {
            let ghost before = self.entries@;
            assert(before.len() > 0) by {
                if before.len() == 0 {
                    assert(entry_bytes(before) == 0);
                }
            }
            let oldest = self.entries.remove(0);
            proof {
                assert(self.entries@ =~= before.drop_first());
                let rest = self.entries@;
                assert forall|i: int, j: int| 0 <= i < j < rest.len() implies (
                #[trigger] rest[i]).id@ != (#[trigger] rest[j]).id@ by {
                    assert(rest[i] == before[i + 1] && rest[j] == before[j + 1]);
                }
            }
            self.bytes = self.bytes - oldest.bytes;
        }
    }

    /// Puts an entry at the end.
    pub fn push(&mut self, id: [u8; 32], value: Arc<T>, bytes: usize)
        requires
            old(self).wf(),
            old(self).bytes + bytes <= old(self).max_bytes,
            !has_entry(old(self).entries@, id@),
        ensures
            final(self).wf(),
            final(self).max_bytes == old(self).max_bytes,
            final(self).entries@ == old(self).entries@.push(SizedEntry { id, value, bytes }),
    {
        let ghost before = self.entries@;
        proof {
            lemma_bytes_push(before, SizedEntry { id, value, bytes });
        }
        self.entries.push(SizedEntry { id, value, bytes });
        self.bytes = self.bytes + bytes;
        proof {
            let now = self.entries@;
            assert forall|i: int, j: int| 0 <= i < j < now.len() implies (#[trigger] now[i]).id@
                != (#[trigger] now[j]).id@ by {
                if j == before.len() {
                    assert(!entry_at(before, id@, i));
                }
            }
        }
    }
}

proof fn lemma_fitting_members<T>(entries: Seq<SizedEntry<T>>, room: int, id: Seq<u8>)
    ensures
        has_entry(fitting(entries, room), id) ==> has_entry(entries, id),
    decreases entries.len(),
{
    if entries.len() > 0 && entry_bytes(entries) > room {
        let rest = entries.drop_first();
        lemma_fitting_members(rest, room, id);
        if has_entry(rest, id) {
            let i = choose|i: int| #[trigger] entry_at(rest, id, i);
            assert(entry_at(entries, id, i + 1));
        }
    }
}

/// Commits by their names. The one that was used least recently leaves first.
#[derive(Debug)]
pub struct CommitMetadataCache<C> {
    pub list: SizedList<C>,
}

impl<C> CommitMetadataCache<C> {
    /// An empty cache.
    pub fn new(max_bytes: usize) -> (r: Self)
        ensures
            r.list.wf(),
            r.list.entries@.len() == 0,
            r.list.max_bytes == max_bytes,
    {
        CommitMetadataCache { list: SizedList::new(max_bytes) }
    }

    /// The commit with a name, which now counts as used last.
    pub fn get(&mut self, id: CommitId) -> (r: Option<Arc<C>>)
        requires
            old(self).list.wf(),
        ensures
            final(self).list.wf(),
            final(self).list.max_bytes == old(self).list.max_bytes,
            match r {
                None => !has_entry(old(self).list.entries@, id@) && final(self).list.entries@
                    == old(self).list.entries@,
                Some(commit) => exists|i: int| #[trigger]
                    entry_at(old(self).list.entries@, id@, i) && commit == old(
                        self,
                    ).list.entries@[i].value && final(self).list.entries@ == without(
                        old(self).list.entries@,
                        id@,
                    ).push(old(self).list.entries@[i]),
            },
    {
        let ghost before = self.list.entries@;
        proof {
            lemma_without(before, id@);
        }
        match self.list.take(id.as_bytes()) {
            None => {
                assert(self.list.entries@ =~= before);
                None
            },
            Some(entry) => {
                let commit = entry.value.clone();
                self.list.push(entry.id, entry.value, entry.bytes);
                Some(commit)
            },
        }
    }

    /// Keeps a commit. One that is too large for the cache is not kept.
    pub fn insert(&mut self, id: CommitId, commit: Arc<C>, bytes: usize)
        requires
            old(self).list.wf(),
        ensures
            final(self).list.wf(),
            final(self).list.max_bytes == old(self).list.max_bytes,
            final(self).list.entries@ == if bytes > old(self).list.max_bytes {
                old(self).list.entries@
            } else {
                fitting(
                    without(old(self).list.entries@, id@),
                    old(self).list.max_bytes - bytes,
                ).push(SizedEntry { id: id.0, value: commit, bytes })
            },
    {
        if bytes > self.list.max_bytes {
            return;
        }
        let ghost before = self.list.entries@;
        proof {
            lemma_without(before, id@);
        }
        let room: usize = self.list.max_bytes - bytes;
        self.list.take(id.as_bytes());
        let ghost middle = self.list.entries@;
        self.list.shrink(room);
        proof {
            lemma_fitting_members(middle, room as int, id@);
        }
        self.list.push(id.0, commit, bytes);
    }
}

/// Node packs by their names. The one that was kept first leaves first.
#[derive(Debug)]
pub struct PackedNodeCache<N> {
    pub list: SizedList<N>,
}

impl<N> PackedNodeCache<N> {
    /// An empty cache.
    pub fn new(max_bytes: usize) -> (r: Self)
        ensures
            r.list.wf(),
            r.list.entries@.len() == 0,
            r.list.max_bytes == max_bytes,
    {
        PackedNodeCache { list: SizedList::new(max_bytes) }
    }

    /// The pack with a name.
    pub fn get(&self, id: &[u8; 32]) -> (r: Option<Arc<N>>)
        ensures
            match r {
                None => !has_entry(self.list.entries@, id@),
                Some(pack) => exists|i: int| #[trigger]
                    entry_at(self.list.entries@, id@, i) && pack == self.list.entries@[i].value,
            },
    {
        match self.list.find(id) {
            None => None,
            Some(i) => Some(self.list.entries[i].value.clone()),
        }
    }

    /// Keeps a pack in place of an older one with its name. One that is too large for the cache is not
    /// kept, and the older one leaves all the same.
    pub fn insert(&mut self, id: [u8; 32], pack: Arc<N>, bytes: usize)
        requires
            old(self).list.wf(),
        ensures
            final(self).list.wf(),
            final(self).list.max_bytes == old(self).list.max_bytes,
            final(self).list.entries@ == if bytes > old(self).list.max_bytes {
                without(old(self).list.entries@, id@)
            } else {
                fitting(
                    without(old(self).list.entries@, id@),
                    old(self).list.max_bytes - bytes,
                ).push(SizedEntry { id, value: pack, bytes })
            },
    {
        let ghost before = self.list.entries@;
        proof {
            lemma_without(before, id@);
        }
        self.list.take(&id);
        if bytes > self.list.max_bytes {
            return;
        }
        let room: usize = self.list.max_bytes - bytes;
        let ghost middle = self.list.entries@;
        self.list.shrink(room);
        proof {
            lemma_fitting_members(middle, room as int, id@);
        }
        self.list.push(id, pack, bytes);
    }
}

/// A node and where it lies.
#[derive(Debug)]
pub struct LocationEntry<L> {
    pub cid: Cid,
    pub location: L,
}

/// Whether no node occurs twice.
pub open spec fn distinct_nodes<L>(entries: Seq<LocationEntry<L>>) -> bool {
    forall|i: int, j: int|
        0 <= i < j < entries.len() ==> (#[trigger] entries[i]).cid != (#[trigger] entries[j]).cid
}

/// The place of a node.
pub open spec fn node_at<L>(entries: Seq<LocationEntry<L>>, cid: Cid, i: int) -> bool {
    0 <= i < entries.len() && entries[i].cid == cid
}

/// The entries with a node's location set: in its place where the node is known, else at the end.
pub open spec fn with_location<L>(entries: Seq<LocationEntry<L>>, cid: Cid, location: L) -> Seq<
    LocationEntry<L>,
> {
    if exists|i: int| #[trigger] node_at(entries, cid, i) {
        let i = choose|i: int| #[trigger] node_at(entries, cid, i);
        entries.update(i, LocationEntry { cid, location })
    } else {
        entries.push(LocationEntry { cid, location })
    }
}

/// The last `n` entries of a list.
pub open spec fn last_of<L>(entries: Seq<LocationEntry<L>>, n: nat) -> Seq<LocationEntry<L>> {
    if entries.len() <= n {
        entries
    } else {
        entries.skip(entries.len() - n)
    }
}

/// Where nodes lie. The node that was met first leaves first.
#[derive(Debug)]
pub struct BoundedNodeLocations<L> {
    pub entries: Vec<LocationEntry<L>>,
    pub capacity: usize,
}

impl<L> BoundedNodeLocations<L> {
    /// Whether the bound is kept and no node occurs twice.
    pub open spec fn wf(&self) -> bool {
        self.entries@.len() <= self.capacity && distinct_nodes(self.entries@)
    }

    /// No locations.
    pub fn new(capacity: usize) -> (r: Self)
        ensures
            r.wf(),
            r.entries@.len() == 0,
            r.capacity == capacity,
    {
        BoundedNodeLocations { entries: Vec::new(), capacity }
    }

    fn find(&self, cid: &Cid) -> (r: Option<usize>)
        ensures
            match r {
                Some(i) => node_at(self.entries@, *cid, i as int),
                None => forall|j: int| !(#[trigger] node_at(self.entries@, *cid, j)),
            },
    {
        let mut i: usize = 0;
        while i < self.entries.len()
            invariant
                i <= self.entries@.len(),
                forall|j: int| 0 <= j < i ==> !(#[trigger] node_at(self.entries@, *cid, j)),
            decreases self.entries.len() - i,
        {
            if self.entries[i].cid == *cid {
                return Some(i);
            }
            i += 1;
        }
        None
    }

    /// Where a node lies, if that is known.
    pub fn get(&self, cid: &Cid) -> (r: Option<&L>)
        ensures
            match r {
                Some(location) => exists|i: int| #[trigger]
                    node_at(self.entries@, *cid, i) && *location == self.entries@[i].location,
                None => forall|j: int| !(#[trigger] node_at(self.entries@, *cid, j)),
            },
    {
        match self.find(cid) {
            None => None,
            Some(i) => Some(&self.entries[i].location),
        }
    }

    /// Notes where a node lies.
    pub fn insert(&mut self, cid: Cid, location: L)
        requires
            old(self).wf(),
        ensures
            final(self).wf(),
            final(self).capacity == old(self).capacity,
            final(self).entries@ == last_of(
                with_location(old(self).entries@, cid, location),
                old(self).capacity as nat,
            ),
    {
        let ghost before = self.entries@;
        let ghost target = with_location(before, cid, location);
        match self.find(&cid) {
            Some(i) => {
                proof {
                    assert(node_at(before, cid, i as int));
                    let k = choose|k: int| #[trigger] node_at(before, cid, k);
                    if k < i {
                        assert(before[k].cid != before[i as int].cid);
                    } else if k > i {
                        assert(before[i as int].cid != before[k].cid);
                    }
                }
                self.entries.set(i, LocationEntry { cid, location });
                assert(self.entries@ =~= target);
                assert(distinct_nodes(self.entries@)) by {
                    assert forall|a: int, b: int| 0 <= a < b < target.len() implies (
                    #[trigger] target[a]).cid != (#[trigger] target[b]).cid by {
                        assert(before[a].cid != before[b].cid);
                    }
                }
            },
            None => {
                self.entries.push(LocationEntry { cid, location });
                assert(self.entries@ =~= target);
                assert(distinct_nodes(self.entries@)) by {
                    assert forall|a: int, b: int| 0 <= a < b < target.len() implies (
                    #[trigger] target[a]).cid != (#[trigger] target[b]).cid by {
                        if b == before.len() {
                            assert(!node_at(before, cid, a));
                        }
                    }
                }
                if self.entries.len() > self.capacity {
                    self.entries.remove(0);
                    proof {
                        let now = self.entries@;
                        assert(now =~= target.skip(1));
                        assert forall|a: int, b: int| 0 <= a < b < now.len() implies (
                        #[trigger] now[a]).cid != (#[trigger] now[b]).cid by {
                            assert(now[a] == target[a + 1] && now[b] == target[b + 1]);
                        }
                    }
                }
            },
        }
    }
}

/// What was just kept is found, unless it is too large to keep; and a cache never outgrows its bound.
pub proof fn law_kept_commit_is_found<T>(entries: Seq<SizedEntry<T>>, entry: SizedEntry<T>, max_bytes: int)
    requires
        entry.bytes <= max_bytes,
    ensures
        ({
            let kept = fitting(without(entries, entry.id@), max_bytes - entry.bytes).push(entry);
            has_entry(kept, entry.id@) && kept.last() == entry && entry_bytes(kept) <= max_bytes
        }),
{
    let rest = fitting(without(entries, entry.id@), max_bytes - entry.bytes);
    let left = law_the_newest_stay(without(entries, entry.id@), max_bytes - entry.bytes);
    lemma_bytes_push(rest, entry);
    let kept = rest.push(entry);
    assert(entry_at(kept, entry.id@, kept.len() - 1));
}

/// Taking a name out of a list of entries takes out its entry and no other, and keeps the order of the rest.
pub proof fn law_taking_out_leaves_the_others<T>(entries: Seq<SizedEntry<T>>, id: Seq<u8>, i: int)
    requires
        forall|a: int, b: int|
            0 <= a < b < entries.len() ==> (#[trigger] entries[a]).id@ != (#[trigger] entries[b]).id@,
    ensures
        0 <= i < entries.len() && entries[i].id@ == id ==> without(entries, id) == entries.take(i)
            + entries.skip(i + 1),
        (forall|k: int| 0 <= k < entries.len() ==> (#[trigger] entries[k]).id@ != id) ==> without(
            entries,
            id,
        ) == entries,
    decreases entries.len(),
{
    if entries.len() > 0 {
        let rest = entries.drop_first();
        assert forall|a: int, b: int| 0 <= a < b < rest.len() implies (#[trigger] rest[a]).id@ != (
        #[trigger] rest[b]).id@ by {
            assert(rest[a] == entries[a + 1] && rest[b] == entries[b + 1]);
        }
        law_taking_out_leaves_the_others(rest, id, i - 1);
        if 0 <= i < entries.len() && entries[i].id@ == id {
            if i == 0 {
                assert(without(entries, id) =~= entries.take(0) + entries.skip(1));
            } else {
                assert(entries[0].id@ != entries[i].id@);
                assert(rest[i - 1] == entries[i]);
                assert(seq![entries[0]] + (rest.take(i - 1) + rest.skip(i)) =~= entries.take(i)
                    + entries.skip(i + 1));
            }
        }
        if forall|k: int| 0 <= k < entries.len() ==> (#[trigger] entries[k]).id@ != id {
            assert(entries[0].id@ != id);
            assert forall|k: int| 0 <= k < rest.len() implies (#[trigger] rest[k]).id@ != id by {
                assert(rest[k] == entries[k + 1]);
            }
            assert(seq![entries[0]] + rest =~= entries);
        }
    }
}

/// After a node's place was noted it is found there, once, and the place of every other node is what it was.
pub proof fn law_noted_place_is_found<L>(entries: Seq<LocationEntry<L>>, cid: Cid, location: L, i: int)
    requires
        forall|a: int, b: int|
            0 <= a < b < entries.len() ==> (#[trigger] entries[a]).cid != (#[trigger] entries[b]).cid,
    ensures
        with_location(entries, cid, location).contains(LocationEntry { cid, location }),
        forall|entry: LocationEntry<L>| #[trigger]
            with_location(entries, cid, location).contains(entry) && entry.cid == cid ==> entry.location
                == location,
        0 <= i < entries.len() && entries[i].cid != cid ==> with_location(entries, cid, location)[i]
            == entries[i],
        with_location(entries, cid, location).len() == entries.len() + if exists|k: int|
            0 <= k < entries.len() && (#[trigger] entries[k]).cid == cid {
            0int
        } else {
            1
        },
{
    let after = with_location(entries, cid, location);
    let entry = LocationEntry { cid, location };
    if exists|k: int| #[trigger] node_at(entries, cid, k) {
        let k = choose|k: int| #[trigger] node_at(entries, cid, k);
        assert(after[k] == entry);
        assert(entries[k].cid == cid);
        assert forall|e: LocationEntry<L>| #[trigger] after.contains(e) && e.cid == cid implies e.location
            == location by {
            let m = after.index_of(e);
            if m != k {
                assert(after[m] == entries[m]);
                assert(entries[m].cid == entries[k].cid);
            }
        }
    } else {
        assert(after[entries.len() as int] == entry);
        assert forall|k: int| 0 <= k < entries.len() implies (#[trigger] entries[k]).cid != cid by {
            assert(!node_at(entries, cid, k));
        }
        assert forall|e: LocationEntry<L>| #[trigger] after.contains(e) && e.cid == cid implies e.location
            == location by {
            let m = after.index_of(e);
            if m < entries.len() {
                assert(entries[m] == e);
            }
        }
    }
}

/// What stays of too many entries is the newest of them, as many as may stay.
pub proof fn law_the_last_stay<L>(entries: Seq<LocationEntry<L>>, n: nat, i: int)
    ensures
        entries.len() <= n ==> last_of(entries, n) == entries,
        entries.len() > n ==> last_of(entries, n).len() == n,
        entries.len() > n && 0 <= i < n ==> last_of(entries, n)[i] == entries[entries.len() - n + i],
{
}

/// A cache counts the bytes of its entries, keeps to its bound, and has no name twice; the bytes of its entries are
/// theirs together.
pub proof fn law_cache_keeps_to_its_bound<T>(list: SizedList<T>, i: int, j: int)
    requires
        list.wf(),
    ensures
        list.bytes == entry_bytes(list.entries@),
        list.bytes <= list.max_bytes,
        0 <= i < j < list.entries@.len() ==> list.entries@[i].id@ != list.entries@[j].id@,
        0 <= i < list.entries@.len() ==> has_entry(list.entries@, list.entries@[i].id@),
        entry_bytes(Seq::<SizedEntry<T>>::empty()) == 0,
{
    if 0 <= i < list.entries@.len() {
        assert(entry_at(list.entries@, list.entries@[i].id@, i));
    }
}

/// The bytes of a list of entries are those of its entries together.
pub proof fn law_bytes_of_entries_add_up<T>(entries: Seq<SizedEntry<T>>, entry: SizedEntry<T>)
    ensures
        entry_bytes(entries.push(entry)) == entry_bytes(entries) + entry.bytes,
{
    lemma_bytes_push(entries, entry);
}

/// The noted places of nodes keep to their bound, and no node is noted twice.
pub proof fn law_noted_places_keep_to_their_bound<L>(noted: BoundedNodeLocations<L>, i: int, j: int)
    requires
        noted.wf(),
    ensures
        noted.entries@.len() <= noted.capacity,
        0 <= i < j < noted.entries@.len() ==> noted.entries@[i].cid != noted.entries@[j].cid,
{
}

} // verus!
