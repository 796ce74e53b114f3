//! An inventory of payloads as a whole: what it has counted, however it was cut into pages.
use crate::bytes::has_prefix;
use crate::error::Fault;
use crate::keys::{extent_key, physical_key};
use crate::model::{ObjectVersion, PhysicalMetadata};
use crate::pack_stats::{
    balanced, countable, counts_each_once, extent_keys, inspected_all,
    law_each_payload_is_counted_once, law_inventory_adds_up, nothing_counted, packed_ones,
    physical_keys, size_of, total_size, Met, PackRunView, PayloadPackStats, SeenPayload,
};
use crate::tree::{applied, Edit};
use vstd::prelude::*;

verus! {

/// A live object of a snapshot, and what the provider says of its physical object.
pub struct Held {
    pub version: ObjectVersion,
    pub metadata: Option<PhysicalMetadata>,
}

/// A page that begins with this report.
pub open spec fn fresh_page(report: PayloadPackStats) -> PackRunView {
    PackRunView { report, changes: Seq::empty(), physical: Set::empty(), extents: Set::empty() }
}

/// Whether the tree of counted payloads remembers the range of an object.
pub open spec fn extent_remembered(tree: Map<Seq<u8>, SeenPayload>, version: ObjectVersion) -> bool {
    version.binding->0.pack_range matches Some(range) && tree.contains_key(
        extent_key(version.binding->0, range.0, range.1),
    )
}

/// The objects of a page as it meets them, with what the tree remembers.
pub open spec fn met_on(tree: Map<Seq<u8>, SeenPayload>, objects: Seq<Held>) -> Seq<Met> {
    objects.map_values(
        |o: Held|
            Met {
                version: o.version,
                physical_seen: tree.contains_key(physical_key(o.version.binding->0)),
                metadata: o.metadata,
                extent_seen: extent_remembered(tree, o.version),
            },
    )
}

/// An inventory after some pages: each begins with the report and the tree that the one before left.
pub open spec fn inventory(
    tree: Map<Seq<u8>, SeenPayload>,
    report: PayloadPackStats,
    pages: Seq<Seq<Held>>,
) -> Result<(Map<Seq<u8>, SeenPayload>, PayloadPackStats), Fault>
    decreases pages.len(),
{
    if pages.len() == 0 {
        Ok((tree, report))
    } else {
        match inventory(tree, report, pages.drop_last()) {
            Err(error) => Err(error),
            Ok((before, so_far)) => match inspected_all(
                fresh_page(so_far),
                met_on(before, pages.last()),
            ) {
                Err(error) => Err(error),
                Ok(end) => Ok((applied(before, end.changes), end.report)),
            },
        }
    }
}

/// The objects of all pages.
pub open spec fn all_of(pages: Seq<Seq<Held>>) -> Seq<Held>
    decreases pages.len(),
{
    if pages.len() == 0 {
        Seq::empty()
    } else {
        all_of(pages.drop_last()) + pages.last()
    }
}

/// Whether some object lies in the physical object of this key.
pub open spec fn some_physical(objects: Seq<Held>, key: Seq<u8>) -> bool {
    exists|i: int|
        0 <= i < objects.len() && physical_key((#[trigger] objects[i]).version.binding->0) == key
}

/// Whether some object occupies the range of this key.
pub open spec fn some_extent(objects: Seq<Held>, key: Seq<u8>) -> bool {
    exists|i: int|
        0 <= i < objects.len() && occupies((#[trigger] objects[i]).version, key)
}

/// Whether an object occupies the range of this key.
pub open spec fn occupies(version: ObjectVersion, key: Seq<u8>) -> bool {
    version.binding->0.pack_range matches Some(range) && extent_key(
        version.binding->0,
        range.0,
        range.1,
    ) == key
}

/// How many objects there are, how large they are, and the same of those that share a physical object.
pub struct Tally {
    pub objects: int,
    pub bytes: int,
    pub packed: int,
    pub packed_bytes: int,
}

/// The tally of some objects.
pub open spec fn tally(objects: Seq<Held>) -> Tally
    decreases objects.len(),
{
    if objects.len() == 0 {
        Tally { objects: 0, bytes: 0, packed: 0, packed_bytes: 0 }
    } else {
        let before = tally(objects.drop_last());
        let last = objects.last().version;
        let packed = last.binding->0.packed();
        Tally {
            objects: before.objects + 1,
            bytes: before.bytes + size_of(last),
            packed: before.packed + if packed {
                1int
            } else {
                0
            },
            packed_bytes: before.packed_bytes + if packed {
                size_of(last)
            } else {
                0
            },
        }
    }
}

proof fn lemma_tally_joins(a: Seq<Held>, b: Seq<Held>)
    ensures
        tally(a + b).objects == tally(a).objects + tally(b).objects,
        tally(a + b).bytes == tally(a).bytes + tally(b).bytes,
        tally(a + b).packed == tally(a).packed + tally(b).packed,
        tally(a + b).packed_bytes == tally(a).packed_bytes + tally(b).packed_bytes,
    decreases b.len(),
{
    if b.len() == 0 {
        assert(a + b =~= a);
    } else {
        assert((a + b).drop_last() =~= a + b.drop_last());
        lemma_tally_joins(a, b.drop_last());
    }
}

proof fn lemma_tally_of_page(tree: Map<Seq<u8>, SeenPayload>, objects: Seq<Held>)
    ensures
        met_on(tree, objects).len() == tally(objects).objects,
        total_size(met_on(tree, objects)) == tally(objects).bytes,
        packed_ones(met_on(tree, objects)).len() == tally(objects).packed,
        total_size(packed_ones(met_on(tree, objects))) == tally(objects).packed_bytes,
    decreases objects.len(),
{
    if objects.len() > 0 {
        let fewer = objects.drop_last();
        lemma_tally_of_page(tree, fewer);
        assert(met_on(tree, objects).drop_last() =~= met_on(tree, fewer));
        let packed = packed_ones(met_on(tree, fewer));
        assert(packed.push(met_on(tree, objects).last()).drop_last() =~= packed);
    }
}

/// What a page has met is what the objects on it have.
proof fn lemma_page_meets(tree: Map<Seq<u8>, SeenPayload>, run: PackRunView, objects: Seq<Held>)
    requires
        counts_each_once(tree, run),
    ensures
        inspected_all(run, met_on(tree, objects)) matches Ok(end) ==> {
            &&& counts_each_once(tree, end)
            &&& forall|key: Seq<u8>| #[trigger]
                end.physical.contains(key) <==> run.physical.contains(key) || some_physical(
                    objects,
                    key,
                )
            &&& forall|key: Seq<u8>| #[trigger]
                end.extents.contains(key) <==> run.extents.contains(key) || some_extent(objects, key)
        },
    decreases objects.len(),
{
    let list = met_on(tree, objects);
    if objects.len() == 0 {
        assert(list =~= Seq::<Met>::empty());
    } else if inspected_all(run, list) is Ok {
        let fewer = objects.drop_last();
        assert(list.drop_last() =~= met_on(tree, fewer));
        lemma_page_meets(tree, run, fewer);
        let before = inspected_all(run, list.drop_last())->Ok_0;
        let end = inspected_all(run, list)->Ok_0;
        let version = objects.last().version;
        let n = fewer.len() as int;
        assert(countable(version) is Ok);
        law_each_payload_is_counted_once(tree, before, version, objects.last().metadata);
        let binding = version.binding->0;
        let own = physical_key(binding);
        assert(end.physical == before.physical.insert(own));
        assert forall|key: Seq<u8>| #[trigger] end.physical.contains(key) <==> run.physical.contains(key)
            || some_physical(objects, key) by {
            assert(before.physical.contains(key) <==> run.physical.contains(key) || some_physical(
                fewer,
                key,
            ));
            lemma_one_more(objects, key);
        }
        assert forall|key: Seq<u8>| #[trigger] end.extents.contains(key) <==> run.extents.contains(key)
            || some_extent(objects, key) by {
            assert(before.extents.contains(key) <==> run.extents.contains(key) || some_extent(
                fewer,
                key,
            ));
            lemma_one_more(objects, key);
        }
    }
}

/// One more object adds its own keys.
proof fn lemma_one_more(objects: Seq<Held>, key: Seq<u8>)
    requires
        objects.len() > 0,
    ensures
        some_physical(objects, key) <==> some_physical(objects.drop_last(), key) || physical_key(
            objects.last().version.binding->0,
        ) == key,
        some_extent(objects, key) <==> some_extent(objects.drop_last(), key) || occupies(
            objects.last().version,
            key,
        ),
{
    let fewer = objects.drop_last();
    let n = fewer.len() as int;
    if some_physical(objects, key) {
        let i = choose|i: int|
            0 <= i < objects.len() && physical_key((#[trigger] objects[i]).version.binding->0) == key;
        if i < n {
            assert(fewer[i] == objects[i]);
        }
    }
    if some_physical(fewer, key) {
        let i = choose|i: int|
            0 <= i < fewer.len() && physical_key((#[trigger] fewer[i]).version.binding->0) == key;
        assert(objects[i] == fewer[i]);
    }
    if some_extent(objects, key) {
        let i = choose|i: int| 0 <= i < objects.len() && occupies((#[trigger] objects[i]).version, key);
        if i < n {
            assert(fewer[i] == objects[i]);
        }
    }
    if some_extent(fewer, key) {
        let i = choose|i: int| 0 <= i < fewer.len() && occupies((#[trigger] fewer[i]).version, key);
        assert(objects[i] == fewer[i]);
    }
    assert(objects[n] == objects.last());
}

proof fn lemma_some_joins(a: Seq<Held>, b: Seq<Held>, key: Seq<u8>)
    ensures
        some_physical(a + b, key) <==> some_physical(a, key) || some_physical(b, key),
        some_extent(a + b, key) <==> some_extent(a, key) || some_extent(b, key),
    decreases b.len(),
{
    if b.len() == 0 {
        assert(a + b =~= a);
    } else {
        assert((a + b).drop_last() =~= a + b.drop_last());
        assert((a + b).last() == b.last());
        lemma_some_joins(a, b.drop_last(), key);
        lemma_one_more(a + b, key);
        lemma_one_more(b, key);
    }
}

/// When a page ends, its changes become part of the tree of counted payloads, and the next page begins with
/// nothing met: the counts still are the numbers of keys in the tree.
pub proof fn law_next_page_takes_over_the_counts(tree: Map<Seq<u8>, SeenPayload>, run: PackRunView)
    requires
        counts_each_once(tree, run),
    ensures
        counts_each_once(applied(tree, run.changes), fresh_page(run.report)),
{
    let now = applied(tree, run.changes);
    assert(applied(now, Seq::<Edit<SeenPayload>>::empty()) == now);
}

/// Whatever the sizes of its pages, an inventory counts every object once, as one of its own or as one that
/// shares its physical object, with its size; and it counts every physical object and every range of one that
/// some object has, once, however many objects share it.
pub proof fn law_inventory_counts_the_snapshot(
    tree: Map<Seq<u8>, SeenPayload>,
    report: PayloadPackStats,
    pages: Seq<Seq<Held>>,
)
    requires
        counts_each_once(tree, fresh_page(report)),
        balanced(report),
    ensures
        inventory(tree, report, pages) matches Ok((after, end)) ==> {
            let objects = all_of(pages);
            let sum = tally(objects);
            &&& balanced(end)
            &&& end.current_objects == report.current_objects + sum.objects
            &&& end.logical_bytes == report.logical_bytes + sum.bytes
            &&& end.packed_objects == report.packed_objects + sum.packed
            &&& end.packed_logical_bytes == report.packed_logical_bytes + sum.packed_bytes
            &&& end.direct_objects == report.direct_objects + sum.objects - sum.packed
            &&& counts_each_once(after, fresh_page(end))
            &&& end.unique_physical_objects == physical_keys(after).len()
            &&& end.unique_packed_extents == extent_keys(after).len()
            &&& forall|key: Seq<u8>|
                has_prefix(key, seq![0x70u8, 0x2f]) ==> (#[trigger] after.contains_key(key)
                    <==> tree.contains_key(key) || some_physical(objects, key))
            &&& forall|key: Seq<u8>|
                has_prefix(key, seq![0x65u8, 0x2f]) ==> (#[trigger] after.contains_key(key)
                    <==> tree.contains_key(key) || some_extent(objects, key))
        },
    decreases pages.len(),
{
    if pages.len() == 0 {
        assert(applied(tree, Seq::<Edit<SeenPayload>>::empty()) == tree);
    } else if inventory(tree, report, pages) is Ok {
        let fewer = pages.drop_last();
        let page = pages.last();
        law_inventory_counts_the_snapshot(tree, report, fewer);
        let (before, so_far) = inventory(tree, report, fewer)->Ok_0;
        let start = fresh_page(so_far);
        let run = inspected_all(start, met_on(before, page))->Ok_0;
        let after = applied(before, run.changes);
        lemma_page_meets(before, start, page);
        law_inventory_adds_up(start, met_on(before, page));
        lemma_tally_of_page(before, page);
        lemma_tally_joins(all_of(fewer), page);
        law_next_page_takes_over_the_counts(before, run);
        assert(applied(after, Seq::<Edit<SeenPayload>>::empty()) == after);
        assert forall|key: Seq<u8>| has_prefix(key, seq![0x70u8, 0x2f]) implies (
        #[trigger] after.contains_key(key) <==> tree.contains_key(key) || some_physical(
            all_of(pages),
            key,
        )) by {
            lemma_some_joins(all_of(fewer), page, key);
            assert(before.contains_key(key) <==> tree.contains_key(key) || some_physical(
                all_of(fewer),
                key,
            ));
            assert(run.physical.contains(key) <==> some_physical(page, key));
        }
        assert forall|key: Seq<u8>| has_prefix(key, seq![0x65u8, 0x2f]) implies (
        #[trigger] after.contains_key(key) <==> tree.contains_key(key) || some_extent(
            all_of(pages),
            key,
        )) by {
            lemma_some_joins(all_of(fewer), page, key);
            assert(before.contains_key(key) <==> tree.contains_key(key) || some_extent(
                all_of(fewer),
                key,
            ));
            assert(run.extents.contains(key) <==> some_extent(page, key));
        }
    }
}

/// An inventory that begins has counted nothing, and its tree is empty.
pub proof fn law_inventory_begins_with_nothing()
    ensures
        balanced(nothing_counted()),
        counts_each_once(Map::<Seq<u8>, SeenPayload>::empty(), fresh_page(nothing_counted())),
{
    let none = Map::<Seq<u8>, SeenPayload>::empty();
    assert(applied(none, Seq::<Edit<SeenPayload>>::empty()) == none);
    assert(physical_keys(none) =~= Set::<Seq<u8>>::empty());
    assert(extent_keys(none) =~= Set::<Seq<u8>>::empty());
}

} // verus!
