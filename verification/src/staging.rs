//! Staging: objects whose bytes go to the payload store before a commit names them.
//!
//! Small objects that are staged together share immutable packs; empty and larger ones, and objects that are
//! put one at a time, are stored on their own. These packs hold payloads only: no body is ever stored among
//! tree nodes.
use crate::bytes::{bytes_eq, lex_lt, to_vec};
use crate::error::{fault, outcome, Error, ErrorCode, Fault};
use crate::model::{
    AttributesView, Checksums, ObjectAttributes, ObjectHeaders, PayloadBinding, StagedMutation,
    StagedPut,
};
use crate::ordered::{sort_by_key, weakly_sorted, Keyed};
use crate::outside::{md5, md5_of, sha256, sha256_of};
use crate::repository::{invalid_key, Repository};
use crate::session::{entity_tag, quoted_hex};
use crate::texts::NamedTexts;
use std::sync::Arc;
use vstd::prelude::*;

verus! {

/// The largest object that is packed.
pub const SMALL_OBJECT_MAX: usize = 4096;

/// The most bytes that one pack holds.
pub const PACK_MAX: usize = 4194304;

/// One object that waits to be staged.
#[derive(Debug)]
pub struct CommitSessionPutInput {
    pub key: Vec<u8>,
    pub bytes: Vec<u8>,
    pub headers: ObjectHeaders,
    pub user_metadata: NamedTexts,
}

impl Keyed for CommitSessionPutInput {
    open spec fn sort_key(&self) -> Seq<u8> {
        self.key@
    }

    fn sort_bytes(&self) -> (r: &[u8]) {
        self.key.as_slice()
    }
}

/// One object that waits to be packed anew, with all that it is known by.
#[derive(Debug)]
pub struct CommitSessionRepackInput {
    pub key: Vec<u8>,
    pub bytes: Vec<u8>,
    pub headers: ObjectHeaders,
    pub user_metadata: NamedTexts,
    pub tags: NamedTexts,
}

/// Whether these are the attributes of an object that is put: the headers and metadata that come with it, no
/// tags yet and no further checksums.
pub open spec fn attached(
    headers: ObjectHeaders,
    user_metadata: NamedTexts,
    attributes: ObjectAttributes,
) -> bool {
    &&& attributes.headers == headers
    &&& attributes.user_metadata == user_metadata
    &&& attributes.tags@ == Map::<Seq<char>, Seq<char>>::empty()
    &&& attributes.algorithm_values@ == Map::<Seq<char>, Seq<char>>::empty()
}

/// The attributes of an object that is put.
pub fn put_attributes(headers: ObjectHeaders, user_metadata: NamedTexts) -> (r: ObjectAttributes)
    ensures
        attached(headers, user_metadata, r),
        r@.headers == headers.fields@,
        r@.user_metadata == user_metadata@,
        r@.tags == Map::<Seq<char>, Seq<char>>::empty(),
        r@.algorithm_values == Map::<Seq<char>, Seq<char>>::empty(),
{
    ObjectAttributes {
        headers,
        user_metadata,
        tags: NamedTexts::new(),
        algorithm_values: NamedTexts::new(),
    }
}

/// The tags that go with a key.
#[derive(Debug)]
pub struct KeyTags {
    pub key: Vec<u8>,
    pub tags: NamedTexts,
}

impl CommitSessionRepackInput {
    /// The object as it is put, and its tags, which are set once it is staged.
    pub fn split(self) -> (r: (CommitSessionPutInput, KeyTags))
        ensures
            r.0 == (CommitSessionPutInput {
                key: self.key,
                bytes: self.bytes,
                headers: self.headers,
                user_metadata: self.user_metadata,
            }),
            r.1.key@ == self.key@,
            r.1.tags == self.tags,
    {
        let key = to_vec(&self.key);
        (
            CommitSessionPutInput {
                key: self.key,
                bytes: self.bytes,
                headers: self.headers,
                user_metadata: self.user_metadata,
            },
            KeyTags { key, tags: self.tags },
        )
    }
}

/// The tags that a list gives to a key: those of its first entry, or none.
pub open spec fn tags_for(list: Seq<KeyTags>, key: Seq<u8>) -> Map<Seq<char>, Seq<char>>
    decreases list.len(),
{
    if list.len() == 0 {
        Map::empty()
    } else if list[0].key@ == key {
        list[0].tags@
    } else {
        tags_for(list.drop_first(), key)
    }
}

/// Whether a staged mutation is another one with these tags.
pub open spec fn retagged(
    before: StagedMutation,
    after: StagedMutation,
    tags: Map<Seq<char>, Seq<char>>,
) -> bool {
    match before {
        StagedMutation::Delete { .. } => after == before,
        StagedMutation::Put(put) => after matches StagedMutation::Put(new) && {
            &&& new == (StagedPut { attributes: new.attributes, ..put })
            &&& new.attributes@ == (AttributesView { tags, ..put.attributes@ })
        },
    }
}

fn find_tags(list: &Vec<KeyTags>, key: &[u8]) -> (r: NamedTexts)
    ensures
        r@ == tags_for(list@, key@),
{
    let mut i: usize = 0;
    assert(list@.skip(0) =~= list@);
    while i < list.len()
        invariant
            i <= list@.len(),
            tags_for(list@, key@) == tags_for(list@.skip(i as int), key@),
        decreases list.len() - i,
    {
        assert(list@.skip(i as int)[0] == list@[i as int]);
        assert(list@.skip(i as int).drop_first() =~= list@.skip(i + 1));
        if bytes_eq(&list[i].key, key) {
            return list[i].tags.clone();
        }
        i += 1;
    }
    NamedTexts::new()
}

/// Gives staged objects the tags that go with their keys; an object whose key has none keeps none.
pub fn set_tags(staged: Vec<StagedMutation>, tags: &Vec<KeyTags>) -> (r: Vec<StagedMutation>)
    ensures
        r@.len() == staged@.len(),
        forall|i: int|
            0 <= i < r@.len() ==> retagged(
                staged@[i],
                #[trigger] r@[i],
                tags_for(tags@, staged@[i].spec_key()),
            ),
{
    let mut out: Vec<StagedMutation> = Vec::new();
    for mutation in it: staged
        invariant
            it.seq() == staged@,
            out@.len() == it.index(),
            forall|i: int|
                0 <= i < out@.len() ==> retagged(
                    staged@[i],
                    #[trigger] out@[i],
                    tags_for(tags@, staged@[i].spec_key()),
                ),
    {
        let ghost before = mutation;
        assert(staged@[it.index()] == before);
        let next = match mutation {
            StagedMutation::Delete { key } => StagedMutation::Delete { key },
            StagedMutation::Put(put) => {
                let own = find_tags(tags, &put.key);
                let attributes = ObjectAttributes {
                    headers: ObjectHeaders { fields: put.attributes.headers.fields.clone() },
                    user_metadata: put.attributes.user_metadata.clone(),
                    tags: own,
                    algorithm_values: put.attributes.algorithm_values.clone(),
                };
                StagedMutation::Put(
                    StagedPut {
                        key: put.key,
                        size: put.size,
                        logical_etag: put.logical_etag,
                        checksums: put.checksums,
                        attributes: Arc::new(attributes),
                        binding: put.binding,
                    },
                )
            },
        };
        assert(retagged(before, next, tags_for(tags@, before.spec_key())));
        out.push(next);
    }
    out
}

/// Whether an object is packed: it is small and not empty.
pub open spec fn is_small(object: CommitSessionPutInput) -> bool {
    0 < object.bytes@.len() <= SMALL_OBJECT_MAX
}

/// How a window of objects is split: full packs, the pack being filled, and objects of their own.
#[verifier::ext_equal]
pub struct StagingSplit {
    pub packs: Seq<Seq<CommitSessionPutInput>>,
    pub open: Seq<CommitSessionPutInput>,
    pub direct: Seq<CommitSessionPutInput>,
}

/// How many bytes a list of objects holds.
pub open spec fn total_bytes(objects: Seq<CommitSessionPutInput>) -> nat
    decreases objects.len(),
{
    if objects.len() == 0 {
        0
    } else {
        total_bytes(objects.drop_last()) + objects.last().bytes@.len()
    }
}

/// Fills packs in order, closing one when the next small object would not fit.
pub open spec fn staging_split(objects: Seq<CommitSessionPutInput>) -> StagingSplit
    decreases objects.len(),
{
    if objects.len() == 0 {
        StagingSplit { packs: Seq::empty(), open: Seq::empty(), direct: Seq::empty() }
    } else {
        let before = staging_split(objects.drop_last());
        let object = objects.last();
        if !is_small(object) {
            StagingSplit { direct: before.direct.push(object), ..before }
        } else if before.open.len() > 0 && total_bytes(before.open) + object.bytes@.len() > PACK_MAX {
            StagingSplit { packs: before.packs.push(before.open), open: seq![object], ..before }
        } else {
            StagingSplit { open: before.open.push(object), ..before }
        }
    }
}

/// The packs of a split, the one being filled included if it holds anything.
pub open spec fn all_packs(split: StagingSplit) -> Seq<Seq<CommitSessionPutInput>> {
    if split.open.len() > 0 {
        split.packs.push(split.open)
    } else {
        split.packs
    }
}

/// What becomes of a window: the packs to write, and the objects to store on their own.
#[derive(Debug)]
pub struct StagingPlan {
    pub packed_groups: Vec<Vec<CommitSessionPutInput>>,
    pub direct: Vec<CommitSessionPutInput>,
}

/// The objects of each group.
pub open spec fn groups_view(groups: Seq<Vec<CommitSessionPutInput>>) -> Seq<
    Seq<CommitSessionPutInput>,
> {
    groups.map_values(|g: Vec<CommitSessionPutInput>| g@)
}

/// What is wrong with the first bad object of a window.
pub open spec fn window_fault(repository: Repository, objects: Seq<CommitSessionPutInput>, n: int) -> Option<
    Fault,
>
    decreases n,
{
    if n <= 0 {
        None
    } else if window_fault(repository, objects, n - 1) is Some {
        window_fault(repository, objects, n - 1)
    } else if !repository.accepts_key(objects[n - 1].key@) {
        Some(invalid_key())
    } else if objects[n - 1].bytes@.len() > repository.format.canonical_limits.max_object_bytes {
        Some(too_large())
    } else {
        None
    }
}

/// The error of an object that is too large.
pub open spec fn too_large() -> Fault {
    fault(ErrorCode::EntityTooLarge, "object exceeds the repository object-size limit")
}

/// Whether some key occurs twice.
pub open spec fn key_repeats(objects: Seq<CommitSessionPutInput>) -> bool {
    exists|i: int, j: int|
        0 <= i < j < objects.len() && #[trigger] objects[i].key@ == #[trigger] objects[j].key@
}

fn check_repeats(objects: &Vec<CommitSessionPutInput>) -> (r: bool)
    requires
        weakly_sorted(objects@),
    ensures
        r == key_repeats(objects@),
{
    let mut i: usize = 1;
    while i < objects.len()
        invariant
            1 <= i,
            weakly_sorted(objects@),
            forall|a: int, b: int|
                0 <= a < b < i && b < objects@.len() ==> #[trigger] objects@[a].key@
                    != #[trigger] objects@[b].key@,
        decreases objects.len() - i,
    {
        if bytes_eq(&objects[i - 1].key, &objects[i].key) {
            assert(objects@[i - 1].key@ == objects@[i as int].key@);
            return true;
        }
        proof {
            assert forall|a: int, b: int|
                0 <= a < b < i + 1 && b < objects@.len() implies #[trigger] objects@[a].key@
                != #[trigger] objects@[b].key@ by {
                if b == i && a < i - 1 {
                    let x = objects@[a].sort_key();
                    let y = objects@[i - 1].sort_key();
                    let z = objects@[i as int].sort_key();
                    crate::bytes::lemma_lex_total(y, z);
                    assert(!lex_lt(z, y));
                    if x == z {
                        assert(!lex_lt(y, x));
                    }
                }
            }
        }
        i += 1;
    }
    false
}

impl Repository {
    /// Refuses a key that may not name an object, or an object that is too large.
    pub fn check_put(&self, key: &[u8], size: u64) -> (r: Result<(), Error>)
        ensures
            outcome(r) == if !self.accepts_key(key@) {
                Err(invalid_key())
            } else if size > self.format.canonical_limits.max_object_bytes {
                Err(too_large())
            } else {
                Ok::<(), Fault>(())
            },
    {
        if let Err(error) = self.validate_key(key) {
            return Err(error);
        }
        if size > self.format.canonical_limits.max_object_bytes {
            return Err(
                Error::new(
                    ErrorCode::EntityTooLarge,
                    "object exceeds the repository object-size limit",
                ),
            );
        }
        Ok(())
    }

    /// Sorts a window of objects by key, refuses what no commit could name, and splits it into packs
    /// and objects of their own.
    pub fn stage_commit_session_put_batch(
        &self,
        objects: Vec<CommitSessionPutInput>,
        concurrency: usize,
    ) -> (r: Result<StagingPlan, Error>)
        ensures
            concurrency == 0 ==> outcome(r) == Err::<StagingPlan, Fault>(
                fault(ErrorCode::InvalidLimit, "payload staging concurrency is zero"),
            ),
            concurrency > 0 ==> exists|window: Seq<CommitSessionPutInput>|
                {
                    &&& #[trigger] weakly_sorted(window)
                    &&& window.to_multiset() == objects@.to_multiset()
                    &&& if key_repeats(window) {
                        outcome(r) == Err::<StagingPlan, Fault>(
                            fault(
                                ErrorCode::InvalidRequest,
                                "payload staging window contains a duplicate key",
                            ),
                        )
                    } else if window_fault(*self, window, window.len() as int) is Some {
                        outcome(r) == Err::<StagingPlan, Fault>(
                            window_fault(*self, window, window.len() as int)->0,
                        )
                    } else {
                        r matches Ok(plan) && groups_view(plan.packed_groups@) == all_packs(
                            staging_split(window),
                        ) && plan.direct@ == staging_split(window).direct
                    }
                },
    {
        if concurrency == 0 {
            return Err(Error::new(ErrorCode::InvalidLimit, "payload staging concurrency is zero"));
        }
        let objects = sort_by_key(objects);
        let ghost window = objects@;
        assert(weakly_sorted(window));
        if check_repeats(&objects) {
            return Err(
                Error::new(
                    ErrorCode::InvalidRequest,
                    "payload staging window contains a duplicate key",
                ),
            );
        }
        let mut i: usize = 0;
        #[verifier::loop_isolation(false)]
        while i < objects.len()
            invariant
                i <= objects.len(),
                window_fault(*self, window, i as int) is None,
            decreases objects.len() - i,
        {
            if let Err(error) = self.check_put(&objects[i].key, objects[i].bytes.len() as u64) {
                proof {
                    lemma_window_fault_stays(*self, window, i + 1, window.len() as int);
                }
                return Err(error);
            }
            i += 1;
        }
        let plan = split_window(objects);
        Ok(plan)
    }
}

proof fn lemma_window_fault_stays(
    repository: Repository,
    objects: Seq<CommitSessionPutInput>,
    n: int,
    m: int,
)
    requires
        0 <= n <= m,
    ensures
        window_fault(repository, objects, n) is Some ==> window_fault(repository, objects, m)
            == window_fault(repository, objects, n),
    decreases m,
{
    if n < m {
        lemma_window_fault_stays(repository, objects, n, m - 1);
    }
}

proof fn lemma_open_fits(objects: Seq<CommitSessionPutInput>)
    ensures
        total_bytes(staging_split(objects).open) <= PACK_MAX,
    decreases objects.len(),
{
    if objects.len() > 0 {
        lemma_open_fits(objects.drop_last());
        let before = staging_split(objects.drop_last());
        let object = objects.last();
        assert(before.open.push(object).drop_last() =~= before.open);
        assert(seq![object].drop_last() =~= Seq::<CommitSessionPutInput>::empty());
        reveal_with_fuel(total_bytes, 2);
        if before.open.len() == 0 {
            assert(before.open =~= Seq::<CommitSessionPutInput>::empty());
        }
    }
}

fn split_window(objects: Vec<CommitSessionPutInput>) -> (r: StagingPlan)
    ensures
        groups_view(r.packed_groups@) == all_packs(staging_split(objects@)),
        r.direct@ == staging_split(objects@).direct,
{
    let ghost window = objects@;
    let mut groups: Vec<Vec<CommitSessionPutInput>> = Vec::new();
    let mut current: Vec<CommitSessionPutInput> = Vec::new();
    let mut current_bytes: usize = 0;
    let mut direct: Vec<CommitSessionPutInput> = Vec::new();
    assert(window.take(0) =~= Seq::<CommitSessionPutInput>::empty());
    assert(groups_view(groups@) =~= Seq::<Seq<CommitSessionPutInput>>::empty());
    for object in it: objects
        invariant
            it.seq() == window,
            groups_view(groups@) == staging_split(window.take(it.index())).packs,
            current@ == staging_split(window.take(it.index())).open,
            direct@ == staging_split(window.take(it.index())).direct,
            current_bytes == total_bytes(current@),
            current_bytes <= PACK_MAX,
    {
        let ghost n = it.index();
        proof {
            assert(window[n] == object);
            assert(window.take(n + 1).drop_last() =~= window.take(n));
            assert(window.take(n + 1).last() == object);
            lemma_open_fits(window.take(n + 1));
        }
        if object.bytes.len() == 0 || object.bytes.len() > SMALL_OBJECT_MAX {
            direct.push(object);
        } else {
            let len: usize = object.bytes.len();
            if current.len() > 0 && current_bytes + len > PACK_MAX {
                let ghost before = groups@;
                let ghost full = current;
                groups.push(current);
                assert(groups_view(groups@) =~= groups_view(before).push(full@));
                current = Vec::new();
                current_bytes = 0;
            }
            let ghost filled = current@;
            assert(current_bytes == total_bytes(filled));
            current.push(object);
            assert(current@.drop_last() =~= filled);
            proof {
                if filled.len() == 0 {
                    assert(current@ =~= seq![object]);
                    assert(filled =~= Seq::<CommitSessionPutInput>::empty());
                }
            }
            current_bytes = current_bytes + len;
        }
    }
    assert(window.take(window.len() as int) =~= window);
    if current.len() > 0 {
        let ghost before = groups@;
        let ghost last = current;
        groups.push(current);
        assert(groups_view(groups@) =~= groups_view(before).push(last@));
    }
    StagingPlan { packed_groups: groups, direct }
}

/// Whether a staged mutation is what `object` becomes once its bytes lie at `binding`.
pub open spec fn stages(object: CommitSessionPutInput, binding: PayloadBinding, staged: StagedMutation) -> bool {
    staged matches StagedMutation::Put(put) && {
        &&& put.key@ == object.key@
        &&& put.size == object.bytes@.len()
        &&& put.logical_etag@ == quoted_hex(md5_of(object.bytes@))
        &&& put.checksums.md5 matches Some(digest) && digest@ == md5_of(object.bytes@)
        &&& put.checksums.sha256 matches Some(digest) && digest@ == sha256_of(object.bytes@)
        &&& attached(object.headers, object.user_metadata, *put.attributes)
        &&& put.binding == binding
    }
}

/// What an object becomes once its bytes lie at `binding`.
pub fn staged_put(object: CommitSessionPutInput, binding: PayloadBinding) -> (r: StagedMutation)
    ensures
        stages(object, binding, r),
        r matches StagedMutation::Put(put) && {
            &&& put.key@ == object.key@
            &&& put.size == object.bytes@.len()
            &&& put.attributes@.headers == object.headers.fields@
            &&& put.attributes@.user_metadata == object.user_metadata@
            &&& put.attributes@.tags == Map::<Seq<char>, Seq<char>>::empty()
            &&& put.attributes@.algorithm_values == Map::<Seq<char>, Seq<char>>::empty()
            &&& put.checksums.md5 matches Some(digest) && digest@ == md5_of(object.bytes@)
            &&& put.checksums.sha256 matches Some(digest) && digest@ == sha256_of(object.bytes@)
            &&& put.binding == binding
        },
{
    let size: u64 = object.bytes.len() as u64;
    let checksum_md5 = md5(&object.bytes);
    let checksum_sha256 = sha256(&object.bytes);
    StagedMutation::Put(
        StagedPut {
            key: object.key,
            size,
            logical_etag: entity_tag(&checksum_md5),
            checksums: Checksums { md5: Some(checksum_md5), sha256: Some(checksum_sha256) },
            attributes: Arc::new(put_attributes(object.headers, object.user_metadata)),
            binding,
        },
    )
}

/// What a file becomes once its bytes lie at `binding`, given its size and digests.
pub fn staged_file(
    key: Vec<u8>,
    size: u64,
    checksum_sha256: [u8; 32],
    checksum_md5: [u8; 16],
    headers: ObjectHeaders,
    user_metadata: NamedTexts,
    binding: PayloadBinding,
) -> (r: StagedMutation)
    ensures
        r matches StagedMutation::Put(put) && put.key == key && put.size == size
            && put.logical_etag@ == quoted_hex(checksum_md5@) && put.checksums == (Checksums {
            md5: Some(checksum_md5),
            sha256: Some(checksum_sha256),
        }) && attached(headers, user_metadata, *put.attributes) && put.binding == binding,
        r matches StagedMutation::Put(put) && put.attributes@.headers == headers.fields@
            && put.attributes@.user_metadata == user_metadata@ && put.attributes@.tags == Map::<
            Seq<char>,
            Seq<char>,
        >::empty() && put.attributes@.algorithm_values == Map::<Seq<char>, Seq<char>>::empty(),
{
    StagedMutation::Put(
        StagedPut {
            key,
            size,
            logical_etag: entity_tag(&checksum_md5),
            checksums: Checksums { md5: Some(checksum_md5), sha256: Some(checksum_sha256) },
            attributes: Arc::new(put_attributes(headers, user_metadata)),
            binding,
        },
    )
}

/// What the objects of one pack become once the pack is written: each goes with the binding at its
/// place, as far as there are bindings.
pub fn staged_pack(group: Vec<CommitSessionPutInput>, bindings: Vec<PayloadBinding>) -> (r: Vec<
    StagedMutation,
>)
    ensures
        r@.len() == if group@.len() < bindings@.len() {
            group@.len()
        } else {
            bindings@.len()
        },
        forall|i: int|
            0 <= i < r@.len() ==> stages(group@[i], bindings@[i], #[trigger] r@[i]),
        forall|i: int|
            0 <= i < r@.len() ==> ((#[trigger] r@[i]) matches StagedMutation::Put(put) && {
                &&& put.key@ == group@[i].key@
                &&& put.size == group@[i].bytes@.len()
                &&& put.attributes@.headers == group@[i].headers.fields@
                &&& put.attributes@.user_metadata == group@[i].user_metadata@
                &&& put.attributes@.tags == Map::<Seq<char>, Seq<char>>::empty()
                &&& put.binding == bindings@[i]
            }),
{
    let mut out: Vec<StagedMutation> = Vec::new();
    for object in it: group
        invariant
            it.seq() == group@,
            out@.len() == if it.index() < bindings@.len() {
                it.index()
            } else {
                bindings@.len() as int
            },
            forall|j: int|
                0 <= j < out@.len() ==> stages(group@[j], bindings@[j], #[trigger] out@[j]),
    {
        let i: usize = out.len();
        if i < bindings.len() {
            out.push(staged_put(object, bindings[i].copied()));
        }
    }
    out
}

/// The staged mutations of a window in the order of their keys.
pub fn staged_in_order(staged: Vec<StagedMutation>) -> (r: Vec<StagedMutation>)
    ensures
        weakly_sorted(r@),
        r@.to_multiset() == staged@.to_multiset(),
{
    sort_by_key(staged)
}

/// The objects of all packs, one pack after another.
pub open spec fn flattened(packs: Seq<Seq<CommitSessionPutInput>>) -> Seq<CommitSessionPutInput>
    decreases packs.len(),
{
    if packs.len() == 0 {
        Seq::empty()
    } else {
        flattened(packs.drop_last()) + packs.last()
    }
}

/// No pack is empty or holds more than it may, every packed object is small, and no object that
/// stands on its own is.
pub proof fn law_packs_are_bounded(objects: Seq<CommitSessionPutInput>, i: int)
    requires
        0 <= i < all_packs(staging_split(objects)).len(),
    ensures
        all_packs(staging_split(objects))[i].len() > 0,
        total_bytes(all_packs(staging_split(objects))[i]) <= PACK_MAX,
        forall|j: int|
            0 <= j < all_packs(staging_split(objects))[i].len() ==> is_small(
                #[trigger] all_packs(staging_split(objects))[i][j],
            ),
        forall|j: int|
            0 <= j < staging_split(objects).direct.len() ==> !is_small(
                #[trigger] staging_split(objects).direct[j],
            ),
{
    lemma_split_bounds(objects);
    lemma_open_fits(objects);
}

proof fn lemma_split_bounds(objects: Seq<CommitSessionPutInput>)
    ensures
        forall|i: int|
            0 <= i < staging_split(objects).packs.len() ==> {
                let pack = #[trigger] staging_split(objects).packs[i];
                pack.len() > 0 && total_bytes(pack) <= PACK_MAX && (forall|j: int|
                    0 <= j < pack.len() ==> is_small(#[trigger] pack[j]))
            },
        forall|j: int|
            0 <= j < staging_split(objects).open.len() ==> is_small(
                #[trigger] staging_split(objects).open[j],
            ),
        forall|j: int|
            0 <= j < staging_split(objects).direct.len() ==> !is_small(
                #[trigger] staging_split(objects).direct[j],
            ),
    decreases objects.len(),
{
    if objects.len() > 0 {
        lemma_split_bounds(objects.drop_last());
        lemma_open_fits(objects.drop_last());
    }
}

/// Nothing is lost, added or reordered: the packs hold the small objects of the window in order, and
/// the rest stand on their own in order.
pub proof fn law_staging_keeps_every_object(objects: Seq<CommitSessionPutInput>)
    ensures
        flattened(all_packs(staging_split(objects))) == objects.filter(
            |o: CommitSessionPutInput| is_small(o),
        ),
        staging_split(objects).direct == objects.filter(|o: CommitSessionPutInput| !is_small(o)),
    decreases objects.len(),
{
    let small = |o: CommitSessionPutInput| is_small(o);
    let large = |o: CommitSessionPutInput| !is_small(o);
    reveal(Seq::filter);
    let split = staging_split(objects);
    if objects.len() > 0 {
        law_staging_keeps_every_object(objects.drop_last());
        let before = staging_split(objects.drop_last());
        lemma_flattened_push(before);
        lemma_flattened_push(split);
        let object = objects.last();
        if is_small(object) {
            if before.open.len() > 0 && total_bytes(before.open) + object.bytes@.len() > PACK_MAX {
                assert(split.packs.drop_last() =~= before.packs);
                assert(flattened(split.packs) + split.open =~= (flattened(before.packs)
                    + before.open).push(object));
            } else {
                assert(flattened(split.packs) + split.open =~= (flattened(before.packs)
                    + before.open).push(object));
            }
        }
    } else {
        assert(flattened(all_packs(split)) =~= Seq::<CommitSessionPutInput>::empty());
    }
}

proof fn lemma_flattened_push(split: StagingSplit)
    ensures
        flattened(all_packs(split)) == flattened(split.packs) + split.open,
{
    if split.open.len() > 0 {
        assert(split.packs.push(split.open).drop_last() =~= split.packs);
    } else {
        assert(flattened(split.packs) + split.open =~= flattened(split.packs));
    }
}

/// What is attached to an object that is put is exactly what the caller gave: its headers and its user
/// metadata, name by name, with no tags and no further checksums.
pub proof fn law_put_attaches_what_was_given(
    headers: ObjectHeaders,
    user_metadata: NamedTexts,
    attributes: ObjectAttributes,
    name: Seq<char>,
)
    requires
        attached(headers, user_metadata, attributes),
    ensures
        attributes@.headers == headers.fields@,
        attributes@.user_metadata == user_metadata@,
        headers.fields@.contains_key(name) <==> attributes@.headers.contains_key(name),
        headers.fields@.contains_key(name) ==> attributes@.headers[name] == headers.fields@[name],
        user_metadata@.contains_key(name) <==> attributes@.user_metadata.contains_key(name),
        user_metadata@.contains_key(name) ==> attributes@.user_metadata[name] == user_metadata@[name],
        !attributes@.tags.contains_key(name),
        !attributes@.algorithm_values.contains_key(name),
{
}

/// A staged put is the object it was made from, and says nothing else: its key, how many bytes it has and
/// their digests, its headers and user metadata, and where the bytes lie.
pub proof fn law_staged_put_is_its_object(
    object: CommitSessionPutInput,
    binding: PayloadBinding,
    staged: StagedMutation,
)
    requires
        stages(object, binding, staged),
    ensures
        staged matches StagedMutation::Put(put) && {
            &&& put.key@ == object.key@
            &&& put.size == object.bytes@.len()
            &&& put.attributes@.headers == object.headers.fields@
            &&& put.attributes@.user_metadata == object.user_metadata@
            &&& put.attributes@.tags == Map::<Seq<char>, Seq<char>>::empty()
            &&& put.attributes@.algorithm_values == Map::<Seq<char>, Seq<char>>::empty()
            &&& put.checksums.md5 is Some && put.checksums.md5->0@ == md5_of(object.bytes@)
            &&& put.checksums.sha256 is Some && put.checksums.sha256->0@ == sha256_of(object.bytes@)
            &&& put.binding == binding
        },
{
}

/// The tags that a list gives to a key are those of an entry that names it, and a key that no entry names
/// has none.
pub proof fn law_tags_go_with_their_key(list: Seq<KeyTags>, key: Seq<u8>)
    ensures
        (forall|i: int| 0 <= i < list.len() ==> (#[trigger] list[i]).key@ != key) ==> tags_for(list, key)
            == Map::<Seq<char>, Seq<char>>::empty(),
        forall|i: int|
            0 <= i < list.len() && (#[trigger] list[i]).key@ == key && (forall|j: int|
                0 <= j < i ==> (#[trigger] list[j]).key@ != key) ==> tags_for(list, key)
                == list[i].tags@,
    decreases list.len(),
{
    if list.len() > 0 && list[0].key@ != key {
        let rest = list.drop_first();
        law_tags_go_with_their_key(rest, key);
        if forall|i: int| 0 <= i < list.len() ==> (#[trigger] list[i]).key@ != key {
            assert forall|i: int| 0 <= i < rest.len() implies (#[trigger] rest[i]).key@ != key by {
                assert(rest[i] == list[i + 1]);
            }
        }
        assert forall|i: int|
            0 <= i < list.len() && (#[trigger] list[i]).key@ == key && (forall|j: int|
                0 <= j < i ==> (#[trigger] list[j]).key@ != key) implies tags_for(list, key)
            == list[i].tags@ by {
            assert(rest[i - 1] == list[i]);
            assert forall|j: int| 0 <= j < i - 1 implies (#[trigger] rest[j]).key@ != key by {
                assert(rest[j] == list[j + 1]);
            }
        }
    }
}

/// Setting tags changes the tags of an object and nothing else of it.
pub proof fn law_tagging_changes_only_tags(
    before: StagedMutation,
    after: StagedMutation,
    tags: Map<Seq<char>, Seq<char>>,
)
    requires
        retagged(before, after, tags),
    ensures
        before is Delete ==> after == before,
        before matches StagedMutation::Put(old_put) ==> (after matches StagedMutation::Put(put) && {
            &&& put.attributes@.tags == tags
            &&& put.attributes@.headers == old_put.attributes@.headers
            &&& put.attributes@.user_metadata == old_put.attributes@.user_metadata
            &&& put.attributes@.algorithm_values == old_put.attributes@.algorithm_values
            &&& put.key == old_put.key
            &&& put.size == old_put.size
            &&& put.logical_etag == old_put.logical_etag
            &&& put.checksums == old_put.checksums
            &&& put.binding == old_put.binding
        }),
{
}

/// A window names a bad object exactly where one of its objects has a key that no object may have, or more
/// bytes than the repository takes.
pub proof fn law_window_is_refused_for_a_bad_object(
    repository: Repository,
    objects: Seq<CommitSessionPutInput>,
    n: int,
)
    requires
        0 <= n <= objects.len(),
    ensures
        window_fault(repository, objects, n) is None <==> forall|i: int|
            0 <= i < n ==> repository.accepts_key((#[trigger] objects[i]).key@)
                && objects[i].bytes@.len() <= repository.format.canonical_limits.max_object_bytes,
    decreases n,
{
    if n > 0 {
        law_window_is_refused_for_a_bad_object(repository, objects, n - 1);
    }
}

/// An object is packed exactly where it is neither empty nor larger than the bound, and what is packed and
/// what is stored on its own are told apart by that.
pub proof fn law_small_objects_are_packed(objects: Seq<CommitSessionPutInput>)
    ensures
        forall|i: int, j: int|
            #![trigger all_packs(staging_split(objects))[i][j]]
            0 <= i < all_packs(staging_split(objects)).len() && 0 <= j < all_packs(
                staging_split(objects),
            )[i].len() ==> 0 < all_packs(staging_split(objects))[i][j].bytes@.len() <= 4096,
        forall|j: int|
            0 <= j < staging_split(objects).direct.len() ==> ({
                let size = (#[trigger] staging_split(objects).direct[j]).bytes@.len();
                size == 0 || size > 4096
            }),
    decreases objects.len(),
{
    if objects.len() > 0 {
        let before = staging_split(objects.drop_last());
        let now = staging_split(objects);
        law_small_objects_are_packed(objects.drop_last());
        assert(is_small(objects.last()) <==> 0 < objects.last().bytes@.len() <= 4096);
        let old_packs = all_packs(before);
        let packs = all_packs(now);
        assert forall|i: int, j: int|
            #![trigger packs[i][j]]
            0 <= i < packs.len() && 0 <= j < packs[i].len() implies 0 < packs[i][j].bytes@.len()
            <= 4096 by {
            if i < old_packs.len() && j < old_packs[i].len() && packs[i] == old_packs[i] {
                assert(old_packs[i][j] == packs[i][j]);
            } else if i < old_packs.len() && i < before.packs.len() {
                assert(packs[i] == old_packs[i]);
            } else if packs[i][j] != objects.last() {
                assert(old_packs[i][j] == packs[i][j]);
            }
        }
    }
}

/// A pack is closed only when the next small object does not fit: it and the first object of the pack behind it are
/// together more than a pack holds. So no pack is begun without need.
pub proof fn law_pack_is_closed_only_when_full(objects: Seq<CommitSessionPutInput>, i: int)
    requires
        0 <= i < all_packs(staging_split(objects)).len() - 1,
    ensures
        total_bytes(all_packs(staging_split(objects))[i]) + all_packs(
            staging_split(objects),
        )[i + 1][0].bytes@.len() > 4194304,
        total_bytes(all_packs(staging_split(objects))[i]) <= 4194304,
    decreases objects.len(),
{
    law_packs_are_bounded(objects, i);
    if objects.len() > 0 {
        let before = staging_split(objects.drop_last());
        let now = staging_split(objects);
        let object = objects.last();
        let old_packs = all_packs(before);
        let packs = all_packs(now);
        if is_small(object) && before.open.len() > 0 && total_bytes(before.open) + object.bytes@.len()
            > PACK_MAX {
            assert(packs == before.packs.push(before.open).push(seq![object]));
            assert(old_packs == before.packs.push(before.open));
            if i < old_packs.len() - 1 {
                law_pack_is_closed_only_when_full(objects.drop_last(), i);
                assert(packs[i] == old_packs[i] && packs[i + 1] == old_packs[i + 1]);
            } else {
                assert(packs[i] == before.open);
                assert(packs[i + 1][0] == object);
            }
        } else if is_small(object) {
            if i < before.packs.len() - 1 {
                law_pack_is_closed_only_when_full(objects.drop_last(), i);
                assert(packs[i] == old_packs[i] && packs[i + 1] == old_packs[i + 1]);
            } else {
                assert(i == before.packs.len() - 1);
                assert(packs[i] == before.packs[i]);
                lemma_open_follows(objects.drop_last());
                assert(before.open.len() > 0);
                law_pack_is_closed_only_when_full(objects.drop_last(), i);
                assert(old_packs[i + 1] == before.open);
                assert(packs[i + 1][0] == before.open[0]);
            }
        } else {
            law_pack_is_closed_only_when_full(objects.drop_last(), i);
            assert(packs == old_packs);
        }
    }
}

/// Once a pack was closed another one is open.
proof fn lemma_open_follows(objects: Seq<CommitSessionPutInput>)
    ensures
        staging_split(objects).packs.len() > 0 ==> staging_split(objects).open.len() > 0,
    decreases objects.len(),
{
    if objects.len() > 0 {
        lemma_open_follows(objects.drop_last());
    }
}

/// The bytes of a list of objects are those of its objects together.
pub proof fn law_bytes_of_a_list_add_up(objects: Seq<CommitSessionPutInput>, object: CommitSessionPutInput)
    ensures
        total_bytes(Seq::empty()) == 0,
        total_bytes(objects.push(object)) == total_bytes(objects) + object.bytes@.len(),
{
    assert(objects.push(object).drop_last() =~= objects);
}

/// A key occurs twice exactly where two objects of the list have it.
pub proof fn law_repeated_key_is_found(objects: Seq<CommitSessionPutInput>, i: int, j: int)
    ensures
        0 <= i < j < objects.len() && objects[i].key@ == objects[j].key@ ==> key_repeats(objects),
        (forall|a: int, b: int|
            0 <= a < b < objects.len() ==> (#[trigger] objects[a]).key@ != (#[trigger] objects[b]).key@)
            ==> !key_repeats(objects),
{
}

} // verus!
