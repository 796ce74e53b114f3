//! References: branches, tags and retention pins as the catalog lists them, and the repair of the catalog.
use crate::error::{fault, Error, ErrorCode, Fault};
use crate::ids::{CommitId, RefGeneration};
use crate::outside::{hex_bytes, hex_decode, is_hex, string_from_utf8, strip_prefix};
use crate::paths::{decode_retention_pin_tag, pin_name};
use crate::repository::Repository;
use vstd::prelude::*;
use vstd::string::*;
use vstd::utf8::{encode_utf8, valid_utf8};

verus! {

/// A branch and where it stands.
#[derive(Clone, Debug, PartialEq, Eq)]
pub struct BranchHead {
    pub name: String,
    pub target: CommitId,
    pub generation: RefGeneration,
}

/// A tag and what it names.
#[derive(Clone, Debug, PartialEq, Eq)]
pub struct Tag {
    pub name: String,
    pub target: CommitId,
    pub generation: RefGeneration,
}

/// A retention pin and what it keeps.
#[derive(Clone, Debug, PartialEq, Eq)]
pub struct RetentionPin {
    pub name: String,
    pub target: CommitId,
    pub generation: RefGeneration,
}

/// Where a listing of the catalog goes on: text that only the catalog reads.
#[derive(Clone, Debug, PartialEq, Eq)]
pub struct RefCatalogCursor {
    pub place: String,
}

/// A page of retention pins.
#[derive(Clone, Debug, PartialEq, Eq)]
pub struct RetentionPinPage {
    pub pins: Vec<RetentionPin>,
    pub continuation: Option<RefCatalogCursor>,
}

/// A page of branches.
#[derive(Clone, Debug, PartialEq, Eq)]
pub struct BranchCatalogPage {
    pub branches: Vec<BranchHead>,
    pub continuation: Option<RefCatalogCursor>,
}

/// A page of tags.
#[derive(Clone, Debug, PartialEq, Eq)]
pub struct TagCatalogPage {
    pub tags: Vec<Tag>,
    pub continuation: Option<RefCatalogCursor>,
}

/// What a page of a catalog repair did.
#[derive(Clone, Debug, PartialEq, Eq)]
pub struct RefCatalogRepairPage {
    pub scanned: usize,
    pub indexed: usize,
    pub continuation: Option<String>,
}

/// What a reference is.
#[derive(Clone, Copy, Debug, PartialEq, Eq, Structural)]
pub enum RefKind {
    Branch,
    Tag,
}

/// An entry of the catalog.
#[derive(Clone, Debug)]
pub struct RefCatalogEntry {
    pub name: String,
    pub target: CommitId,
    pub generation: RefGeneration,
}

/// The branches of a page of the catalog.
pub fn list_branch_catalog_page(
    entries: Vec<RefCatalogEntry>,
    continuation: Option<RefCatalogCursor>,
) -> (r: BranchCatalogPage)
    ensures
        r.continuation == continuation,
        r.branches@ == entries@.map_values(
            |e: RefCatalogEntry|
                BranchHead { name: e.name, target: e.target, generation: e.generation },
        ),
{
    let ghost all = entries@;
    let mut branches: Vec<BranchHead> = Vec::new();
    for entry in it: entries
        invariant
            it.seq() == all,
            branches@.len() == it.index(),
            forall|i: int|
                0 <= i < it.index() ==> #[trigger] branches@[i] == (BranchHead {
                    name: all[i].name,
                    target: all[i].target,
                    generation: all[i].generation,
                }),
    {
        branches.push(
            BranchHead { name: entry.name, target: entry.target, generation: entry.generation },
        );
    }
    assert(branches@ =~= all.map_values(
        |e: RefCatalogEntry|
            BranchHead { name: e.name, target: e.target, generation: e.generation },
    ));
    BranchCatalogPage { branches, continuation }
}

/// The tags of a page of the catalog.
pub fn list_tag_catalog_page(
    entries: Vec<RefCatalogEntry>,
    continuation: Option<RefCatalogCursor>,
) -> (r: TagCatalogPage)
    ensures
        r.continuation == continuation,
        r.tags@ == entries@.map_values(
            |e: RefCatalogEntry| Tag { name: e.name, target: e.target, generation: e.generation },
        ),
{
    let ghost all = entries@;
    let mut tags: Vec<Tag> = Vec::new();
    for entry in it: entries
        invariant
            it.seq() == all,
            tags@.len() == it.index(),
            forall|i: int|
                0 <= i < it.index() ==> #[trigger] tags@[i] == (Tag {
                    name: all[i].name,
                    target: all[i].target,
                    generation: all[i].generation,
                }),
    {
        tags.push(Tag { name: entry.name, target: entry.target, generation: entry.generation });
    }
    assert(tags@ =~= all.map_values(
        |e: RefCatalogEntry| Tag { name: e.name, target: e.target, generation: e.generation },
    ));
    TagCatalogPage { tags, continuation }
}

/// What a pin says, its name taken by its bytes.
pub struct PinView {
    pub name: Seq<u8>,
    pub target: CommitId,
    pub generation: RefGeneration,
}

/// The contents of a list of pins.
pub open spec fn pins_view(pins: Seq<RetentionPin>) -> Seq<PinView> {
    pins.map_values(
        |pin: RetentionPin|
            PinView {
                name: encode_utf8(pin.name@),
                target: pin.target,
                generation: pin.generation,
            },
    )
}

/// The pins among some tags, in their order, or the error of the first tag that looks like a pin and is
/// none.
pub open spec fn pins_among(tags: Seq<Tag>) -> Result<Seq<PinView>, Fault>
    decreases tags.len(),
{
    if tags.len() == 0 {
        Ok(Seq::empty())
    } else {
        match pins_among(tags.drop_last()) {
            Err(error) => Err(error),
            Ok(pins) => match pin_name(tags.last().name@) {
                Err(error) => Err(error),
                Ok(None) => Ok(pins),
                Ok(Some(name)) => Ok(
                    pins.push(
                        PinView {
                            name,
                            target: tags.last().target,
                            generation: tags.last().generation,
                        },
                    ),
                ),
            },
        }
    }
}

proof fn lemma_pins_failure_stays(tags: Seq<Tag>, n: int)
    requires
        0 <= n <= tags.len(),
        pins_among(tags.take(n)) is Err,
    ensures
        pins_among(tags) == pins_among(tags.take(n)),
    decreases tags.len() - n,
{
    if n < tags.len() {
        assert(tags.take(n + 1).drop_last() =~= tags.take(n));
        lemma_pins_failure_stays(tags, n + 1);
    } else {
        assert(tags.take(n) =~= tags);
    }
}

/// The retention pins of a page of tags.
pub fn list_retention_pins_page(page: TagCatalogPage) -> (r: Result<RetentionPinPage, Error>)
    ensures
        match r {
            Ok(pins) => pins_among(page.tags@) == Ok::<Seq<PinView>, Fault>(pins_view(pins.pins@))
                && pins.continuation == page.continuation,
            Err(error) => pins_among(page.tags@) == Err::<Seq<PinView>, Fault>(error@),
        },
{
    let mut pins: Vec<RetentionPin> = Vec::new();
    let ghost all = page.tags@;
    assert(all.take(0) =~= Seq::<Tag>::empty());
    assert(pins_view(pins@) =~= Seq::<PinView>::empty());
    for tag in it: page.tags
        invariant
            it.seq() == all,
            pins_among(all.take(it.index())) == Ok::<Seq<PinView>, Fault>(pins_view(pins@)),
    {
        let ghost n = it.index();
        proof {
            assert(all[n] == tag);
            assert(all.take(n + 1).drop_last() =~= all.take(n));
            assert(all.take(n + 1).last() == tag);
        }
        match decode_retention_pin_tag(tag.name.as_str()) {
            Err(error) => {
                proof {
                    lemma_pins_failure_stays(all, n + 1);
                }
                return Err(error);
            },
            Ok(None) => {},
            Ok(Some(name)) => {
                let ghost before = pins@;
                pins.push(
                    RetentionPin { name, target: tag.target, generation: tag.generation },
                );
                assert(pins_view(pins@) =~= pins_view(before).push(
                    PinView {
                        name: encode_utf8(name@),
                        target: tag.target,
                        generation: tag.generation,
                    },
                ));
            },
        }
    }
    assert(all.take(all.len() as int) =~= all);
    Ok(RetentionPinPage { pins, continuation: page.continuation })
}

/// Where the references of a kind lie.
pub open spec fn ref_namespace(prefix: Seq<char>, kind: RefKind) -> Seq<char> {
    prefix + "/refs/"@ + (match kind {
        RefKind::Branch => "heads"@,
        RefKind::Tag => "tags"@,
    }) + "/"@
}

/// Where the references of a kind lie.
pub fn ref_namespace_path(prefix: &str, kind: RefKind) -> (r: String)
    ensures
        r@ == ref_namespace(prefix@, kind),
{
    let folder = match kind {
        RefKind::Branch => "heads",
        RefKind::Tag => "tags",
    };
    prefix.to_owned().concat("/refs/").concat(folder).concat("/")
}

/// The name of the reference at a path.
pub open spec fn ref_name(prefix: Seq<char>, kind: RefKind, path: Seq<char>) -> Result<Seq<u8>, Fault> {
    let namespace = ref_namespace(prefix, kind);
    if !namespace.is_prefix_of(path) {
        Err(fault(ErrorCode::CorruptCommit, "ref repair escaped its namespace"))
    } else {
        let encoded = encode_utf8(path.skip(namespace.len() as int));
        if !is_hex(encoded) {
            Err(fault(ErrorCode::CorruptCommit, "ref path name is not canonical hex"))
        } else if !valid_utf8(hex_bytes(encoded)) {
            Err(fault(ErrorCode::CorruptCommit, "ref path name is not UTF-8"))
        } else {
            Ok(hex_bytes(encoded))
        }
    }
}

impl Repository {
    /// The namespace that a page of a catalog repair lists.
    pub fn repair_ref_catalog_page(&self, kind: RefKind, limit: usize) -> (r: Result<String, Error>)
        ensures
            match r {
                Ok(namespace) => 1 <= limit <= 1_000 && namespace@ == ref_namespace(
                    self.options.repository_prefix@,
                    kind,
                ),
                Err(error) => !(1 <= limit <= 1_000) && error@ == fault(
                    ErrorCode::InvalidLimit,
                    "ref-catalog repair page must contain 1 to 1,000 refs",
                ),
            },
    {
        if limit < 1 || limit > 1_000 {
            return Err(
                Error::new(
                    ErrorCode::InvalidLimit,
                    "ref-catalog repair page must contain 1 to 1,000 refs",
                ),
            );
        }
        Ok(ref_namespace_path(&self.options.repository_prefix, kind))
    }

    /// The name of the reference at a listed path.
    pub fn repaired_ref_name(&self, kind: RefKind, namespace: &str, path: &str) -> (r: Result<
        String,
        Error,
    >)
        requires
            namespace@ == ref_namespace(self.options.repository_prefix@, kind),
        ensures
            match r {
                Ok(name) => ref_name(self.options.repository_prefix@, kind, path@) == Ok::<
                    Seq<u8>,
                    Fault,
                >(encode_utf8(name@)),
                Err(error) => ref_name(self.options.repository_prefix@, kind, path@) == Err::<
                    Seq<u8>,
                    Fault,
                >(error@),
            },
    {
        let encoded = match strip_prefix(path, namespace) {
            None => {
                return Err(
                    Error::new(ErrorCode::CorruptCommit, "ref repair escaped its namespace"),
                );
            },
            Some(encoded) => encoded,
        };
        assert(path@.skip(namespace@.len() as int) =~= encoded@);
        match hex_decode(encoded) {
            None => Err(
                Error::new(ErrorCode::CorruptCommit, "ref path name is not canonical hex"),
            ),
            Some(bytes) => match string_from_utf8(bytes) {
                None => Err(Error::new(ErrorCode::CorruptCommit, "ref path name is not UTF-8")),
                Some(name) => Ok(name),
            },
        }
    }
}

/// Counts one reference that was looked at. `indexed` says that it was there and is in the catalog now.
pub fn count_repaired_ref(page: &mut RefCatalogRepairPage, indexed: bool)
    requires
        old(page).scanned < usize::MAX,
        old(page).indexed < usize::MAX,
    ensures
        *final(page) == (RefCatalogRepairPage {
            scanned: (old(page).scanned + 1) as usize,
            indexed: if indexed {
                (old(page).indexed + 1) as usize
            } else {
                old(page).indexed
            },
            ..*old(page)
        }),
{
    page.scanned = page.scanned + 1;
    if indexed {
        page.indexed = page.indexed + 1;
    }
}

/// A tag's path gives back its name: the repair finds what was stored.
pub proof fn law_repair_reads_back_the_name(prefix: Seq<char>, name: Seq<char>)
    ensures
        ref_name(
            prefix,
            RefKind::Tag,
            ref_namespace(prefix, RefKind::Tag) + crate::outside::hex_text(encode_utf8(name)),
        ) == Ok::<Seq<u8>, Fault>(encode_utf8(name)),
{
    let namespace = ref_namespace(prefix, RefKind::Tag);
    let path = namespace + crate::outside::hex_text(encode_utf8(name));
    let n = namespace.len() as int;
    assert(path.skip(n) =~= crate::outside::hex_text(encode_utf8(name)));
    assert(namespace.is_prefix_of(path)) by {
        assert(path.subrange(0, n) =~= namespace);
    }
    crate::paths::law_hex_text_reads_back(encode_utf8(name));
    vstd::utf8::encode_utf8_valid_utf8(name);
}

/// The pins are the tags that are made for pinning, all of them and no others: each such tag gives a pin with its
/// target and generation, each pin comes from such a tag, and a tag for pinning that cannot be read is reported.
pub proof fn law_every_pin_is_listed(tags: Seq<Tag>)
    ensures
        pins_among(tags) is Err <==> exists|i: int|
            0 <= i < tags.len() && pin_name((#[trigger] tags[i]).name@) is Err,
        pins_among(tags) matches Ok(pins) ==> {
            &&& forall|i: int|
                0 <= i < tags.len() && (pin_name((#[trigger] tags[i]).name@) matches Ok(Some(_)))
                    ==> pins.contains(
                    PinView {
                        name: pin_name(tags[i].name@)->Ok_0->0,
                        target: tags[i].target,
                        generation: tags[i].generation,
                    },
                )
            &&& forall|k: int|
                0 <= k < pins.len() ==> exists|i: int|
                    0 <= i < tags.len() && pin_name((#[trigger] tags[i]).name@) == Ok::<
                        Option<Seq<u8>>,
                        Fault,
                    >(Some((#[trigger] pins[k]).name)) && pins[k].target == tags[i].target
                        && pins[k].generation == tags[i].generation
        },
    decreases tags.len(),
{
    if tags.len() > 0 {
        let fewer = tags.drop_last();
        let n = tags.len() - 1;
        law_every_pin_is_listed(fewer);
        if pins_among(fewer) is Err {
            let i = choose|i: int| 0 <= i < fewer.len() && pin_name((#[trigger] fewer[i]).name@) is Err;
            assert(tags[i] == fewer[i]);
        } else if pin_name(tags[n].name@) is Err {
        } else {
            assert forall|i: int| 0 <= i < tags.len() implies !(pin_name(
                (#[trigger] tags[i]).name@,
            ) is Err) by {
                if i < n {
                    assert(fewer[i] == tags[i]);
                }
            }
            let before = pins_among(fewer)->Ok_0;
            let pins = pins_among(tags)->Ok_0;
            assert forall|i: int|
                0 <= i < tags.len() && (pin_name((#[trigger] tags[i]).name@) matches Ok(
                    Some(_),
                )) implies pins.contains(
                PinView {
                    name: pin_name(tags[i].name@)->Ok_0->0,
                    target: tags[i].target,
                    generation: tags[i].generation,
                },
            ) by {
                let pin = PinView {
                    name: pin_name(tags[i].name@)->Ok_0->0,
                    target: tags[i].target,
                    generation: tags[i].generation,
                };
                if i < n {
                    assert(fewer[i] == tags[i]);
                    let k = before.index_of(pin);
                    assert(pins[k] == pin);
                } else {
                    assert(pins[before.len() as int] == pin);
                }
            }
            assert forall|k: int| 0 <= k < pins.len() implies exists|i: int|
                0 <= i < tags.len() && pin_name((#[trigger] tags[i]).name@) == Ok::<
                    Option<Seq<u8>>,
                    Fault,
                >(Some((#[trigger] pins[k]).name)) && pins[k].target == tags[i].target
                    && pins[k].generation == tags[i].generation by {
                if k < before.len() {
                    assert(pins[k] == before[k]);
                    let i = choose|i: int|
                        0 <= i < fewer.len() && pin_name((#[trigger] fewer[i]).name@) == Ok::<
                            Option<Seq<u8>>,
                            Fault,
                        >(Some(before[k].name)) && before[k].target == fewer[i].target
                            && before[k].generation == fewer[i].generation;
                    assert(tags[i] == fewer[i]);
                } else {
                    assert(pin_name(tags[n].name@) == Ok::<Option<Seq<u8>>, Fault>(Some(pins[k].name)));
                }
            }
        }
    }
}

} // verus!
