//! Listings: pages of objects and versions in key order, and the grouping of keys by a delimiter.
use crate::bytes::{
    bytes_eq, bytes_lt, has_prefix, lemma_lex_irreflexive, lemma_lex_transitive, lex_lt, to_vec,
};
use crate::error::{fault, outcome, Error, ErrorCode, Fault};
use crate::ids::{CommitId, RepositoryId};
use crate::model::ObjectVersion;
use crate::objects::ObjectSummary;
use crate::ordered::{has_key, met, remember, sorted, Keyed, MetKey};
use crate::outside::{hex_bytes, hex_decode, is_hex, is_utf8};
use crate::repository::Repository;
use vstd::prelude::*;
use vstd::utf8::{encode_utf8, valid_utf8};

verus! {

/// Where a listing stands. `after` is the last key that was listed.
#[derive(Clone, Debug, PartialEq, Eq)]
pub struct ListObjectsCursor {
    pub repository: RepositoryId,
    pub branch: String,
    pub snapshot: CommitId,
    pub prefix: Vec<u8>,
    pub after: Option<Vec<u8>>,
}

/// One page of a listing. `continuation` is text that only this library reads.
#[derive(Clone, Debug, PartialEq, Eq)]
pub struct ListObjectsPage {
    pub snapshot: CommitId,
    pub objects: Vec<ObjectSummary>,
    pub continuation: Option<String>,
}

/// A page of a listing in which keys that share a part up to a delimiter are grouped.
#[derive(Clone, Debug, PartialEq, Eq)]
pub struct DelimitedObjectPage {
    pub snapshot: CommitId,
    pub objects: Vec<ObjectSummary>,
    pub common_prefixes: Vec<Vec<u8>>,
    pub truncated: bool,
}

/// A version with its key, and its place in the version tree.
#[derive(Clone, Debug, PartialEq, Eq)]
pub struct VersionSummary {
    pub key: Vec<u8>,
    pub version: ObjectVersion,
    pub cursor: Vec<u8>,
}

impl Keyed for ObjectSummary {
    open spec fn sort_key(&self) -> Seq<u8> {
        self.key@
    }

    fn sort_bytes(&self) -> (r: &[u8]) {
        &self.key
    }
}

impl Keyed for VersionSummary {
    open spec fn sort_key(&self) -> Seq<u8> {
        self.cursor@
    }

    fn sort_bytes(&self) -> (r: &[u8]) {
        &self.cursor
    }
}

/// The lower of two numbers.
pub open spec fn lower(a: usize, b: usize) -> usize {
    if a < b {
        a
    } else {
        b
    }
}

impl Repository {
    /// How many entries a page may have when so many are asked for.
    pub fn page_limit(&self, requested: usize) -> (r: usize)
        ensures
            r == lower(requested, self.format.canonical_limits.max_list_page as usize),
    {
        let most: usize = self.format.canonical_limits.max_list_page as usize;
        if requested < most {
            requested
        } else {
            most
        }
    }

    /// Refuses a listing under a prefix that is no text, or of no entries; otherwise says how many a page
    /// may have.
    pub fn begin_list_page(&self, prefix: &[u8], requested_limit: usize) -> (r: Result<usize, Error>)
        ensures
            ({
                let limit = lower(
                    requested_limit,
                    self.format.canonical_limits.max_list_page as usize,
                );
                outcome(r) == if !valid_utf8(prefix@) {
                    Err(fault(ErrorCode::InvalidKey, "list prefix is not UTF-8"))
                } else if limit == 0 {
                    Err(fault(ErrorCode::InvalidLimit, "list cursor page size is zero"))
                } else {
                    Ok(limit)
                }
            }),
    {
        if !is_utf8(prefix) {
            return Err(Error::new(ErrorCode::InvalidKey, "list prefix is not UTF-8"));
        }
        let limit: usize = self.page_limit(requested_limit);
        if limit == 0 {
            return Err(Error::new(ErrorCode::InvalidLimit, "list cursor page size is zero"));
        }
        Ok(limit)
    }

    /// Refuses a cursor of another listing.
    pub fn check_list_cursor(
        &self,
        cursor: &ListObjectsCursor,
        branch: &str,
        requested_snapshot: Option<CommitId>,
        prefix: &[u8],
    ) -> (r: Result<(), Error>)
        ensures
            outcome(r) == if cursor.repository == self.format.repository_id && cursor.branch@
                == branch@ && cursor.prefix@ == prefix@ && (requested_snapshot is Some
                ==> requested_snapshot == Some(cursor.snapshot)) {
                Ok::<(), Fault>(())
            } else {
                Err(
                    fault(
                        ErrorCode::InvalidContinuationToken,
                        "list continuation belongs to another repository, branch, snapshot, or prefix",
                    ),
                )
            },
    {
        let moved = match requested_snapshot {
            Some(snapshot) => cursor.snapshot != snapshot,
            None => false,
        };
        if cursor.repository != self.format.repository_id || cursor.branch != branch.to_owned()
            || !bytes_eq(&cursor.prefix, prefix) || moved {
            return Err(
                Error::new(
                    ErrorCode::InvalidContinuationToken,
                    "list continuation belongs to another repository, branch, snapshot, or prefix",
                ),
            );
        }
        Ok(())
    }

    /// The cursor of a listing that begins.
    pub fn first_list_cursor(&self, branch: &str, snapshot: CommitId, prefix: &[u8]) -> (r:
        ListObjectsCursor)
        ensures
            r.repository == self.format.repository_id,
            r.branch@ == branch@,
            r.snapshot == snapshot,
            r.prefix@ == prefix@,
            r.after is None,
    {
        ListObjectsCursor {
            repository: self.format.repository_id,
            branch: branch.to_owned(),
            snapshot,
            prefix: to_vec(prefix),
            after: None,
        }
    }
}

/// The bytes of a continuation.
pub fn decode_list_token(token: &str) -> (r: Result<Vec<u8>, Error>)
    ensures
        match r {
            Ok(bytes) => is_hex(encode_utf8(token@)) && bytes@ == hex_bytes(encode_utf8(token@)),
            Err(error) => !is_hex(encode_utf8(token@)) && error@ == fault(
                ErrorCode::InvalidContinuationToken,
                "list continuation is not canonical hex",
            ),
        },
{
    match hex_decode(token) {
        Some(bytes) => Ok(bytes),
        None => Err(
            Error::new(
                ErrorCode::InvalidContinuationToken,
                "list continuation is not canonical hex",
            ),
        ),
    }
}

/// The cursor in a continuation, as far as its bytes hold one.
pub fn decoded_list_cursor(decoded: Option<ListObjectsCursor>) -> (r: Result<ListObjectsCursor, Error>)
    ensures
        outcome(r) == match decoded {
            Some(cursor) => Ok(cursor),
            None => Err(
                fault(ErrorCode::InvalidContinuationToken, "list continuation is malformed"),
            ),
        },
{
    match decoded {
        Some(cursor) => Ok(cursor),
        None => Err(
            Error::new(ErrorCode::InvalidContinuationToken, "list continuation is malformed"),
        ),
    }
}

/// The text of a continuation.
pub fn encode_list_token(bytes: &[u8]) -> (r: String)
    ensures
        r@ == crate::outside::hex_text(bytes@),
{
    crate::outside::hex_encode(bytes)
}

/// What a page of one more than `limit` entries becomes: the first `limit` of them, and where the listing
/// goes on if there was one more.
pub fn finish_list_page(
    cursor: ListObjectsCursor,
    entries: Vec<ObjectSummary>,
    limit: usize,
) -> (r: (Vec<ObjectSummary>, Option<ListObjectsCursor>))
    requires
        limit > 0,
    ensures
        if entries@.len() > limit {
            &&& r.0@ == entries@.take(limit as int)
            &&& r.1 matches Some(next)
            &&& next.repository == cursor.repository
            &&& next.branch == cursor.branch
            &&& next.snapshot == cursor.snapshot
            &&& next.prefix == cursor.prefix
            &&& next.after matches Some(key)
            &&& key@ == entries@[limit - 1].key@
        } else {
            r.0@ == entries@ && r.1 is None
        },
{
    let mut entries = entries;
    if entries.len() <= limit {
        return (entries, None);
    }
    entries.truncate(limit);
    let last = to_vec(&entries[limit - 1].key);
    let next = ListObjectsCursor {
        repository: cursor.repository,
        branch: cursor.branch,
        snapshot: cursor.snapshot,
        prefix: cursor.prefix,
        after: Some(last),
    };
    (entries, Some(next))
}

/// Whether a key comes after the place where a listing goes on.
pub open spec fn comes_after(key: Seq<u8>, after: Option<Seq<u8>>) -> bool {
    match after {
        None => true,
        Some(place) => lex_lt(place, key),
    }
}

/// The entries of a list that come after a place.
pub open spec fn entries_after<T: Keyed>(list: Seq<T>, after: Option<Seq<u8>>) -> Seq<T> {
    list.filter(|item: T| comes_after(item.sort_key(), after))
}

/// A page in the making: it takes entries in key order and keeps those after a place, one more than its
/// limit.
#[derive(Debug)]
pub struct ListRun<T> {
    pub after: Option<Vec<u8>>,
    pub limit: usize,
    pub result: Vec<T>,
}

impl<T: Keyed> ListRun<T> {
    /// The place after which entries are kept.
    pub open spec fn place(&self) -> Option<Seq<u8>> {
        match self.after {
            Some(key) => Some(key@),
            None => None,
        }
    }

    /// Whether the page needs more entries.
    pub fn wants_more(&self) -> (r: bool)
        ensures
            r == (self.result@.len() <= self.limit),
    {
        self.result.len() <= self.limit
    }

    /// Whether the page keeps an entry with this key.
    pub fn keeps(&self, key: &[u8]) -> (r: bool)
        ensures
            r == comes_after(key@, self.place()),
    {
        match &self.after {
            None => true,
            Some(after) => bytes_lt(after, key),
        }
    }

    /// Takes the next entry.
    pub fn accept(&mut self, item: T)
        ensures
            final(self).after == old(self).after,
            final(self).limit == old(self).limit,
            final(self).result@ == if comes_after(item.sort_key(), old(self).place()) {
                old(self).result@.push(item)
            } else {
                old(self).result@
            },
            forall|taken: Seq<T>| #[trigger]
                entries_after(taken, old(self).place()) == old(self).result@ ==> entries_after(
                    taken.push(item),
                    old(self).place(),
                ) == final(self).result@,
    {
        let ghost place = self.place();
        let ghost before = self.result@;
        if self.keeps(item.sort_bytes()) {
            self.result.push(item);
        }
        proof {
            assert forall|taken: Seq<T>| #[trigger] entries_after(taken, place)
                == before implies entries_after(taken.push(item), place) == self.result@ by {
                let keep = |x: T| comes_after(x.sort_key(), place);
                let more = taken.push(item);
                assert(more.drop_last() =~= taken);
                reveal(Seq::filter);
                assert(more.filter(keep) =~= self.result@);
            }
        }
    }

    /// Ends the page. The answer says whether the listing goes on.
    pub fn finish(self) -> (r: (Vec<T>, bool))
        ensures
            r.1 == (self.result@.len() > self.limit),
            r.0@ == if r.1 {
                self.result@.take(self.limit as int)
            } else {
                self.result@
            },
    {
        let mut result = self.result;
        let truncated = result.len() > self.limit;
        if truncated {
            result.truncate(self.limit);
        }
        (result, truncated)
    }
}

impl Repository {
    /// Begins a listing of objects, or of versions, after a place. None: the page may hold nothing.
    /// `not_text` is the error of a prefix that is no text.
    fn begin_listing<T>(
        &self,
        prefix: &[u8],
        after: Option<Vec<u8>>,
        limit: usize,
        not_text: &str,
    ) -> (r: Result<Option<ListRun<T>>, Error>)
        ensures
            match r {
                Err(error) => !valid_utf8(prefix@) && error@ == fault(
                    ErrorCode::InvalidKey,
                    not_text,
                ),
                Ok(run) => {
                    let least = lower(limit, self.format.canonical_limits.max_list_page as usize);
                    &&& valid_utf8(prefix@)
                    &&& run is None <==> least == 0
                    &&& run matches Some(page) ==> page.after == after && page.limit == least
                        && page.result@.len() == 0
                },
            },
    {
        if !is_utf8(prefix) {
            return Err(Error::new(ErrorCode::InvalidKey, not_text));
        }
        let least: usize = self.page_limit(limit);
        if least == 0 {
            return Ok(None);
        }
        Ok(Some(ListRun { after, limit: least, result: Vec::new() }))
    }

    /// Begins a listing of the objects under a prefix. None: the page may hold nothing.
    pub fn list_objects_at(&self, prefix: &[u8], after: Option<Vec<u8>>, limit: usize) -> (r: Result<
        Option<ListRun<ObjectSummary>>,
        Error,
    >)
        ensures
            match r {
                Err(error) => !valid_utf8(prefix@) && error@ == fault(
                    ErrorCode::InvalidKey,
                    "list prefix is not UTF-8",
                ),
                Ok(run) => {
                    let least = lower(limit, self.format.canonical_limits.max_list_page as usize);
                    &&& valid_utf8(prefix@)
                    &&& run is None <==> least == 0
                    &&& run matches Some(page) ==> page.after == after && page.limit == least
                        && page.result@.len() == 0
                },
            },
    {
        self.begin_listing(prefix, after, limit, "list prefix is not UTF-8")
    }

    /// Begins a listing of the versions under a prefix. None: the page may hold nothing.
    pub fn list_versions_at(&self, prefix: &[u8], after: Option<Vec<u8>>, limit: usize) -> (r: Result<
        Option<ListRun<VersionSummary>>,
        Error,
    >)
        ensures
            match r {
                Err(error) => !valid_utf8(prefix@) && error@ == fault(
                    ErrorCode::InvalidKey,
                    "version prefix is not UTF-8",
                ),
                Ok(run) => {
                    let least = lower(limit, self.format.canonical_limits.max_list_page as usize);
                    &&& valid_utf8(prefix@)
                    &&& run is None <==> least == 0
                    &&& run matches Some(page) ==> page.after == after && page.limit == least
                        && page.result@.len() == 0
                },
            },
    {
        self.begin_listing(prefix, after, limit, "version prefix is not UTF-8")
    }
}

/// A listing that goes on after the last key of a page lists exactly what the page left out: in a list in
/// key order, what comes after the entry at `last` is what stands behind it.
pub proof fn law_next_page_goes_on_where_the_last_ended<T: Keyed>(list: Seq<T>, last: int, i: int)
    requires
        sorted(list),
        0 <= last < list.len(),
        0 <= i < list.len(),
    ensures
        comes_after(list[i].sort_key(), Some(list[last].sort_key())) <==> i > last,
{
    let key = list[last].sort_key();
    if i > last {
        assert(lex_lt(list[last].sort_key(), list[i].sort_key()));
    } else if i == last {
        lemma_lex_irreflexive(key);
    } else {
        assert(lex_lt(list[i].sort_key(), list[last].sort_key()));
        if lex_lt(key, list[i].sort_key()) {
            lemma_lex_transitive(key, list[i].sort_key(), key);
            lemma_lex_irreflexive(key);
        }
    }
}

/// One page of a listing: at most `limit` of the entries after a place, and whether there are more.
pub open spec fn page_of<T: Keyed>(list: Seq<T>, after: Option<Seq<u8>>, limit: int) -> (Seq<T>, bool) {
    let left = entries_after(list, after);
    if left.len() > limit {
        (left.take(limit), true)
    } else {
        (left, false)
    }
}

/// The pages of a listing, each going on after the last key of the one before; `most` bounds how many.
pub open spec fn pages_of<T: Keyed>(
    list: Seq<T>,
    after: Option<Seq<u8>>,
    limit: int,
    most: nat,
) -> Seq<Seq<T>>
    decreases most,
{
    let (page, more) = page_of(list, after, limit);
    if !more || most == 0 {
        seq![page]
    } else {
        seq![page] + pages_of(list, Some(page.last().sort_key()), limit, (most - 1) as nat)
    }
}

/// A page that has met one entry more than its limit is complete, whatever follows.
pub proof fn law_page_needs_no_more<T: Keyed>(
    taken: Seq<T>,
    rest: Seq<T>,
    after: Option<Seq<u8>>,
    limit: int,
)
    requires
        0 <= limit < entries_after(taken, after).len(),
    ensures
        page_of(taken + rest, after, limit) == (entries_after(taken, after).take(limit), true),
{
    let keep = |item: T| comes_after(item.sort_key(), after);
    Seq::filter_distributes_over_add(taken, rest, keep);
    assert(entries_after(taken + rest, after).take(limit) =~= entries_after(taken, after).take(limit));
}

/// Where a listing stands after the first `n` entries of a list.
pub open spec fn place_after<T: Keyed>(list: Seq<T>, n: int) -> Option<Seq<u8>> {
    if n == 0 {
        None
    } else {
        Some(list[n - 1].sort_key())
    }
}

/// What comes after the first entries of a list is the rest of it.
pub proof fn lemma_entries_after<T: Keyed>(list: Seq<T>, n: int, m: int)
    requires
        sorted(list),
        0 <= n <= list.len(),
        0 <= m <= list.len(),
    ensures
        entries_after(list.take(m), place_after(list, n)) == if m <= n {
            Seq::empty()
        } else {
            list.subrange(n, m)
        },
    decreases m,
{
    let keep = |item: T| comes_after(item.sort_key(), place_after(list, n));
    reveal(Seq::filter);
    if m == 0 {
        assert(list.take(0).filter(keep) =~= Seq::<T>::empty());
    } else {
        lemma_entries_after(list, n, m - 1);
        assert(list.take(m).drop_last() =~= list.take(m - 1));
        assert(list.take(m).last() == list[m - 1]);
        if n > 0 {
            law_next_page_goes_on_where_the_last_ended(list, n - 1, m - 1);
        }
        if m - 1 >= n {
            assert(keep(list[m - 1]));
            if m - 1 == n {
                assert(Seq::<T>::empty().push(list[m - 1]) =~= list.subrange(n, m));
            } else {
                assert(list.subrange(n, m - 1).push(list[m - 1]) =~= list.subrange(n, m));
            }
        } else {
            assert(!keep(list[m - 1]));
        }
    }
}

/// A page before other pages: joined they are the page and then the others joined; and where all but the last
/// are full, they stay so.
pub proof fn lemma_page_before<T>(page: Seq<T>, rest: Seq<Seq<T>>, limit: int)
    requires
        rest.len() > 0,
        page.len() == limit,
        forall|i: int| 0 <= i < rest.len() - 1 ==> (#[trigger] rest[i]).len() == limit,
    ensures
        (seq![page] + rest).flatten() == page + rest.flatten(),
        (seq![page] + rest).last() == rest.last(),
        forall|i: int|
            0 <= i < (seq![page] + rest).len() - 1 ==> (#[trigger] (seq![page] + rest)[i]).len()
                == limit,
{
    let pages = seq![page] + rest;
    assert(pages.drop_first() =~= rest);
    assert(pages.first() == page);
    assert forall|i: int| 0 <= i < pages.len() - 1 implies (#[trigger] pages[i]).len() == limit by {
        if i > 0 {
            assert(pages[i] == rest[i - 1]);
        }
    }
}

/// What is left of a list after its first entries.
pub proof fn lemma_left_after<T: Keyed>(list: Seq<T>, n: int)
    requires
        sorted(list),
        0 <= n <= list.len(),
    ensures
        entries_after(list, place_after(list, n)) == list.skip(n),
{
    lemma_entries_after(list, n, list.len() as int);
    assert(list.take(list.len() as int) =~= list);
    assert(list.skip(n) =~= list.subrange(n, list.len() as int));
}

/// The page after the first entries of a list.
proof fn lemma_page_at<T: Keyed>(list: Seq<T>, n: int, limit: int)
    requires
        sorted(list),
        0 <= n <= list.len(),
        limit > 0,
    ensures
        page_of(list, place_after(list, n), limit) == if n + limit < list.len() {
            (list.subrange(n, n + limit), true)
        } else {
            (list.skip(n), false)
        },
{
    lemma_left_after(list, n);
    if n + limit < list.len() {
        assert(list.skip(n).take(limit) =~= list.subrange(n, n + limit));
    }
}

/// The pages after the first entries of a list: the next page, and those after it.
proof fn lemma_pages_at<T: Keyed>(list: Seq<T>, n: int, limit: int, most: nat)
    requires
        sorted(list),
        0 <= n <= list.len(),
        limit > 0,
        list.len() - n <= most,
    ensures
        pages_of(list, place_after(list, n), limit, most) == if n + limit < list.len() {
            seq![list.subrange(n, n + limit)] + pages_of(
                list,
                place_after(list, n + limit),
                limit,
                (most - 1) as nat,
            )
        } else {
            seq![list.skip(n)]
        },
{
    lemma_page_at(list, n, limit);
    if n + limit < list.len() {
        assert(list.subrange(n, n + limit).last() == list[n + limit - 1]);
    }
}

/// The pages of a listing are the whole listing: joined they hold every entry once and in order, and each but
/// the last is full.
#[verifier::spinoff_prover]
pub proof fn law_pages_are_the_whole_listing<T: Keyed>(list: Seq<T>, n: int, limit: int, most: nat)
    requires
        sorted(list),
        0 <= n <= list.len(),
        limit > 0,
        list.len() - n <= most,
    ensures
        ({
            let pages = pages_of(list, place_after(list, n), limit, most);
            &&& pages.len() > 0
            &&& pages.flatten() == list.skip(n)
            &&& forall|i: int| 0 <= i < pages.len() - 1 ==> (#[trigger] pages[i]).len() == limit
            &&& pages.last().len() <= limit
        }),
    decreases most,
{
    lemma_pages_at(list, n, limit, most);
    if n + limit < list.len() {
        let next = n + limit;
        let page = list.subrange(n, next);
        law_pages_are_the_whole_listing(list, next, limit, (most - 1) as nat);
        let rest = pages_of(list, place_after(list, next), limit, (most - 1) as nat);
        lemma_page_before(page, rest, limit);
        assert(page + list.skip(next) =~= list.skip(n));
    } else {
        seq![list.skip(n)].lemma_flatten_one_element();
    }
}

/// Whether `needle` stands at place `i` of `haystack`.
pub open spec fn stands_at(haystack: Seq<u8>, needle: Seq<u8>, i: int) -> bool {
    0 <= i && i + needle.len() <= haystack.len() && haystack.subrange(i, i + needle.len()) == needle
}

/// Whether `i` is the first place of `haystack` where `needle` stands.
pub open spec fn first_at(haystack: Seq<u8>, needle: Seq<u8>, i: int) -> bool {
    stands_at(haystack, needle, i) && forall|j: int|
        0 <= j < i ==> !(#[trigger] stands_at(haystack, needle, j))
}

/// Whether `needle` stands nowhere in `haystack`.
pub open spec fn stands_nowhere(haystack: Seq<u8>, needle: Seq<u8>) -> bool {
    forall|j: int| !(#[trigger] stands_at(haystack, needle, j))
}

/// The first place of `haystack`, from its place `from` on, where `needle` stands, counted from there.
pub fn find_subslice(haystack: &[u8], from: usize, needle: &[u8]) -> (r: Option<usize>)
    requires
        needle@.len() > 0,
        from <= haystack@.len(),
    ensures
        match r {
            Some(i) => first_at(haystack@.skip(from as int), needle@, i as int),
            None => stands_nowhere(haystack@.skip(from as int), needle@),
        },
{
    let ghost rest = haystack@.skip(from as int);
    let total: usize = haystack.len();
    let left: usize = total - from;
    if needle.len() > left {
        return None;
    }
    let places: usize = left - needle.len();
    let mut i: usize = 0;
    loop
        invariant
            needle@.len() > 0,
            from <= total,
            total == haystack@.len(),
            rest == haystack@.skip(from as int),
            left == total - from,
            places == left - needle@.len(),
            needle@.len() <= left,
            i <= places,
            forall|j: int| 0 <= j < i ==> !(#[trigger] stands_at(rest, needle@, j)),
        decreases places - i,
    {
        let mut k: usize = 0;
        while k < needle.len() && haystack[from + i + k] == needle[k]
            invariant
                from <= total,
                total == haystack@.len(),
                rest == haystack@.skip(from as int),
                left == total - from,
                places == left - needle@.len(),
                needle@.len() <= left,
                i <= places,
                k <= needle@.len(),
                forall|m: int| 0 <= m < k ==> rest[i + m] == needle@[m],
            decreases needle.len() - k,
        {
            k += 1;
        }
        if k == needle.len() {
            assert(rest.subrange(i as int, i + needle@.len()) =~= needle@);
            return Some(i);
        }
        proof {
            if stands_at(rest, needle@, i as int) {
                let window = rest.subrange(i as int, i + needle@.len());
                assert(window[k as int] == needle@[k as int]);
            }
        }
        if i == places {
            return None;
        }
        i += 1;
    }
}

/// The part of a key up to the first delimiter behind the prefix, the delimiter with it.
pub open spec fn group_of(key: Seq<u8>, prefix_len: nat, delimiter: Seq<u8>) -> Option<Seq<u8>> {
    let rest = key.skip(prefix_len as int);
    if stands_nowhere(rest, delimiter) {
        None
    } else {
        let i = choose|i: int| #[trigger] first_at(rest, delimiter, i);
        Some(key.take(prefix_len + i + delimiter.len()))
    }
}

proof fn lemma_first_place_is_one(haystack: Seq<u8>, needle: Seq<u8>, a: int, b: int)
    requires
        first_at(haystack, needle, a),
        first_at(haystack, needle, b),
    ensures
        a == b,
{
    if a < b {
        assert(!stands_at(haystack, needle, a));
    } else if b < a {
        assert(!stands_at(haystack, needle, b));
    }
}

/// The group of a key, if it has one.
pub fn common_prefix(key: &Vec<u8>, prefix_len: usize, delimiter: &[u8]) -> (r: Option<Vec<u8>>)
    requires
        prefix_len <= key@.len(),
        delimiter@.len() > 0,
    ensures
        match r {
            Some(group) => {
                &&& group_of(key@, prefix_len as nat, delimiter@) == Some(group@)
                &&& prefix_len + delimiter@.len() <= group@.len() <= key@.len()
                &&& group@ == key@.take(group@.len() as int)
                &&& group@.skip(group@.len() - delimiter@.len()) == delimiter@
                &&& forall|j: int|
                    prefix_len <= j < group@.len() - delimiter@.len() ==> (#[trigger] key@.skip(
                        j,
                    )).take(delimiter@.len() as int) != delimiter@
            },
            None => {
                &&& group_of(key@, prefix_len as nat, delimiter@) is None
                &&& forall|j: int|
                    prefix_len <= j && j + delimiter@.len() <= key@.len() ==> (#[trigger] key@.skip(
                        j,
                    )).take(delimiter@.len() as int) != delimiter@
            },
        },
{
    proof {
        law_group_is_the_shortest(key@, prefix_len as nat, delimiter@);
    }
    match find_subslice(key, prefix_len, delimiter) {
        None => None,
        Some(at) => {
            let ghost rest = key@.skip(prefix_len as int);
            proof {
                assert(stands_at(rest, delimiter@, at as int));
                let i = choose|i: int| #[trigger] first_at(rest, delimiter@, i);
                lemma_first_place_is_one(rest, delimiter@, i, at as int);
            }
            let length: usize = key.len();
            let end: usize = prefix_len + at + delimiter.len();
            let mut group = to_vec(key);
            group.truncate(end);
            assert(group@ =~= key@.take(end as int));
            Some(group)
        },
    }
}

/// Whether some entry of a list has this group.
pub open spec fn some_group(list: Seq<ObjectSummary>, prefix_len: nat, delimiter: Seq<u8>, group: Seq<u8>) -> bool {
    exists|i: int|
        0 <= i < list.len() && group_of((#[trigger] list[i]).key@, prefix_len, delimiter) == Some(
            group,
        )
}

/// Whether a list of groups has this one.
pub open spec fn names_group(list: Seq<Vec<u8>>, group: Seq<u8>) -> bool {
    exists|i: int| 0 <= i < list.len() && #[trigger] list[i]@ == group
}

/// The entries of a list that have no group.
pub open spec fn ungrouped(list: Seq<ObjectSummary>, prefix_len: nat, delimiter: Seq<u8>) -> Seq<
    ObjectSummary,
> {
    list.filter(|object: ObjectSummary| group_of(object.key@, prefix_len, delimiter) is None)
}

/// Groups the objects of a page: those whose keys hold the delimiter behind the prefix are replaced by
/// their groups, each once and in order; the others stay.
pub fn list_objects_delimited_at(
    snapshot: CommitId,
    prefix: &[u8],
    delimiter: &[u8],
    candidates: Vec<ObjectSummary>,
    truncated: bool,
) -> (r: Result<DelimitedObjectPage, Error>)
    ensures
        match r {
            Err(error) => if delimiter@.len() == 0 {
                error@ == no_delimiter()
            } else {
                &&& error@ == fault(
                    ErrorCode::InternalInvariant,
                    "prefix listing returned a key outside its prefix",
                )
                &&& exists|i: int|
                    0 <= i < candidates@.len() && (#[trigger] candidates@[i]).key@.len()
                        < prefix@.len()
            },
            Ok(page) => {
                &&& delimiter@.len() > 0
                &&& forall|i: int|
                    0 <= i < candidates@.len() ==> (#[trigger] candidates@[i]).key@.len()
                        >= prefix@.len()
                &&& page.snapshot == snapshot
                &&& page.truncated == truncated
                &&& page.objects@ == ungrouped(candidates@, prefix@.len(), delimiter@)
                &&& forall|i: int, j: int|
                    0 <= i < j < page.common_prefixes@.len() ==> lex_lt(
                        #[trigger] page.common_prefixes@[i]@,
                        #[trigger] page.common_prefixes@[j]@,
                    )
                &&& forall|group: Seq<u8>| #[trigger]
                    names_group(page.common_prefixes@, group) <==> some_group(
                        candidates@,
                        prefix@.len(),
                        delimiter@,
                        group,
                    )
            },
        },
{
    if delimiter.len() == 0 {
        return Err(Error::new(ErrorCode::InvalidRequest, "list delimiter must not be empty"));
    }
    let ghost all = candidates@;
    let ghost width = prefix@.len();
    let mut objects: Vec<ObjectSummary> = Vec::new();
    let mut groups: Vec<MetKey> = Vec::new();
    proof {
        reveal(Seq::filter);
        assert(all.take(0) =~= Seq::<ObjectSummary>::empty());
        assert(ungrouped(all.take(0), width, delimiter@) =~= Seq::<ObjectSummary>::empty());
        assert(met(groups@) =~= Set::<Seq<u8>>::empty());
    }
    for object in it: candidates
        invariant
            it.seq() == all,
            delimiter@.len() > 0,
            width == prefix@.len(),
            sorted(groups@),
            forall|i: int| 0 <= i < it.index() ==> (#[trigger] all[i]).key@.len() >= width,
            objects@ == ungrouped(all.take(it.index()), width, delimiter@),
            forall|group: Seq<u8>| #[trigger]
                met(groups@).contains(group) <==> some_group(
                    all.take(it.index()),
                    width,
                    delimiter@,
                    group,
                ),
    {
        let ghost n = it.index();
        assert(all[n] == object);
        if object.key.len() < prefix.len() {
            assert(all[n].key@.len() < width);
            return Err(
                Error::new(
                    ErrorCode::InternalInvariant,
                    "prefix listing returned a key outside its prefix",
                ),
            );
        }
        let ghost before = groups@;
        let ghost kept = objects@;
        proof {
            reveal(Seq::filter);
            assert(all.take(n + 1).drop_last() =~= all.take(n));
            assert(all.take(n + 1).last() == object);
        }
        match common_prefix(&object.key, prefix.len(), delimiter) {
            Some(group) => {
                remember(&mut groups, &group);
                proof {
                    assert forall|g: Seq<u8>| #[trigger] met(groups@).contains(g) <==> some_group(
                        all.take(n + 1),
                        width,
                        delimiter@,
                        g,
                    ) by {
                        lemma_group_step(all, n, width, delimiter@, g);
                    }
                    assert(ungrouped(all.take(n + 1), width, delimiter@) =~= kept);
                }
            },
            None => {
                objects.push(object);
                proof {
                    assert forall|g: Seq<u8>| #[trigger] met(groups@).contains(g) <==> some_group(
                        all.take(n + 1),
                        width,
                        delimiter@,
                        g,
                    ) by {
                        lemma_group_step(all, n, width, delimiter@, g);
                    }
                    assert(ungrouped(all.take(n + 1), width, delimiter@) =~= kept.push(object));
                }
            },
        }
    }
    assert(all.take(all.len() as int) =~= all);
    let ghost found = groups@;
    let mut common_prefixes: Vec<Vec<u8>> = Vec::new();
    for group in it: groups
        invariant
            it.seq() == found,
            common_prefixes@.len() == it.index(),
            forall|i: int|
                0 <= i < it.index() ==> (#[trigger] common_prefixes@[i])@ == found[i].sort_key(),
    {
        common_prefixes.push(group.0);
    }
    proof {
        assert forall|i: int, j: int| 0 <= i < j < common_prefixes@.len() implies lex_lt(
            #[trigger] common_prefixes@[i]@,
            #[trigger] common_prefixes@[j]@,
        ) by {
            assert(lex_lt(found[i].sort_key(), found[j].sort_key()));
        }
        assert forall|group: Seq<u8>| #[trigger]
            names_group(common_prefixes@, group) <==> some_group(all, width, delimiter@, group) by {
            assert(met(found).contains(group) <==> some_group(all, width, delimiter@, group));
            if has_key(found, group) {
                let i = choose|i: int|
                    0 <= i < found.len() && #[trigger] found[i].sort_key() == group;
                assert(common_prefixes@[i]@ == group);
            }
            if names_group(common_prefixes@, group) {
                let i = choose|i: int|
                    0 <= i < common_prefixes@.len() && #[trigger] common_prefixes@[i]@ == group;
                assert(found[i].sort_key() == group);
            }
        }
    }
    Ok(DelimitedObjectPage { snapshot, objects, common_prefixes, truncated })
}

proof fn lemma_group_step(
    list: Seq<ObjectSummary>,
    n: int,
    width: nat,
    delimiter: Seq<u8>,
    group: Seq<u8>,
)
    requires
        0 <= n < list.len(),
    ensures
        some_group(list.take(n + 1), width, delimiter, group) <==> some_group(
            list.take(n),
            width,
            delimiter,
            group,
        ) || group_of(list[n].key@, width, delimiter) == Some(group),
{
    let more = list.take(n + 1);
    let less = list.take(n);
    if some_group(more, width, delimiter, group) {
        let i = choose|i: int|
            0 <= i < more.len() && group_of((#[trigger] more[i]).key@, width, delimiter) == Some(
                group,
            );
        if i < n {
            assert(less[i] == more[i]);
        }
    }
    if some_group(less, width, delimiter, group) {
        let i = choose|i: int|
            0 <= i < less.len() && group_of((#[trigger] less[i]).key@, width, delimiter) == Some(
                group,
            );
        assert(more[i] == less[i]);
    }
    assert(more[n] == list[n]);
}

/// The error of a listing by no delimiter.
pub open spec fn no_delimiter() -> Fault {
    fault(ErrorCode::InvalidRequest, "list delimiter must not be empty")
}

/// A group is a part of each key in it, and goes beyond the prefix by the delimiter at least.
pub proof fn law_group_is_a_part_of_its_keys(key: Seq<u8>, prefix_len: nat, delimiter: Seq<u8>)
    requires
        prefix_len <= key.len(),
        delimiter.len() > 0,
        group_of(key, prefix_len, delimiter) is Some,
    ensures
        ({
            let group = group_of(key, prefix_len, delimiter)->0;
            &&& has_prefix(key, group)
            &&& group.len() >= prefix_len + delimiter.len()
            &&& group.skip(group.len() - delimiter.len()) == delimiter
        }),
{
    let rest = key.skip(prefix_len as int);
    let j = choose|j: int| #[trigger] stands_at(rest, delimiter, j);
    lemma_some_first_place(rest, delimiter, j);
    let i = choose|i: int| #[trigger] first_at(rest, delimiter, i);
    let group = key.take(prefix_len + i + delimiter.len());
    assert(rest.subrange(i, i + delimiter.len()) =~= group.skip(group.len() - delimiter.len()));
    assert(key.subrange(0, group.len() as int) =~= group);
}

proof fn lemma_some_first_place(haystack: Seq<u8>, needle: Seq<u8>, i: int)
    requires
        stands_at(haystack, needle, i),
    ensures
        exists|j: int| #[trigger] first_at(haystack, needle, j),
    decreases i,
{
    if exists|j: int| 0 <= j < i && #[trigger] stands_at(haystack, needle, j) {
        let j = choose|j: int| 0 <= j < i && #[trigger] stands_at(haystack, needle, j);
        lemma_some_first_place(haystack, needle, j);
    } else {
        assert(first_at(haystack, needle, i));
    }
}

/// The group of a key is the shortest part of it that goes beyond the prefix and ends with the delimiter: it
/// begins the key, the delimiter stands at its end, and at no place between the prefix and there. A key has no
/// group exactly where the delimiter stands nowhere behind its prefix.
pub proof fn law_group_is_the_shortest(key: Seq<u8>, prefix_len: nat, delimiter: Seq<u8>)
    requires
        prefix_len <= key.len(),
        delimiter.len() > 0,
    ensures
        match group_of(key, prefix_len, delimiter) {
            None => forall|j: int|
                prefix_len <= j && j + delimiter.len() <= key.len() ==> (#[trigger] key.skip(j)).take(
                    delimiter.len() as int,
                ) != delimiter,
            Some(group) => {
                &&& prefix_len + delimiter.len() <= group.len() <= key.len()
                &&& group == key.take(group.len() as int)
                &&& group.skip(group.len() - delimiter.len()) == delimiter
                &&& forall|j: int|
                    prefix_len <= j < group.len() - delimiter.len() ==> (#[trigger] key.skip(j)).take(
                        delimiter.len() as int,
                    ) != delimiter
                &&& forall|j: int|
                    0 <= j < group.len() - delimiter.len() - prefix_len ==> (#[trigger] group.skip(
                        prefix_len as int,
                    ).skip(j)).take(delimiter.len() as int) != delimiter
            },
        },
{
    let rest = key.skip(prefix_len as int);
    let width = delimiter.len() as int;
    if group_of(key, prefix_len, delimiter) is None {
        assert forall|j: int|
            prefix_len <= j && j + delimiter.len() <= key.len() implies (#[trigger] key.skip(j)).take(
            width,
        ) != delimiter by {
            assert(!stands_at(rest, delimiter, j - prefix_len));
            assert(rest.subrange(j - prefix_len, j - prefix_len + width) =~= key.skip(j).take(width));
        }
    } else {
        law_group_is_a_part_of_its_keys(key, prefix_len, delimiter);
        let group = group_of(key, prefix_len, delimiter)->0;
        let k = choose|k: int| #[trigger] stands_at(rest, delimiter, k);
        lemma_some_first_place(rest, delimiter, k);
        let i = choose|i: int| #[trigger] first_at(rest, delimiter, i);
        assert(group == key.take(prefix_len + i + width));
        assert(group.len() == prefix_len + i + width);
        assert forall|j: int| prefix_len <= j < group.len() - width implies (#[trigger] key.skip(j)).take(
            width,
        ) != delimiter by {
            assert(!stands_at(rest, delimiter, j - prefix_len));
            assert(rest.subrange(j - prefix_len, j - prefix_len + width) =~= key.skip(j).take(width));
        }
        assert forall|j: int| 0 <= j < group.len() - width - prefix_len implies (#[trigger] group.skip(
            prefix_len as int,
        ).skip(j)).take(width) != delimiter by {
            assert(group.skip(prefix_len as int).skip(j).take(width) =~= key.skip(prefix_len + j).take(
                width,
            ));
        }
    }
}

/// Keys that begin alike as far as the end of a group have that group in common.
pub proof fn law_keys_that_begin_alike_share_their_group(
    key: Seq<u8>,
    other: Seq<u8>,
    prefix_len: nat,
    delimiter: Seq<u8>,
)
    requires
        prefix_len <= key.len(),
        delimiter.len() > 0,
        group_of(key, prefix_len, delimiter) is Some,
        other.len() >= group_of(key, prefix_len, delimiter)->0.len(),
        other.take(group_of(key, prefix_len, delimiter)->0.len() as int) == group_of(
            key,
            prefix_len,
            delimiter,
        )->0,
    ensures
        group_of(other, prefix_len, delimiter) == group_of(key, prefix_len, delimiter),
{
    law_group_is_the_shortest(key, prefix_len, delimiter);
    law_group_is_the_shortest(other, prefix_len, delimiter);
    let group = group_of(key, prefix_len, delimiter)->0;
    let width = delimiter.len() as int;
    let at = group.len() - width;
    assert(other.skip(at).take(width) =~= group.skip(at));
    assert(group_of(other, prefix_len, delimiter) is Some);
    let its = group_of(other, prefix_len, delimiter)->0;
    if its.len() < group.len() {
        let place = its.len() - width;
        assert(its.skip(place) =~= key.skip(place).take(width)) by {
            assert forall|m: int| 0 <= m < width implies its.skip(place)[m] == key.skip(place).take(
                width,
            )[m] by {
                assert(its[place + m] == other[place + m]);
                assert(group[place + m] == other.take(group.len() as int)[place + m]);
                assert(group[place + m] == key[place + m]);
            }
        }
    } else if its.len() > group.len() {
        assert(other.skip(at).take(width) == delimiter);
    }
    assert(its =~= group);
}

/// Grouping a list loses none of it and invents nothing. An object that stays is one of the list and holds no
/// delimiter behind the prefix; an object of the list either stays or lies in a group of the page; and each
/// group is that of an object of the list.
pub proof fn law_grouping_keeps_every_object(
    list: Seq<ObjectSummary>,
    prefix_len: nat,
    delimiter: Seq<u8>,
    i: int,
)
    requires
        0 <= i < list.len(),
        delimiter.len() > 0,
        forall|k: int| 0 <= k < list.len() ==> (#[trigger] list[k]).key@.len() >= prefix_len,
    ensures
        ({
            let key = list[i].key@;
            let grouped = exists|j: int|
                prefix_len <= j && j + delimiter.len() <= key.len() && (#[trigger] key.skip(j)).take(
                    delimiter.len() as int,
                ) == delimiter;
            &&& !grouped ==> ungrouped(list, prefix_len, delimiter).contains(list[i])
            &&& grouped ==> !ungrouped(list, prefix_len, delimiter).contains(list[i])
            &&& grouped ==> exists|n: int|
                prefix_len + delimiter.len() <= n <= key.len() && some_group(
                    list,
                    prefix_len,
                    delimiter,
                    #[trigger] key.take(n),
                )
        }),
        forall|object: ObjectSummary| #[trigger]
            ungrouped(list, prefix_len, delimiter).contains(object) ==> list.contains(object),
        forall|group: Seq<u8>| #[trigger]
            some_group(list, prefix_len, delimiter, group) ==> exists|k: int|
                0 <= k < list.len() && (#[trigger] list[k]).key@.len() >= group.len()
                    && list[k].key@.take(group.len() as int) == group,
{
    let key = list[i].key@;
    let lone = |object: ObjectSummary| group_of(object.key@, prefix_len, delimiter) is None;
    law_group_is_the_shortest(key, prefix_len, delimiter);
    if lone(list[i]) {
        list.lemma_filter_contains(lone, i);
    }
    assert(ungrouped(list, prefix_len, delimiter) == list.filter(lone));
    assert forall|object: ObjectSummary| #[trigger]
        ungrouped(list, prefix_len, delimiter).contains(object) implies list.contains(object) && lone(
        object,
    ) by {
        let k = list.filter(lone).index_of(object);
        list.lemma_filter_pred(lone, k);
        list.lemma_filter_contains_rev(lone, object);
    }
    if group_of(key, prefix_len, delimiter) is Some {
        let group = group_of(key, prefix_len, delimiter)->0;
        let n = group.len() as int;
        assert(some_group(list, prefix_len, delimiter, key.take(n)));
        let at = n - delimiter.len();
        assert(key.skip(at).take(delimiter.len() as int) =~= group.skip(at));
    }
    assert forall|group: Seq<u8>| #[trigger]
        some_group(list, prefix_len, delimiter, group) implies exists|k: int|
        0 <= k < list.len() && (#[trigger] list[k]).key@.len() >= group.len()
            && list[k].key@.take(group.len() as int) == group by {
        let k = choose|k: int|
            0 <= k < list.len() && group_of((#[trigger] list[k]).key@, prefix_len, delimiter) == Some(
                group,
            );
        law_group_is_the_shortest(list[k].key@, prefix_len, delimiter);
    }
}

/// A listing goes on after a place with what sorts behind it and nothing else: every entry whose key comes later, none
/// whose key does not, in the order of the list; with no place it begins at the start.
pub proof fn law_listing_goes_on_behind_its_place<T: Keyed>(list: Seq<T>, after: Option<Seq<u8>>, i: int)
    requires
        0 <= i < list.len(),
    ensures
        after is None ==> entries_after(list, after) == list,
        after is Some && lex_lt(after->0, list[i].sort_key()) ==> entries_after(list, after).contains(
            list[i],
        ),
        forall|k: int|
            0 <= k < entries_after(list, after).len() ==> list.contains(
                #[trigger] entries_after(list, after)[k],
            ) && (after is Some ==> lex_lt(after->0, entries_after(list, after)[k].sort_key())),
{
    let keep = |item: T| comes_after(item.sort_key(), after);
    let left = entries_after(list, after);
    assert(left == list.filter(keep));
    if keep(list[i]) {
        list.lemma_filter_contains(keep, i);
    }
    assert forall|k: int| 0 <= k < left.len() implies list.contains(#[trigger] left[k]) && (after is Some
        ==> lex_lt(after->0, left[k].sort_key())) by {
        list.lemma_filter_pred(keep, k);
        assert(list.filter(keep).contains(left[k]));
        list.lemma_filter_contains_rev(keep, left[k]);
    }
    if after is None {
        lemma_nothing_left_out(list, keep);
    }
}

proof fn lemma_nothing_left_out<T>(list: Seq<T>, keep: spec_fn(T) -> bool)
    requires
        forall|item: T| #[trigger] keep(item),
    ensures
        list.filter(keep) == list,
    decreases list.len(),
{
    reveal(Seq::filter);
    if list.len() > 0 {
        lemma_nothing_left_out(list.drop_last(), keep);
        assert(list.drop_last().push(list.last()) =~= list);
    } else {
        assert(list.filter(keep) =~= list);
    }
}

/// A page holds what comes first behind its place, as much as it may, and says that there is more exactly where
/// something was left over.
pub proof fn law_page_is_the_first_of_the_rest<T: Keyed>(list: Seq<T>, after: Option<Seq<u8>>, limit: int)
    requires
        0 <= limit,
    ensures
        page_of(list, after, limit).0.len() <= limit,
        page_of(list, after, limit).0 == entries_after(list, after).take(
            page_of(list, after, limit).0.len() as int,
        ),
        page_of(list, after, limit).1 <==> entries_after(list, after).len() > page_of(
            list,
            after,
            limit,
        ).0.len(),
        page_of(list, after, limit).1 ==> page_of(list, after, limit).0.len() == limit,
{
    let left = entries_after(list, after);
    assert(left.take(left.len() as int) =~= left);
}

/// A page is never larger than what is asked for or than what may be, and is as large as both allow.
pub proof fn law_page_size_is_the_lower_bound(a: usize, b: usize)
    ensures
        lower(a, b) <= a,
        lower(a, b) <= b,
        lower(a, b) == a || lower(a, b) == b,
{
}

/// A key is behind a place where it sorts above it, and every key is behind no place; a group is named where the list has
/// it.
pub proof fn law_key_is_behind_a_lower_place(
    key: Seq<u8>,
    place: Seq<u8>,
    groups: Seq<Vec<u8>>,
    group: Seq<u8>,
    i: int,
)
    ensures
        comes_after(key, None),
        comes_after(key, Some(place)) <==> lex_lt(place, key),
        0 <= i < groups.len() && groups[i]@ == group ==> names_group(groups, group),
        (forall|k: int| 0 <= k < groups.len() ==> (#[trigger] groups[k])@ != group) ==> !names_group(
            groups,
            group,
        ),
{
}

/// The place where something is first found has it, and no place before does.
pub proof fn law_first_place_comes_before_every_other(
    haystack: Seq<u8>,
    needle: Seq<u8>,
    i: int,
    j: int,
)
    ensures
        first_at(haystack, needle, i) ==> 0 <= i && i + needle.len() <= haystack.len() && haystack.skip(
            i,
        ).take(needle.len() as int) == needle,
        first_at(haystack, needle, i) && 0 <= j < i ==> haystack.skip(j).take(needle.len() as int)
            != needle,
        stands_nowhere(haystack, needle) && 0 <= j && j + needle.len() <= haystack.len()
            ==> haystack.skip(j).take(needle.len() as int) != needle,
{
    let width = needle.len() as int;
    if first_at(haystack, needle, i) {
        assert(haystack.skip(i).take(width) =~= haystack.subrange(i, i + width));
        if 0 <= j < i {
            assert(!stands_at(haystack, needle, j));
            assert(haystack.skip(j).take(width) =~= haystack.subrange(j, j + width));
        }
    }
    if stands_nowhere(haystack, needle) && 0 <= j && j + width <= haystack.len() {
        assert(!stands_at(haystack, needle, j));
        assert(haystack.skip(j).take(width) =~= haystack.subrange(j, j + width));
    }
}

} // verus!
