//! Keys of the version tree: a logical key, escaped and terminated, then the version's place in the
//! key's history with every byte complemented, so that the newest version of a key sorts first.
use crate::bytes::{
    be_bytes, has_prefix, lemma_be_bytes_len, lemma_be_injective, lemma_be_order, lemma_lex_append,
    lemma_pow256_values, lex_lt, u32_be, u64_be,
};
use crate::error::{fault, Error, ErrorCode, Fault};
use crate::ids::{CommitGeneration, ObjectVersionId};
use vstd::prelude::*;

verus! {

/// A version's place in history: the commit that made it, then its place among that commit's
/// mutations.
#[derive(Clone, Copy, Debug, PartialEq, Eq, PartialOrd, Ord, Hash, Structural)]
pub struct ObjectVersionOrder {
    pub commit_generation: CommitGeneration,
    pub mutation_ordinal: u32,
}

/// `key` with each zero byte followed by `0xff`.
pub open spec fn escaped(key: Seq<u8>) -> Seq<u8>
    decreases key.len(),
{
    if key.len() == 0 {
        Seq::empty()
    } else if key.last() == 0 {
        escaped(key.drop_last()).push(0).push(0xff)
    } else {
        escaped(key.drop_last()).push(key.last())
    }
}

/// What every version key of `key` begins with.
pub open spec fn version_prefix(key: Seq<u8>) -> Seq<u8> {
    escaped(key).push(0).push(0)
}

/// Every byte replaced by its complement.
pub open spec fn complement(bytes: Seq<u8>) -> Seq<u8> {
    Seq::new(bytes.len(), |i: int| (255 - bytes[i]) as u8)
}

/// The part of a version key that orders the versions of one logical key.
pub open spec fn version_suffix(order: ObjectVersionOrder, version: ObjectVersionId) -> Seq<u8> {
    complement(be_bytes(order.commit_generation.0 as nat, 8)) + complement(
        be_bytes(order.mutation_ordinal as nat, 4),
    ) + complement(version@)
}

/// The version key of one version of `key`.
pub open spec fn version_key(
    key: Seq<u8>,
    order: ObjectVersionOrder,
    version: ObjectVersionId,
) -> Seq<u8> {
    version_prefix(key) + version_suffix(order, version)
}

/// What a version key says of its logical key, read from byte `index` on.
pub open spec fn decoded_from(encoded: Seq<u8>, index: int, key: Seq<u8>) -> Result<
    Seq<u8>,
    Fault,
>
    decreases encoded.len() - index,
{
    if index < 0 || index >= encoded.len() {
        Err(fault(ErrorCode::CorruptCommit, "unterminated version-tree logical key"))
    } else if encoded[index] != 0 {
        decoded_from(encoded, index + 1, key.push(encoded[index]))
    } else if index + 1 < encoded.len() && encoded[index + 1] == 0 {
        Ok(key)
    } else if index + 1 < encoded.len() && encoded[index + 1] == 0xff {
        decoded_from(encoded, index + 2, key.push(0))
    } else {
        Err(fault(ErrorCode::CorruptCommit, "noncanonical version-tree key escape"))
    }
}

/// `key` with each zero byte escaped, without a terminator: what the version keys of every logical
/// key that begins with `key` begin with.
pub fn version_tree_partial_prefix(key: &[u8]) -> (r: Vec<u8>)
    ensures
        r@ == escaped(key@),
{
    let mut output: Vec<u8> = Vec::new();
    let mut i: usize = 0;
    assert(key@.take(0) =~= Seq::<u8>::empty());
    while i < key.len()
        invariant
            i <= key.len(),
            output@ == escaped(key@.take(i as int)),
        decreases key.len() - i,
    {
        assert(key@.take(i + 1).drop_last() =~= key@.take(i as int));
        if key[i] == 0 {
            output.push(0);
            output.push(0xff);
        } else {
            output.push(key[i]);
        }
        i += 1;
    }
    assert(key@.take(key@.len() as int) =~= key@);
    output
}

/// What every version key of `key` begins with.
pub fn version_tree_prefix(key: &[u8]) -> (r: Vec<u8>)
    ensures
        r@ == version_prefix(key@),
{
    let mut output = version_tree_partial_prefix(key);
    output.push(0);
    output.push(0);
    output
}

fn append_complement(output: &mut Vec<u8>, bytes: &[u8])
    ensures
        final(output)@ == old(output)@ + complement(bytes@),
{
    let mut i: usize = 0;
    while i < bytes.len()
        invariant
            i <= bytes.len(),
            output@ == old(output)@ + complement(bytes@).take(i as int),
        decreases bytes.len() - i,
    {
        output.push(255 - bytes[i]);
        assert(output@ =~= old(output)@ + complement(bytes@).take(i + 1));
        i += 1;
    }
    assert(complement(bytes@).take(bytes@.len() as int) =~= complement(bytes@));
}

/// The version key of one version of `key`.
pub fn version_tree_key(key: &[u8], order: ObjectVersionOrder, version: ObjectVersionId) -> (r: Vec<
    u8,
>)
    ensures
        r@ == version_key(key@, order, version),
{
    let mut output = version_tree_prefix(key);
    append_complement(&mut output, &u64_be(order.commit_generation.0));
    append_complement(&mut output, &u32_be(order.mutation_ordinal));
    append_complement(&mut output, version.as_bytes());
    assert(output@ =~= version_key(key@, order, version));
    output
}

/// The logical key that a version key belongs to.
pub fn decode_version_tree_logical_key(encoded: &[u8]) -> (r: Result<Vec<u8>, Error>)
    ensures
        match r {
            Ok(key) => decoded_from(encoded@, 0, Seq::empty()) == Ok::<Seq<u8>, Fault>(key@),
            Err(error) => decoded_from(encoded@, 0, Seq::empty()) == Err::<Seq<u8>, Fault>(error@),
        },
{
    let mut key: Vec<u8> = Vec::new();
    let mut index: usize = 0;
    while index < encoded.len()
        invariant
            index <= encoded.len(),
            decoded_from(encoded@, 0, Seq::empty()) == decoded_from(
                encoded@,
                index as int,
                key@,
            ),
        decreases encoded.len() - index,
    {
        if encoded[index] != 0 {
            key.push(encoded[index]);
            index += 1;
        } else if index + 1 < encoded.len() && encoded[index + 1] == 0 {
            return Ok(key);
        } else if index + 1 < encoded.len() && encoded[index + 1] == 0xff {
            key.push(0);
            index += 2;
        } else {
            return Err(Error::new(ErrorCode::CorruptCommit, "noncanonical version-tree key escape"));
        }
    }
    Err(Error::new(ErrorCode::CorruptCommit, "unterminated version-tree logical key"))
}

/// Escaping the first part of a key gives the first part of the escaped key.
proof fn lemma_escaped_concat(a: Seq<u8>, b: Seq<u8>)
    ensures
        escaped(a + b) == escaped(a) + escaped(b),
    decreases b.len(),
{
    if b.len() == 0 {
        assert(a + b =~= a);
        assert(escaped(a) + escaped(b) =~= escaped(a));
    } else {
        lemma_escaped_concat(a, b.drop_last());
        assert((a + b).drop_last() =~= a + b.drop_last());
        assert((a + b).last() == b.last());
        assert(escaped(a + b) =~= escaped(a) + escaped(b));
    }
}

proof fn lemma_decode_escaped(key: Seq<u8>, rest: Seq<u8>, n: int)
    requires
        0 <= n <= key.len(),
    ensures
        decoded_from(version_prefix(key) + rest, 0, Seq::empty()) == decoded_from(
            version_prefix(key) + rest,
            escaped(key.take(n)).len() as int,
            key.take(n),
        ),
    decreases n,
{
    let encoded = version_prefix(key) + rest;
    if n == 0 {
        assert(key.take(0) =~= Seq::<u8>::empty());
    } else {
        lemma_decode_escaped(key, rest, n - 1);
        let head = key.take(n - 1);
        assert(key.take(n).drop_last() =~= head);
        assert(key.take(n) =~= head.push(key[n - 1]));
        assert(key =~= key.take(n) + key.skip(n));
        lemma_escaped_concat(key.take(n), key.skip(n));
        let at = escaped(head).len() as int;
        assert(encoded[at] == escaped(key.take(n))[at]);
        if key[n - 1] == 0 {
            assert(encoded[at + 1] == escaped(key.take(n))[at + 1]);
        }
    }
}

/// Reading the logical key out of a version key gives back the key that it was made from.
pub proof fn law_version_key_decodes(key: Seq<u8>, order: ObjectVersionOrder, version: ObjectVersionId)
    ensures
        decoded_from(version_key(key, order, version), 0, Seq::empty()) == Ok::<Seq<u8>, Fault>(
            key,
        ),
{
    let rest = version_suffix(order, version);
    lemma_decode_escaped(key, rest, key.len() as int);
    assert(key.take(key.len() as int) =~= key);
    let encoded = version_prefix(key) + rest;
    assert(encoded[escaped(key).len() as int] == 0);
    assert(encoded[escaped(key).len() as int + 1] == 0);
}

proof fn lemma_suffix_len(order: ObjectVersionOrder, version: ObjectVersionId)
    ensures
        version_suffix(order, version).len() == 44,
{
    lemma_be_bytes_len(order.commit_generation.0 as nat, 8);
    lemma_be_bytes_len(order.mutation_ordinal as nat, 4);
}

proof fn lemma_complement_injective(a: Seq<u8>, b: Seq<u8>)
    ensures
        complement(a) == complement(b) ==> a == b,
{
    if complement(a) == complement(b) {
        assert(complement(a).len() == complement(b).len());
        assert forall|i: int| 0 <= i < a.len() implies a[i] == b[i] by {
            assert(complement(a)[i] == complement(b)[i]);
        }
        assert(a =~= b);
    }
}

/// The complement turns the order of byte strings of one length around.
proof fn lemma_complement_order(a: Seq<u8>, b: Seq<u8>)
    requires
        a.len() == b.len(),
    ensures
        lex_lt(complement(a), complement(b)) <==> lex_lt(b, a),
    decreases a.len(),
{
    if a.len() > 0 {
        lemma_complement_order(a.drop_first(), b.drop_first());
        assert(complement(a).drop_first() =~= complement(a.drop_first()));
        assert(complement(b).drop_first() =~= complement(b.drop_first()));
        assert(complement(a)[0] == 255 - a[0]);
        assert(complement(b)[0] == 255 - b[0]);
    }
}

/// Different versions have different keys.
pub proof fn law_version_keys_are_distinct(
    key_a: Seq<u8>,
    order_a: ObjectVersionOrder,
    version_a: ObjectVersionId,
    key_b: Seq<u8>,
    order_b: ObjectVersionOrder,
    version_b: ObjectVersionId,
)
    requires
        version_key(key_a, order_a, version_a) == version_key(key_b, order_b, version_b),
    ensures
        key_a == key_b,
        order_a == order_b,
        version_a == version_b,
{
    law_version_key_decodes(key_a, order_a, version_a);
    law_version_key_decodes(key_b, order_b, version_b);
    lemma_suffix_len(order_a, version_a);
    lemma_suffix_len(order_b, version_b);
    let n = version_prefix(key_a).len() as int;
    let whole = version_key(key_a, order_a, version_a);
    let sa = version_suffix(order_a, version_a);
    let sb = version_suffix(order_b, version_b);
    assert(whole.subrange(n, whole.len() as int) =~= sa);
    assert(whole.subrange(n, whole.len() as int) =~= sb);
    lemma_be_bytes_len(order_a.commit_generation.0 as nat, 8);
    lemma_be_bytes_len(order_b.commit_generation.0 as nat, 8);
    lemma_be_bytes_len(order_a.mutation_ordinal as nat, 4);
    lemma_be_bytes_len(order_b.mutation_ordinal as nat, 4);
    let ga = be_bytes(order_a.commit_generation.0 as nat, 8);
    let gb = be_bytes(order_b.commit_generation.0 as nat, 8);
    let oa = be_bytes(order_a.mutation_ordinal as nat, 4);
    let ob = be_bytes(order_b.mutation_ordinal as nat, 4);
    assert(sa.subrange(0, 8) =~= complement(ga));
    assert(sb.subrange(0, 8) =~= complement(gb));
    assert(sa.subrange(8, 12) =~= complement(oa));
    assert(sb.subrange(8, 12) =~= complement(ob));
    assert(sa.subrange(12, 44) =~= complement(version_a@));
    assert(sb.subrange(12, 44) =~= complement(version_b@));
    lemma_complement_injective(ga, gb);
    lemma_complement_injective(oa, ob);
    lemma_complement_injective(version_a@, version_b@);
    lemma_pow256_values();
    lemma_be_injective(
        order_a.commit_generation.0 as nat,
        order_b.commit_generation.0 as nat,
        8,
    );
    lemma_be_injective(order_a.mutation_ordinal as nat, order_b.mutation_ordinal as nat, 4);
    crate::ids::lemma_version_id_from_bytes(version_a, version_b);
}

/// Whether `a` stands before `b` in a key's history.
pub open spec fn older(a: ObjectVersionOrder, b: ObjectVersionOrder) -> bool {
    a.commit_generation.0 < b.commit_generation.0 || (a.commit_generation == b.commit_generation
        && a.mutation_ordinal < b.mutation_ordinal)
}

/// Among the versions of one logical key, the newer sorts first.
pub proof fn law_newest_version_sorts_first(
    key: Seq<u8>,
    newer: ObjectVersionOrder,
    newer_version: ObjectVersionId,
    old: ObjectVersionOrder,
    old_version: ObjectVersionId,
)
    requires
        older(old, newer),
    ensures
        lex_lt(version_key(key, newer, newer_version), version_key(key, old, old_version)),
{
    let p = version_prefix(key);
    lemma_lex_append(p, p, version_suffix(newer, newer_version), version_suffix(old, old_version));
    let gn = be_bytes(newer.commit_generation.0 as nat, 8);
    let go = be_bytes(old.commit_generation.0 as nat, 8);
    let on = be_bytes(newer.mutation_ordinal as nat, 4);
    let oo = be_bytes(old.mutation_ordinal as nat, 4);
    lemma_be_bytes_len(newer.commit_generation.0 as nat, 8);
    lemma_be_bytes_len(old.commit_generation.0 as nat, 8);
    lemma_be_bytes_len(newer.mutation_ordinal as nat, 4);
    lemma_be_bytes_len(old.mutation_ordinal as nat, 4);
    lemma_pow256_values();
    lemma_be_order(old.commit_generation.0 as nat, newer.commit_generation.0 as nat, 8);
    lemma_be_order(old.mutation_ordinal as nat, newer.mutation_ordinal as nat, 4);
    lemma_be_injective(old.commit_generation.0 as nat, newer.commit_generation.0 as nat, 8);
    lemma_be_injective(old.mutation_ordinal as nat, newer.mutation_ordinal as nat, 4);
    lemma_complement_order(gn, go);
    lemma_complement_order(on, oo);
    lemma_complement_injective(gn, go);
    lemma_complement_injective(on, oo);
    let tail_n = complement(on) + complement(newer_version@);
    let tail_o = complement(oo) + complement(old_version@);
    assert(version_suffix(newer, newer_version) =~= complement(gn) + tail_n);
    assert(version_suffix(old, old_version) =~= complement(go) + tail_o);
    lemma_lex_append(complement(gn), complement(go), tail_n, tail_o);
    lemma_lex_append(
        complement(on),
        complement(oo),
        complement(newer_version@),
        complement(old_version@),
    );
}

/// Every version key of a logical key begins with that key's version prefix, and with the partial
/// prefix of every beginning of the key.
pub proof fn law_version_key_has_prefixes(
    key: Seq<u8>,
    beginning: Seq<u8>,
    order: ObjectVersionOrder,
    version: ObjectVersionId,
)
    requires
        has_prefix(key, beginning),
    ensures
        has_prefix(version_key(key, order, version), version_prefix(key)),
        has_prefix(version_key(key, order, version), escaped(beginning)),
{
    let whole = version_key(key, order, version);
    assert(whole.subrange(0, version_prefix(key).len() as int) =~= version_prefix(key));
    let n = beginning.len() as int;
    assert(key =~= beginning + key.skip(n));
    lemma_escaped_concat(beginning, key.skip(n));
    assert(whole.subrange(0, escaped(beginning).len() as int) =~= escaped(beginning));
}

/// Of two versions of a key that of the earlier generation is the older, whatever their places; within one
/// generation that of the earlier place is. Of two different places one is always the older.
pub proof fn law_versions_age_by_generation_and_place(a: ObjectVersionOrder, b: ObjectVersionOrder)
    ensures
        a.commit_generation.0 < b.commit_generation.0 ==> older(a, b) && !older(b, a),
        a.commit_generation.0 == b.commit_generation.0 && a.mutation_ordinal < b.mutation_ordinal
            ==> older(a, b) && !older(b, a),
        a.commit_generation.0 == b.commit_generation.0 && a.mutation_ordinal == b.mutation_ordinal
            ==> !older(a, b),
{
}

/// The end of a version's key is the complement of its generation, its place and its name, byte by byte, so that what is
/// newer sorts first.
pub proof fn law_version_suffix_is_the_complement(
    order: ObjectVersionOrder,
    version: ObjectVersionId,
    bytes: Seq<u8>,
    i: int,
)
    ensures
        0 <= i < bytes.len() ==> complement(bytes)[i] + bytes[i] == 255,
        complement(bytes).len() == bytes.len(),
        version_suffix(order, version) == complement(
            be_bytes(order.commit_generation.0 as nat, 8) + be_bytes(order.mutation_ordinal as nat, 4)
                + version@,
        ),
{
    assert(version_suffix(order, version) =~= complement(
        be_bytes(order.commit_generation.0 as nat, 8) + be_bytes(order.mutation_ordinal as nat, 4)
            + version@,
    ));
}

proof fn lemma_decoded_was_written(encoded: Seq<u8>, index: int, key: Seq<u8>)
    requires
        0 <= index <= encoded.len(),
        encoded.take(index) == escaped(key),
    ensures
        decoded_from(encoded, index, key) matches Ok(whole) ==> {
            let head = version_prefix(whole);
            head.len() <= encoded.len() && encoded.take(head.len() as int) == head
        },
    decreases encoded.len() - index,
{
    if index < encoded.len() {
        let byte = encoded[index];
        if byte != 0 {
            let more = key.push(byte);
            assert(more.drop_last() =~= key);
            assert(encoded.take(index + 1) =~= encoded.take(index).push(byte));
            lemma_decoded_was_written(encoded, index + 1, more);
        } else if index + 1 < encoded.len() && encoded[index + 1] == 0 {
            assert(encoded.take(index + 2) =~= encoded.take(index).push(0).push(0));
        } else if index + 1 < encoded.len() && encoded[index + 1] == 0xff {
            let more = key.push(0);
            assert(more.drop_last() =~= key);
            assert(encoded.take(index + 2) =~= encoded.take(index).push(0).push(0xff));
            lemma_decoded_was_written(encoded, index + 2, more);
        }
    }
}

/// A logical key is read only out of what begins as a version of that key begins: nothing else reads as it.
pub proof fn law_what_reads_as_a_key_was_written_for_it(encoded: Seq<u8>)
    ensures
        decoded_from(encoded, 0, Seq::empty()) matches Ok(key) ==> {
            let head = version_prefix(key);
            head.len() <= encoded.len() && encoded.take(head.len() as int) == head
        },
{
    assert(encoded.take(0) =~= Seq::<u8>::empty());
    assert(escaped(Seq::<u8>::empty()) =~= Seq::<u8>::empty());
    lemma_decoded_was_written(encoded, 0, Seq::empty());
}

} // verus!
