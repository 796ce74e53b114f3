//! Keys of the working trees that checkpointed jobs keep: a namespace of two or three bytes, then
//! what the entry is about.
use crate::bytes::{
    append_slice, be_bytes, concat, has_prefix, lemma_be_bytes_len, lemma_be_injective,
    lemma_be_order, lemma_lex_append, lemma_pow256_values, lex_lt, starts_with, to_vec, u64_be,
};
use crate::error::{fault, Error, ErrorCode};
use crate::ids::{lemma_commit_id_from_bytes, Cid, CommitId, ObjectVersionId};
use crate::model::PayloadBinding;
use crate::outside::{sha256, sha256_of};
use vstd::prelude::*;
use vstd::utf8::encode_utf8;

verus! {

/// The namespace of work that waits.
pub open spec fn queue_prefix() -> Seq<u8> {
    seq![0x71, 0x2f]
}

/// The namespace of commits that were met.
pub open spec fn seen_prefix() -> Seq<u8> {
    seq![0x73, 0x2f]
}

/// The namespace of commits that may be merge bases.
pub open spec fn base_candidate_prefix() -> Seq<u8> {
    seq![0x62, 0x2f]
}

/// The namespace of the merge bases that were found.
pub open spec fn base_result_prefix() -> Seq<u8> {
    seq![0x72, 0x2f]
}

/// The namespace of changes that a merge makes.
pub open spec fn change_prefix() -> Seq<u8> {
    seq![0x63, 0x2f]
}

/// The namespace of keys on which both sides of a merge disagree.
pub open spec fn conflict_prefix() -> Seq<u8> {
    seq![0x66, 0x2f]
}

/// Where a merge plan keeps the cursor that owns it: `x/cursor`.
pub open spec fn merge_cursor_entry() -> Seq<u8> {
    seq![0x78, 0x2f, 0x63, 0x75, 0x72, 0x73, 0x6f, 0x72]
}

/// The key of the entry `sequence` of a work stack.
pub open spec fn stack_key(sequence: u64) -> Seq<u8> {
    queue_prefix() + be_bytes(sequence as nat, 8)
}

/// The key of a commit that waits in a merge-base search.
pub open spec fn queue_key(generation: u64, commit: CommitId) -> Seq<u8> {
    queue_prefix() + be_bytes((u64::MAX - generation) as nat, 8) + commit@
}

/// The namespace of work that waits.
pub fn merge_queue_prefix() -> (r: [u8; 2])
    ensures
        r@ == queue_prefix(),
{
    let r: [u8; 2] = [0x71, 0x2f];
    assert(r@ =~= queue_prefix());
    r
}

/// The namespace of commits that were met.
pub fn merge_seen_prefix() -> (r: [u8; 2])
    ensures
        r@ == seen_prefix(),
{
    let r: [u8; 2] = [0x73, 0x2f];
    assert(r@ =~= seen_prefix());
    r
}

/// The namespace of commits that may be merge bases.
pub fn merge_base_candidate_prefix() -> (r: [u8; 2])
    ensures
        r@ == base_candidate_prefix(),
{
    let r: [u8; 2] = [0x62, 0x2f];
    assert(r@ =~= base_candidate_prefix());
    r
}

/// The namespace of the merge bases that were found.
pub fn merge_base_result_prefix() -> (r: [u8; 2])
    ensures
        r@ == base_result_prefix(),
{
    let r: [u8; 2] = [0x72, 0x2f];
    assert(r@ =~= base_result_prefix());
    r
}

/// The namespace of changes that a merge makes.
pub fn merge_change_prefix() -> (r: [u8; 2])
    ensures
        r@ == change_prefix(),
{
    let r: [u8; 2] = [0x63, 0x2f];
    assert(r@ =~= change_prefix());
    r
}

/// The namespace of keys on which both sides of a merge disagree.
pub fn merge_conflict_prefix() -> (r: [u8; 2])
    ensures
        r@ == conflict_prefix(),
{
    let r: [u8; 2] = [0x66, 0x2f];
    assert(r@ =~= conflict_prefix());
    r
}

/// Where a merge plan keeps the cursor that owns it.
pub fn merge_cursor_key() -> (r: [u8; 8])
    ensures
        r@ == merge_cursor_entry(),
{
    let r: [u8; 8] = [0x78, 0x2f, 0x63, 0x75, 0x72, 0x73, 0x6f, 0x72];
    assert(r@ =~= merge_cursor_entry());
    r
}

/// The key of the entry `sequence` of a commit-closure stack.
pub fn commit_closure_stack_key(sequence: u64) -> (r: Vec<u8>)
    ensures
        r@ == stack_key(sequence),
{
    concat(&merge_queue_prefix(), &u64_be(sequence))
}

/// The key under which a commit closure remembers a commit.
pub fn commit_closure_seen_key(commit: CommitId) -> (r: Vec<u8>)
    ensures
        r@ == seen_prefix() + commit@,
{
    concat(&merge_seen_prefix(), commit.as_bytes())
}

/// The key of a commit that waits in a merge-base search.
pub fn merge_queue_key(generation: u64, commit: CommitId) -> (r: Vec<u8>)
    ensures
        r@ == queue_key(generation, commit),
{
    let mut key = concat(&merge_queue_prefix(), &u64_be(u64::MAX - generation));
    append_slice(&mut key, commit.as_bytes());
    key
}

/// The key of a commit in the namespace `prefix`.
pub fn merge_commit_key(prefix: &[u8], commit: CommitId) -> (r: Vec<u8>)
    ensures
        r@ == prefix@ + commit@,
{
    concat(prefix, commit.as_bytes())
}

/// The key under which a merge-base search remembers a commit.
pub fn merge_seen_key(commit: CommitId) -> (r: Vec<u8>)
    ensures
        r@ == seen_prefix() + commit@,
{
    merge_commit_key(&merge_seen_prefix(), commit)
}

/// The key under which a commit is noted as a possible merge base.
pub fn merge_base_candidate_key(commit: CommitId) -> (r: Vec<u8>)
    ensures
        r@ == base_candidate_prefix() + commit@,
{
    merge_commit_key(&merge_base_candidate_prefix(), commit)
}

/// The key under which a merge base is kept.
pub fn merge_base_result_key(commit: CommitId) -> (r: Vec<u8>)
    ensures
        r@ == base_result_prefix() + commit@,
{
    merge_commit_key(&merge_base_result_prefix(), commit)
}

/// The key of the change that a merge makes to `logical_key`.
pub fn merge_change_key(logical_key: &[u8]) -> (r: Vec<u8>)
    ensures
        r@ == change_prefix() + logical_key@,
{
    concat(&merge_change_prefix(), logical_key)
}

/// The key of the disagreement over `logical_key`.
pub fn merge_conflict_key(logical_key: &[u8]) -> (r: Vec<u8>)
    ensures
        r@ == conflict_prefix() + logical_key@,
{
    concat(&merge_conflict_prefix(), logical_key)
}

/// The commit that a key of the namespace `prefix` names.
pub fn commit_from_suffix(key: &[u8], prefix: &[u8]) -> (r: Result<CommitId, Error>)
    ensures
        match r {
            Ok(commit) => key@ == prefix@ + commit@,
            Err(error) => if !has_prefix(key@, prefix@) {
                error@ == fault(
                    ErrorCode::CorruptCommit,
                    "merge-state key uses the wrong namespace",
                )
            } else {
                key@.len() != prefix@.len() + 32 && error@ == fault(
                    ErrorCode::CorruptCommit,
                    "merge-state commit key has the wrong length",
                )
            },
        },
{
    if !starts_with(key, prefix) {
        return Err(
            Error::new(ErrorCode::CorruptCommit, "merge-state key uses the wrong namespace"),
        );
    }
    let n: usize = prefix.len();
    if key.len() - n != 32 {
        return Err(
            Error::new(ErrorCode::CorruptCommit, "merge-state commit key has the wrong length"),
        );
    }
    let hash = array_of_32(vstd::slice::slice_subrange(key, n, key.len()));
    let commit = CommitId::from_hash(hash);
    assert(key@ =~= prefix@ + commit@) by {
        assert(key@ =~= key@.subrange(0, n as int) + key@.subrange(n as int, key@.len() as int));
    }
    Ok(commit)
}

/// The first 32 bytes of `bytes`.
pub fn array_of_32(bytes: &[u8]) -> (r: [u8; 32])
    requires
        bytes@.len() >= 32,
    ensures
        r@ == bytes@.subrange(0, 32),
        bytes@.len() == 32 ==> r@ == bytes@,
{
    let mut out: [u8; 32] = [0; 32];
    let mut i: usize = 0;
    while i < 32
        invariant
            i <= 32,
            bytes@.len() >= 32,
            forall|j: int| 0 <= j < i ==> out@[j] == bytes@[j],
        decreases 32 - i,
    {
        out[i] = bytes[i];
        i += 1;
    }
    assert(out@ =~= bytes@.subrange(0, 32));
    if bytes.len() == 32 {
        assert(out@ =~= bytes@);
    }
    out
}

/// The first 16 bytes of `bytes`.
pub fn array_of_16(bytes: &[u8]) -> (r: [u8; 16])
    requires
        bytes@.len() >= 16,
    ensures
        r@ == bytes@.subrange(0, 16),
{
    let mut out: [u8; 16] = [0; 16];
    let mut i: usize = 0;
    while i < 16
        invariant
            i <= 16,
            bytes@.len() >= 16,
            forall|j: int| 0 <= j < i ==> out@[j] == bytes@[j],
        decreases 16 - i,
    {
        out[i] = bytes[i];
        i += 1;
    }
    assert(out@ =~= bytes@.subrange(0, 16));
    out
}

/// The key under which a history transfer keeps where a commit went.
pub fn commit_mapping_key(id: CommitId) -> (r: Vec<u8>)
    ensures
        r@ == seq![0x63u8, 0x2f] + id@,
{
    let prefix: [u8; 2] = [0x63, 0x2f];
    assert(prefix@ =~= seq![0x63u8, 0x2f]);
    concat(&prefix, id.as_bytes())
}

/// The key under which a history transfer keeps where a version went.
pub fn version_mapping_key(id: ObjectVersionId) -> (r: Vec<u8>)
    ensures
        r@ == seq![0x76u8, 0x2f] + id@,
{
    let prefix: [u8; 2] = [0x76, 0x2f];
    assert(prefix@ =~= seq![0x76u8, 0x2f]);
    concat(&prefix, id.as_bytes())
}

/// The key of a commit that garbage collection has yet to mark: `cq/` and the commit.
pub fn gc_commit_queue_key(id: CommitId) -> (r: Vec<u8>)
    ensures
        r@ == seq![0x63u8, 0x71, 0x2f] + id@,
{
    let prefix: [u8; 3] = [0x63, 0x71, 0x2f];
    assert(prefix@ =~= seq![0x63u8, 0x71, 0x2f]);
    concat(&prefix, id.as_bytes())
}

/// The key of a commit that garbage collection has marked: `cm/` and the commit.
pub fn gc_commit_mark_key(id: CommitId) -> (r: Vec<u8>)
    ensures
        r@ == seq![0x63u8, 0x6d, 0x2f] + id@,
{
    let prefix: [u8; 3] = [0x63, 0x6d, 0x2f];
    assert(prefix@ =~= seq![0x63u8, 0x6d, 0x2f]);
    concat(&prefix, id.as_bytes())
}

/// One for true, zero for false.
pub open spec fn flag_byte(flag: bool) -> u8 {
    if flag {
        1
    } else {
        0
    }
}

/// The key of a tree node that garbage collection has yet to mark: `nq/`, whether its entries name
/// versions, `/` and the node.
pub fn gc_node_queue_key(cid: &Cid, scan_versions: bool) -> (r: Vec<u8>)
    ensures
        r@ == seq![0x6eu8, 0x71, 0x2f, flag_byte(scan_versions), 0x2f] + cid@,
{
    let flag: u8 = if scan_versions {
        1
    } else {
        0
    };
    let prefix: [u8; 5] = [0x6e, 0x71, 0x2f, flag, 0x2f];
    assert(prefix@ =~= seq![0x6eu8, 0x71, 0x2f, flag_byte(scan_versions), 0x2f]);
    concat(&prefix, cid.as_bytes())
}

/// The key of a tree node that garbage collection has marked: `nm/`, whether its entries name
/// versions, `/` and the node.
pub fn gc_node_mark_key(cid: &Cid, scan_versions: bool) -> (r: Vec<u8>)
    ensures
        r@ == seq![0x6eu8, 0x6d, 0x2f, flag_byte(scan_versions), 0x2f] + cid@,
{
    let flag: u8 = if scan_versions {
        1
    } else {
        0
    };
    let prefix: [u8; 5] = [0x6e, 0x6d, 0x2f, flag, 0x2f];
    assert(prefix@ =~= seq![0x6eu8, 0x6d, 0x2f, flag_byte(scan_versions), 0x2f]);
    concat(&prefix, cid.as_bytes())
}

/// The key that marks every physical version at a path as reachable.
pub open spec fn path_mark(path: Seq<u8>) -> Seq<u8> {
    seq![0x70u8, 0x6d, 0x2f] + sha256_of(path)
}

/// The key that marks one physical version at a path as reachable.
pub open spec fn physical_mark(path: Seq<u8>, version: Seq<u8>) -> Seq<u8> {
    seq![0x76u8, 0x6d, 0x2f] + sha256_of(path.push(0) + version)
}

/// The key that marks every physical version at a path as reachable.
pub fn gc_path_mark_key(path: &str) -> (r: Vec<u8>)
    ensures
        r@ == path_mark(encode_utf8(path@)),
{
    let prefix: [u8; 3] = [0x70, 0x6d, 0x2f];
    assert(prefix@ =~= seq![0x70u8, 0x6d, 0x2f]);
    concat(&prefix, &sha256(path.as_bytes()))
}

/// The key that marks one physical version at a path as reachable.
pub fn gc_physical_mark_key(path: &str, version: &str) -> (r: Vec<u8>)
    ensures
        r@ == physical_mark(encode_utf8(path@), encode_utf8(version@)),
{
    let mut identity = to_vec(path.as_bytes());
    identity.push(0);
    append_slice(&mut identity, version.as_bytes());
    let prefix: [u8; 3] = [0x76, 0x6d, 0x2f];
    assert(prefix@ =~= seq![0x76u8, 0x6d, 0x2f]);
    concat(&prefix, &sha256(&identity))
}

/// What tells one physical payload from another: its path, and the provider's version of it, or its tag
/// where the provider names no versions.
pub open spec fn payload_identity(binding: PayloadBinding) -> Seq<u8> {
    encode_utf8(binding.path@) + seq![0u8] + encode_utf8(
        match binding.provider_version_id {
            Some(version) => version@,
            None => binding.provider_etag@,
        },
    )
}

/// The key of a physical payload.
pub open spec fn physical_key(binding: PayloadBinding) -> Seq<u8> {
    seq![0x70u8, 0x2f] + sha256_of(payload_identity(binding))
}

/// The key of a range of a physical payload.
pub open spec fn extent_key(binding: PayloadBinding, start: u64, end: u64) -> Seq<u8> {
    seq![0x65u8, 0x2f] + sha256_of(
        physical_key(binding) + be_bytes(start as nat, 8) + be_bytes(end as nat, 8),
    )
}

/// The key of a physical payload.
pub fn payload_pack_physical_key(binding: &PayloadBinding) -> (r: Vec<u8>)
    ensures
        r@ == physical_key(*binding),
{
    let mut identity = to_vec(binding.path.as_str().as_bytes());
    identity.push(0);
    match &binding.provider_version_id {
        Some(version) => {
            append_slice(&mut identity, version.as_str().as_bytes());
        },
        None => {
            append_slice(&mut identity, binding.provider_etag.as_str().as_bytes());
        },
    }
    assert(identity@ =~= payload_identity(*binding));
    let prefix: [u8; 2] = [0x70, 0x2f];
    assert(prefix@ =~= seq![0x70u8, 0x2f]);
    concat(&prefix, &sha256(&identity))
}

/// The key of a range of a physical payload.
pub fn payload_pack_extent_key(binding: &PayloadBinding, start: u64, end: u64) -> (r: Vec<u8>)
    ensures
        r@ == extent_key(*binding, start, end),
{
    let mut identity = payload_pack_physical_key(binding);
    append_slice(&mut identity, &u64_be(start));
    append_slice(&mut identity, &u64_be(end));
    let prefix: [u8; 2] = [0x65, 0x2f];
    assert(prefix@ =~= seq![0x65u8, 0x2f]);
    concat(&prefix, &sha256(&identity))
}

/// The key of something that garbage collection may delete, named by its canonical bytes.
pub fn gc_candidate_key(encoded_candidate: &[u8]) -> (r: Vec<u8>)
    ensures
        r@ == seq![0x64u8, 0x2f] + sha256_of(encoded_candidate@),
{
    let prefix: [u8; 2] = [0x64, 0x2f];
    assert(prefix@ =~= seq![0x64u8, 0x2f]);
    concat(&prefix, &sha256(encoded_candidate))
}

/// A commit of a higher generation leaves the merge-base queue before one of a lower.
pub proof fn law_higher_generation_sorts_first(
    high: u64,
    high_commit: CommitId,
    low: u64,
    low_commit: CommitId,
)
    requires
        low < high,
    ensures
        lex_lt(queue_key(high, high_commit), queue_key(low, low_commit)),
{
    let a = be_bytes((u64::MAX - high) as nat, 8);
    let b = be_bytes((u64::MAX - low) as nat, 8);
    lemma_pow256_values();
    lemma_be_bytes_len((u64::MAX - high) as nat, 8);
    lemma_be_bytes_len((u64::MAX - low) as nat, 8);
    lemma_be_order((u64::MAX - high) as nat, (u64::MAX - low) as nat, 8);
    lemma_be_injective((u64::MAX - high) as nat, (u64::MAX - low) as nat, 8);
    let q = queue_prefix();
    assert(queue_key(high, high_commit) =~= q + (a + high_commit@));
    assert(queue_key(low, low_commit) =~= q + (b + low_commit@));
    lemma_lex_append(q, q, a + high_commit@, b + low_commit@);
    lemma_lex_append(a, b, high_commit@, low_commit@);
}

/// Different commits or generations wait under different keys.
pub proof fn law_queue_keys_are_distinct(
    generation_a: u64,
    commit_a: CommitId,
    generation_b: u64,
    commit_b: CommitId,
)
    requires
        queue_key(generation_a, commit_a) == queue_key(generation_b, commit_b),
    ensures
        generation_a == generation_b,
        commit_a == commit_b,
{
    let a = be_bytes((u64::MAX - generation_a) as nat, 8);
    let b = be_bytes((u64::MAX - generation_b) as nat, 8);
    lemma_pow256_values();
    lemma_be_bytes_len((u64::MAX - generation_a) as nat, 8);
    lemma_be_bytes_len((u64::MAX - generation_b) as nat, 8);
    lemma_be_injective((u64::MAX - generation_a) as nat, (u64::MAX - generation_b) as nat, 8);
    assert(queue_key(generation_a, commit_a).subrange(2, 10) =~= a);
    assert(queue_key(generation_b, commit_b).subrange(2, 10) =~= b);
    assert(queue_key(generation_a, commit_a).subrange(10, 42) =~= commit_a@);
    assert(queue_key(generation_b, commit_b).subrange(10, 42) =~= commit_b@);
    lemma_commit_id_from_bytes(commit_a, commit_b);
}

/// Stack entries sort by their sequence numbers, so the lowest number, which was given out last,
/// is met first.
pub proof fn law_stack_keys_sort_by_sequence(a: u64, b: u64)
    ensures
        lex_lt(stack_key(a), stack_key(b)) <==> a < b,
        stack_key(a) == stack_key(b) <==> a == b,
{
    lemma_pow256_values();
    lemma_be_order(a as nat, b as nat, 8);
    lemma_be_injective(a as nat, b as nat, 8);
    lemma_be_bytes_len(a as nat, 8);
    lemma_be_bytes_len(b as nat, 8);
    lemma_lex_append(queue_prefix(), queue_prefix(), be_bytes(a as nat, 8), be_bytes(b as nat, 8));
    assert(stack_key(a).subrange(2, 10) =~= be_bytes(a as nat, 8));
    assert(stack_key(b).subrange(2, 10) =~= be_bytes(b as nat, 8));
}

/// No key of one namespace is a key of another.
pub proof fn law_namespaces_are_disjoint(rest_a: Seq<u8>, rest_b: Seq<u8>)
    ensures
        queue_prefix() + rest_a != seen_prefix() + rest_b,
        queue_prefix() + rest_a != base_candidate_prefix() + rest_b,
        queue_prefix() + rest_a != base_result_prefix() + rest_b,
        queue_prefix() + rest_a != change_prefix() + rest_b,
        queue_prefix() + rest_a != conflict_prefix() + rest_b,
        queue_prefix() + rest_a != merge_cursor_entry(),
        seen_prefix() + rest_a != base_candidate_prefix() + rest_b,
        seen_prefix() + rest_a != base_result_prefix() + rest_b,
        seen_prefix() + rest_a != change_prefix() + rest_b,
        seen_prefix() + rest_a != conflict_prefix() + rest_b,
        seen_prefix() + rest_a != merge_cursor_entry(),
        base_candidate_prefix() + rest_a != base_result_prefix() + rest_b,
        base_candidate_prefix() + rest_a != change_prefix() + rest_b,
        base_candidate_prefix() + rest_a != conflict_prefix() + rest_b,
        base_candidate_prefix() + rest_a != merge_cursor_entry(),
        base_result_prefix() + rest_a != change_prefix() + rest_b,
        base_result_prefix() + rest_a != conflict_prefix() + rest_b,
        base_result_prefix() + rest_a != merge_cursor_entry(),
        change_prefix() + rest_a != conflict_prefix() + rest_b,
        change_prefix() + rest_a != merge_cursor_entry(),
        conflict_prefix() + rest_a != merge_cursor_entry(),
{
    assert((queue_prefix() + rest_a)[0] == 0x71);
    assert((seen_prefix() + rest_a)[0] == 0x73);
    assert((seen_prefix() + rest_b)[0] == 0x73);
    assert((base_candidate_prefix() + rest_a)[0] == 0x62);
    assert((base_candidate_prefix() + rest_b)[0] == 0x62);
    assert((base_result_prefix() + rest_a)[0] == 0x72);
    assert((base_result_prefix() + rest_b)[0] == 0x72);
    assert((change_prefix() + rest_a)[0] == 0x63);
    assert((change_prefix() + rest_b)[0] == 0x63);
    assert((conflict_prefix() + rest_a)[0] == 0x66);
    assert((conflict_prefix() + rest_b)[0] == 0x66);
    assert(merge_cursor_entry()[0] == 0x78);
}

/// Two commits have one key in a namespace exactly when they are one commit.
pub proof fn law_commit_keys_are_distinct(prefix: Seq<u8>, a: CommitId, b: CommitId)
    ensures
        prefix + a@ == prefix + b@ <==> a == b,
{
    let n = prefix.len() as int;
    if prefix + a@ == prefix + b@ {
        assert((prefix + a@).subrange(n, n + 32) =~= a@);
        assert((prefix + b@).subrange(n, n + 32) =~= b@);
        lemma_commit_id_from_bytes(a, b);
    }
}

/// Two payloads at one path are told apart by their versions, or by their tags where the provider names no
/// versions.
pub proof fn law_payload_identity_tells_versions_apart(a: PayloadBinding, b: PayloadBinding)
    requires
        a.path@ == b.path@,
        payload_identity(a) == payload_identity(b),
    ensures
        a.provider_version_id is Some && b.provider_version_id is Some ==> encode_utf8(
            a.provider_version_id->0@,
        ) == encode_utf8(b.provider_version_id->0@),
        a.provider_version_id is None && b.provider_version_id is None ==> encode_utf8(
            a.provider_etag@,
        ) == encode_utf8(b.provider_etag@),
{
    let head = encode_utf8(a.path@) + seq![0u8];
    let x = encode_utf8(
        match a.provider_version_id {
            Some(version) => version@,
            None => a.provider_etag@,
        },
    );
    let y = encode_utf8(
        match b.provider_version_id {
            Some(version) => version@,
            None => b.provider_etag@,
        },
    );
    assert((head + x).skip(head.len() as int) =~= x);
    assert((head + y).skip(head.len() as int) =~= y);
}

/// A payload is counted under the digest of its path and version, and a part of it under the digest of that and of
/// both its ends. Marks of paths and of versions, and the two sorts of counted things, never meet.
pub proof fn law_payload_keys_name_what_they_count(
    binding: PayloadBinding,
    start: u64,
    end: u64,
    path: Seq<u8>,
    version: Seq<u8>,
)
    ensures
        physical_key(binding).take(2) == seq![0x70u8, 0x2f],
        physical_key(binding).skip(2) == sha256_of(payload_identity(binding)),
        extent_key(binding, start, end).take(2) == seq![0x65u8, 0x2f],
        extent_key(binding, start, end).skip(2) == sha256_of(
            physical_key(binding) + be_bytes(start as nat, 8) + be_bytes(end as nat, 8),
        ),
        path_mark(path).skip(3) == sha256_of(path),
        physical_mark(path, version).skip(3) == sha256_of(path + seq![0u8] + version),
        path_mark(path) != physical_mark(path, version),
        flag_byte(true) != flag_byte(false),
{
    assert(physical_key(binding).take(2) =~= seq![0x70u8, 0x2f]);
    assert(physical_key(binding).skip(2) =~= sha256_of(payload_identity(binding)));
    assert(extent_key(binding, start, end).take(2) =~= seq![0x65u8, 0x2f]);
    assert(extent_key(binding, start, end).skip(2) =~= sha256_of(
        physical_key(binding) + be_bytes(start as nat, 8) + be_bytes(end as nat, 8),
    ));
    assert(path_mark(path).skip(3) =~= sha256_of(path));
    assert(path.push(0) + version =~= path + seq![0u8] + version);
    assert(physical_mark(path, version).skip(3) =~= sha256_of(path + seq![0u8] + version));
    assert(path_mark(path)[0] == 0x70u8);
    assert(physical_mark(path, version)[0] == 0x76u8);
}

} // verus!
