//! Where the objects of a repository lie under its prefix.
use crate::error::{fault, Error, ErrorCode, Fault};
use crate::ids::{nil_bytes, CommitId, OperationId, RepositoryId};
use crate::outside::{hex_decode, hex_encode, hex_text, is_hex, hex_bytes, string_from_utf8, strip_prefix, uuid_text, uuid_text_of};
use crate::text::{decimal, decimal_padded, decimal_text, decimal_text_padded, is_blank, blank};
use vstd::prelude::*;
use vstd::string::*;
use vstd::utf8::{encode_utf8, is_ascii_chars, is_ascii_chars_encode_utf8, valid_utf8};

verus! {

/// Where an object named by a digest lies: fanned out by the first two bytes of the digest.
pub open spec fn fanned_path(prefix: Seq<char>, folder: Seq<char>, digest: Seq<u8>) -> Seq<char> {
    prefix + folder + hex_text(digest.subrange(0, 1)) + "/"@ + hex_text(digest.subrange(1, 2))
        + "/"@ + hex_text(digest)
}

fn fanned(prefix: &str, folder: &str, digest: &[u8]) -> (r: String)
    requires
        digest@.len() >= 2,
    ensures
        r@ == fanned_path(prefix@, folder@, digest@),
{
    let first = hex_encode(vstd::slice::slice_subrange(digest, 0, 1));
    let second = hex_encode(vstd::slice::slice_subrange(digest, 1, 2));
    let whole = hex_encode(digest);
    let mut out = prefix.to_owned();
    out.append(folder);
    out.append(first.as_str());
    out.append("/");
    out.append(second.as_str());
    out.append("/");
    out.append(whole.as_str());
    out
}

/// Where a repository keeps its format.
pub fn format_path(prefix: &str) -> (r: String)
    ensures
        r@ == prefix@ + "/format/repository.cbor"@,
{
    prefix.to_owned().concat("/format/repository.cbor")
}

/// Where a repository keeps the intent to initialize it.
pub fn intent_path(prefix: &str) -> (r: String)
    ensures
        r@ == prefix@ + "/format/initialization.cbor"@,
{
    prefix.to_owned().concat("/format/initialization.cbor")
}

/// Where a repository keeps the state of garbage collection.
pub fn gc_coordinator_path(prefix: &str) -> (r: String)
    ensures
        r@ == prefix@ + "/gc/coordinator.cbor"@,
{
    prefix.to_owned().concat("/gc/coordinator.cbor")
}

/// Where the newest cursor of a collection is stored.
pub fn gc_cursor_path(prefix: &str) -> (r: String)
    ensures
        r@ == prefix@ + "/gc/cursor.cbor"@,
{
    prefix.to_owned().concat("/gc/cursor.cbor")
}

/// What the paths of all publication tickets of a repository begin with.
pub open spec fn ticket_prefix(prefix: Seq<char>, repository: RepositoryId) -> Seq<char> {
    prefix + "/gc/publications/"@ + hex_text(repository@) + "/"@
}

/// What the paths of all publication tickets of a repository begin with.
pub fn gc_publication_ticket_prefix(prefix: &str, repository: RepositoryId) -> (r: String)
    ensures
        r@ == ticket_prefix(prefix@, repository),
{
    let id = hex_encode(repository.as_bytes());
    let mut out = prefix.to_owned();
    out.append("/gc/publications/");
    out.append(id.as_str());
    out.append("/");
    out
}

/// Where the ticket of one publication lies.
pub fn gc_publication_ticket_path(
    prefix: &str,
    repository: RepositoryId,
    instance: OperationId,
    request_digest: &[u8; 32],
) -> (r: String)
    ensures
        r@ == ticket_prefix(prefix@, repository) + uuid_text_of(instance@) + "/"@ + hex_text(
            request_digest@,
        ),
{
    let mut out = gc_publication_ticket_prefix(prefix, repository);
    let instance = uuid_text(instance.0);
    let digest = hex_encode(request_digest);
    out.append(instance.as_str());
    out.append("/");
    out.append(digest.as_str());
    out
}

/// What the paths of all roots that moved during a collection begin with.
pub open spec fn dirty_prefix(prefix: Seq<char>, epoch: OperationId) -> Seq<char> {
    prefix + "/gc/dirty/"@ + uuid_text_of(epoch@) + "/"@
}

/// What the paths of all roots that moved during a collection begin with.
pub fn gc_dirty_root_prefix(prefix: &str, epoch: OperationId) -> (r: String)
    ensures
        r@ == dirty_prefix(prefix@, epoch),
{
    let mut out = prefix.to_owned();
    let epoch = uuid_text(epoch.0);
    out.append("/gc/dirty/");
    out.append(epoch.as_str());
    out.append("/");
    out
}

/// What the paths of the roots that moved as number `sequence` begin with.
pub fn gc_dirty_root_sequence_prefix(prefix: &str, epoch: OperationId, sequence: u64) -> (r: String)
    ensures
        r@ == dirty_prefix(prefix@, epoch) + decimal_padded(sequence as nat, 20) + "/"@,
{
    let mut out = gc_dirty_root_prefix(prefix, epoch);
    let digits = decimal_text_padded(sequence, 20);
    out.append(digits.as_str());
    out.append("/");
    out
}

/// Where a commit lies.
pub open spec fn commit_location(prefix: Seq<char>, id: CommitId) -> Seq<char> {
    fanned_path(prefix, "/commits/sha256/"@, id@)
}

/// Where a commit lies.
pub fn commit_path(prefix: &str, id: CommitId) -> (r: String)
    ensures
        r@ == commit_location(prefix@, id),
{
    fanned(prefix, "/commits/sha256/", id.as_bytes())
}

/// Where a tree node that is stored on its own lies.
pub open spec fn node_location(prefix: Seq<char>, key: Seq<u8>) -> Seq<char> {
    fanned_path(prefix, "/nodes/sha256/"@, key)
}

/// The error of a node key of the wrong length.
pub open spec fn node_key_length_fault(len: nat) -> Fault {
    Fault {
        message: "Prolly node key has "@ + decimal(len) + " bytes, expected 32"@,
        ..fault(ErrorCode::CorruptNode, "")
    }
}

/// The error of a node key of the wrong length.
pub fn node_key_length_error(len: usize) -> (r: Error)
    ensures
        r@ == node_key_length_fault(len as nat),
{
    let digits = decimal_text(len as u64);
    let message = "Prolly node key has ".to_owned().concat(digits.as_str()).concat(
        " bytes, expected 32",
    );
    let mut error = Error::new(ErrorCode::CorruptNode, "");
    error.message = message;
    error
}

/// Where a tree node that is stored on its own lies.
pub fn path_for_key(prefix: &str, key: &[u8]) -> (r: Result<String, Error>)
    ensures
        match r {
            Ok(path) => key@.len() == 32 && path@ == node_location(prefix@, key@),
            Err(error) => key@.len() != 32 && error@ == node_key_length_fault(key@.len()),
        },
{
    if key.len() != 32 {
        return Err(node_key_length_error(key.len()));
    }
    Ok(fanned(prefix, "/nodes/sha256/", key))
}

/// Where the working tree of a job lies. The job's kind and the tree's name are fixed texts.
pub fn administration_path(prefix: &str, kind: &str, job: OperationId, tree: &str) -> (r: String)
    ensures
        r@ == prefix@ + "/administration/"@ + kind@ + "/"@ + uuid_text_of(job@) + "/"@ + tree@,
{
    let id = uuid_text(job.0);
    let mut out = prefix.to_owned();
    out.append("/administration/");
    out.append(kind);
    out.append("/");
    out.append(id.as_str());
    out.append("/");
    out.append(tree);
    out
}

/// A working tree that a checkpointed job keeps.
#[derive(Clone, Copy, Debug, PartialEq, Eq, Structural)]
pub enum JobTree {
    Collection,
    PackInventory,
    CommitClosure,
    TransferMappings,
    TransferDelta,
    MergePlan,
    Check,
}

/// The folder and the name of a working tree.
pub open spec fn job_tree_names(tree: JobTree) -> (Seq<char>, Seq<char>) {
    match tree {
        JobTree::Collection => ("gc"@, "tree"@),
        JobTree::PackInventory => ("payload-pack-stats"@, "tree"@),
        JobTree::CommitClosure => ("closure"@, "tree"@),
        JobTree::TransferMappings => ("transfer"@, "mappings"@),
        JobTree::TransferDelta => ("transfer"@, "delta"@),
        JobTree::MergePlan => ("merge"@, "plan"@),
        JobTree::Check => ("fsck"@, "seen"@),
    }
}

/// The error of a job without a name.
pub open spec fn nil_job_fault(tree: JobTree) -> Fault {
    fault(
        ErrorCode::InvalidContinuationToken,
        match tree {
            JobTree::Collection => "GC epoch ID is nil",
            JobTree::PackInventory => "payload-pack stats job ID is nil",
            JobTree::CommitClosure => "commit-closure traversal ID is nil",
            JobTree::TransferMappings => "history-transfer job ID is nil",
            JobTree::TransferDelta => "history-transfer job ID is nil",
            JobTree::MergePlan => "merge job ID is nil",
            JobTree::Check => "fsck job ID is nil",
        },
    )
}

/// Where a working tree lies. A job without a name has none.
pub fn job_tree_path(prefix: &str, tree: JobTree, job: OperationId) -> (r: Result<String, Error>)
    ensures
        match r {
            Ok(path) => job@ != nil_bytes() && path@ == prefix@ + "/administration/"@
                + job_tree_names(tree).0 + "/"@ + uuid_text_of(job@) + "/"@ + job_tree_names(tree).1,
            Err(error) => job@ == nil_bytes() && error@ == nil_job_fault(tree),
        },
{
    if job.is_nil() {
        let message = match tree {
            JobTree::Collection => "GC epoch ID is nil",
            JobTree::PackInventory => "payload-pack stats job ID is nil",
            JobTree::CommitClosure => "commit-closure traversal ID is nil",
            JobTree::TransferMappings => "history-transfer job ID is nil",
            JobTree::TransferDelta => "history-transfer job ID is nil",
            JobTree::MergePlan => "merge job ID is nil",
            JobTree::Check => "fsck job ID is nil",
        };
        return Err(Error::new(ErrorCode::InvalidContinuationToken, message));
    }
    let (folder, name) = match tree {
        JobTree::Collection => ("gc", "tree"),
        JobTree::PackInventory => ("payload-pack-stats", "tree"),
        JobTree::CommitClosure => ("closure", "tree"),
        JobTree::TransferMappings => ("transfer", "mappings"),
        JobTree::TransferDelta => ("transfer", "delta"),
        JobTree::MergePlan => ("merge", "plan"),
        JobTree::Check => ("fsck", "seen"),
    };
    Ok(administration_path(prefix, folder, job, name))
}

/// The sorts of immutable objects that garbage collection may delete.
#[derive(Clone, Copy, Debug, PartialEq, Eq, Structural)]
pub enum ManagedKind {
    Commits,
    Nodes,
    Payloads,
}

/// The name of a sort of objects.
pub fn managed_kind_name(kind: ManagedKind) -> (r: &'static str)
    ensures
        r@ == match kind {
            ManagedKind::Commits => "commits"@,
            ManagedKind::Nodes => "nodes"@,
            ManagedKind::Payloads => "payloads"@,
        },
{
    match kind {
        ManagedKind::Commits => "commits",
        ManagedKind::Nodes => "nodes",
        ManagedKind::Payloads => "payloads",
    }
}

/// Whether a path goes on as `rest` below a prefix and a slash.
pub open spec fn below(path: Seq<char>, prefix: Seq<char>, rest: Seq<char>) -> bool {
    path == prefix + "/"@ + rest
}

/// The sort of object that lies at a path below the prefix.
pub open spec fn managed_kind(rest: Seq<char>) -> Option<ManagedKind> {
    if "commits/sha256/"@.is_prefix_of(rest) {
        Some(ManagedKind::Commits)
    } else if "nodes/sha256/"@.is_prefix_of(rest) {
        Some(ManagedKind::Nodes)
    } else if "payloads/"@.is_prefix_of(rest) || "payload-packs/"@.is_prefix_of(rest) {
        Some(ManagedKind::Payloads)
    } else {
        None
    }
}

/// The sort of object that lies at a path, if garbage collection may delete it.
pub fn gc_managed_kind(prefix: &str, path: &str) -> (r: Option<ManagedKind>)
    ensures
        forall|rest: Seq<char>| #[trigger]
            below(path@, prefix@, rest) ==> r == managed_kind(rest),
        (forall|rest: Seq<char>| !#[trigger] below(path@, prefix@, rest)) ==> r is None,
{
    let inner = match strip_prefix(path, prefix) {
        None => {
            proof {
                assert forall|rest: Seq<char>| !#[trigger] below(path@, prefix@, rest) by {
                    if below(path@, prefix@, rest) {
                        assert(path@ =~= prefix@ + ("/"@ + rest));
                        assert(prefix@.is_prefix_of(path@));
                    }
                }
            }
            return None;
        },
        Some(inner) => inner,
    };
    let relative = match strip_prefix(inner, "/") {
        None => {
            proof {
                assert forall|rest: Seq<char>| !#[trigger] below(path@, prefix@, rest) by {
                    if below(path@, prefix@, rest) {
                        assert(path@ =~= prefix@ + ("/"@ + rest));
                        let n = prefix@.len() as int;
                        assert(inner@ =~= path@.skip(n));
                        assert("/"@ + rest =~= path@.skip(n));
                        assert("/"@.is_prefix_of(inner@));
                    }
                }
            }
            return None;
        },
        Some(relative) => relative,
    };
    proof {
        assert(path@ =~= prefix@ + "/"@ + relative@);
        assert(below(path@, prefix@, relative@));
        assert forall|rest: Seq<char>| #[trigger] below(path@, prefix@, rest) implies rest == relative@ by {
            let n = (prefix@ + "/"@).len() as int;
            assert(path@.skip(n) =~= rest);
            assert(path@.skip(n) =~= relative@);
        }
    }
    if strip_prefix(relative, "commits/sha256/").is_some() {
        Some(ManagedKind::Commits)
    } else if strip_prefix(relative, "nodes/sha256/").is_some() {
        Some(ManagedKind::Nodes)
    } else if strip_prefix(relative, "payloads/").is_some() || strip_prefix(
        relative,
        "payload-packs/",
    ).is_some() {
        Some(ManagedKind::Payloads)
    } else {
        None
    }
}

/// What the tags that stand for retention pins begin with.
pub open spec fn pin_tag_prefix() -> Seq<char> {
    "retention-pins/"@
}

/// The tag that stands for a retention pin.
pub fn retention_pin_tag(name: &str) -> (r: Result<String, Error>)
    ensures
        match r {
            Ok(tag) => !blank(name@) && encode_utf8(name@).len() <= 100 && tag@ == pin_tag_prefix()
                + hex_text(encode_utf8(name@)),
            Err(error) => (blank(name@) || encode_utf8(name@).len() > 100) && error@ == fault(
                ErrorCode::InvalidBranch,
                "retention pin name must contain 1 to 100 bytes",
            ),
        },
{
    if is_blank(name) || name.as_bytes().len() > 100 {
        return Err(
            Error::new(
                ErrorCode::InvalidBranch,
                "retention pin name must contain 1 to 100 bytes",
            ),
        );
    }
    let encoded = hex_encode(name.as_bytes());
    Ok("retention-pins/".to_owned().concat(encoded.as_str()))
}

/// The name of the retention pin that a tag stands for, if it stands for one.
pub open spec fn pin_name(tag: Seq<char>) -> Result<Option<Seq<u8>>, Fault> {
    if !pin_tag_prefix().is_prefix_of(tag) {
        Ok(None)
    } else {
        let encoded = encode_utf8(tag.skip(pin_tag_prefix().len() as int));
        if !is_hex(encoded) {
            Err(fault(ErrorCode::CorruptCommit, "retention pin tag has invalid hex encoding"))
        } else if !valid_utf8(hex_bytes(encoded)) {
            Err(fault(ErrorCode::CorruptCommit, "retention pin tag name is not UTF-8"))
        } else {
            Ok(Some(hex_bytes(encoded)))
        }
    }
}

/// The name of the retention pin that a tag stands for, if it stands for one.
pub fn decode_retention_pin_tag(tag: &str) -> (r: Result<Option<String>, Error>)
    ensures
        match r {
            Ok(None) => pin_name(tag@) == Ok::<Option<Seq<u8>>, Fault>(None),
            Ok(Some(name)) => pin_name(tag@) == Ok::<Option<Seq<u8>>, Fault>(
                Some(encode_utf8(name@)),
            ),
            Err(error) => pin_name(tag@) == Err::<Option<Seq<u8>>, Fault>(error@),
        },
{
    let encoded = match strip_prefix(tag, "retention-pins/") {
        None => {
            return Ok(None);
        },
        Some(encoded) => encoded,
    };
    assert(tag@.skip(pin_tag_prefix().len() as int) =~= encoded@);
    match hex_decode(encoded) {
        None => Err(
            Error::new(ErrorCode::CorruptCommit, "retention pin tag has invalid hex encoding"),
        ),
        Some(bytes) => match string_from_utf8(bytes) {
            None => Err(
                Error::new(ErrorCode::CorruptCommit, "retention pin tag name is not UTF-8"),
            ),
            Some(name) => Ok(Some(name)),
        },
    }
}

/// Hexadecimal text is read back as the bytes that it was written from.
pub proof fn law_hex_text_reads_back(bytes: Seq<u8>)
    ensures
        is_hex(encode_utf8(hex_text(bytes))),
        hex_bytes(encode_utf8(hex_text(bytes))) == bytes,
{
    let text = hex_text(bytes);
    assert(is_ascii_chars(text)) by {
        assert forall|i: int| 0 <= i < text.len() implies '\0' <= #[trigger] text[i] <= '\u{7f}' by {
            let b = bytes[i / 2] as nat;
            assert(b / 16 < 16 && b % 16 < 16);
        }
    }
    is_ascii_chars_encode_utf8(text);
    let encoded = encode_utf8(text);
    assert forall|i: int| 0 <= i < encoded.len() implies (#[trigger] crate::outside::hex_digit_value(
        encoded[i],
    )) == Some(
        if i % 2 == 0 {
            bytes[i / 2] as nat / 16
        } else {
            bytes[i / 2] as nat % 16
        },
    ) by {
        let b = bytes[i / 2] as nat;
        assert(b / 16 < 16 && b % 16 < 16);
        assert(encoded[i] == text[i] as u8);
    }
    assert forall|i: int| 0 <= i < bytes.len() implies #[trigger] hex_bytes(encoded)[i] == bytes[i] by {
        assert((2 * i) % 2 == 0 && (2 * i) / 2 == i);
        assert((2 * i + 1) % 2 == 1 && (2 * i + 1) / 2 == i);
        assert(crate::outside::hex_digit_value(encoded[2 * i]) == Some(bytes[i] as nat / 16));
        assert(crate::outside::hex_digit_value(encoded[2 * i + 1]) == Some(bytes[i] as nat % 16));
    }
    assert(hex_bytes(encoded) =~= bytes);
}

/// The tag of a retention pin gives back the pin's name.
pub proof fn law_pin_tag_gives_back_the_name(name: Seq<char>)
    ensures
        pin_name(pin_tag_prefix() + hex_text(encode_utf8(name))) == Ok::<Option<Seq<u8>>, Fault>(
            Some(encode_utf8(name)),
        ),
{
    let tag = pin_tag_prefix() + hex_text(encode_utf8(name));
    let n = pin_tag_prefix().len() as int;
    assert(tag.skip(n) =~= hex_text(encode_utf8(name)));
    assert(pin_tag_prefix().is_prefix_of(tag)) by {
        assert(tag.subrange(0, n) =~= pin_tag_prefix());
    }
    law_hex_text_reads_back(encode_utf8(name));
    vstd::utf8::encode_utf8_valid_utf8(name);
}

/// Where commits and nodes are stored is where a collection looks for them: each lies below the prefix of the
/// repository, in a part that is managed as what it is, and ends with the digest that names it.
pub proof fn law_stored_objects_are_managed(prefix: Seq<char>, id: CommitId, node: Seq<u8>)
    requires
        node.len() == 32,
    ensures
        exists|rest: Seq<char>| #[trigger]
            below(commit_location(prefix, id), prefix, rest) && managed_kind(rest) == Some(
                ManagedKind::Commits,
            ),
        exists|rest: Seq<char>| #[trigger]
            below(node_location(prefix, node), prefix, rest) && managed_kind(rest) == Some(
                ManagedKind::Nodes,
            ),
        commit_location(prefix, id).skip(commit_location(prefix, id).len() - hex_text(id@).len())
            == hex_text(id@),
        node_location(prefix, node).skip(node_location(prefix, node).len() - hex_text(node).len())
            == hex_text(node),
{
    reveal_strlit("/");
    reveal_strlit("/commits/sha256/");
    reveal_strlit("/nodes/sha256/");
    reveal_strlit("commits/sha256/");
    reveal_strlit("nodes/sha256/");
    let commit = commit_location(prefix, id);
    let commit_rest = commit.skip(prefix.len() as int + 1);
    assert(commit =~= prefix + "/"@ + commit_rest);
    assert("commits/sha256/"@ =~= commit_rest.subrange(0, "commits/sha256/"@.len() as int));
    assert(below(commit, prefix, commit_rest));
    assert(commit.skip(commit.len() - hex_text(id@).len()) =~= hex_text(id@));
    let place = node_location(prefix, node);
    let node_rest = place.skip(prefix.len() as int + 1);
    assert(place =~= prefix + "/"@ + node_rest);
    assert("nodes/sha256/"@ =~= node_rest.subrange(0, "nodes/sha256/"@.len() as int));
    assert("commits/sha256/"@[0] == 'c');
    assert(node_rest[0] == 'n');
    assert(below(place, prefix, node_rest));
    assert(place.skip(place.len() - hex_text(node).len()) =~= hex_text(node));
}

/// A collection manages commits, nodes and payloads, and nothing that lies elsewhere: no reference, no log and no
/// state of a job is ever a candidate.
pub proof fn law_only_stored_content_is_managed(rest: Seq<char>)
    ensures
        managed_kind(rest) == Some(ManagedKind::Commits) <==> "commits/sha256/"@.is_prefix_of(rest),
        managed_kind(rest) == Some(ManagedKind::Nodes) <==> "nodes/sha256/"@.is_prefix_of(rest),
        managed_kind(rest) == Some(ManagedKind::Payloads) <==> "payloads/"@.is_prefix_of(rest)
            || "payload-packs/"@.is_prefix_of(rest),
        rest.len() > 0 && rest[0] != 'c' && rest[0] != 'n' && rest[0] != 'p' ==> managed_kind(rest) is None,
{
    reveal_strlit("commits/sha256/");
    reveal_strlit("nodes/sha256/");
    reveal_strlit("payloads/");
    reveal_strlit("payload-packs/");
    assert("commits/sha256/"@[0] == 'c');
    assert("nodes/sha256/"@[0] == 'n');
    assert("payloads/"@[0] == 'p');
    assert("payload-packs/"@[0] == 'p');
}

/// The working trees of different jobs lie apart.
pub proof fn law_job_trees_lie_apart(a: JobTree, b: JobTree)
    requires
        job_tree_names(a) == job_tree_names(b),
    ensures
        a == b,
{
    reveal_strlit("gc");
    reveal_strlit("tree");
    reveal_strlit("payload-pack-stats");
    reveal_strlit("closure");
    reveal_strlit("transfer");
    reveal_strlit("mappings");
    reveal_strlit("delta");
    reveal_strlit("merge");
    reveal_strlit("plan");
    reveal_strlit("fsck");
    reveal_strlit("seen");
    assert("gc"@.len() == 2 && "payload-pack-stats"@.len() == 18 && "closure"@.len() == 7
        && "transfer"@.len() == 8 && "merge"@.len() == 5 && "fsck"@.len() == 4);
    assert("mappings"@.len() == 8 && "delta"@.len() == 5);
}

} // verus!
