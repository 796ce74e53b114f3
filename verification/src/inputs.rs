//! What an operation's identity stands for: the parts that go, in order, into the digest of its input.
//! An operation that comes again with another digest is another request under a used name.
use crate::bytes::to_vec;
use crate::ids::{CommitId, ObjectVersionId, RepositoryId};
use crate::merge::MergeCursor;
use crate::merge_build::policy_byte;
use crate::merge_plan::MergePolicy;
use crate::model::CommitSessionManifest;
use crate::outside::{sha256, sha256_of};
use crate::texts::lemma_encoding_is_injective;
use vstd::prelude::*;
use vstd::utf8::encode_utf8;

verus! {

/// A request, as far as its digest goes.
pub enum RequestView {
    Initialize,
    Session { branch: Seq<char>, base: Seq<u8>, mutations: Seq<u8> },
    Put {
        branch: Seq<char>,
        key: Seq<u8>,
        checksum: Seq<u8>,
        headers: Seq<u8>,
        metadata: Seq<u8>,
    },
    Delete { branch: Seq<char>, key: Seq<u8> },
    Merge {
        repository: Seq<u8>,
        target_branch: Seq<char>,
        ours: Seq<u8>,
        theirs: Seq<u8>,
        base: Seq<u8>,
        policy: MergePolicy,
    },
    Transfer { source: Seq<u8>, commit: Seq<u8>, destination: Seq<u8> },
    TransferredVersion { repository: Seq<u8>, version: Seq<u8> },
    Ticket { path: Seq<char>, bytes: Seq<u8> },
}

/// The byte that stands for a policy.
pub open spec fn policy_code(policy: MergePolicy) -> u8 {
    match policy {
        MergePolicy::Fail => 0,
        MergePolicy::Ours => 1,
        MergePolicy::Theirs => 2,
    }
}

impl RequestView {
    /// The word that a request's parts begin with.
    pub open spec fn word(self) -> Seq<char> {
        match self {
            RequestView::Initialize => "initialize"@,
            RequestView::Session { .. } => "commit-session"@,
            RequestView::Put { .. } => "put"@,
            RequestView::Delete { .. } => "delete"@,
            RequestView::Merge { .. } => "merge-"@,
            RequestView::Transfer { .. } => "history-transfer"@,
            RequestView::TransferredVersion { .. } => "history-transfer-version"@,
            RequestView::Ticket { .. } => "publication-ticket"@,
        }
    }

    /// What follows the word.
    pub open spec fn rest(self) -> Seq<Seq<u8>> {
        match self {
            RequestView::Initialize => seq![],
            RequestView::Session { branch, base, mutations } => seq![
                encode_utf8(branch),
                base,
                mutations,
            ],
            RequestView::Put { branch, key, checksum, headers, metadata } => seq![
                encode_utf8(branch),
                key,
                checksum,
                headers,
                metadata,
            ],
            RequestView::Delete { branch, key } => seq![encode_utf8(branch), key],
            RequestView::Merge { repository, target_branch, ours, theirs, base, policy } => seq![
                repository,
                encode_utf8(target_branch),
                ours,
                theirs,
                base,
                seq![policy_code(policy)],
            ],
            RequestView::Transfer { source, commit, destination } => seq![
                source,
                commit,
                destination,
            ],
            RequestView::TransferredVersion { repository, version } => seq![repository, version],
            RequestView::Ticket { path, bytes } => seq![encode_utf8(path), bytes],
        }
    }

    /// The parts of a request's digest.
    pub open spec fn parts(self) -> Seq<Seq<u8>> {
        seq![encode_utf8(self.word())] + self.rest()
    }
}

/// The contents of a list of parts.
pub open spec fn parts_of(list: Seq<Vec<u8>>) -> Seq<Seq<u8>> {
    list.map_values(|part: Vec<u8>| part@)
}

/// The parts of the request to set a repository up.
pub fn initialize_input() -> (r: Vec<Vec<u8>>)
    ensures
        parts_of(r@) == RequestView::Initialize.parts(),
{
    let parts = vec![to_vec("initialize".as_bytes())];
    assert(parts_of(parts@) =~= RequestView::Initialize.parts());
    parts
}

/// The parts of a session's publication: its branch, its base and its mutations in stored form.
pub fn session_input(session: &CommitSessionManifest, encoded_mutations: &[u8]) -> (r: Vec<Vec<u8>>)
    ensures
        parts_of(r@) == (RequestView::Session {
            branch: session.branch@,
            base: session.base_commit@,
            mutations: encoded_mutations@,
        }).parts(),
{
    let parts = vec![
        to_vec("commit-session".as_bytes()),
        to_vec(session.branch.as_str().as_bytes()),
        to_vec(session.base_commit.as_bytes()),
        to_vec(encoded_mutations),
    ];
    assert(parts_of(parts@) =~= (RequestView::Session {
        branch: session.branch@,
        base: session.base_commit@,
        mutations: encoded_mutations@,
    }).parts());
    parts
}

/// The parts of a put: its branch and key, the digest of its bytes, and its headers and metadata in
/// stored form.
pub fn put_input(
    branch: &str,
    key: &[u8],
    bytes: &[u8],
    encoded_headers: &[u8],
    encoded_metadata: &[u8],
) -> (r: Vec<Vec<u8>>)
    ensures
        parts_of(r@) == (RequestView::Put {
            branch: branch@,
            key: key@,
            checksum: sha256_of(bytes@),
            headers: encoded_headers@,
            metadata: encoded_metadata@,
        }).parts(),
{
    let parts = vec![
        to_vec("put".as_bytes()),
        to_vec(branch.as_bytes()),
        to_vec(key),
        to_vec(&sha256(bytes)),
        to_vec(encoded_headers),
        to_vec(encoded_metadata),
    ];
    assert(parts_of(parts@) =~= (RequestView::Put {
        branch: branch@,
        key: key@,
        checksum: sha256_of(bytes@),
        headers: encoded_headers@,
        metadata: encoded_metadata@,
    }).parts());
    parts
}

/// The parts of a deletion: its branch and key.
pub fn delete_input(branch: &str, key: &[u8]) -> (r: Vec<Vec<u8>>)
    ensures
        parts_of(r@) == (RequestView::Delete { branch: branch@, key: key@ }).parts(),
{
    let parts = vec![to_vec("delete".as_bytes()), to_vec(branch.as_bytes()), to_vec(key)];
    assert(parts_of(parts@) =~= (RequestView::Delete { branch: branch@, key: key@ }).parts());
    parts
}

/// The parts of a merge: its repository, its target branch, both heads, the base and the policy.
pub fn merge_input(repository: RepositoryId, cursor: &MergeCursor, base: CommitId) -> (r: Vec<
    Vec<u8>,
>)
    ensures
        parts_of(r@) == (RequestView::Merge {
            repository: repository@,
            target_branch: cursor.target_branch@,
            ours: cursor.ours@,
            theirs: cursor.theirs@,
            base: base@,
            policy: cursor.policy,
        }).parts(),
{
    let policy: [u8; 1] = [policy_byte(cursor.policy)];
    assert(policy@ =~= seq![policy_code(cursor.policy)]);
    let parts = vec![
        to_vec("merge-".as_bytes()),
        to_vec(repository.as_bytes()),
        to_vec(cursor.target_branch.as_str().as_bytes()),
        to_vec(cursor.ours.as_bytes()),
        to_vec(cursor.theirs.as_bytes()),
        to_vec(base.as_bytes()),
        to_vec(&policy),
    ];
    assert(parts_of(parts@) =~= (RequestView::Merge {
        repository: repository@,
        target_branch: cursor.target_branch@,
        ours: cursor.ours@,
        theirs: cursor.theirs@,
        base: base@,
        policy: cursor.policy,
    }).parts());
    parts
}

/// The parts of a commit that comes from another repository.
pub fn transfer_input(source: RepositoryId, commit: CommitId, destination: RepositoryId) -> (r: Vec<
    Vec<u8>,
>)
    ensures
        parts_of(r@) == (RequestView::Transfer {
            source: source@,
            commit: commit@,
            destination: destination@,
        }).parts(),
{
    let parts = vec![
        to_vec("history-transfer".as_bytes()),
        to_vec(source.as_bytes()),
        to_vec(commit.as_bytes()),
        to_vec(destination.as_bytes()),
    ];
    assert(parts_of(parts@) =~= (RequestView::Transfer {
        source: source@,
        commit: commit@,
        destination: destination@,
    }).parts());
    parts
}

/// The parts of the name under which a version that comes from elsewhere is renamed
/// in a repository.
pub fn transferred_version_input(repository: RepositoryId, version: ObjectVersionId) -> (r: Vec<Vec<u8>>)
    ensures
        parts_of(r@) == (RequestView::TransferredVersion {
            repository: repository@,
            version: version@,
        }).parts(),
{
    let parts = vec![
        to_vec("history-transfer-version".as_bytes()),
        to_vec(repository.as_bytes()),
        to_vec(version.as_bytes()),
    ];
    assert(parts_of(parts@) =~= (RequestView::TransferredVersion {
        repository: repository@,
        version: version@,
    }).parts());
    parts
}

/// The parts of a publication ticket: the path that is to be written, and the bytes.
pub fn publication_ticket_input(path: &str, bytes: &[u8]) -> (r: Vec<Vec<u8>>)
    ensures
        parts_of(r@) == (RequestView::Ticket { path: path@, bytes: bytes@ }).parts(),
{
    let parts = vec![
        to_vec("publication-ticket".as_bytes()),
        to_vec(path.as_bytes()),
        to_vec(bytes),
    ];
    assert(parts_of(parts@) =~= (RequestView::Ticket { path: path@, bytes: bytes@ }).parts());
    parts
}

/// The words of two kinds of requests differ.
proof fn lemma_words_differ()
    ensures
        "commit-session"@ != "history-transfer"@,
        "delete"@ != "history-transfer-version"@,
        "delete"@ != "publication-ticket"@,
        "history-transfer-version"@ != "publication-ticket"@,
{
    reveal_strlit("commit-session");
    reveal_strlit("history-transfer");
    reveal_strlit("delete");
    reveal_strlit("history-transfer-version");
    reveal_strlit("publication-ticket");
    assert("commit-session"@.len() != "history-transfer"@.len());
    assert("delete"@.len() != "history-transfer-version"@.len());
    assert("delete"@.len() != "publication-ticket"@.len());
    assert("history-transfer-version"@.len() != "publication-ticket"@.len());
}

/// Two requests with the same parts are the same request: nothing that a request says is left out of
/// its parts, and no two kinds of requests share theirs.
pub proof fn law_parts_tell_requests_apart(a: RequestView, b: RequestView)
    requires
        a.parts() == b.parts(),
    ensures
        a == b,
{
    assert(a.parts()[0] == encode_utf8(a.word()));
    assert(b.parts()[0] == encode_utf8(b.word()));
    lemma_encoding_is_injective(a.word(), b.word());
    assert(a.parts().skip(1) =~= a.rest());
    assert(b.parts().skip(1) =~= b.rest());
    lemma_words_differ();
    assert(a.rest() == b.rest());
    match (a, b) {
        (
            RequestView::Session { branch: x, base: x1, mutations: x2 },
            RequestView::Session { branch: y, base: y1, mutations: y2 },
        ) => {
            assert(a.rest()[0] == encode_utf8(x) && a.rest()[1] == x1 && a.rest()[2] == x2);
            assert(b.rest()[0] == encode_utf8(y) && b.rest()[1] == y1 && b.rest()[2] == y2);
            lemma_encoding_is_injective(x, y);
        },
        (
            RequestView::Put { branch: x, key: x1, checksum: x2, headers: x3, metadata: x4 },
            RequestView::Put { branch: y, key: y1, checksum: y2, headers: y3, metadata: y4 },
        ) => {
            assert(a.rest()[0] == encode_utf8(x) && a.rest()[1] == x1 && a.rest()[2] == x2
                && a.rest()[3] == x3 && a.rest()[4] == x4);
            assert(b.rest()[0] == encode_utf8(y) && b.rest()[1] == y1 && b.rest()[2] == y2
                && b.rest()[3] == y3 && b.rest()[4] == y4);
            lemma_encoding_is_injective(x, y);
        },
        (RequestView::Delete { branch: x, key: x1 }, RequestView::Delete { branch: y, key: y1 }) => {
            assert(a.rest()[0] == encode_utf8(x) && a.rest()[1] == x1);
            assert(b.rest()[0] == encode_utf8(y) && b.rest()[1] == y1);
            lemma_encoding_is_injective(x, y);
        },
        (
            RequestView::Merge {
                repository: x,
                target_branch: x1,
                ours: x2,
                theirs: x3,
                base: x4,
                policy: x5,
            },
            RequestView::Merge {
                repository: y,
                target_branch: y1,
                ours: y2,
                theirs: y3,
                base: y4,
                policy: y5,
            },
        ) => {
            assert(a.rest()[0] == x && a.rest()[1] == encode_utf8(x1) && a.rest()[2] == x2
                && a.rest()[3] == x3 && a.rest()[4] == x4 && a.rest()[5] == seq![policy_code(x5)]);
            assert(b.rest()[0] == y && b.rest()[1] == encode_utf8(y1) && b.rest()[2] == y2
                && b.rest()[3] == y3 && b.rest()[4] == y4 && b.rest()[5] == seq![policy_code(y5)]);
            assert(seq![policy_code(x5)][0] == seq![policy_code(y5)][0]);
            lemma_encoding_is_injective(x1, y1);
        },
        (
            RequestView::Transfer { source: x, commit: x1, destination: x2 },
            RequestView::Transfer { source: y, commit: y1, destination: y2 },
        ) => {
            assert(a.rest()[0] == x && a.rest()[1] == x1 && a.rest()[2] == x2);
            assert(b.rest()[0] == y && b.rest()[1] == y1 && b.rest()[2] == y2);
        },
        (
            RequestView::TransferredVersion { repository: x, version: x1 },
            RequestView::TransferredVersion { repository: y, version: y1 },
        ) => {
            assert(a.rest()[0] == x && a.rest()[1] == x1);
            assert(b.rest()[0] == y && b.rest()[1] == y1);
        },
        (RequestView::Ticket { path: x, bytes: x1 }, RequestView::Ticket { path: y, bytes: y1 }) => {
            assert(a.rest()[0] == encode_utf8(x) && a.rest()[1] == x1);
            assert(b.rest()[0] == encode_utf8(y) && b.rest()[1] == y1);
            lemma_encoding_is_injective(x, y);
        },
        _ => {
            assert(a.rest().len() == b.rest().len());
        },
    }
}

} // verus!
