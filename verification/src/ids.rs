//! Identifiers and counters that name the parts of a repository.
use crate::bytes::bytes_eq;
use vstd::prelude::*;

verus! {

/// Names one repository.
#[derive(Clone, Copy, Debug, Eq, PartialOrd, Ord, Hash)]
pub struct RepositoryId(pub [u8; 32]);

impl PartialEq for RepositoryId {
    fn eq(&self, other: &Self) -> (r: bool) {
        let same = bytes_eq(&self.0, &other.0);
        proof {
            if self.0@ == other.0@ {
                assert(self.0 =~= other.0);
            }
        }
        same
    }
}

impl vstd::std_specs::cmp::PartialEqSpecImpl for RepositoryId {
    open spec fn obeys_eq_spec() -> bool {
        true
    }

    open spec fn eq_spec(&self, other: &Self) -> bool {
        *self == *other
    }
}

impl View for RepositoryId {
    type V = Seq<u8>;

    open spec fn view(&self) -> Seq<u8> {
        self.0@
    }
}

impl RepositoryId {
    /// The identifier with these bytes.
    pub fn from_hash(bytes: [u8; 32]) -> (r: Self)
        ensures
            r == RepositoryId(bytes),
    {
        RepositoryId(bytes)
    }

    /// The identifier's bytes.
    pub fn as_bytes(&self) -> (r: &[u8; 32])
        ensures
            *r == self.0,
            r@ == self@,
    {
        &self.0
    }
}

/// Names one immutable commit by the digest of its canonical bytes.
#[derive(Clone, Copy, Debug, Eq, PartialOrd, Ord, Hash)]
pub struct CommitId(pub [u8; 32]);

impl PartialEq for CommitId {
    fn eq(&self, other: &Self) -> (r: bool) {
        let same = bytes_eq(&self.0, &other.0);
        proof {
            if self.0@ == other.0@ {
                assert(self.0 =~= other.0);
            }
        }
        same
    }
}

impl vstd::std_specs::cmp::PartialEqSpecImpl for CommitId {
    open spec fn obeys_eq_spec() -> bool {
        true
    }

    open spec fn eq_spec(&self, other: &Self) -> bool {
        *self == *other
    }
}

impl View for CommitId {
    type V = Seq<u8>;

    open spec fn view(&self) -> Seq<u8> {
        self.0@
    }
}

impl CommitId {
    /// The identifier with these bytes.
    pub fn from_hash(bytes: [u8; 32]) -> (r: Self)
        ensures
            r == CommitId(bytes),
    {
        CommitId(bytes)
    }

    /// The identifier's bytes.
    pub fn as_bytes(&self) -> (r: &[u8; 32])
        ensures
            *r == self.0,
            r@ == self@,
    {
        &self.0
    }
}

/// Names one immutable version of a logical object.
#[derive(Clone, Copy, Debug, Eq, PartialOrd, Ord, Hash)]
pub struct ObjectVersionId(pub [u8; 32]);

impl PartialEq for ObjectVersionId {
    fn eq(&self, other: &Self) -> (r: bool) {
        let same = bytes_eq(&self.0, &other.0);
        proof {
            if self.0@ == other.0@ {
                assert(self.0 =~= other.0);
            }
        }
        same
    }
}

impl vstd::std_specs::cmp::PartialEqSpecImpl for ObjectVersionId {
    open spec fn obeys_eq_spec() -> bool {
        true
    }

    open spec fn eq_spec(&self, other: &Self) -> bool {
        *self == *other
    }
}

impl View for ObjectVersionId {
    type V = Seq<u8>;

    open spec fn view(&self) -> Seq<u8> {
        self.0@
    }
}

impl ObjectVersionId {
    /// The identifier with these bytes.
    pub fn from_hash(bytes: [u8; 32]) -> (r: Self)
        ensures
            r == ObjectVersionId(bytes),
    {
        ObjectVersionId(bytes)
    }

    /// The identifier's bytes.
    pub fn as_bytes(&self) -> (r: &[u8; 32])
        ensures
            *r == self.0,
            r@ == self@,
    {
        &self.0
    }
}

/// Names one immutable tree node by the SHA-256 digest of its bytes.
#[derive(Clone, Copy, Debug, Eq, PartialOrd, Ord, Hash)]
pub struct Cid(pub [u8; 32]);

impl PartialEq for Cid {
    fn eq(&self, other: &Self) -> (r: bool) {
        let same = bytes_eq(&self.0, &other.0);
        proof {
            if self.0@ == other.0@ {
                assert(self.0 =~= other.0);
            }
        }
        same
    }
}

impl vstd::std_specs::cmp::PartialEqSpecImpl for Cid {
    open spec fn obeys_eq_spec() -> bool {
        true
    }

    open spec fn eq_spec(&self, other: &Self) -> bool {
        *self == *other
    }
}

impl View for Cid {
    type V = Seq<u8>;

    open spec fn view(&self) -> Seq<u8> {
        self.0@
    }
}

impl Cid {
    /// The identifier with these bytes.
    pub fn from_hash(bytes: [u8; 32]) -> (r: Self)
        ensures
            r == Cid(bytes),
    {
        Cid(bytes)
    }

    /// The identifier's bytes.
    pub fn as_bytes(&self) -> (r: &[u8; 32])
        ensures
            *r == self.0,
            r@ == self@,
    {
        &self.0
    }
}

/// Names the format that a tree was written with.
#[derive(Clone, Copy, Debug, Eq, PartialOrd, Ord, Hash)]
pub struct TreeFormatDigest(pub [u8; 32]);

impl PartialEq for TreeFormatDigest {
    fn eq(&self, other: &Self) -> (r: bool) {
        let same = bytes_eq(&self.0, &other.0);
        proof {
            if self.0@ == other.0@ {
                assert(self.0 =~= other.0);
            }
        }
        same
    }
}

impl vstd::std_specs::cmp::PartialEqSpecImpl for TreeFormatDigest {
    open spec fn obeys_eq_spec() -> bool {
        true
    }

    open spec fn eq_spec(&self, other: &Self) -> bool {
        *self == *other
    }
}

impl View for TreeFormatDigest {
    type V = Seq<u8>;

    open spec fn view(&self) -> Seq<u8> {
        self.0@
    }
}

impl TreeFormatDigest {
    /// The identifier with these bytes.
    pub fn from_hash(bytes: [u8; 32]) -> (r: Self)
        ensures
            r == TreeFormatDigest(bytes),
    {
        TreeFormatDigest(bytes)
    }

    /// The identifier's bytes.
    pub fn as_bytes(&self) -> (r: &[u8; 32])
        ensures
            *r == self.0,
            r@ == self@,
    {
        &self.0
    }
}

/// Names one operation of a caller; a retry carries the name of its first attempt.
#[derive(Clone, Copy, Debug, Eq, PartialOrd, Ord, Hash)]
pub struct OperationId(pub [u8; 16]);

impl PartialEq for OperationId {
    fn eq(&self, other: &Self) -> (r: bool) {
        let same = bytes_eq(&self.0, &other.0);
        proof {
            if self.0@ == other.0@ {
                assert(self.0 =~= other.0);
            }
        }
        same
    }
}

impl vstd::std_specs::cmp::PartialEqSpecImpl for OperationId {
    open spec fn obeys_eq_spec() -> bool {
        true
    }

    open spec fn eq_spec(&self, other: &Self) -> bool {
        *self == *other
    }
}

impl View for OperationId {
    type V = Seq<u8>;

    open spec fn view(&self) -> Seq<u8> {
        self.0@
    }
}

impl OperationId {
    /// The identifier with these bytes.
    pub fn from_bytes(bytes: [u8; 16]) -> (r: Self)
        ensures
            r == OperationId(bytes),
    {
        OperationId(bytes)
    }

    /// The identifier's bytes.
    pub fn as_bytes(&self) -> (r: &[u8; 16])
        ensures
            *r == self.0,
            r@ == self@,
    {
        &self.0
    }
}

/// Names one commit session.
#[derive(Clone, Copy, Debug, Eq, PartialOrd, Ord, Hash)]
pub struct BatchId(pub [u8; 16]);

impl PartialEq for BatchId {
    fn eq(&self, other: &Self) -> (r: bool) {
        let same = bytes_eq(&self.0, &other.0);
        proof {
            if self.0@ == other.0@ {
                assert(self.0 =~= other.0);
            }
        }
        same
    }
}

impl vstd::std_specs::cmp::PartialEqSpecImpl for BatchId {
    open spec fn obeys_eq_spec() -> bool {
        true
    }

    open spec fn eq_spec(&self, other: &Self) -> bool {
        *self == *other
    }
}

impl View for BatchId {
    type V = Seq<u8>;

    open spec fn view(&self) -> Seq<u8> {
        self.0@
    }
}

impl BatchId {
    /// The identifier with these bytes.
    pub fn from_bytes(bytes: [u8; 16]) -> (r: Self)
        ensures
            r == BatchId(bytes),
    {
        BatchId(bytes)
    }

    /// The identifier's bytes.
    pub fn as_bytes(&self) -> (r: &[u8; 16])
        ensures
            *r == self.0,
            r@ == self@,
    {
        &self.0
    }
}

/// Names one workspace.
#[derive(Clone, Copy, Debug, Eq, PartialOrd, Ord, Hash)]
pub struct WorkspaceId(pub [u8; 16]);

impl PartialEq for WorkspaceId {
    fn eq(&self, other: &Self) -> (r: bool) {
        let same = bytes_eq(&self.0, &other.0);
        proof {
            if self.0@ == other.0@ {
                assert(self.0 =~= other.0);
            }
        }
        same
    }
}

impl vstd::std_specs::cmp::PartialEqSpecImpl for WorkspaceId {
    open spec fn obeys_eq_spec() -> bool {
        true
    }

    open spec fn eq_spec(&self, other: &Self) -> bool {
        *self == *other
    }
}

impl View for WorkspaceId {
    type V = Seq<u8>;

    open spec fn view(&self) -> Seq<u8> {
        self.0@
    }
}

impl WorkspaceId {
    /// The identifier with these bytes.
    pub fn from_bytes(bytes: [u8; 16]) -> (r: Self)
        ensures
            r == WorkspaceId(bytes),
    {
        WorkspaceId(bytes)
    }

    /// The identifier's bytes.
    pub fn as_bytes(&self) -> (r: &[u8; 16])
        ensures
            *r == self.0,
            r@ == self@,
    {
        &self.0
    }
}

/// Names one upload.
#[derive(Clone, Copy, Debug, Eq, PartialOrd, Ord, Hash)]
pub struct UploadId(pub [u8; 16]);

impl PartialEq for UploadId {
    fn eq(&self, other: &Self) -> (r: bool) {
        let same = bytes_eq(&self.0, &other.0);
        proof {
            if self.0@ == other.0@ {
                assert(self.0 =~= other.0);
            }
        }
        same
    }
}

impl vstd::std_specs::cmp::PartialEqSpecImpl for UploadId {
    open spec fn obeys_eq_spec() -> bool {
        true
    }

    open spec fn eq_spec(&self, other: &Self) -> bool {
        *self == *other
    }
}

impl View for UploadId {
    type V = Seq<u8>;

    open spec fn view(&self) -> Seq<u8> {
        self.0@
    }
}

impl UploadId {
    /// The identifier with these bytes.
    pub fn from_bytes(bytes: [u8; 16]) -> (r: Self)
        ensures
            r == UploadId(bytes),
    {
        UploadId(bytes)
    }

    /// The identifier's bytes.
    pub fn as_bytes(&self) -> (r: &[u8; 16])
        ensures
            *r == self.0,
            r@ == self@,
    {
        &self.0
    }
}

/// The bytes of the nil identifier.
pub open spec fn nil_bytes() -> Seq<u8> {
    Seq::new(16, |i: int| 0u8)
}

impl OperationId {
    /// Whether every byte is zero.
    pub fn is_nil(&self) -> (r: bool)
        ensures
            r == (self@ == nil_bytes()),
    {
        let nil: [u8; 16] = [0; 16];
        assert(nil@ =~= nil_bytes());
        bytes_eq(&self.0, &nil)
    }
}

/// How many commits stand between a commit and the root, counted along its longest line.
#[derive(Clone, Copy, Debug, PartialEq, Eq, PartialOrd, Ord, Hash, Structural)]
pub struct CommitGeneration(pub u64);

/// How many times a mutable reference has moved.
#[derive(Clone, Copy, Debug, PartialEq, Eq, PartialOrd, Ord, Hash, Structural)]
pub struct RefGeneration(pub u64);

/// Two identifiers with the same bytes are the same identifier.
pub proof fn lemma_commit_id_from_bytes(a: CommitId, b: CommitId)
    ensures
        a@ == b@ <==> a == b,
{
    if a@ == b@ {
        assert(a.0 =~= b.0);
    }
}

/// Two version identifiers with the same bytes are the same identifier.
pub proof fn lemma_version_id_from_bytes(a: ObjectVersionId, b: ObjectVersionId)
    ensures
        a@ == b@ <==> a == b,
{
    if a@ == b@ {
        assert(a.0 =~= b.0);
    }
}

} // verus!
