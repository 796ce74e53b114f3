//! The records of a repository: object versions, commits, references and sessions.
use crate::bytes::bytes_eq;
use crate::ids::{
    BatchId, Cid, CommitGeneration, CommitId, ObjectVersionId, OperationId, RefGeneration,
    RepositoryId, TreeFormatDigest,
};
use crate::ordered::Keyed;
use crate::texts::NamedTexts;
use crate::version_key::ObjectVersionOrder;
use std::sync::Arc;
use vstd::prelude::*;
use vstd::utf8::encode_utf8;

verus! {

/// The root of one immutable tree and the format that it was written with.
#[derive(Clone, Copy, Debug, Eq)]
pub struct RootManifest {
    pub root: Option<Cid>,
    pub format_digest: TreeFormatDigest,
}

impl PartialEq for RootManifest {
    fn eq(&self, other: &Self) -> (r: bool) {
        self.root == other.root && self.format_digest == other.format_digest
    }
}

impl vstd::std_specs::cmp::PartialEqSpecImpl for RootManifest {
    open spec fn obeys_eq_spec() -> bool {
        true
    }

    open spec fn eq_spec(&self, other: &Self) -> bool {
        *self == *other
    }
}

/// What a writer attaches to an object: carried along, never interpreted.
#[derive(Clone, Debug, PartialEq, Eq)]
pub struct ObjectHeaders {
    pub fields: NamedTexts,
}

/// Headers, metadata, tags and further checksums of one object.
#[derive(Clone, Debug, PartialEq, Eq)]
pub struct ObjectAttributes {
    pub headers: ObjectHeaders,
    pub user_metadata: NamedTexts,
    pub tags: NamedTexts,
    pub algorithm_values: NamedTexts,
}

/// The contents of an object's attributes: texts by their names.
pub struct AttributesView {
    pub headers: Map<Seq<char>, Seq<char>>,
    pub user_metadata: Map<Seq<char>, Seq<char>>,
    pub tags: Map<Seq<char>, Seq<char>>,
    pub algorithm_values: Map<Seq<char>, Seq<char>>,
}

impl View for ObjectAttributes {
    type V = AttributesView;

    open spec fn view(&self) -> AttributesView {
        AttributesView {
            headers: self.headers.fields@,
            user_metadata: self.user_metadata@,
            tags: self.tags@,
            algorithm_values: self.algorithm_values@,
        }
    }
}

impl ObjectAttributes {
    /// Whether two sets of attributes are the same.
    pub fn same(&self, other: &Self) -> (r: bool)
        ensures
            r == (self@ == other@),
    {
        self.headers.fields.same(&other.headers.fields) && self.user_metadata.same(
            &other.user_metadata,
        ) && self.tags.same(&other.tags) && self.algorithm_values.same(&other.algorithm_values)
    }
}

/// The digests of an object's bytes.
#[derive(Clone, Copy, Debug, Eq)]
pub struct Checksums {
    pub md5: Option<[u8; 16]>,
    pub sha256: Option<[u8; 32]>,
}

impl PartialEq for Checksums {
    fn eq(&self, other: &Self) -> (r: bool) {
        let md5 = match (&self.md5, &other.md5) {
            (Some(a), Some(b)) => {
                proof {
                    if a@ == b@ {
                        assert(*a =~= *b);
                    }
                }
                bytes_eq(a, b)
            },
            (None, None) => true,
            _ => false,
        };
        let sha256 = match (&self.sha256, &other.sha256) {
            (Some(a), Some(b)) => {
                proof {
                    if a@ == b@ {
                        assert(*a =~= *b);
                    }
                }
                bytes_eq(a, b)
            },
            (None, None) => true,
            _ => false,
        };
        md5 && sha256
    }
}

impl vstd::std_specs::cmp::PartialEqSpecImpl for Checksums {
    open spec fn obeys_eq_spec() -> bool {
        true
    }

    open spec fn eq_spec(&self, other: &Self) -> bool {
        *self == *other
    }
}

/// Where the bytes of one object version lie. A packed payload shares its physical object with
/// others and occupies the inclusive range `pack_range` of it.
#[derive(Clone, Debug, PartialEq, Eq)]
pub struct PayloadBinding {
    pub path: String,
    pub checksum_sha256: [u8; 32],
    pub pack_checksum_sha256: Option<[u8; 32]>,
    pub pack_range: Option<(u64, u64)>,
    pub provider_etag: String,
    pub provider_version_id: Option<String>,
}

/// A copy of optional text.
pub fn copy_text(text: &Option<String>) -> (r: Option<String>)
    ensures
        r == *text,
{
    match text {
        Some(value) => Some(value.clone()),
        None => None,
    }
}

/// Whether two optional texts are the same.
pub fn same_text(a: &Option<String>, b: &Option<String>) -> (r: bool)
    ensures
        r == (text_view(*a) == text_view(*b)),
{
    match (a, b) {
        (Some(x), Some(y)) => *x == *y,
        (None, None) => true,
        _ => false,
    }
}

/// The characters of optional text.
pub open spec fn text_view(text: Option<String>) -> Option<Seq<char>> {
    match text {
        Some(value) => Some(value@),
        None => None,
    }
}

impl PayloadBinding {
    /// Whether the payload shares its physical object with others.
    pub open spec fn packed(&self) -> bool {
        self.pack_range is Some
    }

    /// The digest of the physical object that holds the payload.
    pub open spec fn physical_checksum(&self) -> Seq<u8> {
        match self.pack_checksum_sha256 {
            Some(digest) => digest@,
            None => self.checksum_sha256@,
        }
    }

    /// Whether the payload shares its physical object with others.
    pub fn is_packed(&self) -> (r: bool)
        ensures
            r == self.packed(),
    {
        self.pack_range.is_some()
    }

    /// The digest of the physical object that holds the payload.
    pub fn physical_checksum_sha256(&self) -> (r: [u8; 32])
        ensures
            r@ == self.physical_checksum(),
    {
        match self.pack_checksum_sha256 {
            Some(digest) => digest,
            None => self.checksum_sha256,
        }
    }

    /// A copy of the binding.
    pub fn copied(&self) -> (r: Self)
        ensures
            r == *self,
    {
        PayloadBinding {
            path: self.path.clone(),
            checksum_sha256: self.checksum_sha256,
            pack_checksum_sha256: self.pack_checksum_sha256,
            pack_range: self.pack_range,
            provider_etag: self.provider_etag.clone(),
            provider_version_id: copy_text(&self.provider_version_id),
        }
    }
}

/// Whether a version holds an object or records that it was deleted.
#[derive(Clone, Debug, PartialEq, Eq)]
pub enum LogicalObjectVersionKind {
    Live {
        size: u64,
        logical_etag: String,
        checksums: Checksums,
        attributes: Arc<ObjectAttributes>,
    },
    DeleteMarker,
}

/// The contents of a version's kind.
pub enum KindView {
    Live { size: u64, logical_etag: Seq<char>, checksums: Checksums, attributes: AttributesView },
    DeleteMarker,
}

impl View for LogicalObjectVersionKind {
    type V = KindView;

    open spec fn view(&self) -> KindView {
        match *self {
            LogicalObjectVersionKind::Live { size, logical_etag, checksums, attributes } => {
                KindView::Live {
                    size,
                    logical_etag: logical_etag@,
                    checksums,
                    attributes: attributes@,
                }
            },
            LogicalObjectVersionKind::DeleteMarker => KindView::DeleteMarker,
        }
    }
}

impl LogicalObjectVersionKind {
    /// Whether two kinds are the same.
    pub fn same(&self, other: &Self) -> (r: bool)
        ensures
            r == (self@ == other@),
    {
        match (self, other) {
            (
                LogicalObjectVersionKind::Live {
                    size: a_size,
                    logical_etag: a_etag,
                    checksums: a_checksums,
                    attributes: a_attributes,
                },
                LogicalObjectVersionKind::Live {
                    size: b_size,
                    logical_etag: b_etag,
                    checksums: b_checksums,
                    attributes: b_attributes,
                },
            ) => *a_size == *b_size && *a_etag == *b_etag && *a_checksums == *b_checksums
                && a_attributes.same(b_attributes),
            (LogicalObjectVersionKind::DeleteMarker, LogicalObjectVersionKind::DeleteMarker) => true,
            _ => false,
        }
    }

    /// A copy of the kind.
    pub fn copied(&self) -> (r: Self)
        ensures
            r == *self,
    {
        match self {
            LogicalObjectVersionKind::Live { size, logical_etag, checksums, attributes } => {
                LogicalObjectVersionKind::Live {
                    size: *size,
                    logical_etag: logical_etag.clone(),
                    checksums: *checksums,
                    attributes: attributes.clone(),
                }
            },
            LogicalObjectVersionKind::DeleteMarker => LogicalObjectVersionKind::DeleteMarker,
        }
    }

    /// Whether the version records a deletion.
    pub fn is_delete_marker(&self) -> (r: bool)
        ensures
            r == (*self is DeleteMarker),
    {
        match self {
            LogicalObjectVersionKind::DeleteMarker => true,
            LogicalObjectVersionKind::Live { .. } => false,
        }
    }
}

/// What a version says, apart from its name.
#[derive(Clone, Debug, PartialEq, Eq)]
pub struct LogicalObjectVersionBody {
    pub order: ObjectVersionOrder,
    pub created_at_millis: u64,
    pub kind: LogicalObjectVersionKind,
}

/// One immutable version of a logical object.
#[derive(Clone, Debug, PartialEq, Eq)]
pub struct ObjectVersion {
    pub id: ObjectVersionId,
    pub body: LogicalObjectVersionBody,
    pub binding: Option<PayloadBinding>,
}

impl ObjectVersion {
    /// A copy of the version.
    pub fn copied(&self) -> (r: Self)
        ensures
            r == *self,
    {
        ObjectVersion {
            id: self.id,
            body: LogicalObjectVersionBody {
                order: self.body.order,
                created_at_millis: self.body.created_at_millis,
                kind: self.body.kind.copied(),
            },
            binding: match &self.binding {
                Some(binding) => Some(binding.copied()),
                None => None,
            },
        }
    }
}

/// The change that a commit makes to one key.
#[derive(Clone, Debug, PartialEq, Eq)]
pub struct ObjectTransition {
    pub key: Vec<u8>,
    pub previous: Option<ObjectVersionId>,
    pub next: ObjectVersionId,
    pub delete_marker: bool,
}

/// The contents of a transition.
pub struct TransitionView {
    pub key: Seq<u8>,
    pub previous: Option<ObjectVersionId>,
    pub next: ObjectVersionId,
    pub delete_marker: bool,
}

impl View for ObjectTransition {
    type V = TransitionView;

    open spec fn view(&self) -> TransitionView {
        TransitionView {
            key: self.key@,
            previous: self.previous,
            next: self.next,
            delete_marker: self.delete_marker,
        }
    }
}

/// What a commit changed: listed in the commit, or in a tree of their own when there are many.
#[derive(Clone, Debug, PartialEq, Eq)]
pub struct BucketDelta {
    pub input_digest: [u8; 32],
    pub changes: Vec<ObjectTransition>,
    pub changes_root: Option<RootManifest>,
    pub change_count: u64,
}

impl BucketDelta {
    /// How many keys the commit changed.
    pub open spec fn logical_changes(&self) -> int {
        if self.changes_root is Some {
            self.change_count as int
        } else {
            self.changes@.len() as int
        }
    }

    /// How many keys the commit changed.
    pub fn logical_change_count(&self) -> (r: u64)
        ensures
            r == self.logical_changes(),
    {
        if self.changes_root.is_some() {
            self.change_count
        } else {
            self.changes.len() as u64
        }
    }
}

/// The two trees that make up a snapshot: the current objects, and every version ever written.
#[derive(Clone, Copy, Debug, Eq)]
pub struct BucketState {
    pub objects: RootManifest,
    pub versions: RootManifest,
}

impl PartialEq for BucketState {
    fn eq(&self, other: &Self) -> (r: bool) {
        self.objects == other.objects && self.versions == other.versions
    }
}

impl vstd::std_specs::cmp::PartialEqSpecImpl for BucketState {
    open spec fn obeys_eq_spec() -> bool {
        true
    }

    open spec fn eq_spec(&self, other: &Self) -> bool {
        *self == *other
    }
}

/// What a writer's authority covers.
#[derive(Clone, Debug, PartialEq, Eq, PartialOrd, Ord)]
pub enum AuthorityScope {
    Branch { name: String },
    System { namespace: String },
}

/// The contents of a scope.
pub enum ScopeView {
    Branch { name: Seq<char> },
    System { namespace: Seq<char> },
}

impl View for AuthorityScope {
    type V = ScopeView;

    open spec fn view(&self) -> ScopeView {
        match *self {
            AuthorityScope::Branch { name } => ScopeView::Branch { name: name@ },
            AuthorityScope::System { namespace } => ScopeView::System { namespace: namespace@ },
        }
    }
}

impl AuthorityScope {
    /// A copy of the scope.
    pub fn copied(&self) -> (r: Self)
        ensures
            r == *self,
    {
        match self {
            AuthorityScope::Branch { name } => AuthorityScope::Branch { name: name.clone() },
            AuthorityScope::System { namespace } => AuthorityScope::System {
                namespace: namespace.clone(),
            },
        }
    }

    /// Whether two scopes are the same.
    pub fn same(&self, other: &Self) -> (r: bool)
        ensures
            r == (self@ == other@),
    {
        match (self, other) {
            (AuthorityScope::Branch { name: a }, AuthorityScope::Branch { name: b }) => *a == *b,
            (
                AuthorityScope::System { namespace: a },
                AuthorityScope::System { namespace: b },
            ) => *a == *b,
            _ => false,
        }
    }
}

/// Proof of authority that a writer leaves on what it writes.
#[derive(Clone, Debug, PartialEq, Eq)]
pub struct AuthorityStamp {
    pub scope: AuthorityScope,
    pub writer_id: String,
    pub epoch: u64,
}

/// The contents of a stamp.
pub struct StampView {
    pub scope: ScopeView,
    pub writer_id: Seq<char>,
    pub epoch: u64,
}

impl View for AuthorityStamp {
    type V = StampView;

    open spec fn view(&self) -> StampView {
        StampView { scope: self.scope@, writer_id: self.writer_id@, epoch: self.epoch }
    }
}

impl AuthorityStamp {
    /// A copy of the stamp.
    pub fn copied(&self) -> (r: Self)
        ensures
            r == *self,
    {
        AuthorityStamp {
            scope: self.scope.copied(),
            writer_id: self.writer_id.clone(),
            epoch: self.epoch,
        }
    }

    /// Whether two stamps are the same.
    pub fn same(&self, other: &Self) -> (r: bool)
        ensures
            r == (self@ == other@),
    {
        self.scope.same(&other.scope) && self.writer_id == other.writer_id && self.epoch
            == other.epoch
    }
}

/// Names a pack of tree nodes by the digest of its bytes.
#[derive(Clone, Copy, Debug, PartialEq, Eq)]
pub struct NodePackRef {
    pub id: [u8; 32],
    pub object_len: u64,
    pub node_count: u32,
}

/// A named value that a commit carries along.
#[derive(Clone, Debug, PartialEq, Eq)]
pub struct MetadataEntry {
    pub name: String,
    pub value: Vec<u8>,
}

impl Keyed for MetadataEntry {
    open spec fn sort_key(&self) -> Seq<u8> {
        encode_utf8(self.name@)
    }

    fn sort_bytes(&self) -> (r: &[u8]) {
        self.name.as_str().as_bytes()
    }
}

/// One immutable commit.
#[derive(Clone, Debug, PartialEq, Eq)]
pub struct BucketCommit {
    pub state: BucketState,
    pub parents: Vec<CommitId>,
    pub generation: CommitGeneration,
    pub delta: BucketDelta,
    pub node_pack: Option<NodePackRef>,
    pub authority: AuthorityStamp,
    pub author: String,
    pub message: Option<String>,
    pub created_at_millis: u64,
    pub metadata: Vec<MetadataEntry>,
}

/// Limits that every copy of a repository agrees on.
#[derive(Clone, Copy, Debug, PartialEq, Eq, Structural)]
pub struct CanonicalLimits {
    pub max_key_bytes: u32,
    pub max_object_bytes: u64,
    pub max_mutations_per_commit: u32,
    pub max_delete_objects: u32,
    pub max_list_page: u32,
}

/// What was published: the answer to an operation.
#[derive(Clone, Debug, PartialEq, Eq)]
pub struct CommitReceipt {
    pub id: CommitId,
    pub operation: OperationId,
    pub branch: String,
    pub parents: Vec<CommitId>,
    pub changed_keys: u64,
    pub object_versions: Vec<ObjectVersionId>,
    pub idempotent_replay: bool,
}

/// A commit session: mutations gathered against one base, published together.
#[derive(Clone, Debug, PartialEq, Eq)]
pub struct CommitSessionManifest {
    pub id: BatchId,
    pub branch: String,
    pub base_commit: CommitId,
    pub identity: MutationIdentity,
    pub message: String,
    pub created_at_millis: u64,
    pub expires_at_millis: u64,
}

/// Who makes a change, under which authority.
#[derive(Clone, Debug, PartialEq, Eq)]
pub struct MutationIdentity {
    pub repository: RepositoryId,
    pub operation: OperationId,
    pub authority: AuthorityStamp,
}

/// An object whose bytes are stored and which waits for a commit.
#[derive(Clone, Debug, PartialEq, Eq)]
pub struct StagedPut {
    pub key: Vec<u8>,
    pub size: u64,
    pub logical_etag: String,
    pub checksums: Checksums,
    pub attributes: Arc<ObjectAttributes>,
    pub binding: PayloadBinding,
}

/// A change that waits for a commit.
#[derive(Clone, Debug, PartialEq, Eq)]
pub enum StagedMutation {
    Put(StagedPut),
    Delete { key: Vec<u8> },
}

impl StagedMutation {
    /// The key that the change is about.
    pub open spec fn spec_key(&self) -> Seq<u8> {
        match *self {
            StagedMutation::Put(put) => put.key@,
            StagedMutation::Delete { key } => key@,
        }
    }

    /// The key that the change is about.
    pub fn key(&self) -> (r: &Vec<u8>)
        ensures
            r@ == self.spec_key(),
    {
        match self {
            StagedMutation::Put(put) => &put.key,
            StagedMutation::Delete { key } => key,
        }
    }

    /// The deletion of a key.
    pub fn delete(key: Vec<u8>) -> (r: Self)
        ensures
            r == (StagedMutation::Delete { key }),
    {
        StagedMutation::Delete { key }
    }
}

/// What a provider hands out to name one state of a physical object.
#[derive(Clone, Debug, PartialEq, Eq)]
pub struct StorageToken {
    pub etag: String,
    pub version_id: Option<String>,
}

impl StorageToken {
    /// A copy of the token.
    pub fn copied(&self) -> (r: Self)
        ensures
            r == *self,
    {
        StorageToken { etag: self.etag.clone(), version_id: copy_text(&self.version_id) }
    }
}

/// One physical version of an object: by the provider's version, or by the token of the only one.
#[derive(Clone, Debug, PartialEq, Eq)]
pub enum PhysicalVersion {
    Versioned { version_id: String },
    Unversioned { token: StorageToken },
}

impl PhysicalVersion {
    /// A copy of the version.
    pub fn copied(&self) -> (r: Self)
        ensures
            r == *self,
    {
        match self {
            PhysicalVersion::Versioned { version_id } => PhysicalVersion::Versioned {
                version_id: version_id.clone(),
            },
            PhysicalVersion::Unversioned { token } => PhysicalVersion::Unversioned {
                token: token.copied(),
            },
        }
    }
}

/// The physical version that a token names.
pub open spec fn physical_of(token: StorageToken) -> PhysicalVersion {
    match token.version_id {
        Some(version_id) => PhysicalVersion::Versioned { version_id },
        None => PhysicalVersion::Unversioned { token },
    }
}

/// The physical version that a token names.
pub fn physical_version(token: &StorageToken) -> (r: PhysicalVersion)
    ensures
        r == physical_of(*token),
{
    match &token.version_id {
        Some(version_id) => PhysicalVersion::Versioned { version_id: version_id.clone() },
        None => PhysicalVersion::Unversioned { token: token.copied() },
    }
}

/// What a provider says of a stored object.
#[derive(Clone, Debug, PartialEq, Eq)]
pub struct PhysicalMetadata {
    pub len: u64,
    pub sha256: [u8; 32],
    pub token: StorageToken,
}

/// Whether a stored object is the one that a payload is bound to.
pub open spec fn is_bound_object(metadata: PhysicalMetadata, binding: PayloadBinding) -> bool {
    &&& metadata.sha256@ == binding.physical_checksum()
    &&& metadata.token.etag@ == binding.provider_etag@
    &&& text_view(metadata.token.version_id) == text_view(binding.provider_version_id)
}

impl PhysicalMetadata {
    /// Whether the stored object is the one that a payload is bound to.
    pub fn is_bound(&self, binding: &PayloadBinding) -> (r: bool)
        ensures
            r == is_bound_object(*self, *binding),
    {
        bytes_eq(&self.sha256, &binding.physical_checksum_sha256()) && self.token.etag
            == binding.provider_etag && same_text(
            &self.token.version_id,
            &binding.provider_version_id,
        )
    }
}

/// What became of an exact deletion.
#[derive(Clone, Copy, Debug, PartialEq, Eq, Structural)]
pub enum DeleteOutcome {
    Deleted,
    NotFound,
    TokenMismatch,
}

/// How far a commit session has come.
#[derive(Clone, Copy, Debug, PartialEq, Eq, Structural)]
pub enum CommitSessionState {
    Open,
    Aborted,
}

/// The value of a branch reference.
#[derive(Clone, Copy, Debug)]
pub struct RefTarget {
    pub target: CommitId,
    pub generation: RefGeneration,
}

/// A stored object is the one that a version is bound to exactly where it has the digest of the bytes that were
/// stored (those of the pack, if the version lies in one), the tag that the provider gave, and the version that
/// the provider named, or none where it named none.
pub proof fn law_bound_object_has_the_bound_identity(metadata: PhysicalMetadata, binding: PayloadBinding)
    ensures
        is_bound_object(metadata, binding) <==> {
            &&& binding.pack_checksum_sha256 is Some ==> metadata.sha256@
                == binding.pack_checksum_sha256->0@
            &&& binding.pack_checksum_sha256 is None ==> metadata.sha256@ == binding.checksum_sha256@
            &&& metadata.token.etag@ == binding.provider_etag@
            &&& metadata.token.version_id is Some <==> binding.provider_version_id is Some
            &&& metadata.token.version_id is Some ==> metadata.token.version_id->0@
                == binding.provider_version_id->0@
        },
        binding.packed() <==> binding.pack_range is Some,
        binding.pack_checksum_sha256 is Some ==> binding.physical_checksum()
            == binding.pack_checksum_sha256->0@,
        binding.pack_checksum_sha256 is None ==> binding.physical_checksum() == binding.checksum_sha256@,
{
}

/// A token with a version names that version, and one without names itself, so that two tokens of which neither
/// has a version are told apart by their tags.
pub proof fn law_token_names_its_version(token: StorageToken)
    ensures
        token.version_id is Some ==> physical_of(token) == (PhysicalVersion::Versioned {
            version_id: token.version_id->0,
        }),
        token.version_id is None ==> physical_of(token) == (PhysicalVersion::Unversioned { token }),
{
}

/// The key of a staged change is the one it was staged for.
pub proof fn law_staged_change_keeps_its_key(put: StagedPut, key: Vec<u8>)
    ensures
        StagedMutation::Put(put).spec_key() == put.key@,
        (StagedMutation::Delete { key }).spec_key() == key@,
{
}

/// What two records are compared by leaves nothing out: attributes that are the same have the same headers, user
/// metadata, tags and further checksums; versions that are the same are both deletions, or have the same size, tag,
/// digests and attributes; stamps that are the same have the same scope, writer and epoch.
pub proof fn law_same_records_agree_in_everything(
    a: ObjectAttributes,
    b: ObjectAttributes,
    x: LogicalObjectVersionKind,
    y: LogicalObjectVersionKind,
    s: AuthorityStamp,
    t: AuthorityStamp,
)
    ensures
        a@ == b@ <==> a.headers.fields@ == b.headers.fields@ && a.user_metadata@ == b.user_metadata@
            && a.tags@ == b.tags@ && a.algorithm_values@ == b.algorithm_values@,
        x is Live && y is Live ==> (x@ == y@ <==> x->size == y->size && x->logical_etag@
            == y->logical_etag@ && x->checksums == y->checksums && x->attributes@ == y->attributes@),
        x is DeleteMarker && y is DeleteMarker ==> x@ == y@,
        x is Live && y is DeleteMarker ==> x@ != y@ && y@ != x@,
        s@ == t@ <==> s.scope@ == t.scope@ && s.writer_id@ == t.writer_id@ && s.epoch == t.epoch,
        s.scope is Branch && t.scope is Branch ==> (s.scope@ == t.scope@ <==> s.scope->name@
            == t.scope->name@),
        s.scope is System && t.scope is System ==> (s.scope@ == t.scope@ <==> s.scope->namespace@
            == t.scope->namespace@),
        s.scope is Branch && t.scope is System ==> s.scope@ != t.scope@,
{
}

/// A transition says the key, the version before, the version after and whether it is a deletion; and a commit changed
/// as many keys as it lists, or as it counts where the list is elsewhere.
pub proof fn law_transition_says_all_it_holds(transition: ObjectTransition, delta: BucketDelta)
    ensures
        transition@.key == transition.key@,
        transition@.previous == transition.previous,
        transition@.next == transition.next,
        transition@.delete_marker == transition.delete_marker,
        delta.changes_root is Some ==> delta.logical_changes() == delta.change_count,
        delta.changes_root is None ==> delta.logical_changes() == delta.changes@.len(),
{
}

} // verus!
