//! The second protocol: its options and format, putting one object, and bringing the nodes at the end of a
//! branch's journal within reach.
use crate::authority::AuthorityPermit;
use crate::bytes::{bytes_eq, starts_with, to_vec};
use crate::error::{fault, outcome, Error, ErrorCode, Fault};
use crate::ids::{
    CommitGeneration, CommitId, ObjectVersionId, OperationId, RefGeneration, RepositoryId,
    TreeFormatDigest,
};
use crate::model::{
    AuthorityStamp, BucketState, CanonicalLimits, Checksums, LogicalObjectVersionBody,
    LogicalObjectVersionKind, MetadataEntry, NodePackRef, ObjectTransition, ObjectVersion,
    PayloadBinding, RootManifest, TransitionView,
};
use crate::outside::{is_utf8, md5, md5_of, sha256, sha256_of};
use crate::publish::{version_edit, ReceiptView, VersionDraft};
use crate::repository::valid_key;
use crate::setup::Creation;
use crate::session::{entity_tag, quoted_hex};
use crate::staging::{attached, put_attributes, CommitSessionPutInput};
use crate::text::{blank, is_blank, valid_branch, validate_branch};
use crate::tree::{edits, Edit, Mutation};
use crate::version_key::{version_tree_key, ObjectVersionOrder};
use std::sync::Arc;
use vstd::prelude::*;
use vstd::string::*;

verus! {

/// What a repository of the second protocol is opened with.
#[derive(Clone, Debug)]
pub struct RepositoryV2Options {
    pub repository_prefix: String,
    pub default_branch: String,
    pub writer: String,
    pub limits: CanonicalLimits,
    pub state_tree_format: Vec<u8>,
    pub authority_lease_millis: u64,
    pub read_only: bool,
    pub max_cached_node_pack_bytes: usize,
    pub max_cached_node_locations: usize,
    pub max_cached_node_bytes: usize,
    pub mutable_control_versions_to_retain: usize,
    pub idempotency_retention: Vec<u8>,
}

/// What a repository of the second protocol was written with.
#[derive(Clone, Debug)]
pub struct RepositoryFormatV2 {
    pub repository_id: RepositoryId,
    pub format_version: u32,
    pub state_tree_format: Vec<u8>,
    pub state_tree_digest: TreeFormatDigest,
    pub canonical_limits: CanonicalLimits,
    pub idempotency_retention: Vec<u8>,
    pub min_reader_version: u32,
    pub min_writer_version: u32,
    pub created_at_millis: u64,
    pub required_capability_profile: u32,
}

/// What this build knows of the second protocol.
#[derive(Clone, Copy, Debug, PartialEq, Eq, Structural)]
pub struct ProtocolV2 {
    pub format_version: u32,
    pub protocol_version: u32,
    pub capability_profile: u32,
    pub reader_version: u32,
    pub writer_version: u32,
}

/// What was published: the answer to an operation.
#[derive(Clone, Debug, PartialEq, Eq)]
pub struct CommitReceiptV2 {
    pub id: CommitId,
    pub operation: OperationId,
    pub branch: String,
    pub parents: Vec<CommitId>,
    pub changed_keys: u64,
    pub object_versions: Vec<ObjectVersionId>,
    pub idempotent_replay: bool,
}

/// An object with its bytes.
#[derive(Clone, Debug, PartialEq, Eq)]
pub struct ObjectDataV2 {
    pub key: Vec<u8>,
    pub version: ObjectVersion,
    pub bytes: Vec<u8>,
    pub snapshot: CommitId,
}

/// What bringing both indexes of a branch up to date did.
#[derive(Clone, Debug, PartialEq, Eq)]
pub struct BranchIndexAdvanceReportV2<O, J> {
    pub operations: O,
    pub journal: J,
}

/// What a commit of the second protocol changed.
#[derive(Clone, Debug, PartialEq, Eq)]
pub struct BucketDeltaV2 {
    pub input_digest: [u8; 32],
    pub changes: Vec<ObjectTransition>,
}

/// A commit of the second protocol.
#[derive(Clone, Debug, PartialEq, Eq)]
pub struct BucketCommitV2 {
    pub state: BucketState,
    pub parents: Vec<CommitId>,
    pub generation: CommitGeneration,
    pub delta: BucketDeltaV2,
    pub node_pack: Option<NodePackRef>,
    pub authority: AuthorityStamp,
    pub author: String,
    pub message: Option<String>,
    pub created_at_millis: u64,
    pub metadata: Vec<MetadataEntry>,
}

/// A branch that this process holds.
#[derive(Debug)]
pub struct BranchPermit {
    pub branch: String,
    pub permit: AuthorityPermit,
}

/// A repository of the second protocol as far as it is plain state.
#[derive(Debug)]
pub struct RepositoryV2 {
    pub options: RepositoryV2Options,
    pub format: RepositoryFormatV2,
    pub permits: Vec<BranchPermit>,
}

/// Where the format of a repository lies.
pub fn format_path(prefix: &str) -> (r: String)
    ensures
        r@ == prefix@ + "/format/v2.cbor"@,
{
    prefix.to_owned().concat("/format/v2.cbor")
}

/// Where the intent to set a repository up lies.
pub fn intent_path(prefix: &str) -> (r: String)
    ensures
        r@ == prefix@ + "/format/initialization-v2.cbor"@,
{
    prefix.to_owned().concat("/format/initialization-v2.cbor")
}

/// Whether the numbers and names of the options are within their bounds.
pub open spec fn options_in_bounds(o: RepositoryV2Options) -> bool {
    &&& o.repository_prefix@.len() > 0
    &&& o.repository_prefix@.last() != '/'
    &&& !blank(o.writer@)
    &&& 10_000 <= o.authority_lease_millis <= 86_400_000
    &&& o.max_cached_node_pack_bytes != 0
    &&& o.max_cached_node_locations != 0
    &&& o.max_cached_node_bytes != 0
    &&& o.mutable_control_versions_to_retain >= 2
}

/// What checking the options says, given what checking the retention policy said.
pub open spec fn options_outcome(o: RepositoryV2Options, retention: Result<(), Fault>) -> Result<
    (),
    Fault,
> {
    if !valid_branch(o.default_branch@) {
        Err(fault(ErrorCode::InvalidBranch, "branch name violates the canonical ref contract"))
    } else if retention is Err {
        retention
    } else if !options_in_bounds(o) {
        Err(fault(ErrorCode::InvalidRequest, "protocol-v2 repository options are invalid"))
    } else {
        Ok(())
    }
}

/// Checks the options. `retention` is what checking the retention policy said.
pub fn validate_options(options: &RepositoryV2Options, retention: Result<(), Error>) -> (r: Result<
    (),
    Error,
>)
    ensures
        outcome(r) == options_outcome(*options, outcome(retention)),
{
    if let Err(error) = validate_branch(&options.default_branch) {
        return Err(error);
    }
    if let Err(error) = retention {
        return Err(error);
    }
    if crate::repository::empty_or_ends_with_slash(&options.repository_prefix) || is_blank(
        &options.writer,
    ) || options.authority_lease_millis < 10_000 || options.authority_lease_millis > 86_400_000
        || options.max_cached_node_pack_bytes == 0 || options.max_cached_node_locations == 0
        || options.max_cached_node_bytes == 0 || options.mutable_control_versions_to_retain < 2 {
        return Err(
            Error::new(ErrorCode::InvalidRequest, "protocol-v2 repository options are invalid"),
        );
    }
    Ok(())
}

/// Whether this build can read and write a repository of this format.
pub open spec fn supported(format: RepositoryFormatV2, protocol: ProtocolV2) -> bool {
    &&& format.format_version == protocol.format_version
    &&& format.required_capability_profile == protocol.capability_profile
    &&& 1 <= format.min_reader_version <= protocol.reader_version
    &&& 1 <= format.min_writer_version <= protocol.writer_version
}

/// Whether a repository of this format may be opened with these options.
pub open spec fn compatible(format: RepositoryFormatV2, options: RepositoryV2Options) -> bool {
    &&& format.state_tree_format@ == options.state_tree_format@
    &&& format.canonical_limits == options.limits
    &&& format.idempotency_retention@ == options.idempotency_retention@
}

/// Refuses a format that this build does not support, or that is not the one that the options ask for.
/// `retention` is what checking the format's retention policy said.
pub fn validate_format_compatibility(
    format: &RepositoryFormatV2,
    options: &RepositoryV2Options,
    protocol: &ProtocolV2,
    retention: Result<(), Error>,
) -> (r: Result<(), Error>)
    ensures
        outcome(r) == if !supported(*format, *protocol) {
            Err(
                fault(
                    ErrorCode::UnsupportedRepositoryFormat,
                    "repository is not a supported native protocol-v2 repository",
                ),
            )
        } else if retention is Err {
            outcome(retention)
        } else if !compatible(*format, *options) {
            Err(
                fault(
                    ErrorCode::RepositoryFormatConflict,
                    "protocol-v2 format does not match the requested canonical settings",
                ),
            )
        } else {
            Ok(())
        },
{
    if format.format_version != protocol.format_version || format.required_capability_profile
        != protocol.capability_profile || format.min_reader_version == 0
        || format.min_writer_version == 0 || format.min_reader_version > protocol.reader_version
        || format.min_writer_version > protocol.writer_version {
        return Err(
            Error::new(
                ErrorCode::UnsupportedRepositoryFormat,
                "repository is not a supported native protocol-v2 repository",
            ),
        );
    }
    if let Err(error) = retention {
        return Err(error);
    }
    if !bytes_eq(&format.state_tree_format, &options.state_tree_format)
        || format.canonical_limits != options.limits || !bytes_eq(
        &format.idempotency_retention,
        &options.idempotency_retention,
    ) {
        return Err(
            Error::new(
                ErrorCode::RepositoryFormatConflict,
                "protocol-v2 format does not match the requested canonical settings",
            ),
        );
    }
    Ok(())
}

/// Refuses to set a repository up with options that are out of bounds, or where nothing may be written.
pub fn initialize(options: &RepositoryV2Options, retention: Result<(), Error>) -> (r: Result<(), Error>)
    ensures
        outcome(r) == match options_outcome(*options, outcome(retention)) {
            Err(error) => Err(error),
            Ok(_) => if options.read_only {
                Err(
                    fault(
                        ErrorCode::InvalidRequest,
                        "cannot initialize a protocol-v2 repository read-only",
                    ),
                )
            } else {
                Ok::<(), Fault>(())
            },
        },
{
    if let Err(error) = validate_options(options, retention) {
        return Err(error);
    }
    if options.read_only {
        return Err(
            Error::new(
                ErrorCode::InvalidRequest,
                "cannot initialize a protocol-v2 repository read-only",
            ),
        );
    }
    Ok(())
}

/// What a repository with these options would be written with.
pub fn proposed_format(
    options: &RepositoryV2Options,
    protocol: &ProtocolV2,
    repository_id: RepositoryId,
    state_tree_digest: TreeFormatDigest,
    created_at_millis: u64,
) -> (r: RepositoryFormatV2)
    ensures
        r.repository_id == repository_id,
        r.state_tree_digest == state_tree_digest,
        r.created_at_millis == created_at_millis,
        r.format_version == protocol.format_version,
        r.required_capability_profile == protocol.capability_profile,
        r.min_reader_version == protocol.protocol_version,
        r.min_writer_version == protocol.protocol_version,
        compatible(r, *options),
{
    RepositoryFormatV2 {
        repository_id,
        format_version: protocol.format_version,
        state_tree_format: to_vec(&options.state_tree_format),
        state_tree_digest,
        canonical_limits: options.limits,
        idempotency_retention: to_vec(&options.idempotency_retention),
        min_reader_version: protocol.protocol_version,
        min_writer_version: protocol.protocol_version,
        created_at_millis,
        required_capability_profile: protocol.capability_profile,
    }
}

/// The intent that counts: the first one that was written, whoever wrote it.
pub fn settled_intent<I>(proposed: I, wrote: Creation<I>) -> (r: Result<I, Error>)
    ensures
        outcome(r) == match wrote {
            Creation::Applied => Ok(proposed),
            Creation::Conflict(Some(existing)) => Ok(existing),
            Creation::Conflict(None) => Err(
                fault(
                    ErrorCode::RefConflict,
                    "v2 initialization intent create returned an empty conflict",
                ),
            ),
        },
{
    match wrote {
        Creation::Applied => Ok(proposed),
        Creation::Conflict(Some(existing)) => Ok(existing),
        Creation::Conflict(None) => Err(
            Error::new(
                ErrorCode::RefConflict,
                "v2 initialization intent create returned an empty conflict",
            ),
        ),
    }
}

/// Refuses to go on where the format that is written is not the one that was to be written.
pub fn advertised_format(bytes: &Vec<u8>, wrote: Creation<Vec<u8>>) -> (r: Result<(), Error>)
    ensures
        outcome(r) == match wrote {
            Creation::Applied => Ok::<(), Fault>(()),
            Creation::Conflict(Some(existing)) if existing@ == bytes@ => Ok(()),
            Creation::Conflict(_) => Err(
                fault(
                    ErrorCode::RepositoryFormatConflict,
                    "a different protocol-v2 repository format already exists",
                ),
            ),
        },
{
    match wrote {
        Creation::Applied => Ok(()),
        Creation::Conflict(found) => {
            if let Some(existing) = found {
                if bytes_eq(&existing, bytes) {
                    return Ok(());
                }
            }
            Err(
                Error::new(
                    ErrorCode::RepositoryFormatConflict,
                    "a different protocol-v2 repository format already exists",
                ),
            )
        },
    }
}

/// The format of a repository that is opened.
pub fn opened_format(found: Option<RepositoryFormatV2>) -> (r: Result<RepositoryFormatV2, Error>)
    ensures
        outcome(r) == match found {
            Some(format) => Ok(format),
            None => Err(
                fault(
                    ErrorCode::RepositoryNotInitialized,
                    "protocol-v2 repository format marker does not exist",
                ),
            ),
        },
{
    match found {
        Some(format) => Ok(format),
        None => Err(
            Error::new(
                ErrorCode::RepositoryNotInitialized,
                "protocol-v2 repository format marker does not exist",
            ),
        ),
    }
}

/// The place of a branch's permit.
pub open spec fn permit_at(permits: Seq<BranchPermit>, branch: Seq<char>, i: int) -> bool {
    0 <= i < permits.len() && permits[i].branch@ == branch
}

/// Whether a branch is held.
pub open spec fn holds_branch(permits: Seq<BranchPermit>, branch: Seq<char>) -> bool {
    exists|i: int| #[trigger] permit_at(permits, branch, i)
}

/// Whether no branch is listed twice.
pub open spec fn distinct_branches(permits: Seq<BranchPermit>) -> bool {
    forall|i: int, j: int|
        0 <= i < j < permits.len() ==> (#[trigger] permits[i]).branch@ != (
        #[trigger] permits[j]).branch@
}

/// Whether a version says what an object is: its size, its digests, and what is attached to it.
pub open spec fn puts_object(object: CommitSessionPutInput, kind: LogicalObjectVersionKind) -> bool {
    kind matches LogicalObjectVersionKind::Live { size, logical_etag, checksums, attributes } && {
        &&& size == object.bytes@.len()
        &&& logical_etag@ == quoted_hex(md5_of(object.bytes@))
        &&& checksums.md5 matches Some(digest) && digest@ == md5_of(object.bytes@)
        &&& checksums.sha256 matches Some(digest) && digest@ == sha256_of(object.bytes@)
        &&& attached(object.headers, object.user_metadata, *attributes)
    }
}

/// The error of a key that may not name an object.
pub open spec fn invalid_key_v2() -> Fault {
    fault(ErrorCode::InvalidKey, "logical key violates the protocol-v2 key contract")
}

impl RepositoryV2 {
    /// Whether no branch is listed twice.
    pub open spec fn wf(&self) -> bool {
        distinct_branches(self.permits@)
    }

    /// A repository that holds no branch.
    pub fn from_format(options: RepositoryV2Options, format: RepositoryFormatV2) -> (r: Self)
        ensures
            r.wf(),
            r.options == options,
            r.format == format,
            r.permits@.len() == 0,
    {
        RepositoryV2 { options, format, permits: Vec::new() }
    }

    fn find_permit(&self, branch: &str) -> (r: Option<usize>)
        ensures
            match r {
                Some(i) => permit_at(self.permits@, branch@, i as int),
                None => !holds_branch(self.permits@, branch@),
            },
    {
        let name = branch.to_owned();
        let mut i: usize = 0;
        while i < self.permits.len()
            invariant
                i <= self.permits@.len(),
                name@ == branch@,
                forall|j: int| 0 <= j < i ==> !(#[trigger] permit_at(self.permits@, branch@, j)),
            decreases self.permits.len() - i,
        {
            if self.permits[i].branch == name {
                return Some(i);
            }
            i += 1;
        }
        None
    }

    /// The repository's format.
    pub fn format(&self) -> (r: &RepositoryFormatV2)
        ensures
            *r == self.format,
    {
        &self.format
    }

    /// The permit that holds a branch. None is acquired on the way: a branch is taken over explicitly.
    pub fn active_permit(&self, branch: &str) -> (r: Result<AuthorityPermit, Error>)
        ensures
            match r {
                Ok(permit) => exists|i: int| #[trigger]
                    permit_at(self.permits@, branch@, i) && permit == self.permits@[i].permit,
                Err(error) => !holds_branch(self.permits@, branch@) && error@ == fault(
                    ErrorCode::PreconditionFailed,
                    "no active local authority permit for this v2 branch; explicitly take over or create the branch",
                ),
            },
    {
        match self.find_permit(branch) {
            Some(i) => Ok(self.permits[i].permit.copied()),
            None => Err(
                Error::new(
                    ErrorCode::PreconditionFailed,
                    "no active local authority permit for this v2 branch; explicitly take over or create the branch",
                ),
            ),
        }
    }

    /// Holds a branch by a permit; an older permit of the branch makes way.
    pub fn install_permit(&mut self, branch: &str, permit: AuthorityPermit)
        requires
            old(self).wf(),
        ensures
            final(self).wf(),
            final(self).options == old(self).options,
            final(self).format == old(self).format,
            exists|i: int| #[trigger]
                permit_at(final(self).permits@, branch@, i) && final(self).permits@[i].permit
                    == permit,
            forall|other: Seq<char>| #![trigger holds_branch(final(self).permits@, other)]
                other != branch@ ==> holds_branch(final(self).permits@, other) == holds_branch(
                    old(self).permits@,
                    other,
                ),
            forall|i: int|
                0 <= i < old(self).permits@.len() && (#[trigger] old(self).permits@[i]).branch@
                    != branch@ ==> final(self).permits@[i] == old(self).permits@[i],
    {
        let ghost before = self.permits@;
        match self.find_permit(branch) {
            Some(i) => {
                let entry = BranchPermit { branch: branch.to_owned(), permit };
                self.permits.set(i, entry);
                proof {
                    let now = self.permits@;
                    assert forall|a: int, b: int| 0 <= a < b < now.len() implies (
                    #[trigger] now[a]).branch@ != (#[trigger] now[b]).branch@ by {
                        assert(before[a].branch@ != before[b].branch@);
                    }
                    assert(permit_at(now, branch@, i as int));
                    assert forall|other: Seq<char>| other != branch@ implies #[trigger] holds_branch(
                        now,
                        other,
                    ) == holds_branch(before, other) by {
                        lemma_same_branches(before, now, other);
                    }
                }
            },
            None => {
                self.permits.push(BranchPermit { branch: branch.to_owned(), permit });
                proof {
                    let now = self.permits@;
                    let n = before.len() as int;
                    assert forall|a: int, b: int| 0 <= a < b < now.len() implies (
                    #[trigger] now[a]).branch@ != (#[trigger] now[b]).branch@ by {
                        if b == n {
                            assert(!permit_at(before, branch@, a));
                        }
                    }
                    assert(permit_at(now, branch@, n));
                    assert forall|other: Seq<char>| other != branch@ implies #[trigger] holds_branch(
                        now,
                        other,
                    ) == holds_branch(before, other) by {
                        lemma_same_branches(before, now, other);
                    }
                }
            },
        }
    }

    /// Refuses to take a branch over in a process that may write already.
    pub fn takeover_branch_writer(&self) -> (r: Result<(), Error>)
        ensures
            outcome(r) == if self.options.read_only {
                Ok::<(), Fault>(())
            } else {
                Err(
                    fault(
                        ErrorCode::PreconditionFailed,
                        "protocol-v2 takeover requires a read-only repository handle",
                    ),
                )
            },
    {
        if !self.options.read_only {
            return Err(
                Error::new(
                    ErrorCode::PreconditionFailed,
                    "protocol-v2 takeover requires a read-only repository handle",
                ),
            );
        }
        Ok(())
    }

    /// Ends a takeover: the branch is held by the permit, and the handle may write.
    pub fn finish_takeover(&mut self, branch: &str, permit: AuthorityPermit)
        requires
            old(self).wf(),
        ensures
            final(self).wf(),
            final(self).options == (RepositoryV2Options { read_only: false, ..old(self).options }),
            final(self).format == old(self).format,
            exists|i: int| #[trigger]
                permit_at(final(self).permits@, branch@, i) && final(self).permits@[i].permit
                    == permit,
            forall|other: Seq<char>| #![trigger holds_branch(final(self).permits@, other)]
                other != branch@ ==> holds_branch(final(self).permits@, other) == holds_branch(
                    old(self).permits@,
                    other,
                ),
            forall|i: int|
                0 <= i < old(self).permits@.len() && (#[trigger] old(self).permits@[i]).branch@
                    != branch@ ==> final(self).permits@[i] == old(self).permits@[i],
    {
        self.install_permit(branch, permit);
        self.options.read_only = false;
    }

    /// The commit that a repository begins with: no objects, no parents, no changes.
    pub fn first_commit(
        &self,
        empty_tree: RootManifest,
        input_digest: [u8; 32],
        authority: AuthorityStamp,
    ) -> (r: BucketCommitV2)
        ensures
            r.state == (BucketState { objects: empty_tree, versions: empty_tree }),
            r.parents@.len() == 0,
            r.generation == CommitGeneration(0),
            r.delta.input_digest == input_digest,
            r.delta.changes@.len() == 0,
            r.node_pack is None,
            r.authority == authority,
            r.author@ == self.options.writer@,
            r.message matches Some(message) && message@
                == "initialize native protocol-v2 repository"@,
            r.created_at_millis == self.format.created_at_millis,
            r.metadata@.len() == 0,
    {
        BucketCommitV2 {
            state: BucketState { objects: empty_tree, versions: empty_tree },
            parents: Vec::new(),
            generation: CommitGeneration(0),
            delta: BucketDeltaV2 { input_digest, changes: Vec::new() },
            node_pack: None,
            authority,
            author: self.options.writer.clone(),
            message: Some("initialize native protocol-v2 repository".to_owned()),
            created_at_millis: self.format.created_at_millis,
            metadata: Vec::new(),
        }
    }

    /// Refuses the root of a tree that was written with another format.
    pub fn tree_from_root(&self, root: &RootManifest) -> (r: Result<(), Error>)
        ensures
            outcome(r) == if root.format_digest == self.format.state_tree_digest {
                Ok::<(), Fault>(())
            } else {
                Err(
                    fault(
                        ErrorCode::CorruptNode,
                        "protocol-v2 state root uses another tree format",
                    ),
                )
            },
    {
        if root.format_digest != self.format.state_tree_digest {
            return Err(
                Error::new(
                    ErrorCode::CorruptNode,
                    "protocol-v2 state root uses another tree format",
                ),
            );
        }
        Ok(())
    }

    /// Accepts the keys that may name objects.
    pub fn validate_key(&self, key: &[u8]) -> (r: Result<(), Error>)
        ensures
            outcome(r) == if valid_key(
                key@,
                self.options.repository_prefix@,
                self.format.canonical_limits,
            ) {
                Ok::<(), Fault>(())
            } else {
                Err(invalid_key_v2())
            },
    {
        if key.len() == 0 || key.len() > self.format.canonical_limits.max_key_bytes as usize
            || !is_utf8(key) || starts_with(
            key,
            self.options.repository_prefix.as_str().as_bytes(),
        ) {
            return Err(
                Error::new(
                    ErrorCode::InvalidKey,
                    "logical key violates the protocol-v2 key contract",
                ),
            );
        }
        Ok(())
    }

    /// Refuses to put an object where this process may not write, under a key that may not be used, or of
    /// a size that is not allowed.
    pub fn put_object_with_operation(&self, key: &[u8], size: u64) -> (r: Result<(), Error>)
        ensures
            outcome(r) == if self.options.read_only {
                Err(fault(ErrorCode::PreconditionFailed, "protocol-v2 repository is read-only"))
            } else if !valid_key(
                key@,
                self.options.repository_prefix@,
                self.format.canonical_limits,
            ) {
                Err(invalid_key_v2())
            } else if size > self.format.canonical_limits.max_object_bytes {
                Err(
                    fault(
                        ErrorCode::EntityTooLarge,
                        "v2 object exceeds the repository object-size limit",
                    ),
                )
            } else {
                Ok::<(), Fault>(())
            },
    {
        if self.options.read_only {
            return Err(
                Error::new(ErrorCode::PreconditionFailed, "protocol-v2 repository is read-only"),
            );
        }
        if let Err(error) = self.validate_key(key) {
            return Err(error);
        }
        if size > self.format.canonical_limits.max_object_bytes {
            return Err(
                Error::new(
                    ErrorCode::EntityTooLarge,
                    "v2 object exceeds the repository object-size limit",
                ),
            );
        }
        Ok(())
    }

    /// The version that putting an object writes, before it has a name.
    pub fn put_draft(
        &self,
        base: &BucketCommitV2,
        object: CommitSessionPutInput,
        binding: PayloadBinding,
        now: u64,
    ) -> (r: Result<(CommitGeneration, VersionDraft), Error>)
        ensures
            match r {
                Err(error) => if base.state.objects.format_digest
                    != self.format.state_tree_digest || base.state.versions.format_digest
                    != self.format.state_tree_digest {
                    error@ == fault(
                        ErrorCode::CorruptNode,
                        "protocol-v2 state root uses another tree format",
                    )
                } else {
                    base.generation.0 == u64::MAX && error@ == fault(
                        ErrorCode::InternalInvariant,
                        "v2 commit generation overflow",
                    )
                },
                Ok((generation, draft)) => {
                    &&& base.state.objects.format_digest == self.format.state_tree_digest
                    &&& base.state.versions.format_digest == self.format.state_tree_digest
                    &&& base.generation.0 < u64::MAX
                    &&& generation == CommitGeneration((base.generation.0 + 1) as u64)
                    &&& draft.body.order == (ObjectVersionOrder {
                        commit_generation: generation,
                        mutation_ordinal: 0,
                    })
                    &&& draft.body.created_at_millis == now
                    &&& draft.binding == Some(binding)
                    &&& puts_object(object, draft.body.kind)
                    &&& draft.body.kind matches LogicalObjectVersionKind::Live {
                        size,
                        attributes,
                        ..
                    } && size == object.bytes@.len() && attributes@.headers == object.headers.fields@
                        && attributes@.user_metadata == object.user_metadata@ && attributes@.tags
                        == Map::<Seq<char>, Seq<char>>::empty() && attributes@.algorithm_values
                        == Map::<Seq<char>, Seq<char>>::empty()
                },
            },
    {
        if let Err(error) = self.tree_from_root(&base.state.objects) {
            return Err(error);
        }
        if let Err(error) = self.tree_from_root(&base.state.versions) {
            return Err(error);
        }
        let generation = match base.generation.0.checked_add(1) {
            None => {
                return Err(
                    Error::new(ErrorCode::InternalInvariant, "v2 commit generation overflow"),
                );
            },
            Some(next) => CommitGeneration(next),
        };
        let order = ObjectVersionOrder { commit_generation: generation, mutation_ordinal: 0 };
        let size: u64 = object.bytes.len() as u64;
        let checksum_md5 = md5(&object.bytes);
        let checksum_sha256 = sha256(&object.bytes);
        let kind = LogicalObjectVersionKind::Live {
            size,
            logical_etag: entity_tag(&checksum_md5),
            checksums: Checksums { md5: Some(checksum_md5), sha256: Some(checksum_sha256) },
            attributes: Arc::new(put_attributes(object.headers, object.user_metadata)),
        };
        let draft = VersionDraft {
            body: LogicalObjectVersionBody { order, created_at_millis: now, kind },
            binding: Some(binding),
        };
        Ok((generation, draft))
    }

    /// The commit that puts one object, once its version has a name and its trees are written.
    pub fn put_commit(
        &self,
        parent: CommitId,
        generation: CommitGeneration,
        state: BucketState,
        input_digest: [u8; 32],
        transition: ObjectTransition,
        node_pack: Option<NodePackRef>,
        authority: AuthorityStamp,
        now: u64,
    ) -> (r: BucketCommitV2)
        ensures
            r.state == state,
            r.parents@ == seq![parent],
            r.generation == generation,
            r.delta.input_digest == input_digest,
            r.delta.changes@ == seq![transition],
            r.node_pack == node_pack,
            r.authority == authority,
            r.author@ == self.options.writer@,
            r.message matches Some(message) && message@ == "PutObject"@,
            r.created_at_millis == now,
            r.metadata@.len() == 0,
    {
        let mut parents: Vec<CommitId> = Vec::new();
        parents.push(parent);
        assert(parents@ =~= seq![parent]);
        let mut changes: Vec<ObjectTransition> = Vec::new();
        changes.push(transition);
        assert(changes@ =~= seq![transition]);
        BucketCommitV2 {
            state,
            parents,
            generation,
            delta: BucketDeltaV2 { input_digest, changes },
            node_pack,
            authority,
            author: self.options.writer.clone(),
            message: Some("PutObject".to_owned()),
            created_at_millis: now,
            metadata: Vec::new(),
        }
    }
}

proof fn lemma_same_branches(a: Seq<BranchPermit>, b: Seq<BranchPermit>, branch: Seq<char>)
    requires
        forall|i: int| #[trigger] permit_at(a, branch, i) ==> permit_at(b, branch, i),
        forall|i: int| #[trigger] permit_at(b, branch, i) ==> permit_at(a, branch, i),
    ensures
        holds_branch(a, branch) == holds_branch(b, branch),
{
    if holds_branch(a, branch) {
        let i = choose|i: int| #[trigger] permit_at(a, branch, i);
        assert(permit_at(b, branch, i));
    }
    if holds_branch(b, branch) {
        let i = choose|i: int| #[trigger] permit_at(b, branch, i);
        assert(permit_at(a, branch, i));
    }
}

/// What putting one object changes in the two trees of a snapshot, and how the commit says so.
#[derive(Debug)]
pub struct PutPlanV2 {
    pub object: Mutation<ObjectVersion>,
    pub version: Mutation<ObjectVersion>,
    pub transition: ObjectTransition,
}

/// What putting one object changes.
pub fn put_plan(key: &[u8], version: &ObjectVersion, previous: Option<ObjectVersionId>) -> (r: PutPlanV2)
    ensures
        edits(seq![r.object]) == seq![Edit::Upsert { key: key@, val: *version }],
        edits(seq![r.version]) == seq![version_edit(key@, *version)],
        r.transition@ == (TransitionView {
            key: key@,
            previous,
            next: version.id,
            delete_marker: false,
        }),
{
    let object = Mutation::Upsert { key: to_vec(key), val: version.copied() };
    let in_versions = Mutation::Upsert {
        key: version_tree_key(key, version.body.order, version.id),
        val: version.copied(),
    };
    let transition = ObjectTransition {
        key: to_vec(key),
        previous,
        next: version.id,
        delete_marker: false,
    };
    assert(edits(seq![object]) =~= seq![Edit::Upsert { key: key@, val: *version }]);
    assert(edits(seq![in_versions]) =~= seq![version_edit(key@, *version)]);
    PutPlanV2 { object, version: in_versions, transition }
}

/// The receipt of an object that was just put.
pub fn put_receipt(
    id: CommitId,
    operation: OperationId,
    branch: &str,
    parents: Vec<CommitId>,
    version: ObjectVersionId,
) -> (r: CommitReceiptV2)
    ensures
        r.id == id,
        r.operation == operation,
        r.branch@ == branch@,
        r.parents == parents,
        r.changed_keys == 1,
        r.object_versions@ == seq![version],
        !r.idempotent_replay,
{
    let mut object_versions: Vec<ObjectVersionId> = Vec::new();
    object_versions.push(version);
    assert(object_versions@ =~= seq![version]);
    CommitReceiptV2 {
        id,
        operation,
        branch: branch.to_owned(),
        parents,
        changed_keys: 1,
        object_versions,
        idempotent_replay: false,
    }
}

/// The contents of a receipt.
pub open spec fn receipt_view_v2(receipt: CommitReceiptV2) -> ReceiptView {
    ReceiptView {
        id: receipt.id,
        operation: receipt.operation,
        branch: receipt.branch@,
        parents: receipt.parents@,
        changed_keys: receipt.changed_keys as int,
        object_versions: receipt.object_versions@,
        idempotent_replay: receipt.idempotent_replay,
    }
}

/// The error of an operation whose name was used for another request.
pub open spec fn reused_operation_v2(operation: OperationId) -> Fault {
    fault(
        ErrorCode::IdempotencyConflict,
        "protocol-v2 operation ID was reused with different input",
    ).of_operation(operation)
}

/// The answer to an operation that was published before as `commit`, under the name `target`.
pub open spec fn replay_answer_v2(
    branch: Seq<char>,
    operation: OperationId,
    input_digest: Seq<u8>,
    target: CommitId,
    commit: BucketCommitV2,
) -> Result<ReceiptView, Fault> {
    if commit.delta.input_digest@ != input_digest {
        Err(reused_operation_v2(operation))
    } else {
        Ok(
            ReceiptView {
                id: target,
                operation,
                branch,
                parents: commit.parents@,
                changed_keys: commit.delta.changes@.len() as int,
                object_versions: Seq::new(
                    commit.delta.changes@.len(),
                    |i: int| commit.delta.changes@[i].next,
                ),
                idempotent_replay: true,
            },
        )
    }
}

/// A put that comes again under its operation is answered as it was the first time, with the same commit, the
/// same parents and the same version; and another request under the operation is refused.
pub proof fn law_put_that_comes_again_is_answered_as_before(
    commit: BucketCommitV2,
    id: CommitId,
    branch: Seq<char>,
    operation: OperationId,
    transition: ObjectTransition,
    other_digest: Seq<u8>,
)
    requires
        commit.delta.changes@ == seq![transition],
    ensures
        replay_answer_v2(branch, operation, commit.delta.input_digest@, id, commit) == Ok::<
            ReceiptView,
            Fault,
        >(
            ReceiptView {
                id,
                operation,
                branch,
                parents: commit.parents@,
                changed_keys: 1,
                object_versions: seq![transition.next],
                idempotent_replay: true,
            },
        ),
        other_digest != commit.delta.input_digest@ ==> replay_answer_v2(
            branch,
            operation,
            other_digest,
            id,
            commit,
        ) == Err::<ReceiptView, Fault>(reused_operation_v2(operation)),
{
    assert(Seq::new(
        commit.delta.changes@.len(),
        |i: int| commit.delta.changes@[i].next,
    ) =~= seq![transition.next]);
}

/// Answers an operation that was published before: with its receipt when the input is the same, with an
/// error when it is not.
pub fn reconcile_operation(
    branch: &str,
    operation: OperationId,
    input_digest: &[u8; 32],
    target: CommitId,
    commit: BucketCommitV2,
) -> (r: Result<CommitReceiptV2, Error>)
    ensures
        match r {
            Ok(receipt) => {
                &&& commit.delta.input_digest@ == input_digest@
                &&& receipt.id == target
                &&& receipt.operation == operation
                &&& receipt.branch@ == branch@
                &&& receipt.parents == commit.parents
                &&& receipt.changed_keys == commit.delta.changes@.len()
                &&& receipt.object_versions@ == Seq::new(
                    commit.delta.changes@.len(),
                    |i: int| commit.delta.changes@[i].next,
                )
                &&& receipt.idempotent_replay
            },
            Err(error) => commit.delta.input_digest@ != input_digest@ && error@
                == reused_operation_v2(operation),
        },
        replay_answer_v2(branch@, operation, input_digest@, target, commit) == match r {
            Ok(receipt) => Ok(receipt_view_v2(receipt)),
            Err(error) => Err(error@),
        },
{
    if !bytes_eq(&commit.delta.input_digest, input_digest) {
        return Err(
            Error::new(
                ErrorCode::IdempotencyConflict,
                "protocol-v2 operation ID was reused with different input",
            ).operation(operation),
        );
    }
    let mut object_versions: Vec<ObjectVersionId> = Vec::new();
    let mut i: usize = 0;
    while i < commit.delta.changes.len()
        invariant
            i <= commit.delta.changes@.len(),
            object_versions@ == Seq::new(i as nat, |j: int| commit.delta.changes@[j].next),
        decreases commit.delta.changes.len() - i,
    {
        object_versions.push(commit.delta.changes[i].next);
        assert(object_versions@ =~= Seq::new(
            (i + 1) as nat,
            |j: int| commit.delta.changes@[j].next,
        ));
        i += 1;
    }
    let changed_keys: u64 = commit.delta.changes.len() as u64;
    Ok(
        CommitReceiptV2 {
            id: target,
            operation,
            branch: branch.to_owned(),
            parents: commit.parents,
            changed_keys,
            object_versions,
            idempotent_replay: true,
        },
    )
}

/// Where the bytes of an object lie.
pub fn payload_of(version: &ObjectVersion) -> (r: Result<PayloadBinding, Error>)
    ensures
        outcome(r) == match version.binding {
            Some(binding) => Ok(binding),
            None => Err(
                fault(
                    ErrorCode::CorruptCommit,
                    "live v2 object has no immutable payload binding",
                ),
            ),
        },
{
    match &version.binding {
        Some(binding) => Ok(binding.copied()),
        None => Err(
            Error::new(
                ErrorCode::CorruptCommit,
                "live v2 object has no immutable payload binding",
            ),
        ),
    }
}

/// A walk back through a branch's journal to where the index left off. `most` bounds how many commits it
/// may load on the way.
#[derive(Clone, Copy, Debug)]
pub struct TailRun {
    pub checkpoint: Option<[u8; 32]>,
    pub most: usize,
    pub visited: usize,
    pub reached_checkpoint: bool,
}

/// What becomes of an entry of the journal.
#[derive(Clone, Copy, Debug, PartialEq, Eq, Structural)]
pub enum TailStep {
    /// The index knows it and everything before it: the walk is over.
    Reached,
    /// Its commit must be loaded.
    Load,
}

impl TailRun {
    /// Begins a walk. Without a checkpoint there is nothing to reach.
    pub fn new(checkpoint: Option<[u8; 32]>, most: usize) -> (r: Self)
        ensures
            r == (TailRun { checkpoint, most, visited: 0, reached_checkpoint: checkpoint is None }),
    {
        TailRun { checkpoint, most, visited: 0, reached_checkpoint: checkpoint.is_none() }
    }

    /// Looks at the next entry.
    pub fn look(&mut self, entry: &[u8; 32]) -> (r: TailStep)
        ensures
            ({
                let known = old(self).checkpoint is Some && old(self).checkpoint->0@ == entry@;
                &&& r == if known {
                    TailStep::Reached
                } else {
                    TailStep::Load
                }
                &&& *final(self) == if known {
                    TailRun { reached_checkpoint: true, ..*old(self) }
                } else {
                    *old(self)
                }
            }),
    {
        if let Some(checkpoint) = self.checkpoint {
            if bytes_eq(&checkpoint, entry) {
                self.reached_checkpoint = true;
                return TailStep::Reached;
            }
        }
        TailStep::Load
    }

    /// Counts a commit that was loaded.
    pub fn loaded(&mut self) -> (r: Result<(), Error>)
        requires
            old(self).visited < usize::MAX,
        ensures
            *final(self) == (TailRun { visited: (old(self).visited + 1) as usize, ..*old(self) }),
            outcome(r) == if old(self).visited + 1 > old(self).most {
                Err(
                    fault(
                        ErrorCode::HistoryLimitExceeded,
                        "v2 node-index journal tail exceeds its bounded foreground recovery limit",
                    ),
                )
            } else {
                Ok::<(), Fault>(())
            },
    {
        self.visited = self.visited + 1;
        if self.visited > self.most {
            return Err(
                Error::new(
                    ErrorCode::HistoryLimitExceeded,
                    "v2 node-index journal tail exceeds its bounded foreground recovery limit",
                ),
            );
        }
        Ok(())
    }

    /// Ends the walk. The answer says whether the branch's head must be loaded itself: it must where the
    /// branch is new and has no index.
    pub fn register_unindexed_tail(&self, generation: RefGeneration) -> (r: Result<bool, Error>)
        ensures
            outcome(r) == if self.checkpoint is Some && !self.reached_checkpoint {
                Err(
                    fault(
                        ErrorCode::CorruptCommit,
                        "v2 journal index checkpoint is not reachable from the branch ref",
                    ),
                )
            } else if self.checkpoint is Some {
                Ok(false)
            } else if generation.0 == 0 {
                Ok(true)
            } else {
                Err(
                    fault(
                        ErrorCode::PreconditionFailed,
                        "v2 journal indexes were not initialized with branch creation",
                    ),
                )
            },
    {
        if self.checkpoint.is_some() && !self.reached_checkpoint {
            return Err(
                Error::new(
                    ErrorCode::CorruptCommit,
                    "v2 journal index checkpoint is not reachable from the branch ref",
                ),
            );
        }
        if self.checkpoint.is_some() {
            return Ok(false);
        }
        if generation.0 == 0 {
            return Ok(true);
        }
        Err(
            Error::new(
                ErrorCode::PreconditionFailed,
                "v2 journal indexes were not initialized with branch creation",
            ),
        )
    }
}

/// A stored format is taken exactly where it is of the same version and profile, and asks for no newer reader or writer.
pub proof fn law_format_is_taken_where_it_is_understood(format: RepositoryFormatV2, protocol: ProtocolV2)
    ensures
        supported(format, protocol) <==> format.format_version == protocol.format_version
            && format.required_capability_profile == protocol.capability_profile && 1
            <= format.min_reader_version <= protocol.reader_version && 1 <= format.min_writer_version
            <= protocol.writer_version,
{
}

/// Stored settings go with those that a repository is opened with exactly where what the stored bytes depend on is
/// the same in both.
pub proof fn law_formats_go_together_when_they_agree(format: RepositoryFormatV2, options: RepositoryV2Options)
    ensures
        compatible(format, options) <==> format.state_tree_format@ == options.state_tree_format@
            && format.canonical_limits == options.limits && format.idempotency_retention@
            == options.idempotency_retention@,
{
}

/// Settings are taken exactly where every one of them is within its bounds.
pub proof fn law_options_are_taken_within_their_bounds(
    o: RepositoryV2Options,
    retention: Result<(), Fault>,
)
    ensures
        options_outcome(o, retention) is Ok <==> valid_branch(o.default_branch@) && retention is Ok
            && o.repository_prefix@.len() > 0 && o.repository_prefix@.last() != '/' && !blank(o.writer@)
            && 10_000 <= o.authority_lease_millis <= 86_400_000 && o.max_cached_node_pack_bytes > 0
            && o.max_cached_node_locations > 0 && o.max_cached_node_bytes > 0
            && o.mutable_control_versions_to_retain >= 2,
{
}

/// The version of an object that is put says what the object is: how many bytes it has, their digests, and the headers
/// and user metadata that the caller gave.
pub proof fn law_put_version_is_its_object(object: CommitSessionPutInput, kind: LogicalObjectVersionKind)
    requires
        puts_object(object, kind),
    ensures
        kind is Live,
        kind->size == object.bytes@.len(),
        kind->checksums.md5 is Some && kind->checksums.md5->0@ == md5_of(object.bytes@),
        kind->checksums.sha256 is Some && kind->checksums.sha256->0@ == sha256_of(object.bytes@),
        kind->attributes@.headers == object.headers.fields@,
        kind->attributes@.user_metadata == object.user_metadata@,
        kind->attributes@.tags == Map::<Seq<char>, Seq<char>>::empty(),
        kind->attributes@.algorithm_values == Map::<Seq<char>, Seq<char>>::empty(),
{
}

/// An operation that is asked for again with the input it had is answered with the commit it made; asked for with
/// another input it is refused.
pub proof fn law_answer_comes_only_to_the_same_input(
    branch: Seq<char>,
    operation: OperationId,
    input_digest: Seq<u8>,
    target: CommitId,
    commit: BucketCommitV2,
)
    ensures
        replay_answer_v2(branch, operation, input_digest, target, commit) is Ok
            <==> commit.delta.input_digest@ == input_digest,
        replay_answer_v2(branch, operation, input_digest, target, commit) matches Ok(receipt) ==> {
            &&& receipt.id == target
            &&& receipt.operation == operation
            &&& receipt.branch == branch
            &&& receipt.parents == commit.parents@
            &&& receipt.idempotent_replay
            &&& receipt.changed_keys == commit.delta.changes@.len()
            &&& receipt.object_versions.len() == commit.delta.changes@.len()
            &&& forall|i: int|
                0 <= i < commit.delta.changes@.len() ==> #[trigger] receipt.object_versions[i]
                    == commit.delta.changes@[i].next
        },
{
}

/// A branch is held exactly where a permit of it is listed.
pub proof fn law_held_branch_has_a_permit(permits: Seq<BranchPermit>, branch: Seq<char>, i: int)
    ensures
        0 <= i < permits.len() && permits[i].branch@ == branch ==> holds_branch(permits, branch),
        (forall|k: int| 0 <= k < permits.len() ==> (#[trigger] permits[k]).branch@ != branch)
            ==> !holds_branch(permits, branch),
{
    if 0 <= i < permits.len() && permits[i].branch@ == branch {
        assert(permit_at(permits, branch, i));
    }
}

/// A receipt says what was published: the commit and its parents, the operation, the branch, how many keys were changed
/// and by which versions, and whether it was published before.
pub proof fn law_receipt_says_all_of_its_commit(receipt: CommitReceiptV2)
    ensures
        receipt_view_v2(receipt).id == receipt.id,
        receipt_view_v2(receipt).operation == receipt.operation,
        receipt_view_v2(receipt).branch == receipt.branch@,
        receipt_view_v2(receipt).parents == receipt.parents@,
        receipt_view_v2(receipt).changed_keys == receipt.changed_keys,
        receipt_view_v2(receipt).object_versions == receipt.object_versions@,
        receipt_view_v2(receipt).idempotent_replay == receipt.idempotent_replay,
{
}

} // verus!
