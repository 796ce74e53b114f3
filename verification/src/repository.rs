//! What a repository is opened with: its options, its format, and the checks that need no more.
use crate::authority::AuthorityRegistry;
use crate::bytes::{bytes_eq, has_prefix, starts_with};
use crate::error::{fault, outcome, Error, ErrorCode, Fault};
use crate::ids::{OperationId, RepositoryId, TreeFormatDigest};
use crate::model::{CanonicalLimits, RootManifest};
use crate::outside::is_utf8;
use crate::text::{blank, is_blank, valid_branch, validate_branch, white_space};
use vstd::prelude::*;
use vstd::utf8::{encode_utf8, valid_utf8};

verus! {

/// How many physical versions of one key the provider keeps.
#[derive(Clone, Copy, Debug, PartialEq, Eq, Structural)]
pub enum ProviderPerKeyVersionLimit {
    Unlimited,
    Finite(u64),
    Unknown,
}

/// Whether a provider with this limit can keep `retained` control versions and still write.
pub open spec fn provider_suffices(limit: ProviderPerKeyVersionLimit, retained: int) -> bool {
    match limit {
        ProviderPerKeyVersionLimit::Unlimited => true,
        ProviderPerKeyVersionLimit::Finite(n) => retained + 2 <= n,
        ProviderPerKeyVersionLimit::Unknown => false,
    }
}

impl ProviderPerKeyVersionLimit {
    /// Refuses a provider whose limit is unknown, or too low to keep `retained` control versions
    /// with two to spare.
    pub fn validate_immutable_payload_profile(&self, retained: usize) -> (r: Result<(), Error>)
        ensures
            outcome(r) == if provider_suffices(*self, retained as int) {
                Ok::<(), Fault>(())
            } else {
                Err(
                    fault(
                        ErrorCode::ProviderNotQualified,
                        "provider per-key version limit cannot hold the retained control versions",
                    ),
                )
            },
    {
        let ok = match self {
            ProviderPerKeyVersionLimit::Unlimited => true,
            ProviderPerKeyVersionLimit::Finite(n) => *n >= 2 && *n - 2 >= retained as u64,
            ProviderPerKeyVersionLimit::Unknown => false,
        };
        if ok {
            Ok(())
        } else {
            Err(
                Error::new(
                    ErrorCode::ProviderNotQualified,
                    "provider per-key version limit cannot hold the retained control versions",
                ),
            )
        }
    }
}

/// What a repository is opened with. The tree format and the retention policy are held by their
/// canonical bytes: the library only compares them.
#[derive(Clone, Debug)]
pub struct RepositoryOptions {
    pub repository_prefix: String,
    pub default_branch: String,
    pub writer: String,
    pub limits: CanonicalLimits,
    pub state_tree_format: Vec<u8>,
    pub authority_lease_millis: u64,
    pub read_only: bool,
    pub max_cached_node_pack_bytes: usize,
    pub max_cached_node_locations: usize,
    pub max_cached_node_bytes: usize,
    pub mutable_control_versions_to_retain: usize,
    pub journal_index_max_unindexed_events: usize,
    pub operation_index_leaf_entries: usize,
    pub operation_index_merge_fanout: usize,
    pub operation_index_max_unindexed_events: usize,
    pub idempotency_retention: Vec<u8>,
    pub provider_per_key_version_limit: ProviderPerKeyVersionLimit,
}

/// What a repository was written with, for good.
#[derive(Clone, Debug)]
pub struct RepositoryFormat {
    pub repository_id: RepositoryId,
    pub state_tree_format: Vec<u8>,
    pub state_tree_digest: TreeFormatDigest,
    pub canonical_limits: CanonicalLimits,
    pub idempotency_retention: Vec<u8>,
    pub provider_per_key_version_limit: ProviderPerKeyVersionLimit,
    pub created_at_millis: u64,
}

/// Whether the numbers and names of the options are within their bounds.
pub open spec fn options_in_bounds(o: RepositoryOptions) -> bool {
    &&& o.repository_prefix@.len() > 0
    &&& o.repository_prefix@.last() != '/'
    &&& !blank(o.writer@)
    &&& 10_000 <= o.authority_lease_millis <= 86_400_000
    &&& o.max_cached_node_pack_bytes != 0
    &&& o.max_cached_node_locations != 0
    &&& o.max_cached_node_bytes != 0
    &&& o.mutable_control_versions_to_retain >= 2
    &&& 1 <= o.journal_index_max_unindexed_events <= 1_000_000
    &&& 1 <= o.operation_index_leaf_entries <= 65_536
    &&& 2 <= o.operation_index_merge_fanout <= 32
    &&& o.operation_index_leaf_entries <= o.operation_index_max_unindexed_events <= 1_000_000
}

/// What checking the options says, given what checking the retention policy said.
pub open spec fn options_outcome(o: RepositoryOptions, retention: Result<(), Fault>) -> Result<
    (),
    Fault,
> {
    if !valid_branch(o.default_branch@) {
        Err(fault(ErrorCode::InvalidBranch, "branch name violates the canonical ref contract"))
    } else if retention is Err {
        retention
    } else if !provider_suffices(
        o.provider_per_key_version_limit,
        o.mutable_control_versions_to_retain as int,
    ) {
        Err(
            fault(
                ErrorCode::ProviderNotQualified,
                "provider per-key version limit cannot hold the retained control versions",
            ),
        )
    } else if !options_in_bounds(o) {
        Err(fault(ErrorCode::InvalidRequest, "repository options are invalid"))
    } else {
        Ok(())
    }
}

/// Whether `text` is empty or ends with a slash.
pub(crate) fn empty_or_ends_with_slash(text: &str) -> (r: bool)
    ensures
        r == (text@.len() == 0 || text@.last() == '/'),
{
    let chars = crate::text::chars_of(text);
    chars.len() == 0 || chars[chars.len() - 1] == '/'
}

/// Checks the options. `retention` is what checking the retention policy said.
pub fn validate_options(options: &RepositoryOptions, retention: Result<(), Error>) -> (r: Result<
    (),
    Error,
>)
    ensures
        outcome(r) == options_outcome(*options, outcome(retention)),
{
    if let Err(error) = validate_branch(&options.default_branch) {
        return Err(error);
    }
    if let Err(error) = retention {
        return Err(error);
    }
    if let Err(error) = options.provider_per_key_version_limit.validate_immutable_payload_profile(
        options.mutable_control_versions_to_retain,
    ) {
        return Err(error);
    }
    if empty_or_ends_with_slash(&options.repository_prefix) || is_blank(&options.writer)
        || options.authority_lease_millis < 10_000 || options.authority_lease_millis > 86_400_000
        || options.max_cached_node_pack_bytes == 0 || options.max_cached_node_locations == 0
        || options.max_cached_node_bytes == 0 || options.mutable_control_versions_to_retain < 2
        || options.journal_index_max_unindexed_events < 1
        || options.journal_index_max_unindexed_events > 1_000_000
        || options.operation_index_leaf_entries < 1 || options.operation_index_leaf_entries > 65_536
        || options.operation_index_merge_fanout < 2 || options.operation_index_merge_fanout > 32
        || options.operation_index_max_unindexed_events < options.operation_index_leaf_entries
        || options.operation_index_max_unindexed_events > 1_000_000 {
        return Err(Error::new(ErrorCode::InvalidRequest, "repository options are invalid"));
    }
    Ok(())
}

/// Whether a repository of this format may be opened with these options.
pub open spec fn compatible(format: RepositoryFormat, options: RepositoryOptions) -> bool {
    &&& format.state_tree_format@ == options.state_tree_format@
    &&& format.canonical_limits == options.limits
    &&& format.idempotency_retention@ == options.idempotency_retention@
    &&& format.provider_per_key_version_limit == options.provider_per_key_version_limit
}

/// Refuses options that ask for another format than the repository has. `retention` is what
/// checking the format's retention policy said.
pub fn validate_format_compatibility(
    format: &RepositoryFormat,
    options: &RepositoryOptions,
    retention: Result<(), Error>,
) -> (r: Result<(), Error>)
    ensures
        outcome(r) == if retention is Err {
            outcome(retention)
        } else if compatible(*format, *options) {
            Ok(())
        } else {
            Err(
                fault(
                    ErrorCode::RepositoryFormatConflict,
                    "repository format does not match the requested canonical settings",
                ),
            )
        },
{
    if let Err(error) = retention {
        return Err(error);
    }
    if !bytes_eq(&format.state_tree_format, &options.state_tree_format)
        || format.canonical_limits != options.limits || !bytes_eq(
        &format.idempotency_retention,
        &options.idempotency_retention,
    ) || format.provider_per_key_version_limit != options.provider_per_key_version_limit {
        return Err(
            Error::new(
                ErrorCode::RepositoryFormatConflict,
                "repository format does not match the requested canonical settings",
            ),
        );
    }
    Ok(())
}

/// A repository as far as it is plain state: what it was opened with, which authority this process
/// holds, and whether it may write.
#[derive(Debug)]
pub struct Repository {
    pub options: RepositoryOptions,
    pub format: RepositoryFormat,
    pub authority: AuthorityRegistry,
    pub writable: bool,
    pub active_gc_epoch: Option<OperationId>,
    pub gc_dirty_sequence: u64,
}

/// Whether `key` may name an object in a repository with this prefix and these limits.
pub open spec fn valid_key(key: Seq<u8>, prefix: Seq<char>, limits: CanonicalLimits) -> bool {
    &&& key.len() > 0
    &&& key.len() <= limits.max_key_bytes
    &&& valid_utf8(key)
    &&& !has_prefix(key, encode_utf8(prefix))
}

/// The error of a key that may not name an object.
pub open spec fn invalid_key() -> Fault {
    fault(ErrorCode::InvalidKey, "logical key violates the repository key contract")
}

impl Repository {
    /// Whether `key` may name an object here.
    pub open spec fn accepts_key(&self, key: Seq<u8>) -> bool {
        valid_key(key, self.options.repository_prefix@, self.format.canonical_limits)
    }

    /// The repository's format.
    pub fn format(&self) -> (r: &RepositoryFormat)
        ensures
            *r == self.format,
    {
        &self.format
    }

    /// The repository's name.
    pub fn repository_id(&self) -> (r: RepositoryId)
        ensures
            r == self.format.repository_id,
    {
        self.format.repository_id
    }

    /// The most bytes that an object may have.
    pub fn max_object_bytes(&self) -> (r: u64)
        ensures
            r == self.format.canonical_limits.max_object_bytes,
    {
        self.format.canonical_limits.max_object_bytes
    }

    /// Accepts the keys that may name objects: UTF-8, not empty, not too long, and outside the
    /// repository's own namespace.
    pub fn validate_key(&self, key: &[u8]) -> (r: Result<(), Error>)
        ensures
            outcome(r) == if self.accepts_key(key@) {
                Ok::<(), Fault>(())
            } else {
                Err(invalid_key())
            },
    {
        if key.len() == 0 || key.len() > self.format.canonical_limits.max_key_bytes as usize
            || !is_utf8(key) || starts_with(key, self.options.repository_prefix.as_str().as_bytes()) {
            return Err(
                Error::new(
                    ErrorCode::InvalidKey,
                    "logical key violates the repository key contract",
                ),
            );
        }
        Ok(())
    }

    /// Refuses the root of a tree that was written with another format.
    pub fn tree_from_root(&self, root: &RootManifest) -> (r: Result<(), Error>)
        ensures
            outcome(r) == if root.format_digest == self.format.state_tree_digest {
                Ok::<(), Fault>(())
            } else {
                Err(
                    fault(
                        ErrorCode::CorruptNode,
                        "repository state root uses another tree format",
                    ),
                )
            },
    {
        if root.format_digest != self.format.state_tree_digest {
            return Err(
                Error::new(
                    ErrorCode::CorruptNode,
                    "repository state root uses another tree format",
                ),
            );
        }
        Ok(())
    }

    /// Refuses to write where this process may not.
    pub fn require_writable(&self) -> (r: Result<(), Error>)
        ensures
            outcome(r) == if self.writable {
                Ok::<(), Fault>(())
            } else {
                Err(fault(ErrorCode::PreconditionFailed, "repository is read-only"))
            },
    {
        if !self.writable {
            return Err(Error::new(ErrorCode::PreconditionFailed, "repository is read-only"));
        }
        Ok(())
    }
}

/// A provider that keeps any number of versions of a key suffices, one whose number is not known never does, and
/// one with a number does when it has room for the retained versions and two more.
pub proof fn law_provider_must_hold_what_is_retained(limit: ProviderPerKeyVersionLimit, retained: int)
    ensures
        limit is Unlimited ==> provider_suffices(limit, retained),
        limit is Unknown ==> !provider_suffices(limit, retained),
        limit matches ProviderPerKeyVersionLimit::Finite(n) ==> (provider_suffices(limit, retained)
            <==> n >= retained + 2),
{
}

/// A key may name an object exactly where it is not empty, no longer than the limit, text, and not the name of
/// anything that the repository keeps for itself.
pub proof fn law_key_may_name_an_object(key: Seq<u8>, prefix: Seq<char>, limits: CanonicalLimits)
    ensures
        key.len() == 0 ==> !valid_key(key, prefix, limits),
        key.len() > limits.max_key_bytes ==> !valid_key(key, prefix, limits),
        !valid_utf8(key) ==> !valid_key(key, prefix, limits),
        key.len() >= encode_utf8(prefix).len() && key.take(encode_utf8(prefix).len() as int)
            == encode_utf8(prefix) ==> !valid_key(key, prefix, limits),
        0 < key.len() <= limits.max_key_bytes && valid_utf8(key) && !(key.len() >= encode_utf8(
            prefix,
        ).len() && key.take(encode_utf8(prefix).len() as int) == encode_utf8(prefix))
            ==> valid_key(key, prefix, limits),
{
    if key.len() >= encode_utf8(prefix).len() {
        assert(key.take(encode_utf8(prefix).len() as int) =~= key.subrange(
            0,
            encode_utf8(prefix).len() as int,
        ));
    }
}

/// A repository is asked about a key by its own prefix and its own limits.
pub proof fn law_repository_judges_keys_by_its_own_limits(repository: Repository, key: Seq<u8>)
    ensures
        repository.accepts_key(key) ==> 0 < key.len()
            <= repository.format.canonical_limits.max_key_bytes,
        repository.accepts_key(encode_utf8(repository.options.repository_prefix@)) ==> false,
        repository.accepts_key(key) <==> valid_key(
            key,
            repository.options.repository_prefix@,
            repository.format.canonical_limits,
        ),
{
    let own = encode_utf8(repository.options.repository_prefix@);
    assert(own.subrange(0, own.len() as int) =~= own);
}

/// Stored settings go with those that a repository is opened with exactly where what the stored bytes depend on is
/// the same in both: the tree format, the limits, the retention and the provider's limit.
pub proof fn law_settings_go_together_when_they_agree(format: RepositoryFormat, options: RepositoryOptions)
    ensures
        compatible(format, options) <==> format.state_tree_format@ == options.state_tree_format@
            && format.canonical_limits == options.limits && format.idempotency_retention@
            == options.idempotency_retention@ && format.provider_per_key_version_limit
            == options.provider_per_key_version_limit,
{
}

/// Settings are taken exactly where every one of them is within its bounds.
pub proof fn law_settings_are_taken_within_their_bounds(
    o: RepositoryOptions,
    retention: Result<(), Fault>,
)
    ensures
        options_outcome(o, retention) is Ok <==> {
            &&& valid_branch(o.default_branch@)
            &&& retention is Ok
            &&& o.provider_per_key_version_limit is Unlimited || (
            o.provider_per_key_version_limit matches ProviderPerKeyVersionLimit::Finite(n) && n
                >= o.mutable_control_versions_to_retain + 2)
            &&& o.repository_prefix@.len() > 0 && o.repository_prefix@.last() != '/'
            &&& exists|i: int| 0 <= i < o.writer@.len() && !white_space(#[trigger] o.writer@[i])
            &&& 10_000 <= o.authority_lease_millis <= 86_400_000
            &&& o.max_cached_node_pack_bytes > 0 && o.max_cached_node_locations > 0
                && o.max_cached_node_bytes > 0
            &&& o.mutable_control_versions_to_retain >= 2
            &&& 1 <= o.journal_index_max_unindexed_events <= 1_000_000
            &&& 1 <= o.operation_index_leaf_entries <= 65_536
            &&& 2 <= o.operation_index_merge_fanout <= 32
            &&& o.operation_index_leaf_entries <= o.operation_index_max_unindexed_events <= 1_000_000
        },
{
}

} // verus!
