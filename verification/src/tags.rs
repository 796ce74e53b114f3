//! Tags: named references to commits that are created and deleted, never moved.
use crate::bytes::bytes_eq;
use crate::error::{fault, outcome, Error, ErrorCode, Fault, RetryAdvice};
use crate::ids::{nil_bytes, CommitId, OperationId, RefGeneration, RepositoryId};
use crate::model::{AuthorityScope, AuthorityStamp, ScopeView, StorageToken};
use crate::outside::{hex_encode, hex_text};
use crate::paths::law_hex_text_reads_back;
use crate::text::{valid_branch, validate_branch};
use crate::texts::lemma_encoding_is_injective;
use vstd::prelude::*;
use vstd::string::*;
use vstd::utf8::encode_utf8;

verus! {

/// What a movement of a reference leaves in its log.
#[derive(Clone, Debug, PartialEq, Eq)]
pub struct ReflogEntry {
    pub branch: String,
    pub old_target: Option<CommitId>,
    pub new_target: CommitId,
    pub operation: OperationId,
    pub actor: String,
    pub message: String,
    pub created_at_millis: u64,
}

/// The value of a tag. A deleted one stays as a tombstone.
#[derive(Clone, Debug, PartialEq, Eq)]
pub struct TagValue {
    pub target: CommitId,
    pub previous_target: Option<CommitId>,
    pub generation: RefGeneration,
    pub operation: OperationId,
    pub inline_reflog: ReflogEntry,
    pub authority: AuthorityStamp,
    pub updated_at_millis: u64,
    pub tombstone: bool,
}

/// A tag with the token of the stored object that holds it.
#[derive(Clone, Debug, PartialEq, Eq)]
pub struct LoadedTag {
    pub value: TagValue,
    pub token: StorageToken,
}

/// A tag of the second protocol.
#[derive(Clone, Debug, PartialEq, Eq)]
pub struct LoadedTagV2 {
    pub value: TagValue,
    pub token: StorageToken,
}

/// The tags of a repository. Without a number of its own, the store that keeps the tags decides how many
/// old states of one it retains.
#[derive(Clone, Debug)]
pub struct TagStore {
    pub prefix: String,
    pub repository: RepositoryId,
    pub control_versions_to_retain: Option<usize>,
}

/// The tags of a repository of the second protocol.
#[derive(Clone, Debug)]
pub struct TagStoreV2 {
    pub prefix: String,
    pub repository: RepositoryId,
    pub control_versions_to_retain: Option<usize>,
}

/// What became of an attempt to store a tag.
#[derive(Debug)]
pub enum TagWrite {
    /// The tag was stored.
    Applied(StorageToken),
    /// Something else was there, with these bytes; or nothing, though a tag was expected.
    Conflict(Option<(Vec<u8>, StorageToken)>),
    /// The attempt failed with this text, and this is there now.
    Unknown(String, Option<(Vec<u8>, StorageToken)>),
}

/// The path of a tag below a folder.
pub open spec fn tag_location(prefix: Seq<char>, folder: Seq<char>, name: Seq<char>) -> Seq<char> {
    prefix + folder + hex_text(encode_utf8(name))
}

fn tag_path(prefix: &str, folder: &str, name: &str) -> (r: Result<String, Error>)
    ensures
        match r {
            Ok(path) => valid_branch(name@) && path@ == tag_location(prefix@, folder@, name@),
            Err(error) => !valid_branch(name@) && error@ == fault(
                ErrorCode::InvalidBranch,
                "branch name violates the canonical ref contract",
            ),
        },
{
    if let Err(error) = validate_branch(name) {
        return Err(error);
    }
    let encoded = hex_encode(name.as_bytes());
    Ok(prefix.to_owned().concat(folder).concat(encoded.as_str()))
}

/// What checking a request to create a tag says.
pub open spec fn tag_request_outcome(
    name: Seq<char>,
    operation: OperationId,
    actor: Seq<char>,
    incomplete: &str,
) -> Result<(), Fault> {
    if !valid_branch(name) {
        Err(fault(ErrorCode::InvalidBranch, "branch name violates the canonical ref contract"))
    } else if operation@ == nil_bytes() || actor.len() == 0 {
        Err(fault(ErrorCode::InvalidRequest, incomplete))
    } else {
        Ok(())
    }
}

/// The scope under which tags are written.
pub open spec fn tag_scope() -> ScopeView {
    ScopeView::System { namespace: "tags"@ }
}

/// The error of an authority that does not cover tags.
pub open spec fn not_over_tags() -> Fault {
    fault(ErrorCode::PreconditionFailed, "authority stamp does not cover tags")
}

fn check_tag_stamp(stamp: &AuthorityStamp) -> (r: Result<(), Error>)
    ensures
        outcome(r) == if stamp.scope@ == tag_scope() {
            Ok::<(), Fault>(())
        } else {
            Err(not_over_tags())
        },
{
    let scope = AuthorityScope::System { namespace: "tags".to_owned() };
    if !stamp.scope.same(&scope) {
        return Err(Error::new(ErrorCode::PreconditionFailed, "authority stamp does not cover tags"));
    }
    Ok(())
}

/// What checking a request to create a tag and the authority for it says.
pub open spec fn tag_creation_outcome(
    name: Seq<char>,
    operation: OperationId,
    actor: Seq<char>,
    scope: ScopeView,
    incomplete: &str,
) -> Result<(), Fault> {
    match tag_request_outcome(name, operation, actor, incomplete) {
        Err(error) => Err(error),
        Ok(_) => if scope == tag_scope() {
            Ok(())
        } else {
            Err(not_over_tags())
        },
    }
}

/// What checking a request to delete a tag and the authority for it says.
pub open spec fn tag_deletion_outcome(name: Seq<char>, scope: ScopeView) -> Result<(), Fault> {
    if !valid_branch(name) {
        Err(fault(ErrorCode::InvalidBranch, "branch name violates the canonical ref contract"))
    } else if scope == tag_scope() {
        Ok(())
    } else {
        Err(not_over_tags())
    }
}

fn check_tag_request(name: &str, operation: OperationId, actor: &str, incomplete: &str) -> (r: Result<
    (),
    Error,
>)
    ensures
        outcome(r) == tag_request_outcome(name@, operation, actor@, incomplete),
{
    if let Err(error) = validate_branch(name) {
        return Err(error);
    }
    if operation.is_nil() || actor.unicode_len() == 0 {
        return Err(Error::new(ErrorCode::InvalidRequest, incomplete));
    }
    Ok(())
}

/// What creating a tag gives, and the token of the tombstone that it replaces.
pub open spec fn creates_tag(
    existing: Option<LoadedTag>,
    name: Seq<char>,
    target: CommitId,
    operation: OperationId,
    actor: Seq<char>,
    stamp: AuthorityStamp,
    now: u64,
    value: TagValue,
    token: Option<StorageToken>,
) -> bool {
    let previous = match existing {
        Some(tag) => Some(tag.value.target),
        None => None,
    };
    &&& value.target == target
    &&& value.previous_target == previous
    &&& value.generation.0 == match existing {
        Some(tag) => tag.value.generation.0 + 1,
        None => 0,
    }
    &&& value.operation == operation
    &&& value.inline_reflog.branch@ == name
    &&& value.inline_reflog.old_target == previous
    &&& value.inline_reflog.new_target == target
    &&& value.inline_reflog.operation == operation
    &&& value.inline_reflog.actor@ == actor
    &&& value.inline_reflog.message@ == "create tag"@
    &&& value.inline_reflog.created_at_millis == now
    &&& value.authority == stamp
    &&& value.updated_at_millis == now
    &&& !value.tombstone
    &&& token == match existing {
        Some(tag) => Some(tag.token),
        None => None,
    }
}

fn create_value(
    existing: Option<LoadedTag>,
    name: &str,
    target: CommitId,
    operation: OperationId,
    actor: &str,
    stamp: AuthorityStamp,
    now: u64,
    incomplete: &str,
    taken: &str,
    overflow: &str,
) -> (r: Result<(TagValue, Option<StorageToken>), Error>)
    ensures
        match r {
            Ok((value, token)) => {
                &&& tag_creation_outcome(name@, operation, actor@, stamp.scope@, incomplete) is Ok
                &&& existing matches Some(tag) ==> tag.value.tombstone && tag.value.generation.0
                    < u64::MAX
                &&& creates_tag(
                    existing,
                    name@,
                    target,
                    operation,
                    actor@,
                    stamp,
                    now,
                    value,
                    token,
                )
            },
            Err(error) => match tag_creation_outcome(
                name@,
                operation,
                actor@,
                stamp.scope@,
                incomplete,
            ) {
                Err(refused) => error@ == refused,
                Ok(_) => existing matches Some(tag) && if !tag.value.tombstone {
                    error@ == fault(ErrorCode::RefConflict, taken)
                } else {
                    tag.value.generation.0 == u64::MAX && error@ == fault(
                        ErrorCode::InternalInvariant,
                        overflow,
                    )
                },
            },
        },
{
    if let Err(error) = check_tag_request(name, operation, actor, incomplete) {
        return Err(error);
    }
    if let Err(error) = check_tag_stamp(&stamp) {
        return Err(error);
    }
    let mut generation: u64 = 0;
    let mut previous_target: Option<CommitId> = None;
    let mut token: Option<StorageToken> = None;
    if let Some(tag) = existing {
        if !tag.value.tombstone {
            return Err(Error::new(ErrorCode::RefConflict, taken));
        }
        generation = match tag.value.generation.0.checked_add(1) {
            None => {
                return Err(Error::new(ErrorCode::InternalInvariant, overflow));
            },
            Some(next) => next,
        };
        previous_target = Some(tag.value.target);
        token = Some(tag.token);
    }
    let value = TagValue {
        target,
        previous_target,
        generation: RefGeneration(generation),
        operation,
        inline_reflog: ReflogEntry {
            branch: name.to_owned(),
            old_target: previous_target,
            new_target: target,
            operation,
            actor: actor.to_owned(),
            message: "create tag".to_owned(),
            created_at_millis: now,
        },
        authority: stamp,
        updated_at_millis: now,
        tombstone: false,
    };
    Ok((value, token))
}

/// Whether a tag may be deleted: it lives, is where the caller believes it to be, and was written under
/// the authority held now.
pub open spec fn may_delete(current: TagValue, expected: CommitId, operation: OperationId, stamp: AuthorityStamp) -> bool {
    &&& !current.tombstone
    &&& current.target == expected
    &&& current.authority@ == stamp@
    &&& operation@ != nil_bytes()
}

/// Whether a value is the tombstone of a tag.
pub open spec fn deletes_tag(
    current: TagValue,
    name: Seq<char>,
    expected: CommitId,
    operation: OperationId,
    stamp: AuthorityStamp,
    now: u64,
    value: TagValue,
) -> bool {
    &&& value.target == expected
    &&& value.previous_target == Some(expected)
    &&& value.generation.0 == current.generation.0 + 1
    &&& value.operation == operation
    &&& value.inline_reflog.branch@ == name
    &&& value.inline_reflog.old_target == Some(expected)
    &&& value.inline_reflog.new_target == expected
    &&& value.inline_reflog.operation == operation
    &&& value.inline_reflog.actor@ == stamp.writer_id@
    &&& value.inline_reflog.message@ == "delete tag"@
    &&& value.inline_reflog.created_at_millis == now
    &&& value.authority == stamp
    &&& value.updated_at_millis == now
    &&& value.tombstone
}

fn delete_value(
    current: &TagValue,
    name: &str,
    expected: CommitId,
    operation: OperationId,
    stamp: AuthorityStamp,
    now: u64,
    mismatch: &str,
    overflow: &str,
) -> (r: Result<TagValue, Error>)
    ensures
        match r {
            Ok(value) => tag_deletion_outcome(name@, stamp.scope@) is Ok && may_delete(
                *current,
                expected,
                operation,
                stamp,
            ) && current.generation.0 < u64::MAX && deletes_tag(
                *current,
                name@,
                expected,
                operation,
                stamp,
                now,
                value,
            ),
            Err(error) => match tag_deletion_outcome(name@, stamp.scope@) {
                Err(refused) => error@ == refused,
                Ok(_) => if may_delete(*current, expected, operation, stamp) {
                    current.generation.0 == u64::MAX && error@ == fault(
                        ErrorCode::InternalInvariant,
                        overflow,
                    )
                } else {
                    error@ == fault(ErrorCode::PreconditionFailed, mismatch)
                },
            },
        },
{
    if let Err(error) = validate_branch(name) {
        return Err(error);
    }
    if let Err(error) = check_tag_stamp(&stamp) {
        return Err(error);
    }
    if current.tombstone || current.target != expected || !current.authority.same(&stamp)
        || operation.is_nil() {
        return Err(Error::new(ErrorCode::PreconditionFailed, mismatch));
    }
    let generation: u64 = match current.generation.0.checked_add(1) {
        None => {
            return Err(Error::new(ErrorCode::InternalInvariant, overflow));
        },
        Some(next) => next,
    };
    Ok(
        TagValue {
            target: expected,
            previous_target: Some(expected),
            generation: RefGeneration(generation),
            operation,
            inline_reflog: ReflogEntry {
                branch: name.to_owned(),
                old_target: Some(expected),
                new_target: expected,
                operation,
                actor: stamp.writer_id.clone(),
                message: "delete tag".to_owned(),
                created_at_millis: now,
            },
            authority: stamp,
            updated_at_millis: now,
            tombstone: true,
        },
    )
}

/// What an attempt to store a tag comes to: the token of the stored tag where the tag is there, whoever
/// put it there; else an error.
pub open spec fn tag_write_outcome(
    wrote: TagWrite,
    bytes: Seq<u8>,
    operation: OperationId,
    changed: &str,
    unknown: &str,
) -> Result<StorageToken, Fault> {
    match wrote {
        TagWrite::Applied(token) => Ok(token),
        TagWrite::Conflict(found) => match found {
            Some((there, token)) if there@ == bytes => Ok(token),
            _ => Err(fault(ErrorCode::RefConflict, changed)),
        },
        TagWrite::Unknown(why, found) => match found {
            Some((there, token)) if there@ == bytes => Ok(token),
            _ => Err(
                Fault {
                    code: ErrorCode::OutcomeUnknown,
                    message: unknown@ + why@,
                    retry: RetryAdvice::ReconcileOperation,
                    operation: Some(operation),
                },
            ),
        },
    }
}

fn stored_token(
    wrote: TagWrite,
    bytes: &Vec<u8>,
    operation: OperationId,
    changed: &str,
    unknown: &str,
) -> (r: Result<StorageToken, Error>)
    ensures
        outcome(r) == tag_write_outcome(wrote, bytes@, operation, changed, unknown),
{
    match wrote {
        TagWrite::Applied(token) => Ok(token),
        TagWrite::Conflict(found) => {
            if let Some((there, token)) = found {
                if bytes_eq(&there, bytes) {
                    return Ok(token);
                }
            }
            Err(Error::new(ErrorCode::RefConflict, changed))
        },
        TagWrite::Unknown(why, found) => {
            if let Some((there, token)) = found {
                if bytes_eq(&there, bytes) {
                    return Ok(token);
                }
            }
            Err(
                Error {
                    code: ErrorCode::OutcomeUnknown,
                    message: unknown.to_owned().concat(why.as_str()),
                    retry: RetryAdvice::ReconcileOperation,
                    operation: Some(operation),
                },
            )
        },
    }
}

impl TagStore {
    /// The tags under a prefix.
    pub fn new(prefix: String, repository: RepositoryId) -> (r: Self)
        ensures
            r == (TagStore { prefix, repository, control_versions_to_retain: None }),
    {
        TagStore { prefix, repository, control_versions_to_retain: None }
    }

    /// The tags under a prefix, with so many old states of each retained.
    pub fn new_with_control_retention(
        prefix: String,
        repository: RepositoryId,
        control_versions_to_retain: usize,
    ) -> (r: Self)
        ensures
            r == (TagStore {
                prefix,
                repository,
                control_versions_to_retain: Some(control_versions_to_retain),
            }),
    {
        TagStore {
            prefix,
            repository,
            control_versions_to_retain: Some(control_versions_to_retain),
        }
    }

    /// Where a tag lies.
    pub fn path(&self, name: &str) -> (r: Result<String, Error>)
        ensures
            match r {
                Ok(path) => valid_branch(name@) && path@ == tag_location(
                    self.prefix@,
                    "/refs/tags/"@,
                    name@,
                ),
                Err(error) => !valid_branch(name@) && error@ == fault(
                    ErrorCode::InvalidBranch,
                    "branch name violates the canonical ref contract",
                ),
            },
    {
        tag_path(self.prefix.as_str(), "/refs/tags/", name)
    }

    /// The tag that was found, a tombstone with it.
    pub fn load_including_tombstone(&self, found: Option<LoadedTag>) -> (r: Result<LoadedTag, Error>)
        ensures
            outcome(r) == match found {
                Some(tag) => Ok(tag),
                None => Err(fault(ErrorCode::InvalidRevision, "tag is missing")),
            },
    {
        match found {
            Some(tag) => Ok(tag),
            None => Err(Error::new(ErrorCode::InvalidRevision, "tag is missing")),
        }
    }

    /// The tag that was found, if it lives.
    pub fn load(&self, found: Option<LoadedTag>) -> (r: Result<LoadedTag, Error>)
        ensures
            outcome(r) == match found {
                Some(tag) => if tag.value.tombstone {
                    Err(fault(ErrorCode::InvalidRevision, "tag is deleted"))
                } else {
                    Ok(tag)
                },
                None => Err(fault(ErrorCode::InvalidRevision, "tag is missing")),
            },
    {
        match self.load_including_tombstone(found) {
            Err(error) => Err(error),
            Ok(tag) => {
                if tag.value.tombstone {
                    return Err(Error::new(ErrorCode::InvalidRevision, "tag is deleted"));
                }
                Ok(tag)
            },
        }
    }

    /// Refuses to create a tag without a name, an operation or an actor.
    pub fn check_create(&self, name: &str, operation: OperationId, actor: &str) -> (r: Result<(), Error>)
        ensures
            outcome(r) == tag_request_outcome(
                name@,
                operation,
                actor@,
                "tag creation requires an operation and actor",
            ),
    {
        check_tag_request(name, operation, actor, "tag creation requires an operation and actor")
    }

    /// The value of a new tag, and the token of the tombstone that it replaces. A request that is not
    /// complete, or an authority that does not cover tags, is refused, and a living tag is in the way.
    pub fn create(
        &self,
        existing: Option<LoadedTag>,
        name: &str,
        target: CommitId,
        operation: OperationId,
        actor: &str,
        stamp: AuthorityStamp,
        now_millis: u64,
    ) -> (r: Result<(TagValue, Option<StorageToken>), Error>)
        ensures
            match r {
                Ok((value, token)) => {
                    &&& tag_creation_outcome(
                        name@,
                        operation,
                        actor@,
                        stamp.scope@,
                        "tag creation requires an operation and actor",
                    ) is Ok
                    &&& existing matches Some(tag) ==> tag.value.tombstone
                        && tag.value.generation.0 < u64::MAX
                    &&& creates_tag(
                        existing,
                        name@,
                        target,
                        operation,
                        actor@,
                        stamp,
                        now_millis,
                        value,
                        token,
                    )
                },
                Err(error) => match tag_creation_outcome(
                    name@,
                    operation,
                    actor@,
                    stamp.scope@,
                    "tag creation requires an operation and actor",
                ) {
                    Err(refused) => error@ == refused,
                    Ok(_) => existing matches Some(tag) && if !tag.value.tombstone {
                        error@ == fault(ErrorCode::RefConflict, "tag already exists")
                    } else {
                        tag.value.generation.0 == u64::MAX && error@ == fault(
                            ErrorCode::InternalInvariant,
                            "tag generation overflow",
                        )
                    },
                },
            },
    {
        create_value(
            existing,
            name,
            target,
            operation,
            actor,
            stamp,
            now_millis,
            "tag creation requires an operation and actor",
            "tag already exists",
            "tag generation overflow",
        )
    }

    /// The tombstone of a tag, under a name that is valid and an authority that covers tags.
    pub fn delete(
        &self,
        current: &LoadedTag,
        name: &str,
        expected: CommitId,
        operation: OperationId,
        stamp: AuthorityStamp,
        now_millis: u64,
    ) -> (r: Result<TagValue, Error>)
        ensures
            match r {
                Ok(value) => tag_deletion_outcome(name@, stamp.scope@) is Ok && may_delete(
                    current.value,
                    expected,
                    operation,
                    stamp,
                ) && current.value.generation.0 < u64::MAX && deletes_tag(
                    current.value,
                    name@,
                    expected,
                    operation,
                    stamp,
                    now_millis,
                    value,
                ),
                Err(error) => match tag_deletion_outcome(name@, stamp.scope@) {
                    Err(refused) => error@ == refused,
                    Ok(_) => if may_delete(current.value, expected, operation, stamp) {
                        current.value.generation.0 == u64::MAX && error@ == fault(
                            ErrorCode::InternalInvariant,
                            "tag generation overflow",
                        )
                    } else {
                        error@ == fault(
                            ErrorCode::PreconditionFailed,
                            "tag deletion does not match the live tag and authority",
                        )
                    },
                },
            },
    {
        delete_value(
            &current.value,
            name,
            expected,
            operation,
            stamp,
            now_millis,
            "tag deletion does not match the live tag and authority",
            "tag generation overflow",
        )
    }

    /// What an attempt to store a tag comes to.
    pub fn cas(&self, wrote: TagWrite, bytes: &Vec<u8>, value: TagValue) -> (r: Result<LoadedTag, Error>)
        ensures
            match tag_write_outcome(
                wrote,
                bytes@,
                value.operation,
                "tag changed concurrently",
                "tag publication outcome is unknown: ",
            ) {
                Ok(token) => r == Ok::<LoadedTag, Error>(LoadedTag { value, token }),
                Err(error) => r matches Err(e) && e@ == error,
            },
    {
        match stored_token(
            wrote,
            bytes,
            value.operation,
            "tag changed concurrently",
            "tag publication outcome is unknown: ",
        ) {
            Err(error) => Err(error),
            Ok(token) => Ok(LoadedTag { value, token }),
        }
    }
}

impl TagStoreV2 {
    /// The tags under a prefix.
    pub fn new(prefix: String, repository: RepositoryId) -> (r: Self)
        ensures
            r == (TagStoreV2 { prefix, repository, control_versions_to_retain: None }),
    {
        TagStoreV2 { prefix, repository, control_versions_to_retain: None }
    }

    /// The tags under a prefix, with so many old states of each retained.
    pub fn new_with_control_retention(
        prefix: String,
        repository: RepositoryId,
        control_versions_to_retain: usize,
    ) -> (r: Self)
        ensures
            r == (TagStoreV2 {
                prefix,
                repository,
                control_versions_to_retain: Some(control_versions_to_retain),
            }),
    {
        TagStoreV2 {
            prefix,
            repository,
            control_versions_to_retain: Some(control_versions_to_retain),
        }
    }

    /// Where a tag lies.
    pub fn path(&self, name: &str) -> (r: Result<String, Error>)
        ensures
            match r {
                Ok(path) => valid_branch(name@) && path@ == tag_location(
                    self.prefix@,
                    "/refs/v2/tags/"@,
                    name@,
                ),
                Err(error) => !valid_branch(name@) && error@ == fault(
                    ErrorCode::InvalidBranch,
                    "branch name violates the canonical ref contract",
                ),
            },
    {
        tag_path(self.prefix.as_str(), "/refs/v2/tags/", name)
    }

    /// The tag that was found, a tombstone with it.
    pub fn load_including_tombstone(&self, found: Option<LoadedTagV2>) -> (r: Result<
        LoadedTagV2,
        Error,
    >)
        ensures
            outcome(r) == match found {
                Some(tag) => Ok(tag),
                None => Err(fault(ErrorCode::InvalidRevision, "v2 tag is missing")),
            },
    {
        match found {
            Some(tag) => Ok(tag),
            None => Err(Error::new(ErrorCode::InvalidRevision, "v2 tag is missing")),
        }
    }

    /// The tag that was found, if it lives.
    pub fn load(&self, found: Option<LoadedTagV2>) -> (r: Result<LoadedTagV2, Error>)
        ensures
            outcome(r) == match found {
                Some(tag) => if tag.value.tombstone {
                    Err(fault(ErrorCode::InvalidRevision, "v2 tag is deleted"))
                } else {
                    Ok(tag)
                },
                None => Err(fault(ErrorCode::InvalidRevision, "v2 tag is missing")),
            },
    {
        match self.load_including_tombstone(found) {
            Err(error) => Err(error),
            Ok(tag) => {
                if tag.value.tombstone {
                    return Err(Error::new(ErrorCode::InvalidRevision, "v2 tag is deleted"));
                }
                Ok(tag)
            },
        }
    }

    /// Refuses to create a tag without a name, an operation or an actor.
    pub fn check_create(&self, name: &str, operation: OperationId, actor: &str) -> (r: Result<(), Error>)
        ensures
            outcome(r) == tag_request_outcome(
                name@,
                operation,
                actor@,
                "v2 tag creation requires an operation and actor",
            ),
    {
        check_tag_request(
            name,
            operation,
            actor,
            "v2 tag creation requires an operation and actor",
        )
    }

    /// The value of a new tag, and the token of the tombstone that it replaces. A request that is not
    /// complete, or an authority that does not cover tags, is refused, and a living tag is in the way.
    pub fn create(
        &self,
        existing: Option<LoadedTagV2>,
        name: &str,
        target: CommitId,
        operation: OperationId,
        actor: &str,
        stamp: AuthorityStamp,
        now_millis: u64,
    ) -> (r: Result<(TagValue, Option<StorageToken>), Error>)
        ensures
            ({
                let found = match existing {
                    Some(tag) => Some(LoadedTag { value: tag.value, token: tag.token }),
                    None => None,
                };
                match r {
                    Ok((value, token)) => {
                        &&& tag_creation_outcome(
                            name@,
                            operation,
                            actor@,
                            stamp.scope@,
                            "v2 tag creation requires an operation and actor",
                        ) is Ok
                        &&& existing matches Some(tag) ==> tag.value.tombstone
                            && tag.value.generation.0 < u64::MAX
                        &&& creates_tag(
                            found,
                            name@,
                            target,
                            operation,
                            actor@,
                            stamp,
                            now_millis,
                            value,
                            token,
                        )
                    },
                    Err(error) => match tag_creation_outcome(
                        name@,
                        operation,
                        actor@,
                        stamp.scope@,
                        "v2 tag creation requires an operation and actor",
                    ) {
                        Err(refused) => error@ == refused,
                        Ok(_) => existing matches Some(tag) && if !tag.value.tombstone {
                            error@ == fault(ErrorCode::RefConflict, "v2 tag already exists")
                        } else {
                            tag.value.generation.0 == u64::MAX && error@ == fault(
                                ErrorCode::InternalInvariant,
                                "v2 tag generation overflow",
                            )
                        },
                    },
                }
            }),
    {
        let found = match existing {
            Some(tag) => Some(LoadedTag { value: tag.value, token: tag.token }),
            None => None,
        };
        create_value(
            found,
            name,
            target,
            operation,
            actor,
            stamp,
            now_millis,
            "v2 tag creation requires an operation and actor",
            "v2 tag already exists",
            "v2 tag generation overflow",
        )
    }

    /// The tombstone of a tag, under a name that is valid and an authority that covers tags.
    pub fn delete(
        &self,
        current: &LoadedTagV2,
        name: &str,
        expected: CommitId,
        operation: OperationId,
        stamp: AuthorityStamp,
        now_millis: u64,
    ) -> (r: Result<TagValue, Error>)
        ensures
            match r {
                Ok(value) => tag_deletion_outcome(name@, stamp.scope@) is Ok && may_delete(
                    current.value,
                    expected,
                    operation,
                    stamp,
                ) && current.value.generation.0 < u64::MAX && deletes_tag(
                    current.value,
                    name@,
                    expected,
                    operation,
                    stamp,
                    now_millis,
                    value,
                ),
                Err(error) => match tag_deletion_outcome(name@, stamp.scope@) {
                    Err(refused) => error@ == refused,
                    Ok(_) => if may_delete(current.value, expected, operation, stamp) {
                        current.value.generation.0 == u64::MAX && error@ == fault(
                            ErrorCode::InternalInvariant,
                            "v2 tag generation overflow",
                        )
                    } else {
                        error@ == fault(
                            ErrorCode::PreconditionFailed,
                            "v2 tag deletion does not match the live tag and authority",
                        )
                    },
                },
            },
    {
        delete_value(
            &current.value,
            name,
            expected,
            operation,
            stamp,
            now_millis,
            "v2 tag deletion does not match the live tag and authority",
            "v2 tag generation overflow",
        )
    }

    /// What an attempt to store a tag comes to.
    pub fn cas(&self, wrote: TagWrite, bytes: &Vec<u8>, value: TagValue) -> (r: Result<
        LoadedTagV2,
        Error,
    >)
        ensures
            match tag_write_outcome(
                wrote,
                bytes@,
                value.operation,
                "v2 tag changed concurrently",
                "v2 tag publication outcome is unknown: ",
            ) {
                Ok(token) => r == Ok::<LoadedTagV2, Error>(LoadedTagV2 { value, token }),
                Err(error) => r matches Err(e) && e@ == error,
            },
    {
        match stored_token(
            wrote,
            bytes,
            value.operation,
            "v2 tag changed concurrently",
            "v2 tag publication outcome is unknown: ",
        ) {
            Err(error) => Err(error),
            Ok(token) => Ok(LoadedTagV2 { value, token }),
        }
    }
}

/// A tag that was deleted can be created again, and every write raises its generation: after a creation and
/// a deletion the next creation finds a tombstone and gives it a generation above both.
pub proof fn law_generations_of_a_tag_rise(
    before: Option<LoadedTag>,
    created: TagValue,
    deleted: TagValue,
    again: TagValue,
    token: StorageToken,
    name: Seq<char>,
    target: CommitId,
    operation: OperationId,
    actor: Seq<char>,
    stamp: AuthorityStamp,
    now: u64,
    first_token: Option<StorageToken>,
    last_token: Option<StorageToken>,
)
    requires
        creates_tag(before, name, target, operation, actor, stamp, now, created, first_token),
        may_delete(created, target, operation, stamp),
        deletes_tag(created, name, target, operation, stamp, now, deleted),
        creates_tag(
            Some(LoadedTag { value: deleted, token }),
            name,
            target,
            operation,
            actor,
            stamp,
            now,
            again,
            last_token,
        ),
    ensures
        before matches Some(tag) ==> tag.value.generation.0 < created.generation.0,
        created.generation.0 < deleted.generation.0 < again.generation.0,
        again.previous_target == Some(target),
        last_token == Some(token),
{
}

/// A tag that is created names its target and is there; it remembers what it named before, and its generation goes
/// on from there, or begins. Its log says the same of the movement.
pub proof fn law_created_tag_names_its_target(
    existing: Option<LoadedTag>,
    name: Seq<char>,
    target: CommitId,
    operation: OperationId,
    actor: Seq<char>,
    stamp: AuthorityStamp,
    now: u64,
    value: TagValue,
    token: Option<StorageToken>,
)
    requires
        creates_tag(existing, name, target, operation, actor, stamp, now, value, token),
    ensures
        value.target == target,
        !value.tombstone,
        value.authority == stamp,
        value.operation == operation,
        value.updated_at_millis == now,
        existing is None ==> value.previous_target is None && value.generation.0 == 0 && token is None,
        existing is Some ==> value.previous_target == Some(existing->0.value.target)
            && value.generation.0 == existing->0.value.generation.0 + 1 && token == Some(
            existing->0.token,
        ),
        value.inline_reflog.branch@ == name,
        value.inline_reflog.old_target == value.previous_target,
        value.inline_reflog.new_target == target,
        value.inline_reflog.operation == operation,
        value.inline_reflog.actor@ == actor,
        value.inline_reflog.created_at_millis == now,
{
}

/// A tag may be deleted only while it is there, names what the caller expects, and is under the caller's authority.
/// Deleting it leaves a mark of the next generation that still says what it named.
pub proof fn law_deleted_tag_leaves_a_mark(
    current: TagValue,
    name: Seq<char>,
    expected: CommitId,
    operation: OperationId,
    stamp: AuthorityStamp,
    now: u64,
    value: TagValue,
)
    ensures
        may_delete(current, expected, operation, stamp) <==> !current.tombstone && current.target
            == expected && current.authority@ == stamp@ && operation@ != nil_bytes(),
        deletes_tag(current, name, expected, operation, stamp, now, value) ==> {
            &&& value.tombstone
            &&& value.target == expected
            &&& value.previous_target == Some(expected)
            &&& value.generation.0 == current.generation.0 + 1
            &&& value.operation == operation
            &&& value.authority == stamp
            &&& value.updated_at_millis == now
            &&& value.inline_reflog.branch@ == name
            &&& value.inline_reflog.old_target == Some(expected)
            &&& value.inline_reflog.operation == operation
            &&& value.inline_reflog.actor@ == stamp.writer_id@
            &&& value.inline_reflog.created_at_millis == now
        },
{
}

/// A write of a tag has taken place exactly where it was applied or what was to be written is found there afterwards.
/// Otherwise it failed, and where nobody knows the caller is told to find out.
pub proof fn law_tag_write_is_believed_only_when_found(
    wrote: TagWrite,
    bytes: Seq<u8>,
    operation: OperationId,
    changed: &str,
    unknown: &str,
)
    ensures
        ({
            let result = tag_write_outcome(wrote, bytes, operation, changed, unknown);
            &&& wrote matches TagWrite::Applied(token) ==> result == Ok::<StorageToken, Fault>(token)
            &&& wrote matches TagWrite::Conflict(found) ==> {
                &&& result is Ok <==> found is Some && (found->0).0@ == bytes
                &&& result is Ok ==> result->Ok_0 == (found->0).1
                &&& result is Err ==> result->Err_0.code == ErrorCode::RefConflict
            }
            &&& wrote matches TagWrite::Unknown(why, found) ==> {
                &&& result is Ok <==> found is Some && (found->0).0@ == bytes
                &&& result is Ok ==> result->Ok_0 == (found->0).1
                &&& result is Err ==> result->Err_0.code == ErrorCode::OutcomeUnknown
                    && result->Err_0.operation == Some(operation)
            }
        }),
{
}

/// Tags are created and deleted only under an authority over tags, and only under names that a reference may have.
pub proof fn law_tags_need_authority_over_tags(
    name: Seq<char>,
    operation: OperationId,
    actor: Seq<char>,
    scope: ScopeView,
    incomplete: &str,
)
    ensures
        tag_creation_outcome(name, operation, actor, scope, incomplete) is Ok <==> valid_branch(name)
            && operation@ != nil_bytes() && actor.len() > 0 && scope == (ScopeView::System {
            namespace: "tags"@,
        }),
        tag_deletion_outcome(name, scope) is Ok <==> valid_branch(name) && scope == (
        ScopeView::System { namespace: "tags"@ }),
{
}

/// Two tags of one repository that lie at the same place have the same name.
pub proof fn law_tags_lie_apart(prefix: Seq<char>, folder: Seq<char>, a: Seq<char>, b: Seq<char>)
    requires
        tag_location(prefix, folder, a) == tag_location(prefix, folder, b),
    ensures
        a == b,
{
    let head = prefix + folder;
    let x = hex_text(encode_utf8(a));
    let y = hex_text(encode_utf8(b));
    assert((head + x).skip(head.len() as int) =~= x);
    assert((head + y).skip(head.len() as int) =~= y);
    law_hex_text_reads_back(encode_utf8(a));
    law_hex_text_reads_back(encode_utf8(b));
    lemma_encoding_is_injective(a, b);
}

} // verus!
