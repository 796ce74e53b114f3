//! Setting a repository up, and opening one: what is written first, what is done about what is already
//! there, and the commit that everything begins with.
use crate::authority::AuthorityRegistry;
use crate::bytes::{bytes_eq, to_vec};
use crate::error::{fault, outcome, Error, ErrorCode, Fault};
use crate::ids::{CommitGeneration, CommitId, OperationId, RepositoryId, TreeFormatDigest};
use crate::model::{
    AuthorityScope, AuthorityStamp, BucketCommit, BucketDelta, BucketState, RootManifest, ScopeView,
};
use crate::repository::{
    options_outcome, validate_options, Repository, RepositoryFormat, RepositoryOptions,
};
use vstd::prelude::*;

verus! {

/// What whoever sets a repository up writes before anything else.
#[derive(Clone, Debug)]
pub struct InitializationIntent {
    pub repository_id: RepositoryId,
    pub format: RepositoryFormat,
    pub operation: OperationId,
}

/// What creating an object came to: it was created, or something else, or nothing, stood in the way.
#[derive(Debug)]
pub enum Creation<T> {
    Applied,
    Conflict(Option<T>),
}

/// Refuses to set a repository up with options that are out of bounds, or where nothing may be written.
pub fn initialize(options: &RepositoryOptions, retention: Result<(), Error>) -> (r: Result<(), Error>)
    ensures
        outcome(r) == match options_outcome(*options, outcome(retention)) {
            Err(error) => Err(error),
            Ok(_) => if options.read_only {
                Err(fault(ErrorCode::InvalidRequest, "cannot initialize a repository read-only"))
            } else {
                Ok::<(), Fault>(())
            },
        },
{
    if let Err(error) = validate_options(options, retention) {
        return Err(error);
    }
    if options.read_only {
        return Err(
            Error::new(ErrorCode::InvalidRequest, "cannot initialize a repository read-only"),
        );
    }
    Ok(())
}

/// What a repository with these options would be written with.
pub fn proposed_intent(
    options: &RepositoryOptions,
    repository_id: RepositoryId,
    state_tree_digest: TreeFormatDigest,
    operation: OperationId,
    created_at_millis: u64,
) -> (r: InitializationIntent)
    ensures
        r.repository_id == repository_id,
        r.operation == operation,
        r.format.repository_id == repository_id,
        r.format.state_tree_format@ == options.state_tree_format@,
        r.format.state_tree_digest == state_tree_digest,
        r.format.canonical_limits == options.limits,
        r.format.idempotency_retention@ == options.idempotency_retention@,
        r.format.provider_per_key_version_limit == options.provider_per_key_version_limit,
        r.format.created_at_millis == created_at_millis,
        crate::repository::compatible(r.format, *options),
{
    InitializationIntent {
        repository_id,
        format: RepositoryFormat {
            repository_id,
            state_tree_format: to_vec(&options.state_tree_format),
            state_tree_digest,
            canonical_limits: options.limits,
            idempotency_retention: to_vec(&options.idempotency_retention),
            provider_per_key_version_limit: options.provider_per_key_version_limit,
            created_at_millis,
        },
        operation,
    }
}

/// The intent that counts: the first one that was written, whoever wrote it.
pub fn settled_intent(proposed: InitializationIntent, wrote: Creation<InitializationIntent>) -> (r: Result<
    InitializationIntent,
    Error,
>)
    ensures
        outcome(r) == match wrote {
            Creation::Applied => Ok(proposed),
            Creation::Conflict(Some(existing)) => Ok(existing),
            Creation::Conflict(None) => Err(
                fault(
                    ErrorCode::RefConflict,
                    "initialization intent create returned an empty conflict",
                ),
            ),
        },
{
    match wrote {
        Creation::Applied => Ok(proposed),
        Creation::Conflict(Some(existing)) => Ok(existing),
        Creation::Conflict(None) => Err(
            Error::new(
                ErrorCode::RefConflict,
                "initialization intent create returned an empty conflict",
            ),
        ),
    }
}

/// Refuses to go on where the format that is written is not the one that was to be written.
pub fn advertised_format(bytes: &Vec<u8>, wrote: Creation<Vec<u8>>) -> (r: Result<(), Error>)
    ensures
        outcome(r) == match wrote {
            Creation::Applied => Ok::<(), Fault>(()),
            Creation::Conflict(Some(existing)) if existing@ == bytes@ => Ok(()),
            Creation::Conflict(_) => Err(
                fault(
                    ErrorCode::RepositoryFormatConflict,
                    "a different repository format already exists",
                ),
            ),
        },
{
    match wrote {
        Creation::Applied => Ok(()),
        Creation::Conflict(found) => {
            if let Some(existing) = found {
                if bytes_eq(&existing, bytes) {
                    return Ok(());
                }
            }
            Err(
                Error::new(
                    ErrorCode::RepositoryFormatConflict,
                    "a different repository format already exists",
                ),
            )
        },
    }
}

/// Whether the default branch must be created, given what loading it came to.
pub fn needs_first_commit(loaded: Result<CommitId, Error>) -> (r: Result<bool, Error>)
    ensures
        match loaded {
            Ok(_) => r == Ok::<bool, Error>(false),
            Err(error) => if error.code == ErrorCode::InvalidRevision {
                r == Ok::<bool, Error>(true)
            } else {
                r == Err::<bool, Error>(error)
            },
        },
{
    match loaded {
        Ok(_) => Ok(false),
        Err(error) => {
            if error.code == ErrorCode::InvalidRevision {
                Ok(true)
            } else {
                Err(error)
            }
        },
    }
}

/// The format of a repository that is opened.
pub fn opened_format(found: Option<RepositoryFormat>) -> (r: Result<RepositoryFormat, Error>)
    ensures
        outcome(r) == match found {
            Some(format) => Ok(format),
            None => Err(
                fault(
                    ErrorCode::RepositoryNotInitialized,
                    "repository format marker does not exist",
                ),
            ),
        },
{
    match found {
        Some(format) => Ok(format),
        None => Err(
            Error::new(
                ErrorCode::RepositoryNotInitialized,
                "repository format marker does not exist",
            ),
        ),
    }
}

impl Repository {
    /// A repository that holds no authority yet. It may write unless it was opened for reading only.
    pub fn from_format(options: RepositoryOptions, format: RepositoryFormat) -> (r: Self)
        ensures
            r.options == options,
            r.format == format,
            r.authority.wf(),
            r.authority@.permits == Map::<ScopeView, crate::authority::AuthorityPermit>::empty(),
            r.authority@.fenced == Set::<ScopeView>::empty(),
            r.writable == !options.read_only,
            r.active_gc_epoch is None,
            r.gc_dirty_sequence == 0,
    {
        let writable = !options.read_only;
        Repository {
            options,
            format,
            authority: AuthorityRegistry::new(),
            writable,
            active_gc_epoch: None,
            gc_dirty_sequence: 0,
        }
    }

    /// The scope whose authority is acquired when the repository is opened: that of its default branch,
    /// unless it was opened for reading only.
    pub fn open_scope(&self) -> (r: Option<AuthorityScope>)
        ensures
            match r {
                None => self.options.read_only,
                Some(scope) => !self.options.read_only && scope@ == (ScopeView::Branch {
                    name: self.options.default_branch@,
                }),
            },
    {
        if self.options.read_only {
            None
        } else {
            Some(AuthorityScope::Branch { name: self.options.default_branch.clone() })
        }
    }

    /// The commit that a repository begins with: no objects, no parents, no changes.
    pub fn first_commit(
        &self,
        empty_tree: RootManifest,
        input_digest: [u8; 32],
        authority: AuthorityStamp,
    ) -> (r: BucketCommit)
        ensures
            r.state == (BucketState { objects: empty_tree, versions: empty_tree }),
            r.parents@.len() == 0,
            r.generation == CommitGeneration(0),
            r.delta.input_digest == input_digest,
            r.delta.changes@.len() == 0,
            r.delta.changes_root is None,
            r.delta.change_count == 0,
            r.node_pack is None,
            r.authority == authority,
            r.author@ == self.options.writer@,
            r.message matches Some(message) && message@ == "initialize repository"@,
            r.created_at_millis == self.format.created_at_millis,
            r.metadata@.len() == 0,
    {
        BucketCommit {
            state: BucketState { objects: empty_tree, versions: empty_tree },
            parents: Vec::new(),
            generation: CommitGeneration(0),
            delta: BucketDelta {
                input_digest,
                changes: Vec::new(),
                changes_root: None,
                change_count: 0,
            },
            node_pack: None,
            authority,
            author: self.options.writer.clone(),
            message: Some("initialize repository".to_owned()),
            created_at_millis: self.format.created_at_millis,
            metadata: Vec::new(),
        }
    }
}

} // verus!
