//! Publication: turning the mutations of a session, a put or a deletion into one commit.
use crate::error::{fault, outcome, Error, ErrorCode, Fault};
use crate::ids::{CommitGeneration, CommitId, ObjectVersionId, OperationId};
use crate::model::{
    AuthorityStamp, BucketCommit, BucketDelta, BucketState, CommitReceipt,
    LogicalObjectVersionBody, LogicalObjectVersionKind, NodePackRef, ObjectTransition,
    ObjectVersion, PayloadBinding, RootManifest, StagedMutation, TransitionView,
};
use crate::ordered::sorted;
use crate::repository::Repository;
use crate::tree::{applied, applied_one, edits, Edit, Mutation};
use crate::version_key::{law_version_keys_are_distinct, version_key, version_tree_key, ObjectVersionOrder};
use vstd::prelude::*;

verus! {

/// The most transitions that a commit lists itself; more go to a tree of their own.
pub const INLINE_COMMIT_DELTA_LIMIT: usize = 128;

/// A version that has no name yet.
#[derive(Debug)]
pub struct VersionDraft {
    pub body: LogicalObjectVersionBody,
    pub binding: Option<PayloadBinding>,
}

/// The kind of version that a mutation writes.
pub open spec fn drafted_kind(mutation: StagedMutation) -> LogicalObjectVersionKind {
    match mutation {
        StagedMutation::Put(put) => LogicalObjectVersionKind::Live {
            size: put.size,
            logical_etag: put.logical_etag,
            checksums: put.checksums,
            attributes: put.attributes,
        },
        StagedMutation::Delete { .. } => LogicalObjectVersionKind::DeleteMarker,
    }
}

/// The payload that a mutation binds.
pub open spec fn drafted_binding(mutation: StagedMutation) -> Option<PayloadBinding> {
    match mutation {
        StagedMutation::Put(put) => Some(put.binding),
        StagedMutation::Delete { .. } => None,
    }
}

/// The draft of the mutation at place `ordinal` of a commit.
pub open spec fn draft_of(
    mutation: StagedMutation,
    generation: CommitGeneration,
    ordinal: int,
    now: u64,
) -> VersionDraft {
    VersionDraft {
        body: LogicalObjectVersionBody {
            order: ObjectVersionOrder {
                commit_generation: generation,
                mutation_ordinal: ordinal as u32,
            },
            created_at_millis: now,
            kind: drafted_kind(mutation),
        },
        binding: drafted_binding(mutation),
    }
}

/// The generation of a commit on top of one of generation `base`.
pub fn next_generation(base: CommitGeneration) -> (r: Result<CommitGeneration, Error>)
    ensures
        outcome(r) == if base.0 == u64::MAX {
            Err(fault(ErrorCode::InternalInvariant, "commit generation overflow"))
        } else {
            Ok(CommitGeneration((base.0 + 1) as u64))
        },
{
    match base.0.checked_add(1) {
        Some(generation) => Ok(CommitGeneration(generation)),
        None => Err(Error::new(ErrorCode::InternalInvariant, "commit generation overflow")),
    }
}

/// The versions that a commit of this generation writes, one for each mutation, in order.
pub fn draft_versions(
    mutations: &Vec<StagedMutation>,
    generation: CommitGeneration,
    now: u64,
) -> (r: Result<Vec<VersionDraft>, Error>)
    ensures
        match r {
            Ok(drafts) => {
                &&& mutations@.len() <= u32::MAX + 1
                &&& drafts@.len() == mutations@.len()
                &&& forall|i: int|
                    0 <= i < mutations@.len() ==> #[trigger] drafts@[i] == draft_of(
                        mutations@[i],
                        generation,
                        i,
                        now,
                    )
            },
            Err(error) => mutations@.len() > u32::MAX + 1 && error@ == fault(
                ErrorCode::InvalidLimit,
                "mutation ordinal overflow",
            ),
        },
{
    let mut drafts: Vec<VersionDraft> = Vec::new();
    let mut i: usize = 0;
    while i < mutations.len()
        invariant
            i <= mutations@.len(),
            i <= u32::MAX + 1,
            drafts@.len() == i,
            forall|j: int|
                0 <= j < i ==> #[trigger] drafts@[j] == draft_of(mutations@[j], generation, j, now),
        decreases mutations.len() - i,
    {
        if i as u64 > u32::MAX as u64 {
            return Err(Error::new(ErrorCode::InvalidLimit, "mutation ordinal overflow"));
        }
        let order = ObjectVersionOrder {
            commit_generation: generation,
            mutation_ordinal: i as u32,
        };
        let (kind, binding) = match &mutations[i] {
            StagedMutation::Put(put) => (
                LogicalObjectVersionKind::Live {
                    size: put.size,
                    logical_etag: put.logical_etag.clone(),
                    checksums: put.checksums,
                    attributes: put.attributes.clone(),
                },
                Some(put.binding.copied()),
            ),
            StagedMutation::Delete { .. } => (LogicalObjectVersionKind::DeleteMarker, None),
        };
        drafts.push(
            VersionDraft {
                body: LogicalObjectVersionBody { order, created_at_millis: now, kind },
                binding,
            },
        );
        i += 1;
    }
    Ok(drafts)
}

/// What a commit writes to its two trees, and how it says what it changed.
#[derive(Debug)]
pub struct CommitPlan {
    pub object_mutations: Vec<Mutation<ObjectVersion>>,
    pub version_mutations: Vec<Mutation<ObjectVersion>>,
    pub transitions: Vec<ObjectTransition>,
    pub object_versions: Vec<ObjectVersionId>,
}

/// The version that a draft becomes under its name.
pub open spec fn named(draft: VersionDraft, id: ObjectVersionId) -> ObjectVersion {
    ObjectVersion { id, body: draft.body, binding: draft.binding }
}

/// What a version does to the tree of current objects.
pub open spec fn object_edit(key: Seq<u8>, version: ObjectVersion) -> Edit<ObjectVersion> {
    if version.body.kind is DeleteMarker {
        Edit::Delete { key }
    } else {
        Edit::Upsert { key, val: version }
    }
}

/// What a version does to the tree of all versions.
pub open spec fn version_edit(key: Seq<u8>, version: ObjectVersion) -> Edit<ObjectVersion> {
    Edit::Upsert { key: version_key(key, version.body.order, version.id), val: version }
}

/// Whether `plan` writes `versions` under `keys`, where `previous` held before.
pub open spec fn plans(
    plan: CommitPlan,
    keys: Seq<Seq<u8>>,
    versions: Seq<ObjectVersion>,
    previous: Seq<Option<ObjectVersionId>>,
) -> bool {
    &&& edits(plan.object_mutations@) == Seq::new(
        keys.len(),
        |i: int| object_edit(keys[i], versions[i]),
    )
    &&& edits(plan.version_mutations@) == Seq::new(
        keys.len(),
        |i: int| version_edit(keys[i], versions[i]),
    )
    &&& plan.transitions@.len() == keys.len()
    &&& forall|i: int|
        0 <= i < keys.len() ==> (#[trigger] plan.transitions@[i])@ == (TransitionView {
            key: keys[i],
            previous: previous[i],
            next: versions[i].id,
            delete_marker: versions[i].body.kind is DeleteMarker,
        })
    &&& plan.object_versions@ == Seq::new(keys.len(), |i: int| versions[i].id)
}

/// The keys of a list of mutations.
pub open spec fn keys_of(mutations: Seq<StagedMutation>) -> Seq<Seq<u8>> {
    mutations.map_values(|m: StagedMutation| m.spec_key())
}

/// The versions that drafts become under their names.
pub open spec fn named_all(drafts: Seq<VersionDraft>, ids: Seq<ObjectVersionId>) -> Seq<
    ObjectVersion,
> {
    Seq::new(drafts.len(), |i: int| named(drafts[i], ids[i]))
}

/// What a commit writes, once its versions have names. Each mutation goes with the draft, the name
/// and the previous version at its place.
pub fn plan_commit(
    mutations: &Vec<StagedMutation>,
    drafts: Vec<VersionDraft>,
    ids: &Vec<ObjectVersionId>,
    previous: &Vec<Option<ObjectVersionId>>,
) -> (r: CommitPlan)
    requires
        drafts@.len() == mutations@.len(),
        ids@.len() == mutations@.len(),
        previous@.len() == mutations@.len(),
    ensures
        plans(r, keys_of(mutations@), named_all(drafts@, ids@), previous@),
{
    let ghost keys = keys_of(mutations@);
    let ghost versions = named_all(drafts@, ids@);
    let mut object_mutations: Vec<Mutation<ObjectVersion>> = Vec::new();
    let mut version_mutations: Vec<Mutation<ObjectVersion>> = Vec::new();
    let mut transitions: Vec<ObjectTransition> = Vec::new();
    let mut object_versions: Vec<ObjectVersionId> = Vec::new();
    for draft in it: drafts
        invariant
            it.seq() == drafts@,
            keys == keys_of(mutations@),
            versions == named_all(drafts@, ids@),
            drafts@.len() == mutations@.len(),
            ids@.len() == mutations@.len(),
            previous@.len() == mutations@.len(),
            object_versions@.len() == it.index(),
            edits(object_mutations@) == Seq::new(
                it.index() as nat,
                |i: int| object_edit(keys[i], versions[i]),
            ),
            edits(version_mutations@) == Seq::new(
                it.index() as nat,
                |i: int| version_edit(keys[i], versions[i]),
            ),
            transitions@.len() == it.index(),
            forall|i: int|
                0 <= i < it.index() ==> (#[trigger] transitions@[i])@ == (TransitionView {
                    key: keys[i],
                    previous: previous@[i],
                    next: versions[i].id,
                    delete_marker: versions[i].body.kind is DeleteMarker,
                }),
            object_versions@ == Seq::new(it.index() as nat, |i: int| versions[i].id),
    {
        let ghost n = it.index();
        let i: usize = object_versions.len();
        let key = mutations[i].key();
        let version = ObjectVersion { id: ids[i], body: draft.body, binding: draft.binding };
        assert(version == versions[n] && key@ == keys[n]);
        let delete_marker = version.body.kind.is_delete_marker();
        let object_mutation = if delete_marker {
            Mutation::Delete { key: crate::bytes::to_vec(key) }
        } else {
            Mutation::Upsert { key: crate::bytes::to_vec(key), val: version.copied() }
        };
        let ghost before = object_mutations@;
        object_mutations.push(object_mutation);
        proof {
            crate::tree::lemma_edits_push(before, object_mutation);
            assert(edits(object_mutations@) =~= Seq::new(
                (n + 1) as nat,
                |i: int| object_edit(keys[i], versions[i]),
            ));
        }
        transitions.push(
            ObjectTransition {
                key: crate::bytes::to_vec(key),
                previous: previous[i],
                next: version.id,
                delete_marker,
            },
        );
        object_versions.push(version.id);
        assert(object_versions@ =~= Seq::new((n + 1) as nat, |i: int| versions[i].id));
        let version_mutation = Mutation::Upsert {
            key: version_tree_key(key, version.body.order, version.id),
            val: version,
        };
        let ghost before = version_mutations@;
        version_mutations.push(version_mutation);
        proof {
            crate::tree::lemma_edits_push(before, version_mutation);
            assert(edits(version_mutations@) =~= Seq::new(
                (n + 1) as nat,
                |i: int| version_edit(keys[i], versions[i]),
            ));
        }
    }
    CommitPlan { object_mutations, version_mutations, transitions, object_versions }
}

/// Where a commit says what it changed.
#[derive(Debug)]
pub struct DeltaPlacement {
    /// The transitions that the commit lists itself.
    pub inline: Vec<ObjectTransition>,
    /// The transitions that go to a tree of their own.
    pub external: Option<Vec<Mutation<ObjectTransition>>>,
    /// How many transitions went to the tree.
    pub change_count: u64,
}

/// Lists the transitions in the commit, or writes them to a tree of their own when there are many.
pub fn place_delta(transitions: Vec<ObjectTransition>) -> (r: DeltaPlacement)
    ensures
        transitions@.len() <= INLINE_COMMIT_DELTA_LIMIT ==> r.inline@ == transitions@
            && r.external is None && r.change_count == 0,
        transitions@.len() > INLINE_COMMIT_DELTA_LIMIT ==> {
            &&& r.inline@.len() == 0
            &&& r.change_count == transitions@.len()
            &&& r.external matches Some(mutations) && edits(mutations@) == Seq::new(
                transitions@.len(),
                |i: int| Edit::Upsert { key: transitions@[i].key@, val: transitions@[i] },
            )
        },
{
    if transitions.len() <= INLINE_COMMIT_DELTA_LIMIT {
        return DeltaPlacement { inline: transitions, external: None, change_count: 0 };
    }
    let change_count: u64 = transitions.len() as u64;
    let mut mutations: Vec<Mutation<ObjectTransition>> = Vec::new();
    for transition in it: transitions
        invariant
            it.seq() == transitions@,
            edits(mutations@) == Seq::new(
                it.index() as nat,
                |i: int| Edit::Upsert { key: transitions@[i].key@, val: transitions@[i] },
            ),
    {
        let ghost n = it.index();
        let ghost before = mutations@;
        let mutation = Mutation::Upsert {
            key: crate::bytes::to_vec(&transition.key),
            val: transition,
        };
        mutations.push(mutation);
        proof {
            crate::tree::lemma_edits_push(before, mutation);
            assert(edits(mutations@) =~= Seq::new(
                (n + 1) as nat,
                |i: int| Edit::Upsert { key: transitions@[i].key@, val: transitions@[i] },
            ));
        }
    }
    DeltaPlacement { inline: Vec::new(), external: Some(mutations), change_count }
}

/// What goes into a commit besides its parents and generation.
#[derive(Debug)]
pub struct CommitParts {
    pub state: BucketState,
    pub input_digest: [u8; 32],
    pub changes: Vec<ObjectTransition>,
    pub changes_root: Option<RootManifest>,
    pub change_count: u64,
    pub node_pack: Option<NodePackRef>,
    pub authority: AuthorityStamp,
    pub message: String,
    pub created_at_millis: u64,
}

impl Repository {
    /// A commit on top of `parent`, in this process's name.
    pub fn build_commit(
        &self,
        parent: CommitId,
        generation: CommitGeneration,
        parts: CommitParts,
    ) -> (r: BucketCommit)
        ensures
            r.state == parts.state,
            r.parents@ == seq![parent],
            r.generation == generation,
            r.delta == (BucketDelta {
                input_digest: parts.input_digest,
                changes: parts.changes,
                changes_root: parts.changes_root,
                change_count: parts.change_count,
            }),
            r.node_pack == parts.node_pack,
            r.authority == parts.authority,
            r.author == self.options.writer,
            r.message == Some(parts.message),
            r.created_at_millis == parts.created_at_millis,
            r.metadata@.len() == 0,
    {
        let mut parents: Vec<CommitId> = Vec::new();
        parents.push(parent);
        assert(parents@ =~= seq![parent]);
        BucketCommit {
            state: parts.state,
            parents,
            generation,
            delta: BucketDelta {
                input_digest: parts.input_digest,
                changes: parts.changes,
                changes_root: parts.changes_root,
                change_count: parts.change_count,
            },
            node_pack: parts.node_pack,
            authority: parts.authority,
            author: self.options.writer.clone(),
            message: Some(parts.message),
            created_at_millis: parts.created_at_millis,
            metadata: Vec::new(),
        }
    }
}

/// The receipt of a commit that was just published.
pub fn new_receipt(
    id: CommitId,
    operation: OperationId,
    branch: &str,
    parents: Vec<CommitId>,
    object_versions: Vec<ObjectVersionId>,
) -> (r: CommitReceipt)
    ensures
        r.id == id,
        r.operation == operation,
        r.branch@ == branch@,
        r.parents == parents,
        r.changed_keys == object_versions@.len(),
        r.object_versions == object_versions,
        !r.idempotent_replay,
{
    CommitReceipt {
        id,
        operation,
        branch: branch.to_owned(),
        parents,
        changed_keys: object_versions.len() as u64,
        object_versions,
        idempotent_replay: false,
    }
}

/// The contents of a receipt.
pub struct ReceiptView {
    pub id: CommitId,
    pub operation: OperationId,
    pub branch: Seq<char>,
    pub parents: Seq<CommitId>,
    pub changed_keys: int,
    pub object_versions: Seq<ObjectVersionId>,
    pub idempotent_replay: bool,
}

/// The contents of a receipt.
pub open spec fn receipt_view(receipt: CommitReceipt) -> ReceiptView {
    ReceiptView {
        id: receipt.id,
        operation: receipt.operation,
        branch: receipt.branch@,
        parents: receipt.parents@,
        changed_keys: receipt.changed_keys as int,
        object_versions: receipt.object_versions@,
        idempotent_replay: receipt.idempotent_replay,
    }
}

/// The error of an operation whose name was used for another request.
pub open spec fn reused_operation(operation: OperationId) -> Fault {
    fault(
        ErrorCode::IdempotencyConflict,
        "repository operation ID was reused with different input",
    ).of_operation(operation)
}

/// The answer to an operation that was published before as `commit`, under the name `target`.
pub open spec fn replay_answer(
    branch: Seq<char>,
    operation: OperationId,
    input_digest: Seq<u8>,
    target: CommitId,
    commit: BucketCommit,
) -> Result<ReceiptView, Fault> {
    if commit.delta.input_digest@ != input_digest {
        Err(reused_operation(operation))
    } else {
        Ok(
            ReceiptView {
                id: target,
                operation,
                branch,
                parents: commit.parents@,
                changed_keys: commit.delta.logical_changes() as int,
                object_versions: Seq::new(
                    commit.delta.changes@.len(),
                    |i: int| commit.delta.changes@[i].next,
                ),
                idempotent_replay: true,
            },
        )
    }
}

/// Answers an operation that was published before: with its receipt when the input is the same, with
/// an error when it is not.
pub fn reconcile_operation(
    branch: &str,
    operation: OperationId,
    input_digest: &[u8; 32],
    target: CommitId,
    commit: BucketCommit,
) -> (r: Result<CommitReceipt, Error>)
    ensures
        match r {
            Ok(receipt) => {
                &&& commit.delta.input_digest@ == input_digest@
                &&& receipt.id == target
                &&& receipt.operation == operation
                &&& receipt.branch@ == branch@
                &&& receipt.parents == commit.parents
                &&& receipt.changed_keys == commit.delta.logical_changes()
                &&& receipt.object_versions@ == Seq::new(
                    commit.delta.changes@.len(),
                    |i: int| commit.delta.changes@[i].next,
                )
                &&& receipt.idempotent_replay
            },
            Err(error) => commit.delta.input_digest@ != input_digest@ && error@ == reused_operation(
                operation,
            ),
        },
        replay_answer(branch@, operation, input_digest@, target, commit) == match r {
            Ok(receipt) => Ok(receipt_view(receipt)),
            Err(error) => Err(error@),
        },
{
    if !crate::bytes::bytes_eq(&commit.delta.input_digest, input_digest) {
        return Err(
            Error::new(
                ErrorCode::IdempotencyConflict,
                "repository operation ID was reused with different input",
            ).operation(operation),
        );
    }
    let changed_keys = commit.delta.logical_change_count();
    let mut object_versions: Vec<ObjectVersionId> = Vec::new();
    let mut i: usize = 0;
    while i < commit.delta.changes.len()
        invariant
            i <= commit.delta.changes@.len(),
            object_versions@ == Seq::new(i as nat, |j: int| commit.delta.changes@[j].next),
        decreases commit.delta.changes.len() - i,
    {
        object_versions.push(commit.delta.changes[i].next);
        assert(object_versions@ =~= Seq::new(
            (i + 1) as nat,
            |j: int| commit.delta.changes@[j].next,
        ));
        i += 1;
    }
    Ok(
        CommitReceipt {
            id: target,
            operation,
            branch: branch.to_owned(),
            parents: commit.parents,
            changed_keys,
            object_versions,
            idempotent_replay: true,
        },
    )
}

/// How a publication ended.
#[derive(Debug)]
pub enum PublicationEnd<R> {
    /// The commit is the branch's head: register its node pack and answer.
    Published(R),
    /// The answer was lost, but the operation is found published: register its node pack and answer.
    Replayed(R),
    /// Nothing is known to be published: the branch was fenced.
    Fenced(Error),
    /// Looking the operation up failed.
    Failed(Error),
}

impl Repository {
    /// Ends a publication. `published` is the publisher's answer; where that is an error,
    /// `reconciled` is what looking the operation up gave. A branch whose publication may or may not
    /// have happened is fenced.
    pub fn end_publication<R>(
        &mut self,
        branch: &str,
        published: Result<R, Error>,
        reconciled: Result<Option<R>, Error>,
    ) -> (r: PublicationEnd<R>)
        requires
            old(self).authority.wf(),
        ensures
            final(self).authority.wf(),
            crate::authority::same_but_authority(*final(self), *old(self)),
            match (published, reconciled) {
                (Ok(receipt), _) => r == PublicationEnd::Published(receipt) && *final(self) == *old(
                    self,
                ),
                (Err(_), Err(error)) => r == PublicationEnd::<R>::Failed(error) && *final(self)
                    == *old(self),
                (Err(_), Ok(Some(receipt))) => r == PublicationEnd::Replayed(receipt)
                    && *final(self) == *old(self),
                (Err(error), Ok(None)) => r == PublicationEnd::<R>::Fenced(error)
                    && final(self).authority@ == crate::authority::with_fence(
                    old(self).authority@,
                    crate::model::ScopeView::Branch { name: branch@ },
                ),
            },
    {
        match published {
            Ok(receipt) => PublicationEnd::Published(receipt),
            Err(error) => match reconciled {
                Err(lookup) => PublicationEnd::Failed(lookup),
                Ok(Some(receipt)) => PublicationEnd::Replayed(receipt),
                Ok(None) => {
                    self.fence_branch(branch);
                    PublicationEnd::Fenced(error)
                },
            },
        }
    }
}

/// Whether no key occurs twice.
pub open spec fn distinct_keys(keys: Seq<Seq<u8>>) -> bool {
    forall|i: int, j: int| 0 <= i < j < keys.len() ==> #[trigger] keys[i] != #[trigger] keys[j]
}

/// After a commit the tree of current objects holds each written version under its key, lacks each
/// deleted key, and is otherwise what it was.
pub proof fn law_commit_changes_just_its_keys(
    objects: Map<Seq<u8>, ObjectVersion>,
    keys: Seq<Seq<u8>>,
    versions: Seq<ObjectVersion>,
)
    requires
        distinct_keys(keys),
        versions.len() == keys.len(),
    ensures
        ({
            let after = applied(
                objects,
                Seq::new(keys.len(), |i: int| object_edit(keys[i], versions[i])),
            );
            &&& forall|i: int|
                0 <= i < keys.len() ==> if versions[i].body.kind is DeleteMarker {
                    !after.contains_key(#[trigger] keys[i])
                } else {
                    after.contains_pair(#[trigger] keys[i], versions[i])
                }
            &&& forall|k: Seq<u8>|
                !keys.contains(k) ==> (#[trigger] after.contains_key(k) == objects.contains_key(k)
                    && after[k] == objects[k])
        }),
    decreases keys.len(),
{
    let changes = Seq::new(keys.len(), |i: int| object_edit(keys[i], versions[i]));
    let after = applied(objects, changes);
    if keys.len() > 0 {
        let n = keys.len() - 1;
        let fewer = keys.drop_last();
        assert(distinct_keys(fewer)) by {
            assert forall|i: int, j: int| 0 <= i < j < fewer.len() implies #[trigger] fewer[i]
                != #[trigger] fewer[j] by {
                assert(fewer[i] == keys[i] && fewer[j] == keys[j]);
            }
        }
        law_commit_changes_just_its_keys(objects, fewer, versions.drop_last());
        let before = applied(
            objects,
            Seq::new(fewer.len(), |i: int| object_edit(fewer[i], versions.drop_last()[i])),
        );
        assert(changes.drop_last() =~= Seq::new(
            fewer.len(),
            |i: int| object_edit(fewer[i], versions.drop_last()[i]),
        ));
        assert(after == applied_one(before, object_edit(keys[n], versions[n])));
        assert forall|i: int| 0 <= i < keys.len() implies if versions[i].body.kind is DeleteMarker {
            !after.contains_key(#[trigger] keys[i])
        } else {
            after.contains_pair(#[trigger] keys[i], versions[i])
        } by {
            if i < n {
                assert(fewer[i] == keys[i]);
                assert(keys[i] != keys[n]);
            }
        }
        assert forall|k: Seq<u8>| !keys.contains(k) implies (#[trigger] after.contains_key(k)
            == objects.contains_key(k) && after[k] == objects[k]) by {
            assert(!fewer.contains(k)) by {
                if fewer.contains(k) {
                    let i = choose|i: int| 0 <= i < fewer.len() && fewer[i] == k;
                    assert(keys[i] == k);
                }
            }
            assert(keys[n] != k);
            assert(before.contains_key(k) == objects.contains_key(k));
        }
    }
}

/// What was put is read back, and what was deleted is gone: after a commit the key of each of its puts
/// holds a live version with the size, tag, digests and attributes that were put, bound to the payload that
/// was put; and the key of each of its deletions holds nothing.
pub proof fn law_a_read_gives_back_the_write(
    objects: Map<Seq<u8>, ObjectVersion>,
    mutations: Seq<StagedMutation>,
    ids: Seq<ObjectVersionId>,
    generation: CommitGeneration,
    now: u64,
    i: int,
)
    requires
        sorted(mutations),
        ids.len() == mutations.len(),
        0 <= i < mutations.len(),
    ensures
        ({
            let drafts = Seq::new(
                mutations.len(),
                |j: int| draft_of(mutations[j], generation, j, now),
            );
            let versions = named_all(drafts, ids);
            let keys = keys_of(mutations);
            let after = applied(
                objects,
                Seq::new(keys.len(), |j: int| object_edit(keys[j], versions[j])),
            );
            let key = mutations[i].spec_key();
            match mutations[i] {
                StagedMutation::Put(put) => {
                    &&& after.contains_key(key)
                    &&& after[key].id == ids[i]
                    &&& after[key].body.kind == drafted_kind(mutations[i])
                    &&& after[key].body.kind == (LogicalObjectVersionKind::Live {
                        size: put.size,
                        logical_etag: put.logical_etag,
                        checksums: put.checksums,
                        attributes: put.attributes,
                    })
                    &&& after[key].binding == Some(put.binding)
                    &&& after[key].body.created_at_millis == now
                    &&& after[key].body.order.commit_generation == generation
                },
                StagedMutation::Delete { .. } => !after.contains_key(key),
            }
        }),
{
    let drafts = Seq::new(mutations.len(), |j: int| draft_of(mutations[j], generation, j, now));
    let versions = named_all(drafts, ids);
    let keys = keys_of(mutations);
    law_sorted_mutations_have_distinct_keys(mutations);
    law_commit_changes_just_its_keys(objects, keys, versions);
    assert(keys[i] == mutations[i].spec_key());
    assert(versions[i] == named(drafts[i], ids[i]));
}

/// Whether every entry of a version tree was written by a commit of generation `limit` or less.
pub open spec fn written_by(versions: Map<Seq<u8>, ObjectVersion>, limit: u64) -> bool {
    forall|k: Seq<u8>| #[trigger]
        versions.contains_key(k) ==> exists|key: Seq<u8>, order: ObjectVersionOrder, id: ObjectVersionId|
            k == #[trigger] version_key(key, order, id) && order.commit_generation.0 <= limit
}

/// A commit only adds to the tree of versions: whatever was there stays, and its own versions are
/// all found under the new generation.
pub proof fn law_versions_are_never_lost(
    tree: Map<Seq<u8>, ObjectVersion>,
    base: CommitGeneration,
    keys: Seq<Seq<u8>>,
    versions: Seq<ObjectVersion>,
)
    requires
        written_by(tree, base.0),
        base.0 < u64::MAX,
        versions.len() == keys.len(),
        forall|i: int|
            0 <= i < versions.len() ==> (#[trigger] versions[i]).body.order.commit_generation.0
                == base.0 + 1,
    ensures
        ({
            let after = applied(
                tree,
                Seq::new(keys.len(), |i: int| version_edit(keys[i], versions[i])),
            );
            &&& tree.submap_of(after)
            &&& written_by(after, (base.0 + 1) as u64)
            &&& forall|i: int|
                0 <= i < keys.len() ==> after.contains_key(
                    #[trigger] version_key(keys[i], versions[i].body.order, versions[i].id),
                )
        }),
    decreases keys.len(),
{
    let changes = Seq::new(keys.len(), |i: int| version_edit(keys[i], versions[i]));
    let after = applied(tree, changes);
    if keys.len() == 0 {
        assert(changes =~= Seq::<Edit<ObjectVersion>>::empty());
        assert forall|k: Seq<u8>| #[trigger] after.contains_key(k) implies exists|
            key: Seq<u8>,
            order: ObjectVersionOrder,
            id: ObjectVersionId,
        |
            k == #[trigger] version_key(key, order, id) && order.commit_generation.0 <= base.0 + 1 by {
            assert(tree.contains_key(k));
        }
    } else {
        let n = keys.len() - 1;
        let fewer = keys.drop_last();
        law_versions_are_never_lost(tree, base, fewer, versions.drop_last());
        let before_changes = Seq::new(
            fewer.len(),
            |i: int| version_edit(fewer[i], versions.drop_last()[i]),
        );
        let before = applied(tree, before_changes);
        assert(changes.drop_last() =~= before_changes);
        let at = version_key(keys[n], versions[n].body.order, versions[n].id);
        assert(after == before.insert(at, versions[n]));
        assert(!tree.contains_key(at)) by {
            if tree.contains_key(at) {
                let (key, order, id) = choose|
                    key: Seq<u8>,
                    order: ObjectVersionOrder,
                    id: ObjectVersionId,
                |
                    at == #[trigger] version_key(key, order, id) && order.commit_generation.0
                        <= base.0;
                law_version_keys_are_distinct(
                    keys[n],
                    versions[n].body.order,
                    versions[n].id,
                    key,
                    order,
                    id,
                );
            }
        }
        assert forall|k: Seq<u8>| #[trigger] after.contains_key(k) implies exists|
            key: Seq<u8>,
            order: ObjectVersionOrder,
            id: ObjectVersionId,
        |
            k == #[trigger] version_key(key, order, id) && order.commit_generation.0 <= base.0 + 1 by {
            if k != at {
                assert(before.contains_key(k));
            }
        }
        assert forall|i: int| 0 <= i < keys.len() implies after.contains_key(
            #[trigger] version_key(keys[i], versions[i].body.order, versions[i].id),
        ) by {
            if i < n {
                assert(fewer[i] == keys[i] && versions.drop_last()[i] == versions[i]);
                assert(before.contains_key(
                    version_key(fewer[i], versions.drop_last()[i].body.order, versions.drop_last()[i].id),
                ));
            }
        }
    }
}

/// The keys of sorted mutations are distinct.
pub proof fn law_sorted_mutations_have_distinct_keys(mutations: Seq<StagedMutation>)
    requires
        sorted(mutations),
    ensures
        distinct_keys(keys_of(mutations)),
{
    let keys = keys_of(mutations);
    assert forall|i: int, j: int| 0 <= i < j < keys.len() implies #[trigger] keys[i]
        != #[trigger] keys[j] by {
        assert(crate::bytes::lex_lt(
            crate::ordered::Keyed::sort_key(&mutations[i]),
            crate::ordered::Keyed::sort_key(&mutations[j]),
        ));
        crate::bytes::lemma_lex_irreflexive(keys[i]);
    }
}

/// The version that a staged change becomes holds what was staged and nothing else: a put becomes a live version
/// with its size, tag, digests and attributes, bound to its payload; a deletion becomes a mark that is bound to
/// nothing. It is of the commit's generation and time, and of its own place in the commit.
pub proof fn law_draft_is_what_was_staged(
    mutation: StagedMutation,
    generation: CommitGeneration,
    ordinal: int,
    now: u64,
    id: ObjectVersionId,
)
    requires
        0 <= ordinal <= u32::MAX,
    ensures
        ({
            let draft = draft_of(mutation, generation, ordinal, now);
            let version = named(draft, id);
            &&& draft.body.order.commit_generation == generation
            &&& draft.body.order.mutation_ordinal == ordinal
            &&& draft.body.created_at_millis == now
            &&& mutation matches StagedMutation::Put(put) ==> draft.body.kind == (
            LogicalObjectVersionKind::Live {
                size: put.size,
                logical_etag: put.logical_etag,
                checksums: put.checksums,
                attributes: put.attributes,
            }) && draft.binding == Some(put.binding)
            &&& mutation is Delete ==> draft.body.kind is DeleteMarker && draft.binding is None
            &&& version.id == id
            &&& version.body == draft.body
            &&& version.binding == draft.binding
        }),
{
}

/// A live version takes its key in the tree of objects and a deletion takes the key away; either way the version
/// itself is written to the tree of versions, under a key of its own.
pub proof fn law_version_is_written_under_its_keys(
    objects: Map<Seq<u8>, ObjectVersion>,
    versions: Map<Seq<u8>, ObjectVersion>,
    key: Seq<u8>,
    version: ObjectVersion,
)
    ensures
        version.body.kind is Live ==> applied_one(objects, object_edit(key, version)) == objects.insert(
            key,
            version,
        ),
        version.body.kind is DeleteMarker ==> applied_one(objects, object_edit(key, version))
            == objects.remove(key),
        applied_one(versions, version_edit(key, version)) == versions.insert(
            version_key(key, version.body.order, version.id),
            version,
        ),
{
}

/// An operation that is asked for again with the input it had is answered with the commit it made; asked for
/// with another input it is refused.
pub proof fn law_replay_answers_only_the_same_input(
    branch: Seq<char>,
    operation: OperationId,
    input_digest: Seq<u8>,
    target: CommitId,
    commit: BucketCommit,
)
    ensures
        replay_answer(branch, operation, input_digest, target, commit) is Ok
            <==> commit.delta.input_digest@ == input_digest,
        replay_answer(branch, operation, input_digest, target, commit) matches Ok(receipt) ==> {
            &&& receipt.id == target
            &&& receipt.operation == operation
            &&& receipt.branch == branch
            &&& receipt.parents == commit.parents@
            &&& receipt.idempotent_replay
            &&& commit.delta.changes_root is Some ==> receipt.changed_keys == commit.delta.change_count
            &&& commit.delta.changes_root is None ==> receipt.changed_keys
                == commit.delta.changes@.len()
            &&& receipt.object_versions.len() == commit.delta.changes@.len()
            &&& forall|i: int|
                0 <= i < commit.delta.changes@.len() ==> #[trigger] receipt.object_versions[i]
                    == commit.delta.changes@[i].next
        },
{
}

/// A plan of a commit says of each key what is written: the live version to the objects or the key taken from them, the
/// version to the versions, and the transition from the version before to the one after.
pub proof fn law_plan_writes_each_key(
    plan: CommitPlan,
    keys: Seq<Seq<u8>>,
    versions: Seq<ObjectVersion>,
    previous: Seq<Option<ObjectVersionId>>,
    i: int,
)
    requires
        plans(plan, keys, versions, previous),
        0 <= i < keys.len(),
    ensures
        edits(plan.object_mutations@).len() == keys.len(),
        edits(plan.version_mutations@).len() == keys.len(),
        plan.transitions@.len() == keys.len(),
        plan.object_versions@.len() == keys.len(),
        versions[i].body.kind is DeleteMarker ==> edits(plan.object_mutations@)[i] == (Edit::<
            ObjectVersion,
        >::Delete { key: keys[i] }),
        versions[i].body.kind is Live ==> edits(plan.object_mutations@)[i] == (Edit::Upsert {
            key: keys[i],
            val: versions[i],
        }),
        edits(plan.version_mutations@)[i] == (Edit::Upsert {
            key: version_key(keys[i], versions[i].body.order, versions[i].id),
            val: versions[i],
        }),
        plan.transitions@[i]@.key == keys[i],
        plan.transitions@[i]@.previous == previous[i],
        plan.transitions@[i]@.next == versions[i].id,
        plan.transitions@[i]@.delete_marker == (versions[i].body.kind is DeleteMarker),
        plan.object_versions@[i] == versions[i].id,
{
}

/// A receipt says what was published: the commit and its parents, the operation, the branch, how many keys were changed
/// and by which versions, and whether it was published before.
pub proof fn law_receipt_says_what_was_published(receipt: CommitReceipt)
    ensures
        receipt_view(receipt).id == receipt.id,
        receipt_view(receipt).operation == receipt.operation,
        receipt_view(receipt).branch == receipt.branch@,
        receipt_view(receipt).parents == receipt.parents@,
        receipt_view(receipt).changed_keys == receipt.changed_keys,
        receipt_view(receipt).object_versions == receipt.object_versions@,
        receipt_view(receipt).idempotent_replay == receipt.idempotent_replay,
{
}

/// The keys of some mutations are theirs, and the versions of some drafts are the drafts under their names, one for one
/// and in order.
pub proof fn law_keys_and_versions_go_in_order(
    mutations: Seq<StagedMutation>,
    drafts: Seq<VersionDraft>,
    ids: Seq<ObjectVersionId>,
    i: int,
)
    ensures
        keys_of(mutations).len() == mutations.len(),
        0 <= i < mutations.len() ==> keys_of(mutations)[i] == mutations[i].spec_key(),
        named_all(drafts, ids).len() == drafts.len(),
        0 <= i < drafts.len() ==> named_all(drafts, ids)[i] == (ObjectVersion {
            id: ids[i],
            body: drafts[i].body,
            binding: drafts[i].binding,
        }),
{
}

} // verus!
