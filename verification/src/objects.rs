//! Objects as callers see them: whole, in part, copied and deleted.
use crate::error::{fault, outcome, Error, ErrorCode, Fault};
use crate::ids::CommitId;
use crate::model::{
    is_bound_object, LogicalObjectVersionKind, ObjectVersion, PayloadBinding, PhysicalMetadata,
    PhysicalVersion, StagedMutation, StagedPut,
};
use crate::repository::{invalid_key, Repository};
use vstd::prelude::*;

verus! {

/// An object with its bytes, as a snapshot holds it.
#[derive(Clone, Debug, PartialEq, Eq)]
pub struct ObjectData {
    pub key: Vec<u8>,
    pub version: ObjectVersion,
    pub bytes: Vec<u8>,
    pub snapshot: CommitId,
}

/// The places from `first` to `last`, both counted.
#[derive(Clone, Copy, Debug, PartialEq, Eq, Structural)]
pub struct ByteRange {
    pub first: u64,
    pub last: u64,
}

/// Some bytes of an object.
#[derive(Clone, Debug, PartialEq, Eq)]
pub struct ObjectRangeData {
    pub key: Vec<u8>,
    pub version: ObjectVersion,
    pub bytes: Vec<u8>,
    pub snapshot: CommitId,
    pub range: ByteRange,
}

/// An object without its bytes.
#[derive(Clone, Debug, PartialEq, Eq)]
pub struct ObjectSummary {
    pub key: Vec<u8>,
    pub version: ObjectVersion,
}

/// Where the bytes of an object lie. `historical` says that the object was asked for by snapshot.
pub fn payload_of(version: &ObjectVersion, historical: bool) -> (r: Result<PayloadBinding, Error>)
    ensures
        outcome(r) == match version.binding {
            Some(binding) => Ok(binding),
            None => Err(
                fault(
                    ErrorCode::CorruptCommit,
                    if historical {
                        "live historical object has no immutable payload binding"
                    } else {
                        "live object has no immutable payload binding"
                    },
                ),
            ),
        },
{
    match &version.binding {
        Some(binding) => Ok(binding.copied()),
        None => {
            if historical {
                Err(
                    Error::new(
                        ErrorCode::CorruptCommit,
                        "live historical object has no immutable payload binding",
                    ),
                )
            } else {
                Err(
                    Error::new(
                        ErrorCode::CorruptCommit,
                        "live object has no immutable payload binding",
                    ),
                )
            }
        },
    }
}

/// Which bytes are read for a range of an object.
#[derive(Clone, Debug)]
pub struct RangePlan {
    /// The places within the object.
    pub logical: ByteRange,
    /// The places within the physical object.
    pub physical: ByteRange,
    /// The physical version that is read, where the provider names versions.
    pub version: Option<PhysicalVersion>,
}

/// The last place of a range that is cut off at the end of an object.
pub open spec fn clipped_end(end: u64, size: u64) -> u64 {
    if end < size {
        end
    } else {
        (size - 1) as u64
    }
}

/// What is wrong with a range of an object.
pub open spec fn range_fault(version: ObjectVersion, expected_path: Seq<char>, start: u64, end: u64) -> Option<
    Fault,
> {
    if start > end {
        Some(fault(ErrorCode::InvalidRange, "range start exceeds end"))
    } else {
        extent_fault(version, expected_path, start, end)
    }
}

/// What is wrong with a range of an object that does not end before it starts.
pub open spec fn extent_fault(version: ObjectVersion, expected_path: Seq<char>, start: u64, end: u64) -> Option<
    Fault,
> {
    match version.body.kind {
        LogicalObjectVersionKind::DeleteMarker => Some(
            fault(ErrorCode::CorruptCommit, "current object resolves to a delete marker"),
        ),
        LogicalObjectVersionKind::Live { size, .. } => if start >= size {
            Some(fault(ErrorCode::InvalidRange, "range starts beyond the object payload"))
        } else {
            match version.binding {
                None => Some(
                    fault(ErrorCode::CorruptCommit, "live object has no payload binding"),
                ),
                Some(binding) => if binding.path@ != expected_path {
                    Some(
                        fault(
                            ErrorCode::CorruptContent,
                            "payload binding path does not match its checksum",
                        ),
                    )
                } else {
                    match binding.pack_range {
                        None => None,
                        Some((offset, pack_end)) => if offset + start > u64::MAX {
                            Some(fault(ErrorCode::InvalidRange, "packed payload range overflow"))
                        } else if offset + clipped_end(end, size) > pack_end {
                            Some(
                                fault(
                                    ErrorCode::CorruptContent,
                                    "packed payload range exceeds its logical extent",
                                ),
                            )
                        } else {
                            None
                        },
                    }
                },
            }
        },
    }
}

/// Finds out which bytes to read for a range of an object. The range is cut off at the end of the object,
/// and moved to where the object lies if it shares its physical object with others.
pub fn get_object_range(version: &ObjectVersion, expected_path: &str, start: u64, end: u64) -> (r: Result<
    RangePlan,
    Error,
>)
    ensures
        match r {
            Err(error) => range_fault(*version, expected_path@, start, end) == Some(error@),
            Ok(plan) => {
                let binding = version.binding->0;
                let last = clipped_end(end, version.body.kind->size);
                let offset = match binding.pack_range {
                    Some((offset, _)) => offset,
                    None => 0,
                };
                &&& range_fault(*version, expected_path@, start, end) is None
                &&& plan.logical == (ByteRange { first: start, last })
                &&& plan.physical == (ByteRange {
                    first: (offset + start) as u64,
                    last: (offset + last) as u64,
                })
                &&& plan.version == match binding.provider_version_id {
                    Some(version_id) => Some(PhysicalVersion::Versioned { version_id }),
                    None => None,
                }
            },
        },
        r matches Ok(plan) ==> version.body.kind matches LogicalObjectVersionKind::Live { size, .. } && {
            &&& start <= end && start < size
            &&& plan.logical.first == start
            &&& end < size ==> plan.logical.last == end
            &&& end >= size ==> plan.logical.last == size - 1
            &&& plan.physical.last - plan.physical.first == plan.logical.last - plan.logical.first
            &&& version.binding matches Some(binding) && binding.path@ == expected_path@ && (
            match binding.pack_range {
                None => plan.physical == plan.logical,
                Some((offset, pack_end)) => plan.physical.first == offset + start
                    && plan.physical.last <= pack_end,
            })
        },
        start > end ==> r is Err,
        version.body.kind is Live && start <= end && start < version.body.kind->size && (
        version.binding matches Some(binding) && binding.path@ == expected_path@
            && binding.pack_range is None) ==> r is Ok,
{
    if start > end {
        return Err(Error::new(ErrorCode::InvalidRange, "range start exceeds end"));
    }
    let size: u64 = match &version.body.kind {
        LogicalObjectVersionKind::DeleteMarker => {
            return Err(
                Error::new(ErrorCode::CorruptCommit, "current object resolves to a delete marker"),
            );
        },
        LogicalObjectVersionKind::Live { size, .. } => *size,
    };
    if start >= size {
        return Err(Error::new(ErrorCode::InvalidRange, "range starts beyond the object payload"));
    }
    let binding = match &version.binding {
        None => {
            return Err(Error::new(ErrorCode::CorruptCommit, "live object has no payload binding"));
        },
        Some(binding) => binding,
    };
    if binding.path != expected_path.to_owned() {
        return Err(
            Error::new(
                ErrorCode::CorruptContent,
                "payload binding path does not match its checksum",
            ),
        );
    }
    let physical_version = match &binding.provider_version_id {
        Some(version_id) => Some(PhysicalVersion::Versioned { version_id: version_id.clone() }),
        None => None,
    };
    let last: u64 = if end < size {
        end
    } else {
        size - 1
    };
    let physical = match binding.pack_range {
        None => ByteRange { first: start, last },
        Some((offset, pack_end)) => {
            let first: u64 = match offset.checked_add(start) {
                None => {
                    return Err(
                        Error::new(ErrorCode::InvalidRange, "packed payload range overflow"),
                    );
                },
                Some(first) => first,
            };
            match offset.checked_add(last) {
                Some(end_place) if end_place <= pack_end => ByteRange { first, last: end_place },
                _ => {
                    return Err(
                        Error::new(
                            ErrorCode::CorruptContent,
                            "packed payload range exceeds its logical extent",
                        ),
                    );
                },
            }
        },
    };
    Ok(
        RangePlan {
            logical: ByteRange { first: start, last },
            physical,
            version: physical_version,
        },
    )
}

/// Refuses a stored range that is missing, or that is not out of the object's physical object.
pub fn check_range_reply(binding: &PayloadBinding, metadata: Option<&PhysicalMetadata>) -> (r: Result<
    (),
    Error,
>)
    ensures
        outcome(r) == match metadata {
            None => Err(fault(ErrorCode::MissingClosure, "payload is missing")),
            Some(stored) => if is_bound_object(*stored, *binding) {
                Ok::<(), Fault>(())
            } else {
                Err(
                    fault(
                        ErrorCode::ChecksumMismatch,
                        "range response metadata does not match its logical binding",
                    ),
                )
            },
        },
{
    match metadata {
        None => Err(Error::new(ErrorCode::MissingClosure, "payload is missing")),
        Some(stored) => {
            if !stored.is_bound(binding) {
                return Err(
                    Error::new(
                        ErrorCode::ChecksumMismatch,
                        "range response metadata does not match its logical binding",
                    ),
                );
            }
            Ok(())
        },
    }
}

/// A range that can be read never leaves the object: it has the length that was asked for or ends with the
/// object, and where the object shares a physical object it stays in the object's part of it.
pub proof fn law_range_stays_in_its_object(
    version: ObjectVersion,
    expected_path: Seq<char>,
    start: u64,
    end: u64,
)
    requires
        range_fault(version, expected_path, start, end) is None,
    ensures
        ({
            let size = version.body.kind->size;
            let last = clipped_end(end, size);
            &&& start <= last < size
            &&& last == end || last == size - 1
            &&& forall|offset: u64, pack_end: u64|
                version.binding->0.pack_range == Some((offset, pack_end)) ==> offset <= offset + start
                    && offset + last <= pack_end
        }),
{
}

impl Repository {
    /// The change that copies an object to another key of the branch: the same payload, nothing read or
    /// stored again.
    pub fn copy_object(&self, source: Option<ObjectSummary>, destination_key: Vec<u8>) -> (r: Result<
        StagedMutation,
        Error,
    >)
        ensures
            outcome(r) == if !self.accepts_key(destination_key@) {
                Err(invalid_key())
            } else {
                match source {
                    None => Err(fault(ErrorCode::InvalidKey, "copy source does not exist")),
                    Some(summary) => match summary.version.body.kind {
                        LogicalObjectVersionKind::DeleteMarker => Err(
                            fault(ErrorCode::InvalidRevision, "copy source is a delete marker"),
                        ),
                        LogicalObjectVersionKind::Live {
                            size,
                            logical_etag,
                            checksums,
                            attributes,
                        } => match summary.version.binding {
                            None => Err(
                                fault(
                                    ErrorCode::CorruptCommit,
                                    "copy source has no payload binding",
                                ),
                            ),
                            Some(binding) => Ok(
                                StagedMutation::Put(
                                    StagedPut {
                                        key: destination_key,
                                        size,
                                        logical_etag,
                                        checksums,
                                        attributes,
                                        binding,
                                    },
                                ),
                            ),
                        },
                    },
                }
            },
    {
        if let Err(error) = self.validate_key(&destination_key) {
            return Err(error);
        }
        let summary = match source {
            None => {
                return Err(Error::new(ErrorCode::InvalidKey, "copy source does not exist"));
            },
            Some(summary) => summary,
        };
        match summary.version.body.kind {
            LogicalObjectVersionKind::DeleteMarker => Err(
                Error::new(ErrorCode::InvalidRevision, "copy source is a delete marker"),
            ),
            LogicalObjectVersionKind::Live { size, logical_etag, checksums, attributes } => {
                match summary.version.binding {
                    None => Err(
                        Error::new(ErrorCode::CorruptCommit, "copy source has no payload binding"),
                    ),
                    Some(binding) => Ok(
                        StagedMutation::Put(
                            StagedPut {
                                key: destination_key,
                                size,
                                logical_etag,
                                checksums,
                                attributes,
                                binding,
                            },
                        ),
                    ),
                }
            },
        }
    }

    /// The changes that delete some keys in one commit.
    pub fn delete_objects(&self, keys: Vec<Vec<u8>>) -> (r: Result<Vec<StagedMutation>, Error>)
        ensures
            match r {
                Ok(mutations) => {
                    &&& 1 <= keys@.len() <= self.format.canonical_limits.max_delete_objects
                    &&& forall|i: int|
                        0 <= i < keys@.len() ==> self.accepts_key(#[trigger] keys@[i]@)
                    &&& mutations@ == keys@.map_values(
                        |key: Vec<u8>| StagedMutation::Delete { key },
                    )
                },
                Err(error) => if 1 <= keys@.len()
                    <= self.format.canonical_limits.max_delete_objects {
                    error@ == invalid_key() && exists|i: int|
                        0 <= i < keys@.len() && !self.accepts_key(#[trigger] keys@[i]@)
                } else {
                    error@ == fault(
                        ErrorCode::InvalidLimit,
                        "multi-delete requires between one key and the canonical delete limit",
                    )
                },
            },
    {
        if keys.len() == 0 || keys.len() > self.format.canonical_limits.max_delete_objects as usize {
            return Err(
                Error::new(
                    ErrorCode::InvalidLimit,
                    "multi-delete requires between one key and the canonical delete limit",
                ),
            );
        }
        let mut i: usize = 0;
        while i < keys.len()
            invariant
                i <= keys@.len(),
                1 <= keys@.len() <= self.format.canonical_limits.max_delete_objects,
                forall|j: int| 0 <= j < i ==> self.accepts_key(#[trigger] keys@[j]@),
            decreases keys.len() - i,
        {
            if let Err(error) = self.validate_key(&keys[i]) {
                assert(!self.accepts_key(keys@[i as int]@));
                return Err(error);
            }
            i += 1;
        }
        let ghost all = keys@;
        let mut mutations: Vec<StagedMutation> = Vec::new();
        for key in it: keys
            invariant
                it.seq() == all,
                mutations@.len() == it.index(),
                forall|j: int|
                    0 <= j < it.index() ==> #[trigger] mutations@[j] == (StagedMutation::Delete {
                        key: all[j],
                    }),
        {
            mutations.push(StagedMutation::delete(key));
        }
        assert(mutations@ =~= all.map_values(|key: Vec<u8>| StagedMutation::Delete { key }));
        Ok(mutations)
    }
}

/// The last place of a range that can be read is the lesser of the end that was asked for and the last place
/// of the object: an end within the object is kept, and one beyond it is the object's.
pub proof fn law_range_ends_where_asked_or_with_its_object(end: u64, size: u64)
    requires
        size > 0,
    ensures
        end < size ==> clipped_end(end, size) == end,
        end >= size ==> clipped_end(end, size) == size - 1,
        clipped_end(end, size) < size,
        clipped_end(end, size) <= end,
        forall|place: u64| place <= end && place < size ==> place <= #[trigger] clipped_end(end, size)
            && #[trigger] clipped_end(place, size) == place,
{
}

/// A range is refused exactly where it ends before it starts, starts beyond the object, or is of something
/// that has no bytes to read: a deletion, an object without a place, an object whose place is not its own, or
/// one whose part of a shared physical object would not hold the range.
pub proof fn law_range_is_readable_where_its_object_is(
    version: ObjectVersion,
    expected_path: Seq<char>,
    start: u64,
    end: u64,
)
    ensures
        range_fault(version, expected_path, start, end) is None <==> {
            &&& start <= end
            &&& version.body.kind matches LogicalObjectVersionKind::Live { size, .. } && start < size && (
            version.binding matches Some(binding) && binding.path@ == expected_path && (
            binding.pack_range matches Some((offset, pack_end)) ==> (if end < size {
                offset + end <= pack_end
            } else {
                offset + size - 1 <= pack_end
            })))
        },
{
}

} // verus!
