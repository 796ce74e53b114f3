//! Backup verification: compares two snapshots of different repositories object by object, bytes and all.
use crate::bytes::bytes_eq;
use crate::counters::{added, checked_fsck_add};
use crate::error::{fault, outcome, Error, ErrorCode, Fault};
use crate::ids::{CommitId, RepositoryId};
use crate::model::KindView;
use crate::objects::ObjectSummary;
use crate::repository::Repository;
use crate::text::{valid_branch, validate_branch};
use vstd::prelude::*;

verus! {

/// What a verification has compared so far.
#[derive(Clone, Copy, Debug, PartialEq, Eq, Structural)]
pub struct BackupVerificationReport {
    pub objects_verified: u64,
    pub content_bytes_verified: u64,
}

/// Where a verification stands.
#[derive(Clone, Debug, PartialEq, Eq)]
pub struct BackupVerificationCursor {
    pub source_repository: RepositoryId,
    pub destination_repository: RepositoryId,
    pub source_branch: String,
    pub destination_branch: String,
    pub source_snapshot: CommitId,
    pub destination_snapshot: CommitId,
    pub source_after: Option<Vec<u8>>,
    pub destination_after: Option<Vec<u8>>,
    pub report: BackupVerificationReport,
    pub complete: bool,
}

/// What one page of a verification did.
#[derive(Clone, Debug, PartialEq, Eq)]
pub struct BackupVerificationPage {
    pub cursor: BackupVerificationCursor,
    pub processed: usize,
    pub complete: bool,
}

impl Repository {
    /// The cursor of a verification that has compared nothing.
    pub fn start_backup_verification(
        &self,
        destination: RepositoryId,
        source_branch: &str,
        source_snapshot: CommitId,
        destination_branch: &str,
        destination_snapshot: CommitId,
    ) -> (r: Result<BackupVerificationCursor, Error>)
        ensures
            match r {
                Ok(cursor) => {
                    &&& valid_branch(source_branch@) && valid_branch(destination_branch@)
                    &&& cursor.source_repository == self.format.repository_id
                    &&& cursor.destination_repository == destination
                    &&& cursor.source_branch@ == source_branch@
                    &&& cursor.destination_branch@ == destination_branch@
                    &&& cursor.source_snapshot == source_snapshot
                    &&& cursor.destination_snapshot == destination_snapshot
                    &&& cursor.source_after is None
                    &&& cursor.destination_after is None
                    &&& cursor.report == (BackupVerificationReport {
                        objects_verified: 0,
                        content_bytes_verified: 0,
                    })
                    &&& !cursor.complete
                },
                Err(error) => !(valid_branch(source_branch@) && valid_branch(destination_branch@))
                    && error@ == fault(
                    ErrorCode::InvalidBranch,
                    "branch name violates the canonical ref contract",
                ),
            },
    {
        if let Err(error) = validate_branch(source_branch) {
            return Err(error);
        }
        if let Err(error) = validate_branch(destination_branch) {
            return Err(error);
        }
        Ok(
            BackupVerificationCursor {
                source_repository: self.format.repository_id,
                destination_repository: destination,
                source_branch: source_branch.to_owned(),
                destination_branch: destination_branch.to_owned(),
                source_snapshot,
                destination_snapshot,
                source_after: None,
                destination_after: None,
                report: BackupVerificationReport { objects_verified: 0, content_bytes_verified: 0 },
                complete: false,
            },
        )
    }

    /// Says whether a verification has work left, and refuses what no page can be made of.
    pub fn advance_backup_verification(
        &self,
        destination: RepositoryId,
        cursor: &BackupVerificationCursor,
        limit: usize,
    ) -> (r: Result<bool, Error>)
        ensures
            outcome(r) == if cursor.complete {
                Ok(false)
            } else if cursor.source_repository != self.format.repository_id
                || cursor.destination_repository != destination {
                Err(
                    fault(
                        ErrorCode::InvalidContinuationToken,
                        "backup verification cursor belongs to another repository pair",
                    ),
                )
            } else if limit == 0 || limit > self.format.canonical_limits.max_list_page {
                Err(
                    fault(
                        ErrorCode::InvalidLimit,
                        "backup verification page size exceeds the canonical list limit",
                    ),
                )
            } else {
                Ok(true)
            },
    {
        if cursor.complete {
            return Ok(false);
        }
        if cursor.source_repository != self.format.repository_id || cursor.destination_repository
            != destination {
            return Err(
                Error::new(
                    ErrorCode::InvalidContinuationToken,
                    "backup verification cursor belongs to another repository pair",
                ),
            );
        }
        if limit == 0 || limit > self.format.canonical_limits.max_list_page as usize {
            return Err(
                Error::new(
                    ErrorCode::InvalidLimit,
                    "backup verification page size exceeds the canonical list limit",
                ),
            );
        }
        Ok(true)
    }
}

/// Refuses two pages of listings that cannot be compared one by one.
pub fn check_backup_pages(
    source: &Vec<ObjectSummary>,
    source_truncated: bool,
    destination: &Vec<ObjectSummary>,
    destination_truncated: bool,
) -> (r: Result<(), Error>)
    ensures
        outcome(r) == if source@.len() == destination@.len() && source_truncated
            == destination_truncated {
            Ok::<(), Fault>(())
        } else {
            Err(
                fault(
                    ErrorCode::CorruptContent,
                    "backup snapshots have different object-key cardinality",
                ),
            )
        },
{
    if source.len() != destination.len() || source_truncated != destination_truncated {
        return Err(
            Error::new(
                ErrorCode::CorruptContent,
                "backup snapshots have different object-key cardinality",
            ),
        );
    }
    Ok(())
}

/// Refuses two objects that differ in what is recorded of them.
pub fn check_backup_metadata(source: &ObjectSummary, destination: &ObjectSummary) -> (r: Result<(), Error>)
    ensures
        outcome(r) == if source.key@ == destination.key@ && source.version.body.kind@
            == destination.version.body.kind@ {
            Ok::<(), Fault>(())
        } else {
            Err(
                fault(
                    ErrorCode::CorruptContent,
                    "backup snapshots have different logical object metadata",
                ),
            )
        },
{
    if !bytes_eq(&source.key, &destination.key) || !source.version.body.kind.same(
        &destination.version.body.kind,
    ) {
        return Err(
            Error::new(
                ErrorCode::CorruptContent,
                "backup snapshots have different logical object metadata",
            ),
        );
    }
    Ok(())
}

/// A report after one more object.
pub open spec fn verified_object(report: BackupVerificationReport, bytes: u64) -> Result<
    BackupVerificationReport,
    Fault,
> {
    match added(report.objects_verified, 1, "fsck ", "backup-verified-object") {
        Err(error) => Err(error),
        Ok(objects_verified) => match added(
            report.content_bytes_verified,
            bytes,
            "fsck ",
            "backup-verified-byte",
        ) {
            Err(error) => Err(error),
            Ok(content_bytes_verified) => Ok(
                BackupVerificationReport { objects_verified, content_bytes_verified },
            ),
        },
    }
}

/// Compares the bytes of two objects and counts them.
pub fn compare_backup_bytes(
    report: &BackupVerificationReport,
    source: Option<&Vec<u8>>,
    destination: Option<&Vec<u8>>,
) -> (r: Result<BackupVerificationReport, Error>)
    ensures
        outcome(r) == if source is None {
            Err(fault(ErrorCode::MissingClosure, "source object is missing"))
        } else if destination is None {
            Err(fault(ErrorCode::MissingClosure, "destination object is missing"))
        } else if source->0@ != destination->0@ {
            Err(fault(ErrorCode::CorruptContent, "backup snapshots have different payload bytes"))
        } else {
            verified_object(*report, source->0@.len() as u64)
        },
{
    let left = match source {
        None => {
            return Err(Error::new(ErrorCode::MissingClosure, "source object is missing"));
        },
        Some(bytes) => bytes,
    };
    let right = match destination {
        None => {
            return Err(Error::new(ErrorCode::MissingClosure, "destination object is missing"));
        },
        Some(bytes) => bytes,
    };
    if !bytes_eq(left, right) {
        return Err(
            Error::new(ErrorCode::CorruptContent, "backup snapshots have different payload bytes"),
        );
    }
    let objects_verified: u64 = checked_fsck_add(
        report.objects_verified,
        1,
        "backup-verified-object",
    )?;
    let content_bytes_verified: u64 = checked_fsck_add(
        report.content_bytes_verified,
        left.len() as u64,
        "backup-verified-byte",
    )?;
    Ok(BackupVerificationReport { objects_verified, content_bytes_verified })
}

/// Ends a page. After the last one the verification is complete.
pub fn finish_backup_page(
    cursor: BackupVerificationCursor,
    report: BackupVerificationReport,
    processed: usize,
    last_source: Option<Vec<u8>>,
    last_destination: Option<Vec<u8>>,
    truncated: bool,
) -> (r: BackupVerificationPage)
    ensures
        r.processed == processed,
        r.complete == !truncated,
        r.cursor == (BackupVerificationCursor {
            source_after: if truncated {
                last_source
            } else {
                None
            },
            destination_after: if truncated {
                last_destination
            } else {
                None
            },
            report,
            complete: !truncated,
            ..cursor
        }),
{
    let mut cursor = cursor;
    cursor.report = report;
    cursor.complete = !truncated;
    if truncated {
        cursor.source_after = last_source;
        cursor.destination_after = last_destination;
    } else {
        cursor.source_after = None;
        cursor.destination_after = None;
    }
    BackupVerificationPage { cursor, processed, complete: !truncated }
}

/// What a verification compares of an object.
pub struct BackedUpObject {
    pub key: Seq<u8>,
    pub kind: KindView,
    pub bytes: Seq<u8>,
}

/// The page of a listing that begins after its first `from` objects.
pub open spec fn listing_page(list: Seq<BackedUpObject>, from: int, limit: int) -> Seq<BackedUpObject> {
    if from + limit < list.len() {
        list.subrange(from, from + limit)
    } else {
        list.subrange(from, list.len() as int)
    }
}

/// Whether a page of two listings is accepted: as many objects on both sides, as much to follow, and every two
/// objects equal.
pub open spec fn page_accepted(
    source: Seq<BackedUpObject>,
    destination: Seq<BackedUpObject>,
    from: int,
    limit: int,
) -> bool {
    let page = listing_page(source, from, limit);
    let other = listing_page(destination, from, limit);
    &&& page.len() == other.len()
    &&& (from + limit < source.len()) == (from + limit < destination.len())
    &&& forall|i: int| 0 <= i < page.len() ==> #[trigger] page[i] == other[i]
}

/// Page by page, a verification that accepts every page has compared everything: the compared parts of the
/// two listings are equal, and after the last page so are the listings.
pub proof fn law_verified_backup_equals_its_source(
    source: Seq<BackedUpObject>,
    destination: Seq<BackedUpObject>,
    from: int,
    limit: int,
)
    requires
        0 <= from <= source.len(),
        from <= destination.len(),
        0 < limit,
        source.take(from) == destination.take(from),
        page_accepted(source, destination, from, limit),
    ensures
        ({
            let next = from + listing_page(source, from, limit).len();
            &&& source.take(next) == destination.take(next)
            &&& from + limit >= source.len() ==> source == destination
        }),
{
    let page = listing_page(source, from, limit);
    let other = listing_page(destination, from, limit);
    let next = from + page.len();
    assert forall|i: int| 0 <= i < next implies source.take(next)[i] == destination.take(
        next,
    )[i] by {
        if i < from {
            assert(source.take(from)[i] == destination.take(from)[i]);
        } else {
            assert(page[i - from] == other[i - from]);
        }
    }
    assert(source.take(next) =~= destination.take(next));
    if from + limit >= source.len() {
        assert(source.take(next) =~= source);
        assert(destination.take(next) =~= destination);
    }
}

/// A backup that equals its source is accepted page by page.
pub proof fn law_equal_backup_is_accepted(
    source: Seq<BackedUpObject>,
    destination: Seq<BackedUpObject>,
    from: int,
    limit: int,
)
    requires
        0 <= from <= source.len(),
        0 < limit,
        source == destination,
    ensures
        page_accepted(source, destination, from, limit),
{
}

/// A report after some objects of these lengths.
pub open spec fn verified_all(report: BackupVerificationReport, lengths: Seq<u64>) -> Result<
    BackupVerificationReport,
    Fault,
>
    decreases lengths.len(),
{
    if lengths.len() == 0 {
        Ok(report)
    } else {
        match verified_all(report, lengths.drop_last()) {
            Err(error) => Err(error),
            Ok(before) => verified_object(before, lengths.last()),
        }
    }
}

/// The sum of some lengths.
pub open spec fn total_length(lengths: Seq<u64>) -> int
    decreases lengths.len(),
{
    if lengths.len() == 0 {
        0
    } else {
        total_length(lengths.drop_last()) + lengths.last()
    }
}

/// A verification counts every object that it compared, and its bytes.
pub proof fn law_verification_counts_every_object(
    report: BackupVerificationReport,
    lengths: Seq<u64>,
)
    ensures
        verified_all(report, lengths) matches Ok(end) ==> end.objects_verified
            == report.objects_verified + lengths.len() && end.content_bytes_verified
            == report.content_bytes_verified + total_length(lengths),
    decreases lengths.len(),
{
    if lengths.len() > 0 {
        law_verification_counts_every_object(report, lengths.drop_last());
    }
}

/// Whether a whole verification is accepted and comes to its end, page after page with these limits.
pub open spec fn verification_passes(
    source: Seq<BackedUpObject>,
    destination: Seq<BackedUpObject>,
    from: int,
    limits: Seq<int>,
) -> bool
    decreases limits.len(),
{
    limits.len() > 0 && page_accepted(source, destination, from, limits[0]) && (from + limits[0]
        >= source.len() || verification_passes(
        source,
        destination,
        from + limits[0],
        limits.drop_first(),
    ))
}

/// How many objects pages with these limits can hold.
pub open spec fn capacity(limits: Seq<int>) -> int
    decreases limits.len(),
{
    if limits.len() == 0 {
        0
    } else {
        limits[0] + capacity(limits.drop_first())
    }
}

/// Whatever the sizes of its pages, a verification that comes to its end without an error has found the backup
/// equal to its source, object by object; and of a backup that is equal every verification with pages enough
/// comes to its end.
pub proof fn law_verification_passes_just_equal_backups(
    source: Seq<BackedUpObject>,
    destination: Seq<BackedUpObject>,
    from: int,
    limits: Seq<int>,
)
    requires
        0 <= from <= source.len(),
        from <= destination.len(),
        source.take(from) == destination.take(from),
        forall|i: int| 0 <= i < limits.len() ==> #[trigger] limits[i] > 0,
    ensures
        verification_passes(source, destination, from, limits) ==> source == destination,
        source == destination && limits.len() > 0 && capacity(limits) >= source.len() - from
            ==> verification_passes(source, destination, from, limits),
    decreases limits.len(),
{
    if limits.len() > 0 {
        let limit = limits[0];
        let rest = limits.drop_first();
        assert forall|i: int| 0 <= i < rest.len() implies #[trigger] rest[i] > 0 by {
            assert(rest[i] == limits[i + 1]);
        }
        if source == destination {
            law_equal_backup_is_accepted(source, destination, from, limit);
        }
        if page_accepted(source, destination, from, limit) {
            law_verified_backup_equals_its_source(source, destination, from, limit);
            if from + limit < source.len() {
                law_verification_passes_just_equal_backups(source, destination, from + limit, rest);
                if rest.len() == 0 {
                    assert(capacity(rest) == 0);
                }
            }
        }
    }
}

/// A verified object counts as one, with its bytes.
pub proof fn law_verified_object_counts_once(report: BackupVerificationReport, bytes: u64)
    ensures
        verified_object(report, bytes) is Ok <==> report.objects_verified < u64::MAX
            && report.content_bytes_verified + bytes <= u64::MAX,
        verified_object(report, bytes) matches Ok(after) ==> after.objects_verified
            == report.objects_verified + 1 && after.content_bytes_verified
            == report.content_bytes_verified + bytes,
{
}

} // verus!
