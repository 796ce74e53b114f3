//! Counters that fail instead of wrapping around.
use crate::error::{outcome, Error, ErrorCode, Fault, RetryAdvice};
use vstd::prelude::*;
use vstd::string::*;

verus! {

/// The error of a counter that would exceed its width.
pub open spec fn counter_overflow(family: &str, counter: &str) -> Fault {
    Fault {
        code: ErrorCode::EntityTooLarge,
        message: family@ + counter@ + " counter overflow"@,
        retry: RetryAdvice::Never,
        operation: None,
    }
}

/// The sum of a counter and what is added to it.
pub open spec fn added(current: u64, more: u64, family: &str, counter: &str) -> Result<u64, Fault> {
    if current + more > u64::MAX {
        Err(counter_overflow(family, counter))
    } else {
        Ok((current + more) as u64)
    }
}

/// Counts further, or says which counter is full.
pub fn checked_add(current: u64, more: u64, family: &str, counter: &str) -> (r: Result<u64, Error>)
    ensures
        outcome(r) == added(current, more, family, counter),
{
    match current.checked_add(more) {
        Some(sum) => Ok(sum),
        None => {
            let named = family.to_owned().concat(counter);
            Err(
                Error {
                    code: ErrorCode::EntityTooLarge,
                    message: named.concat(" counter overflow"),
                    retry: RetryAdvice::Never,
                    operation: None,
                },
            )
        },
    }
}

/// Counts further in an integrity check.
pub fn checked_fsck_add(current: u64, more: u64, counter: &str) -> (r: Result<u64, Error>)
    ensures
        outcome(r) == added(current, more, "fsck ", counter),
{
    checked_add(current, more, "fsck ", counter)
}

/// Counts further in an inventory of packs.
pub fn checked_pack_add(current: u64, more: u64, counter: &str) -> (r: Result<u64, Error>)
    ensures
        outcome(r) == added(current, more, "payload-pack ", counter),
{
    checked_add(current, more, "payload-pack ", counter)
}

/// A counter takes more exactly where the sum fits, and is the sum then.
pub proof fn law_counter_is_the_sum_or_full(current: u64, more: u64, family: &str, counter: &str)
    ensures
        added(current, more, family, counter) is Ok <==> current + more <= u64::MAX,
        added(current, more, family, counter) matches Ok(sum) ==> sum == current + more,
{
}

} // verus!
