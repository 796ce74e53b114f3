//! Clocks and sources of names that give the same in every run.
use crate::bytes::{be_bytes, lemma_be_injective, pow256};
use crate::error::{fault, outcome, Error, ErrorCode, Fault};
use crate::ids::{OperationId, UploadId, WorkspaceId};
use crate::outside::uuid_from_u128;
use vstd::prelude::*;

verus! {

/// Something that tells the time, in milliseconds since 1970.
pub trait Clock {
    /// The time.
    fn now_millis(&self) -> (r: Result<u64, Error>);
}

/// A clock that stands where it was set.
#[derive(Debug)]
pub struct FixedClock {
    pub millis: u64,
}

impl FixedClock {
    /// A clock that stands at `millis`.
    pub fn new(millis: u64) -> (r: Self)
        ensures
            r.millis == millis,
    {
        FixedClock { millis }
    }

    /// Sets the clock.
    pub fn set(&mut self, millis: u64)
        ensures
            final(self).millis == millis,
    {
        self.millis = millis;
    }

    /// Moves the clock on and tells the new time. At the end of time it stays where it is.
    pub fn advance(&mut self, millis: u64) -> (r: Result<u64, Error>)
        ensures
            if old(self).millis + millis > u64::MAX {
                outcome(r) == Err::<u64, Fault>(
                    fault(ErrorCode::InternalInvariant, "fixed clock overflow"),
                ) && final(self).millis == old(self).millis
            } else {
                r == Ok::<u64, Error>((old(self).millis + millis) as u64) && final(self).millis
                    == old(self).millis + millis
            },
    {
        match self.millis.checked_add(millis) {
            None => Err(Error::new(ErrorCode::InternalInvariant, "fixed clock overflow")),
            Some(now) => {
                self.millis = now;
                Ok(now)
            },
        }
    }
}

impl Clock for FixedClock {
    fn now_millis(&self) -> (r: Result<u64, Error>)
        ensures
            r == Ok::<u64, Error>(self.millis),
    {
        Ok(self.millis)
    }
}

/// The time that the machine's clock tells. None: the clock stands before 1970.
pub fn system_millis(since_epoch: Option<u128>) -> (r: Result<u64, Error>)
    ensures
        outcome(r) == match since_epoch {
            None => Err(fault(ErrorCode::InternalInvariant, "system clock precedes epoch")),
            Some(millis) => if millis > u64::MAX {
                Err(fault(ErrorCode::InternalInvariant, "timestamp overflow"))
            } else {
                Ok(millis as u64)
            },
        },
{
    match since_epoch {
        None => Err(Error::new(ErrorCode::InternalInvariant, "system clock precedes epoch")),
        Some(millis) => {
            if millis > 0xffff_ffff_ffff_ffff {
                return Err(Error::new(ErrorCode::InternalInvariant, "timestamp overflow"));
            }
            Ok(millis as u64)
        },
    }
}

/// Something that names operations, workspaces and uploads.
pub trait IdSource {
    /// A name for an operation.
    fn operation(&mut self) -> (r: OperationId);

    /// A name for a workspace.
    fn workspace(&mut self) -> (r: WorkspaceId);

    /// A name for an upload.
    fn upload(&mut self) -> (r: UploadId);
}

/// Names made of a fixed number and a running one.
#[derive(Debug)]
pub struct SequenceIdSource {
    pub prefix: u64,
    pub next: u64,
}

/// The number behind a name: the fixed number above the running one.
pub open spec fn sequence_value(prefix: u64, sequence: u64) -> nat {
    (prefix as nat) * 0x1_0000_0000_0000_0000 + sequence as nat
}

/// The name with a running number.
pub open spec fn sequence_name(prefix: u64, sequence: u64) -> Seq<u8> {
    be_bytes(sequence_value(prefix, sequence), 16)
}

/// The running number after another; the last is followed by the first.
pub open spec fn following(sequence: u64) -> u64 {
    if sequence == u64::MAX {
        0
    } else {
        (sequence + 1) as u64
    }
}

impl SequenceIdSource {
    /// Names from a first running number on.
    pub fn new(prefix: u64, first_sequence: u64) -> (r: Self)
        ensures
            r.prefix == prefix,
            r.next == first_sequence,
    {
        SequenceIdSource { prefix, next: first_sequence }
    }

    /// The next name.
    pub fn next_uuid(&mut self) -> (r: [u8; 16])
        ensures
            r@ == sequence_name(old(self).prefix, old(self).next),
            final(self).prefix == old(self).prefix,
            final(self).next == following(old(self).next),
    {
        let sequence: u64 = self.next;
        self.next = sequence.wrapping_add(1);
        let high: u128 = self.prefix as u128;
        assert(high * 0x1_0000_0000_0000_0000 + sequence <= u128::MAX) by (nonlinear_arith)
            requires
                high <= 0xffff_ffff_ffff_ffff,
                sequence <= 0xffff_ffff_ffff_ffff,
        ;
        uuid_from_u128(high * 0x1_0000_0000_0000_0000 + sequence as u128)
    }
}

impl IdSource for SequenceIdSource {
    fn operation(&mut self) -> (r: OperationId)
        ensures
            r@ == sequence_name(old(self).prefix, old(self).next),
            final(self).prefix == old(self).prefix,
            final(self).next == following(old(self).next),
    {
        OperationId::from_bytes(self.next_uuid())
    }

    fn workspace(&mut self) -> (r: WorkspaceId)
        ensures
            r@ == sequence_name(old(self).prefix, old(self).next),
            final(self).prefix == old(self).prefix,
            final(self).next == following(old(self).next),
    {
        WorkspaceId::from_bytes(self.next_uuid())
    }

    fn upload(&mut self) -> (r: UploadId)
        ensures
            r@ == sequence_name(old(self).prefix, old(self).next),
            final(self).prefix == old(self).prefix,
            final(self).next == following(old(self).next),
    {
        UploadId::from_bytes(self.next_uuid())
    }
}

/// Different running numbers, or different fixed ones, give different names.
pub proof fn law_sequence_names_are_distinct(a_prefix: u64, a: u64, b_prefix: u64, b: u64)
    requires
        a_prefix != b_prefix || a != b,
    ensures
        sequence_name(a_prefix, a) != sequence_name(b_prefix, b),
{
    let x = sequence_value(a_prefix, a);
    let y = sequence_value(b_prefix, b);
    assert(x != y);
    assert(pow256(16) == 0x1_0000_0000_0000_0000 * 0x1_0000_0000_0000_0000) by {
        reveal_with_fuel(pow256, 17);
    }
    assert(x < pow256(16) && y < pow256(16)) by (nonlinear_arith)
        requires
            x == (a_prefix as nat) * 0x1_0000_0000_0000_0000 + a as nat,
            y == (b_prefix as nat) * 0x1_0000_0000_0000_0000 + b as nat,
            a_prefix <= 0xffff_ffff_ffff_ffff,
            b_prefix <= 0xffff_ffff_ffff_ffff,
            a <= 0xffff_ffff_ffff_ffff,
            b <= 0xffff_ffff_ffff_ffff,
            pow256(16) == 0x1_0000_0000_0000_0000 * 0x1_0000_0000_0000_0000,
    ;
    if sequence_name(a_prefix, a) == sequence_name(b_prefix, b) {
        lemma_be_injective(x, y, 16);
    }
}

/// Numbers follow one another and begin again after the highest.
pub proof fn law_numbers_follow_one_another(sequence: u64)
    ensures
        sequence < u64::MAX ==> following(sequence) == sequence + 1,
        sequence == u64::MAX ==> following(sequence) == 0,
{
}

} // verus!
