//! Tickets: a publication that is under way is announced, so that a collection that begins meanwhile waits
//! for it. Publications of the same content share one ticket, and the last of them releases it.
use crate::bytes::bytes_eq;
use crate::error::{fault, outcome, Error, ErrorCode, Fault};
use crate::model::{DeleteOutcome, PhysicalVersion};
use vstd::prelude::*;

verus! {

/// What a write to a mutable object is for.
#[derive(Clone, Copy, Debug, PartialEq, Eq, Structural)]
pub enum MutableControlKind {
    BranchRef,
    TagRef,
    Other,
}

/// Whether a write moves a reference and so needs a ticket.
pub fn needs_ticket(kind: MutableControlKind) -> (r: bool)
    ensures
        r == (kind == MutableControlKind::BranchRef || kind == MutableControlKind::TagRef),
{
    kind == MutableControlKind::BranchRef || kind == MutableControlKind::TagRef
}

/// A stored ticket, and how many publications hold it.
#[derive(Debug)]
pub struct HeldPublicationTicket {
    pub digest: [u8; 32],
    pub path: String,
    pub version: PhysicalVersion,
    pub references: usize,
}

/// The tickets of this process.
#[derive(Debug)]
pub struct HeldTickets {
    pub tickets: Vec<HeldPublicationTicket>,
}

/// The place of a ticket.
pub open spec fn ticket_at(tickets: Seq<HeldPublicationTicket>, digest: Seq<u8>, i: int) -> bool {
    0 <= i < tickets.len() && tickets[i].digest@ == digest
}

/// Whether a ticket is held.
pub open spec fn is_held(tickets: Seq<HeldPublicationTicket>, digest: Seq<u8>) -> bool {
    exists|i: int| #[trigger] ticket_at(tickets, digest, i)
}

/// How many publications hold a ticket.
pub open spec fn holders(tickets: Seq<HeldPublicationTicket>, digest: Seq<u8>) -> nat {
    if is_held(tickets, digest) {
        tickets[choose|i: int| #[trigger] ticket_at(tickets, digest, i)].references as nat
    } else {
        0
    }
}

impl HeldTickets {
    /// Whether no ticket is listed twice, and none is without a holder.
    pub open spec fn wf(&self) -> bool {
        &&& forall|i: int, j: int|
            0 <= i < j < self.tickets@.len() ==> (#[trigger] self.tickets@[i]).digest@ != (
            #[trigger] self.tickets@[j]).digest@
        &&& forall|i: int|
            0 <= i < self.tickets@.len() ==> (#[trigger] self.tickets@[i]).references > 0
    }

    /// No tickets.
    pub fn new() -> (r: Self)
        ensures
            r.wf(),
            r.tickets@.len() == 0,
    {
        HeldTickets { tickets: Vec::new() }
    }

    fn find(&self, digest: &[u8; 32]) -> (r: Option<usize>)
        ensures
            match r {
                Some(i) => ticket_at(self.tickets@, digest@, i as int),
                None => !is_held(self.tickets@, digest@),
            },
    {
        let mut i: usize = 0;
        while i < self.tickets.len()
            invariant
                i <= self.tickets@.len(),
                forall|j: int| 0 <= j < i ==> !(#[trigger] ticket_at(self.tickets@, digest@, j)),
            decreases self.tickets.len() - i,
        {
            if bytes_eq(&self.tickets[i].digest, digest) {
                return Some(i);
            }
            i += 1;
        }
        None
    }

    /// Takes a ticket for a publication: one more holder, or a first one.
    pub fn hold(&mut self, digest: [u8; 32], path: String, version: PhysicalVersion)
        requires
            old(self).wf(),
        ensures
            final(self).wf(),
            !is_held(old(self).tickets@, digest@) ==> final(self).tickets@ == old(
                self,
            ).tickets@.push(HeldPublicationTicket { digest, path, version, references: 1 }),
            forall|i: int| #[trigger]
                ticket_at(old(self).tickets@, digest@, i) ==> final(self).tickets@ == old(
                    self,
                ).tickets@.update(
                    i,
                    (HeldPublicationTicket {
                        references: if old(self).tickets@[i].references == usize::MAX {
                            usize::MAX
                        } else {
                            (old(self).tickets@[i].references + 1) as usize
                        },
                        ..old(self).tickets@[i]
                    }),
                ),
            holders(final(self).tickets@, digest@) == if holders(old(self).tickets@, digest@)
                == usize::MAX {
                usize::MAX as nat
            } else {
                holders(old(self).tickets@, digest@) + 1
            },
            forall|other: Seq<u8>|
                other != digest@ ==> #[trigger] holders(final(self).tickets@, other) == holders(
                    old(self).tickets@,
                    other,
                ),
    {
        let ghost before = self.tickets@;
        match self.find(&digest) {
            Some(i) => {
                let references: usize = self.tickets[i].references;
                let more: usize = if references < usize::MAX {
                    references + 1
                } else {
                    references
                };
                let held = self.tickets.remove(i);
                self.tickets.insert(
                    i,
                    HeldPublicationTicket {
                        digest: held.digest,
                        path: held.path,
                        version: held.version,
                        references: more,
                    },
                );
                proof {
                    let now = self.tickets@;
                    assert(now =~= before.update(i as int, now[i as int]));
                    assert forall|a: int, b: int| 0 <= a < b < now.len() implies (
                    #[trigger] now[a]).digest@ != (#[trigger] now[b]).digest@ by {
                        assert(before[a].digest@ != before[b].digest@);
                    }
                    lemma_holders_at(before, digest@, i as int);
                    lemma_holders_at(now, digest@, i as int);
                    assert forall|k: int| #[trigger] ticket_at(before, digest@, k) implies k == i by {
                        lemma_one_place(before, digest@, i as int, k);
                    }
                    assert forall|other: Seq<u8>| other != digest@ implies #[trigger] holders(
                        now,
                        other,
                    ) == holders(before, other) by {
                        assert forall|k: int| #[trigger] ticket_at(before, other, k) implies now.contains(
                            before[k],
                        ) by {
                            assert(now[k] == before[k]);
                        }
                        assert forall|k: int| #[trigger] ticket_at(now, other, k) implies before.contains(
                            now[k],
                        ) by {
                            assert(before[k] == now[k]);
                        }
                        lemma_same_holders(before, now, other);
                    }
                }
            },
            None => {
                self.tickets.push(HeldPublicationTicket { digest, path, version, references: 1 });
                proof {
                    let now = self.tickets@;
                    assert forall|a: int, b: int| 0 <= a < b < now.len() implies (
                    #[trigger] now[a]).digest@ != (#[trigger] now[b]).digest@ by {
                        if b == before.len() {
                            assert(!ticket_at(before, digest@, a));
                        }
                    }
                    assert(ticket_at(now, digest@, before.len() as int));
                    lemma_holders_at(now, digest@, before.len() as int);
                    assert forall|other: Seq<u8>| other != digest@ implies #[trigger] holders(
                        now,
                        other,
                    ) == holders(before, other) by {
                        assert forall|k: int| #[trigger] ticket_at(before, other, k) implies now.contains(
                            before[k],
                        ) by {
                            assert(now[k] == before[k]);
                        }
                        assert forall|k: int| #[trigger] ticket_at(now, other, k) implies before.contains(
                            now[k],
                        ) by {
                            assert(before[k] == now[k]);
                        }
                        lemma_same_holders(before, now, other);
                    }
                }
            },
        }
    }

    /// Gives a ticket back. The last holder gets it, to delete it.
    pub fn release(&mut self, digest: &[u8; 32]) -> (r: Option<HeldPublicationTicket>)
        requires
            old(self).wf(),
        ensures
            final(self).wf(),
            r is Some <==> holders(old(self).tickets@, digest@) == 1,
            !is_held(old(self).tickets@, digest@) ==> final(self).tickets@ == old(self).tickets@,
            forall|i: int| #[trigger]
                ticket_at(old(self).tickets@, digest@, i) ==> if old(self).tickets@[i].references
                    == 1 {
                    final(self).tickets@ == old(self).tickets@.remove(i) && r == Some(
                        old(self).tickets@[i],
                    )
                } else {
                    final(self).tickets@ == old(self).tickets@.update(
                        i,
                        (HeldPublicationTicket {
                            references: (old(self).tickets@[i].references - 1) as usize,
                            ..old(self).tickets@[i]
                        }),
                    )
                },
            holders(final(self).tickets@, digest@) == if holders(old(self).tickets@, digest@) == 0 {
                0
            } else {
                (holders(old(self).tickets@, digest@) - 1) as nat
            },
            forall|other: Seq<u8>|
                other != digest@ ==> #[trigger] holders(final(self).tickets@, other) == holders(
                    old(self).tickets@,
                    other,
                ),
    {
        let ghost before = self.tickets@;
        match self.find(digest) {
            None => {
                None
            },
            Some(i) => {
                proof {
                    lemma_holders_at(before, digest@, i as int);
                    assert forall|k: int| #[trigger] ticket_at(before, digest@, k) implies k == i by {
                        lemma_one_place(before, digest@, i as int, k);
                    }
                }
                let held = self.tickets.remove(i);
                if held.references == 1 {
                    proof {
                        let now = self.tickets@;
                        assert(now =~= before.remove(i as int));
                        assert forall|a: int, b: int| 0 <= a < b < now.len() implies (
                        #[trigger] now[a]).digest@ != (#[trigger] now[b]).digest@ by {
                            let x = if a < i {
                                a
                            } else {
                                a + 1
                            };
                            let y = if b < i {
                                b
                            } else {
                                b + 1
                            };
                            assert(now[a] == before[x] && now[b] == before[y]);
                        }
                        if is_held(now, digest@) {
                            let k = choose|k: int| #[trigger] ticket_at(now, digest@, k);
                            if k < i {
                                assert(before[k].digest@ != before[i as int].digest@);
                            } else {
                                assert(before[i as int].digest@ != before[k + 1].digest@);
                            }
                        }
                        assert forall|other: Seq<u8>| other != digest@ implies #[trigger] holders(
                            now,
                            other,
                        ) == holders(before, other) by {
                            assert forall|k: int| #[trigger] ticket_at(before, other, k) implies now.contains(
                            before[k],
                        ) by {
                            if k < i {
                                assert(now[k] == before[k]);
                            } else {
                                assert(now[k - 1] == before[k]);
                            }
                        }
                        assert forall|k: int| #[trigger] ticket_at(now, other, k) implies before.contains(
                            now[k],
                        ) by {
                            if k < i {
                                assert(before[k] == now[k]);
                            } else {
                                assert(before[k + 1] == now[k]);
                            }
                        }
                        lemma_same_holders(before, now, other);
                        }
                        assert(ticket_at(before, digest@, i as int));
                    }
                    return Some(held);
                }
                let fewer: usize = held.references - 1;
                self.tickets.insert(
                    i,
                    HeldPublicationTicket {
                        digest: held.digest,
                        path: held.path,
                        version: held.version,
                        references: fewer,
                    },
                );
                proof {
                    let now = self.tickets@;
                    assert(now =~= before.update(i as int, now[i as int]));
                    assert forall|a: int, b: int| 0 <= a < b < now.len() implies (
                    #[trigger] now[a]).digest@ != (#[trigger] now[b]).digest@ by {
                        assert(before[a].digest@ != before[b].digest@);
                    }
                    lemma_holders_at(now, digest@, i as int);
                    assert forall|other: Seq<u8>| other != digest@ implies #[trigger] holders(
                        now,
                        other,
                    ) == holders(before, other) by {
                        assert forall|k: int| #[trigger] ticket_at(before, other, k) implies now.contains(
                            before[k],
                        ) by {
                            assert(now[k] == before[k]);
                        }
                        assert forall|k: int| #[trigger] ticket_at(now, other, k) implies before.contains(
                            now[k],
                        ) by {
                            assert(before[k] == now[k]);
                        }
                        lemma_same_holders(before, now, other);
                    }
                }
                None
            },
        }
    }
}

/// A ticket has one place.
proof fn lemma_one_place(tickets: Seq<HeldPublicationTicket>, digest: Seq<u8>, i: int, k: int)
    requires
        ticket_at(tickets, digest, i),
        ticket_at(tickets, digest, k),
        forall|a: int, b: int|
            0 <= a < b < tickets.len() ==> (#[trigger] tickets[a]).digest@ != (
            #[trigger] tickets[b]).digest@,
    ensures
        i == k,
{
    if k < i {
        assert(tickets[k].digest@ != tickets[i].digest@);
    } else if k > i {
        assert(tickets[i].digest@ != tickets[k].digest@);
    }
}

proof fn lemma_holders_at(tickets: Seq<HeldPublicationTicket>, digest: Seq<u8>, i: int)
    requires
        ticket_at(tickets, digest, i),
        forall|a: int, b: int|
            0 <= a < b < tickets.len() ==> (#[trigger] tickets[a]).digest@ != (
            #[trigger] tickets[b]).digest@,
    ensures
        holders(tickets, digest) == tickets[i].references,
{
    let k = choose|k: int| #[trigger] ticket_at(tickets, digest, k);
    if k < i {
        assert(tickets[k].digest@ != tickets[i].digest@);
    } else if k > i {
        assert(tickets[i].digest@ != tickets[k].digest@);
    }
}

/// Two lists that have the same tickets under a digest count the same holders.
proof fn lemma_same_holders(a: Seq<HeldPublicationTicket>, b: Seq<HeldPublicationTicket>, digest: Seq<u8>)
    requires
        forall|i: int, j: int|
            0 <= i < j < a.len() ==> (#[trigger] a[i]).digest@ != (#[trigger] a[j]).digest@,
        forall|i: int, j: int|
            0 <= i < j < b.len() ==> (#[trigger] b[i]).digest@ != (#[trigger] b[j]).digest@,
        forall|i: int| #[trigger]
            ticket_at(a, digest, i) ==> b.contains(a[i]),
        forall|i: int| #[trigger]
            ticket_at(b, digest, i) ==> a.contains(b[i]),
    ensures
        holders(a, digest) == holders(b, digest),
{
    if is_held(a, digest) {
        let i = choose|i: int| #[trigger] ticket_at(a, digest, i);
        let j = choose|j: int| 0 <= j < b.len() && b[j] == a[i];
        assert(ticket_at(b, digest, j));
        lemma_holders_at(a, digest, i);
        lemma_holders_at(b, digest, j);
    } else if is_held(b, digest) {
        let i = choose|i: int| #[trigger] ticket_at(b, digest, i);
        let j = choose|j: int| 0 <= j < a.len() && a[j] == b[i];
        assert(ticket_at(a, digest, j));
    }
}

/// What deleting a released ticket came to.
pub fn ticket_released(deleted: DeleteOutcome) -> (r: Result<(), Error>)
    ensures
        outcome(r) == if deleted == DeleteOutcome::TokenMismatch {
            Err(fault(ErrorCode::PreconditionFailed, "publication ticket changed before release"))
        } else {
            Ok::<(), Fault>(())
        },
{
    if deleted == DeleteOutcome::TokenMismatch {
        return Err(
            Error::new(ErrorCode::PreconditionFailed, "publication ticket changed before release"),
        );
    }
    Ok(())
}

/// A ticket is held as often as it says, by the digest it is for, and what is not listed is held by nobody.
pub proof fn law_ticket_counts_its_holders(tickets: Seq<HeldPublicationTicket>, digest: Seq<u8>, i: int)
    requires
        forall|a: int, b: int|
            0 <= a < b < tickets.len() ==> (#[trigger] tickets[a]).digest@ != (
            #[trigger] tickets[b]).digest@,
    ensures
        0 <= i < tickets.len() && tickets[i].digest@ == digest ==> is_held(tickets, digest) && holders(
            tickets,
            digest,
        ) == tickets[i].references,
        (forall|k: int| 0 <= k < tickets.len() ==> (#[trigger] tickets[k]).digest@ != digest)
            ==> !is_held(tickets, digest) && holders(tickets, digest) == 0,
{
    if 0 <= i < tickets.len() && tickets[i].digest@ == digest {
        assert(ticket_at(tickets, digest, i));
        let k = choose|k: int| #[trigger] ticket_at(tickets, digest, k);
        assert(tickets[k].digest@ == tickets[i].digest@);
    }
}

/// No ticket is listed twice, and none is listed that nobody holds.
pub proof fn law_listed_tickets_are_held(held: HeldTickets, i: int, j: int)
    requires
        held.wf(),
    ensures
        0 <= i < held.tickets@.len() ==> held.tickets@[i].references > 0,
        0 <= i < j < held.tickets@.len() ==> held.tickets@[i].digest@ != held.tickets@[j].digest@,
{
}

} // verus!
