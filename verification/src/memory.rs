//! The memory bridge: guest memory acquired and released through the
//! guest's own allocator, and the ledger of what is outstanding.

use crate::error::BridgeError;
use crate::guest::{GuestModule, Session, Trap};
use vstd::multiset::Multiset;
use vstd::prelude::*;
use vstd::seq_lib::{to_multiset_build, to_multiset_remove};

verus! {

/// A region of guest memory that the guest allocator handed out.
#[derive(Clone, Copy, Debug, PartialEq, Eq, Structural)]
pub struct GuestAllocation {
    pub pointer: u32,
    pub size: u32,
}

/// The allocation that an answer of the guest allocator to a request for
/// `size` bytes stands for: a fault or an answer without a pointer is a trap,
/// so is a pointer beyond 32 bits; the null pointer is an allocation failure.
pub open spec fn allocation_of(answer: Result<Option<u64>, Trap>, size: u32) -> Result<
    GuestAllocation,
    BridgeError,
> {
    match answer {
        Ok(Some(pointer)) => if pointer == 0 {
            Err(BridgeError::AllocationFailure)
        } else if pointer > u32::MAX {
            Err(BridgeError::GuestTrap)
        } else {
            Ok(GuestAllocation { pointer: pointer as u32, size })
        },
        _ => Err(BridgeError::GuestTrap),
    }
}

/// What a release comes to, for the answer of the guest's `deallocate`: a fault is a trap.
pub open spec fn released(answer: Result<Option<u64>, Trap>) -> Result<(), BridgeError> {
    match answer {
        Ok(_) => Ok(()),
        Err(_) => Err(BridgeError::GuestTrap),
    }
}

/// The ledger of one guest instance: the allocations acquired and not yet released.
pub struct MemoryBridge {
    ledger: Vec<GuestAllocation>,
}

impl View for MemoryBridge {
    type V = Multiset<GuestAllocation>;

    /// The outstanding allocations. A guest may hand out one address twice
    /// (an empty region takes no room), so an allocation is counted as often
    /// as it is held.
    closed spec fn view(&self) -> Multiset<GuestAllocation> {
        self.ledger@.to_multiset()
    }
}

/// An allocation that is acquired and then released leaves the ledger as it
/// was; on an empty ledger this leaves it empty.
pub proof fn lemma_release_undoes_acquire(
    ledger: Multiset<GuestAllocation>,
    allocation: GuestAllocation,
)
    ensures
        ledger.insert(allocation).count(allocation) > 0,
        ledger.insert(allocation).remove(allocation) == ledger,
        Multiset::<GuestAllocation>::empty().insert(allocation).remove(allocation).len() == 0,
{
    assert(ledger.insert(allocation).remove(allocation) =~= ledger);
    assert(Multiset::<GuestAllocation>::empty().insert(allocation).remove(allocation)
        =~= Multiset::<GuestAllocation>::empty());
}

impl MemoryBridge {
    /// The ledger of a fresh guest instance: empty.
    pub fn new() -> (bridge: MemoryBridge)
        ensures
            bridge@ == Multiset::<GuestAllocation>::empty(),
    {
        let bridge = MemoryBridge { ledger: Vec::new() };
        proof {
            bridge.ledger@.to_multiset_ensures();
            vstd::multiset::lemma_multiset_empty_len(bridge@);
            assert(bridge@ =~= Multiset::<GuestAllocation>::empty());
        }
        bridge
    }

    /// How many allocations are outstanding.
    pub fn outstanding(&self) -> (n: usize)
        ensures
            n == self@.len(),
    {
        proof {
            self.ledger@.to_multiset_ensures();
        }
        self.ledger.len()
    }

    fn position(&self, allocation: GuestAllocation) -> (r: Option<usize>)
        ensures
            r is Some <==> self@.count(allocation) > 0,
            r matches Some(i) ==> i < self.ledger@.len() && self.ledger@[i as int] == allocation,
    {
        proof {
            self.ledger@.to_multiset_ensures();
        }
        let mut i: usize = 0;
        while i < self.ledger.len()
            invariant
                i <= self.ledger@.len(),
                forall|j: int| 0 <= j < i ==> self.ledger@[j] != allocation,
            decreases self.ledger@.len() - i,
        {
            if self.ledger[i] == allocation {
                proof {
                    self.ledger@.to_multiset_ensures();
                    assert(self.ledger@.contains(allocation));
                }
                return Some(i);
            }
            i += 1;
        }
        assert(!self.ledger@.contains(allocation));
        None
    }

    /// Whether the ledger holds the allocation: this pointer with this size.
    pub fn holds(&self, allocation: GuestAllocation) -> (r: bool)
        ensures
            r == (self@.count(allocation) > 0),
    {
        self.position(allocation).is_some()
    }

    /// Enters in the ledger what the guest allocator answered to a request
    /// for `size` bytes, if it answered with a region.
    pub fn record(&mut self, answer: Result<Option<u64>, Trap>, size: u32) -> (r: Result<
        GuestAllocation,
        BridgeError,
    >)
        ensures
            r == allocation_of(answer, size),
            final(self)@ == match r {
                Ok(allocation) => old(self)@.insert(allocation),
                Err(_) => old(self)@,
            },
    {
        match answer {
            Ok(Some(pointer)) => {
                if pointer == 0 {
                    Err(BridgeError::AllocationFailure)
                } else if pointer > u32::MAX as u64 {
                    Err(BridgeError::GuestTrap)
                } else {
                    let allocation = GuestAllocation { pointer: pointer as u32, size };
                    proof {
                        to_multiset_build(self.ledger@, allocation);
                    }
                    self.ledger.push(allocation);
                    Ok(allocation)
                }
            },
            _ => Err(BridgeError::GuestTrap),
        }
    }

    /// Asks the guest for `size` bytes through its export `allocate` and
    /// enters the region in the ledger.
    ///
    /// The guest is called once, with `size` as the only argument; what it
    /// answers decides what comes back, as `allocation_of` says.
    pub fn acquire<G: GuestModule>(&mut self, session: &mut Session<G>, size: u32) -> (r: Result<
        GuestAllocation,
        BridgeError,
    >)
        ensures
            final(session).log().len() == old(session).log().len() + 1,
            final(session).log().drop_last() == old(session).log(),
            final(session).log().last().is_call("allocate"@, seq![size as u64]),
            r == allocation_of(final(session).log().last()->Call_answer, size),
            final(self)@ == match r {
                Ok(allocation) => old(self)@.insert(allocation),
                Err(_) => old(self)@,
            },
    {
        let mut args: Vec<u64> = Vec::new();
        args.push(size as u64);
        assert(args@ =~= seq![size as u64]);
        let answer = session.call("allocate", &args);
        assert(session.log().drop_last() =~= old(session).log());
        self.record(answer, size)
    }

    /// Gives a region back to the guest through its export `deallocate`.
    ///
    /// An allocation that the ledger does not hold, under this pointer with
    /// this size, is a dangling pointer: the guest is not called and nothing
    /// changes. Otherwise the entry leaves the ledger and the guest is called
    /// once, with the pointer and the size; a guest that faults makes the
    /// release a trap.
    pub fn release<G: GuestModule>(
        &mut self,
        session: &mut Session<G>,
        allocation: GuestAllocation,
    ) -> (r: Result<(), BridgeError>)
        ensures
            old(self)@.count(allocation) == 0 ==> r == Err::<(), BridgeError>(
                BridgeError::DanglingPointer,
            ) && final(self)@ == old(self)@ && *final(session) == *old(session),
            old(self)@.count(allocation) > 0 ==> {
                &&& final(self)@ == old(self)@.remove(allocation)
                &&& final(session).log().len() == old(session).log().len() + 1
                &&& final(session).log().drop_last() == old(session).log()
                &&& final(session).log().last().is_call(
                    "deallocate"@,
                    seq![allocation.pointer as u64, allocation.size as u64],
                )
                &&& r == released(final(session).log().last()->Call_answer)
            },
    {
        match self.position(allocation) {
            None => Err(BridgeError::DanglingPointer),
            Some(i) => {
                proof {
                    to_multiset_remove(self.ledger@, i as int);
                }
                self.ledger.remove(i);
                let mut args: Vec<u64> = Vec::new();
                args.push(allocation.pointer as u64);
                args.push(allocation.size as u64);
                assert(args@ =~= seq![allocation.pointer as u64, allocation.size as u64]);
                let answer = session.call("deallocate", &args);
                assert(session.log().drop_last() =~= old(session).log());
                match answer {
                    Ok(_) => Ok(()),
                    Err(_) => Err(BridgeError::GuestTrap),
                }
            },
        }
    }
}

} // verus!
