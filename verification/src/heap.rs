//! A linear memory with the allocator that a guest exports.

use crate::codec::{overlay, put, zeros};
use crate::layout::{lemma_rounded_up_is_least_multiple, round_up, rounded_up};
use vstd::prelude::*;

verus! {

/// The linear memory of a guest instance: its bytes, and the size it may not grow beyond.
///
/// Regions are handed out one behind the other, each from a multiple of 8
/// on. The first 8 bytes are never handed out, so no region lies at the null
/// address.
#[derive(Debug)]
pub struct LinearMemory {
    pub bytes: Vec<u8>,
    pub limit: u32,
}

/// Where the next region starts in a memory of `len` bytes.
pub open spec fn next_region(len: nat) -> nat {
    rounded_up(
        if len < 8 {
            8
        } else {
            len
        },
        8,
    )
}

/// Whether a memory of `len` bytes that may grow to `limit` has room for `size` more bytes.
pub open spec fn has_room(len: nat, limit: u32, size: nat) -> bool {
    len <= limit && next_region(len) + size <= limit
}

impl LinearMemory {
    /// An empty memory that may grow to `limit` bytes.
    pub fn new(limit: u32) -> (memory: LinearMemory)
        ensures
            memory.bytes@.len() == 0,
            memory.limit == limit,
    {
        LinearMemory { bytes: Vec::new(), limit }
    }

    /// The `len` bytes from `address` on; `None` where they do not all lie in the memory.
    pub fn read(&self, address: u32, len: u32) -> (r: Option<Vec<u8>>)
        ensures
            r is Some <==> address + len <= self.bytes@.len(),
            r matches Some(bytes) ==> bytes@ == self.bytes@.subrange(
                address as int,
                address + len,
            ),
    {
        let total: usize = self.bytes.len();
        if address as u64 + len as u64 > total as u64 {
            return None;
        }
        let start: usize = address as usize;
        let mut bytes: Vec<u8> = Vec::new();
        let mut k: usize = 0;
        while k < len as usize
            invariant
                k <= len,
                start == address,
                total == self.bytes@.len(),
                address + len <= self.bytes@.len(),
                bytes@.len() == k,
                forall|j: int| 0 <= j < k ==> bytes@[j] == self.bytes@[address + j],
            decreases len - k,
        {
            bytes.push(self.bytes[start + k]);
            k += 1;
        }
        assert(bytes@ =~= self.bytes@.subrange(address as int, address + len));
        Some(bytes)
    }

    /// Writes `data` from `address` on; where it does not all lie in the
    /// memory, nothing is written and the answer is `false`.
    pub fn write(&mut self, address: u32, data: &Vec<u8>) -> (done: bool)
        ensures
            done == (address + data@.len() <= old(self).bytes@.len()),
            final(self).limit == old(self).limit,
            final(self).bytes@ == if done {
                overlay(old(self).bytes@, address as int, data@)
            } else {
                old(self).bytes@
            },
    {
        let total: usize = self.bytes.len();
        let start: usize = address as usize;
        if start > total || data.len() > total - start {
            return false;
        }
        put(&mut self.bytes, start, data);
        true
    }
}

/// Reserves `size` bytes of guest memory and hands back their address, or
/// the null address where the memory has no room for them.
///
/// The region starts at the first multiple of 8 behind what the memory
/// holds, and not before address 8; the memory grows to the end of the
/// region, the new bytes being 0.
pub fn allocate(memory: &mut LinearMemory, size: usize) -> (pointer: u32)
    ensures
        final(memory).limit == old(memory).limit,
        has_room(old(memory).bytes@.len(), old(memory).limit, size as nat) ==> {
            &&& pointer == next_region(old(memory).bytes@.len())
            &&& final(memory).bytes@ == old(memory).bytes@ + zeros(
                (pointer + size - old(memory).bytes@.len()) as nat,
            )
        },
        !has_room(old(memory).bytes@.len(), old(memory).limit, size as nat) ==> {
            &&& pointer == 0
            &&& final(memory).bytes@ == old(memory).bytes@
        },
{
    let len: usize = memory.bytes.len();
    if len > memory.limit as usize {
        return 0;
    }
    let floor: u64 = if len < 8 {
        8
    } else {
        len as u64
    };
    let start: u64 = round_up(floor, 8);
    proof {
        lemma_rounded_up_is_least_multiple(floor as nat, 8);
    }
    if start > memory.limit as u64 || size as u64 > memory.limit as u64 - start {
        return 0;
    }
    let end: usize = (start + size as u64) as usize;
    let mut k: usize = len;
    while k < end
        invariant
            len <= k <= end,
            memory.limit == old(memory).limit,
            memory.bytes@.len() == k,
            forall|j: int| 0 <= j < len ==> memory.bytes@[j] == old(memory).bytes@[j],
            forall|j: int| len <= j < k ==> memory.bytes@[j] == 0,
        decreases end - k,
    {
        memory.bytes.push(0);
        k += 1;
    }
    assert(memory.bytes@ =~= old(memory).bytes@ + zeros((end - len) as nat));
    start as u32
}

/// Gives a region of guest memory back.
///
/// The region that ends where the memory ends is cut off, and the memory
/// shrinks to where it started. Any other region stays where it is: the room
/// it takes is not handed out again.
pub fn deallocate(memory: &mut LinearMemory, pointer: u32, size: usize)
    ensures
        final(memory).limit == old(memory).limit,
        final(memory).bytes@ == if 8 <= pointer && pointer + size == old(memory).bytes@.len() {
            old(memory).bytes@.take(pointer as int)
        } else {
            old(memory).bytes@
        },
{
    let len: usize = memory.bytes.len();
    let start: usize = pointer as usize;
    if pointer >= 8 && start <= len && len - start == size {
        memory.bytes.truncate(start);
    }
}

} // verus!
