//! The errors of the bridge.

use vstd::prelude::*;

verus! {

/// Everything that can go wrong between the host and a guest module.
#[derive(Clone, Copy, Debug, PartialEq, Eq, Structural)]
pub enum BridgeError {
    /// A descriptor, argument or signature names a type the bridge cannot marshal.
    UnsupportedType,
    /// A type name was registered twice.
    DuplicateType,
    /// A layout handed to the codec is not the layout of the schema,
    /// or does not fit the buffer it is applied to.
    LayoutMismatch,
    /// The guest allocator returned the null pointer.
    AllocationFailure,
    /// A release named an allocation that the ledger does not hold.
    DanglingPointer,
    /// The guest faulted, or answered in a way no well-behaved guest does.
    GuestTrap,
}

} // verus!
