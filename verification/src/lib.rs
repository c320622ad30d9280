//! A host-side bridge for calling into sandboxed guest modules: type
//! descriptors, byte-exact struct layouts, a value codec, a ledger of
//! guest-owned memory and a call dispatcher.
//!
//! A guest is reached through a session, which keeps a log of every request
//! made and of what the guest answered. The contracts of the memory bridge
//! and of the dispatcher say how that log grows: which requests they make,
//! and what each answer leads to.

pub mod error;
pub mod types;
pub mod layout;
pub mod registry;
pub mod value;
pub mod codec;
pub mod guest;
pub mod memory;
pub mod dispatch;
pub mod protocol;
pub mod exports;
pub mod heap;
pub mod instance;
