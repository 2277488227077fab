//! Calls from unprivileged code into the kernel.
//!
//! A call is a request value that goes to the kernel in encoded form and a
//! success value that comes back the same way. The two sides meet in one
//! [`channel::SyscallChannel`], which holds at most one call at a time.

use vstd::prelude::*;

pub mod channel;
pub mod request;
pub mod slice;
pub mod success;

verus! {

/// What a block of the store is used for.
#[derive(PartialEq, Eq, Structural, Copy, Clone, Debug)]
pub enum BlockKind {
    Unused,
    Storage,
    Program,
}

} // verus!
