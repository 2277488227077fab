//! Message transport for a small microkernel: the slot through which
//! unprivileged code calls into the kernel, and logical ports over one
//! serial link.

pub mod drivers;
pub mod syscall;
