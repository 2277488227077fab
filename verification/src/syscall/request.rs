//! What unprivileged code can ask of the kernel.

use vstd::prelude::*;
use crate::syscall::BlockKind;
use crate::syscall::slice::{SysCallSlice, SysCallSliceMut};

verus! {

pub enum SystemRequest {
    SetBootBlock { block: u32 },
    Reset,
}

pub enum SerialRequest<'a> {
    SerialOpenPort { port: u16 },
    SerialReceive { port: u16, dest_buf: SysCallSliceMut<'a> },
    SerialSend { port: u16, src_buf: SysCallSlice<'a> },
}

pub enum TimeRequest {
    SleepMicros { us: u32 },
}

pub enum BlockRequest<'a> {
    StoreInfo,
    BlockInfo { block_idx: u32, name_buf: SysCallSliceMut<'a> },
    BlockOpen { block_idx: u32 },
    BlockRead { block_idx: u32, offset: u32, dest_buf: SysCallSliceMut<'a> },
    BlockWrite { block_idx: u32, offset: u32, src_buf: SysCallSlice<'a> },
    BlockClose { block_idx: u32, name: SysCallSlice<'a>, len: u32, kind: BlockKind },
}

pub enum SysCallRequest<'a> {
    Serial(SerialRequest<'a>),
    Time(TimeRequest),
    BlockStore(BlockRequest<'a>),
    System(SystemRequest),
}

} // verus!
