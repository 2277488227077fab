//! What the kernel answers when a call went well.

use vstd::prelude::*;
use crate::syscall::BlockKind;
use crate::syscall::slice::{SysCallSlice, SysCallSliceMut};

verus! {

pub enum SystemSuccess {
    BootBlockSet,
}

pub enum SerialSuccess<'a> {
    PortOpened,
    DataReceived { dest_buf: SysCallSliceMut<'a> },
    DataSent { remainder: Option<SysCallSlice<'a>> },
}

pub enum TimeSuccess {
    SleptMicros { us: u32 },
}

pub struct BlockInfo<'a> {
    pub length: u32,
    pub capacity: u32,
    pub kind: BlockKind,
    pub status: BlockStatus,
    pub name: Option<SysCallSlice<'a>>,
}

#[derive(Copy, Clone, PartialEq, Eq, Structural, Debug)]
pub enum BlockStatus {
    Idle,
    OpenNoWrites,
    OpenWritten,
}

pub struct StoreInfo {
    pub blocks: u32,
    pub capacity: u32,
}

pub enum BlockSuccess<'a> {
    StoreInfo(StoreInfo),
    BlockInfo(BlockInfo<'a>),
    BlockOpened,
    BlockRead { dest_buf: SysCallSliceMut<'a> },
    BlockWritten,
    BlockClosed,
}

pub enum SysCallSuccess<'a> {
    Serial(SerialSuccess<'a>),
    Time(TimeSuccess),
    BlockStore(BlockSuccess<'a>),
    System(SystemSuccess),
}

} // verus!
