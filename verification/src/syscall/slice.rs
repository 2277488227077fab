//! Windows into the caller's memory that cross the privilege boundary.
//!
//! A window is an address and a length. It owns nothing: it stands for
//! bytes of the caller that both sides reach directly while one call lasts,
//! and the lifetime keeps it from being held longer on the caller's side.

use vstd::prelude::*;
use core::marker::PhantomData;

verus! {

/// A window of bytes to read.
pub struct SysCallSlice<'a> {
    pub(crate) ptr: u32,
    pub(crate) len: u32,
    _pdlt: PhantomData<&'a [u8]>,
}

/// A window of bytes to read and write.
pub struct SysCallSliceMut<'a> {
    pub(crate) ptr: u32,
    pub(crate) len: u32,
    _pdlt: PhantomData<&'a mut [u8]>,
}

impl<'a> SysCallSlice<'a> {
    /// The window of `len` bytes at the address `ptr`.
    pub closed spec fn window(ptr: u32, len: u32) -> Self {
        SysCallSlice { ptr, len, _pdlt: PhantomData }
    }

    /// A window is its address and its length.
    pub proof fn lemma_window(ptr: u32, len: u32)
        ensures
            Self::window(ptr, len).addr() == ptr,
            Self::window(ptr, len).size() == len,
    {
    }

    /// The window of `len` bytes at the address `ptr`.
    pub fn from_raw_parts(ptr: u32, len: u32) -> (r: Self)
        ensures
            r == Self::window(ptr, len),
            r.addr() == ptr,
            r.size() == len,
    {
        Self { ptr, len, _pdlt: PhantomData }
    }

    /// Address of the first byte.
    pub closed spec fn addr(&self) -> u32 {
        self.ptr
    }

    /// Number of bytes.
    pub closed spec fn size(&self) -> u32 {
        self.len
    }

    /// Address of the first byte.
    pub fn ptr(&self) -> (r: u32)
        ensures
            r == self.addr(),
    {
        self.ptr
    }

    /// Number of bytes.
    pub fn len(&self) -> (r: u32)
        ensures
            r == self.size(),
    {
        self.len
    }
}

impl<'a> SysCallSliceMut<'a> {
    /// The window of `len` bytes at the address `ptr`.
    pub fn from_raw_parts(ptr: u32, len: u32) -> (r: Self)
        ensures
            r.addr() == ptr,
            r.size() == len,
    {
        Self { ptr, len, _pdlt: PhantomData }
    }

    /// Address of the first byte.
    pub closed spec fn addr(&self) -> u32 {
        self.ptr
    }

    /// Number of bytes.
    pub closed spec fn size(&self) -> u32 {
        self.len
    }

    /// Address of the first byte.
    pub fn ptr(&self) -> (r: u32)
        ensures
            r == self.addr(),
    {
        self.ptr
    }

    /// Number of bytes.
    pub fn len(&self) -> (r: u32)
        ensures
            r == self.size(),
    {
        self.len
    }
}

impl<'a> From<SysCallSliceMut<'a>> for SysCallSlice<'a> {
    /// The same window, to read only.
    fn from(sli: SysCallSliceMut<'a>) -> (r: Self) {
        Self { ptr: sli.ptr, len: sli.len, _pdlt: PhantomData }
    }
}

impl<'a> vstd::std_specs::convert::FromSpecImpl<SysCallSliceMut<'a>> for SysCallSlice<'a> {
    open spec fn obeys_from_spec() -> bool {
        true
    }

    open spec fn from_spec(sli: SysCallSliceMut<'a>) -> Self {
        SysCallSlice::window(sli.addr(), sli.size())
    }
}

} // verus!
