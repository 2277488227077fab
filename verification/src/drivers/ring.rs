//! The two ring channels between the interrupt handler and the rest.
//!
//! Each channel is a `bbqueue` buffer split into a producer and a consumer.
//! A side reserves a contiguous region (a grant), fills or reads it, and
//! gives it back with the number of bytes it used. What the other side does
//! in the meantime is not known here, so the contracts speak only of the
//! region that a grant covers.

use vstd::prelude::*;

verus! {

/// Capacity of each of the two ring channels, in bytes.
pub const USB_BUF_SZ: usize = 4096;

/// `bbqueue::BBBuffer`, the memory of a ring. Nothing of it is seen here.
#[verifier::external_type_specification]
#[verifier::external_body]
pub struct ExBBBuffer<const N: usize>(bbqueue::BBBuffer<N>);

/// `bbqueue::Producer`, the end of a ring that writes.
#[verifier::external_type_specification]
#[verifier::external_body]
pub struct ExProducer<'a, const N: usize>(bbqueue::Producer<'a, N>);

/// `bbqueue::Consumer`, the end of a ring that reads.
#[verifier::external_type_specification]
#[verifier::external_body]
pub struct ExConsumer<'a, const N: usize>(bbqueue::Consumer<'a, N>);

/// `bbqueue::GrantW`, a region reserved for writing; see `write_region`.
#[verifier::external_type_specification]
#[verifier::external_body]
pub struct ExGrantW<'a, const N: usize>(bbqueue::GrantW<'a, N>);

/// `bbqueue::GrantR`, a region reserved for reading; see `read_region`.
#[verifier::external_type_specification]
#[verifier::external_body]
pub struct ExGrantR<'a, const N: usize>(bbqueue::GrantR<'a, N>);

/// `bbqueue::Error`, why a ring refused. It is passed on unread.
#[verifier::external_type_specification]
#[verifier::external_body]
pub struct ExRingError(bbqueue::Error);

/// The bytes of the region that a write grant covers.
pub uninterp spec fn write_region(g: bbqueue::GrantW<'_, USB_BUF_SZ>) -> Seq<u8>;

/// The bytes of the region that a read grant covers.
pub uninterp spec fn read_region(g: bbqueue::GrantR<'_, USB_BUF_SZ>) -> Seq<u8>;

/// `BBBuffer::try_split`: the two ends of a ring, or an error if they were
/// given out before. Nothing is claimed of either.
#[verifier::external_body]
pub(crate) fn ring_split<'a>(ring: &'a bbqueue::BBBuffer<USB_BUF_SZ>) -> (r: Result<
    (bbqueue::Producer<'a, USB_BUF_SZ>, bbqueue::Consumer<'a, USB_BUF_SZ>),
    bbqueue::Error,
>) {
    ring.try_split()
}

/// `Producer::grant_max_remaining`: a region of at most `sz` bytes to write
/// to, and of at least one byte if `sz` is not 0.
#[verifier::external_body]
pub(crate) fn ring_grant<'a>(out: &mut bbqueue::Producer<'a, USB_BUF_SZ>, sz: usize) -> (r: Result<
    bbqueue::GrantW<'a, USB_BUF_SZ>,
    bbqueue::Error,
>)
    ensures
        r matches Ok(g) ==> write_region(g).len() <= sz && (sz > 0 ==> write_region(g).len() > 0),
{
    out.grant_max_remaining(sz)
}

/// `GrantW::buf`: the region itself, to be written to.
#[verifier::external_body]
pub(crate) fn grant_buf<'g, 'a>(g: &'g mut bbqueue::GrantW<'a, USB_BUF_SZ>) -> (r: &'g mut [u8])
    ensures
        r@ == write_region(*old(g)),
        final(r)@ == write_region(*final(g)),
{
    g.buf()
}

/// `GrantW::commit`: hands the first `used` bytes of the region, or all
/// of it if it has fewer, to the consumer and ends the grant. The ring is
/// not seen here, so nothing is claimed.
#[verifier::external_body]
pub(crate) fn grant_commit<'a>(g: bbqueue::GrantW<'a, USB_BUF_SZ>, used: usize) {
    g.commit(used)
}

/// `Consumer::read`: the next region of committed bytes, which is not
/// empty.
#[verifier::external_body]
pub(crate) fn ring_read<'a>(inc: &mut bbqueue::Consumer<'a, USB_BUF_SZ>) -> (r: Result<
    bbqueue::GrantR<'a, USB_BUF_SZ>,
    bbqueue::Error,
>)
    ensures
        r matches Ok(g) ==> read_region(g).len() > 0,
{
    inc.read()
}

/// `GrantR::buf`: the region itself.
#[verifier::external_body]
pub(crate) fn grant_bytes<'g, 'a>(g: &'g bbqueue::GrantR<'a, USB_BUF_SZ>) -> (r: &'g [u8])
    ensures
        r@ == read_region(*g),
{
    g.buf()
}

/// `GrantR::release`: frees the first `used` bytes of the region, or all
/// of it if it has fewer, for the producer and ends the grant. The ring is
/// not seen here, so nothing is claimed.
#[verifier::external_body]
pub(crate) fn grant_release<'a>(g: bbqueue::GrantR<'a, USB_BUF_SZ>, used: usize) {
    g.release(used)
}

} // verus!
