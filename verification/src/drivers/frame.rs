//! The frame format of the serial link.
//!
//! A frame carries the payload of one logical port. On the wire it is the
//! port number in two bytes, low byte first, followed by the payload, the
//! whole byte stuffed so that no zero is left in it, and closed by the
//! sentinel.

use vstd::prelude::*;
use crate::drivers::accumulator::SENTINEL;

verus! {

/// Bytes that a frame spends on the port number.
pub const TAG_LEN: usize = 2;

/// The least a frame needs besides its payload: the port number, one byte
/// of stuffing and the sentinel.
pub const MIN_OVERHEAD: usize = 4;

/// The stuffed form of `src`.
pub uninterp spec fn cobs_encoding(src: Seq<u8>) -> Seq<u8>;

/// What a stuffed sequence stands for, or `None` if it is malformed.
pub uninterp spec fn cobs_decoding(enc: Seq<u8>) -> Option<Seq<u8>>;

/// The most that stuffing makes of `len` bytes.
pub open spec fn cobs_max_len(len: int) -> int {
    len + len / 254 + if len % 254 > 0 {
        1int
    } else {
        0int
    }
}

/// `cobs::max_encoding_length`: the size of buffer that stuffing `source_len`
/// bytes may need, by the formula of `cobs_max_len`.
#[verifier::external_body]
fn cobs_max_encoding_length(source_len: usize) -> (r: usize)
    requires
        cobs_max_len(source_len as int) <= usize::MAX,
    ensures
        r == cobs_max_len(source_len as int),
{
    cobs::max_encoding_length(source_len)
}

/// `cobs::encode_vec`: the stuffed form of `src`, which is a function of
/// `src` alone. It holds no zero and is at most `cobs_max_len` long, the
/// size of the buffer that the function encodes into.
#[verifier::external_body]
fn cobs_encode(src: &[u8]) -> (r: Vec<u8>)
    requires
        cobs_max_len(src@.len() as int) <= usize::MAX,
    ensures
        r@ == cobs_encoding(src@),
        r@.len() <= cobs_max_len(src@.len() as int),
        forall|i: int| 0 <= i < r@.len() ==> r@[i] != 0,
{
    cobs::encode_vec(src)
}

/// `cobs::decode_in_place`: undoes the stuffing inside `buf`, up to the
/// first zero if there is one. On success the decoded bytes stand at the
/// start of `buf` and their number is returned.
#[verifier::external_body]
fn cobs_decode_in_place(buf: &mut [u8]) -> (r: Result<usize, ()>)
    ensures
        final(buf)@.len() == old(buf)@.len(),
        match r {
            Ok(n) => n <= old(buf)@.len() && cobs_decoding(old(buf)@) == Some(
                final(buf)@.subrange(0, n as int),
            ),
            Err(_) => cobs_decoding(old(buf)@) is None,
        },
{
    cobs::decode_in_place(buf)
}

/// Port number and payload as they stand before stuffing.
pub open spec fn tagged(port: u16, payload: Seq<u8>) -> Seq<u8> {
    seq![(port % 256) as u8, (port / 256) as u8] + payload
}

/// A frame as it goes over the wire.
pub open spec fn frame_bytes(port: u16, payload: Seq<u8>) -> Seq<u8> {
    cobs_encoding(tagged(port, payload)).push(SENTINEL)
}

/// Port number and payload of a frame that came off the wire, its sentinel
/// taken away; `None` if the stuffing is malformed or the port number is
/// cut short.
pub open spec fn parsed(frame: Seq<u8>) -> Option<(u16, Seq<u8>)> {
    match cobs_decoding(frame) {
        Some(plain) => if plain.len() >= TAG_LEN {
            Some(((plain[0] + 256 * plain[1]) as u16, plain.skip(TAG_LEN as int)))
        } else {
            None
        },
        None => None,
    }
}

/// The longest frame that a payload of `len` bytes can make.
pub open spec fn max_frame_len(len: int) -> int {
    cobs_max_len(len + TAG_LEN) + 1
}

/// The longest payload whose frame is sure to fit into `room` bytes, and 0
/// if there is none.
pub open spec fn room_for(room: int) -> int {
    if room <= MIN_OVERHEAD {
        0
    } else {
        let k = room - 1;
        let plain = 254 * (k / 255) + if k % 255 >= 1 {
            k % 255 - 1
        } else {
            0
        };
        plain - TAG_LEN
    }
}

/// `room_for` is the largest payload that `max_frame_len` admits.
pub proof fn lemma_room_for(room: int)
    ensures
        room <= MIN_OVERHEAD ==> room_for(room) == 0 && max_frame_len(1) > room,
        room > MIN_OVERHEAD ==> 1 <= room_for(room) <= room - MIN_OVERHEAD && max_frame_len(
            room_for(room),
        ) <= room < max_frame_len(room_for(room) + 1),
{
    if room > MIN_OVERHEAD {
        let k = room - 1;
        let q = k / 255;
        let r = k % 255;
        assert(k == 255 * q + r && 0 <= r < 255);
        let plain: int = if r >= 1 {
            254 * q + r - 1
        } else {
            254 * q
        };
        if r >= 1 {
            assert(plain / 254 == q && plain % 254 == r - 1);
            assert((plain + 1) / 254 == if r == 254 {
                q + 1
            } else {
                q
            });
        } else {
            assert(plain / 254 == q && plain % 254 == 0);
            assert((plain + 1) / 254 == q && (plain + 1) % 254 == 1);
        }
    }
}

/// A longer payload makes no shorter frame at the most.
pub proof fn lemma_max_frame_len_monotone(a: int, b: int)
    requires
        0 <= a <= b,
    ensures
        max_frame_len(a) <= max_frame_len(b),
{
    let x = a + TAG_LEN;
    let y = b + TAG_LEN;
    assert(x / 254 <= y / 254);
    if x / 254 == y / 254 {
        assert(x % 254 <= y % 254);
    }
}

/// How many bytes of a stream of `remaining` go into the next frame, when
/// the ring has granted `granted` bytes for it: as many as are sure to
/// fit, and `None` if not even one byte does.
pub open spec fn piece_len(granted: int, remaining: int) -> Option<int> {
    if granted <= MIN_OVERHEAD {
        None
    } else if remaining <= room_for(granted) {
        Some(remaining)
    } else {
        Some(room_for(granted))
    }
}

/// The longest frame that a payload of `len` bytes can make.
pub fn max_encoding_length(len: usize) -> (r: usize)
    requires
        max_frame_len(len as int) <= usize::MAX,
    ensures
        r == max_frame_len(len as int),
{
    cobs_max_encoding_length(len + TAG_LEN) + 1
}

/// Decides how much payload the next frame takes, see [`piece_len`].
pub fn plan_piece(granted: usize, remaining: usize) -> (r: Option<usize>)
    ensures
        match piece_len(granted as int, remaining as int) {
            Some(n) => r == Some(n as usize) && n <= remaining,
            None => r is None,
        },
{
    if granted <= MIN_OVERHEAD {
        None
    } else {
        proof {
            lemma_room_for(granted as int);
        }
        let k = granted - 1;
        let rem = k % 255;
        let plain = 254 * (k / 255) + if rem >= 1 {
            rem - 1
        } else {
            0
        };
        let room = plain - TAG_LEN;
        if remaining <= room {
            Some(remaining)
        } else {
            Some(room)
        }
    }
}

/// The payload of a frame with the port it is addressed to.
pub struct Message<'a> {
    pub port: u16,
    pub data: &'a [u8],
}

impl<'a> Message<'a> {
    /// Reads the frame in `buf`, which holds no sentinel, and leaves the
    /// payload in place.
    pub fn decode_in_place(buf: &'a mut [u8]) -> (r: Result<Message<'a>, ()>)
        ensures
            match parsed(old(buf)@) {
                Some((port, payload)) => r matches Ok(m) && m.port == port && m.data@ == payload,
                None => r is Err,
            },
    {
        match cobs_decode_in_place(buf) {
            Ok(n) => {
                if n >= TAG_LEN {
                    let lo = buf[0];
                    let hi = buf[1];
                    let port: u16 = (hi as u16) * 256 + (lo as u16);
                    let data = vstd::slice::slice_subrange(buf, TAG_LEN, n);
                    assert(data@ =~= buf@.subrange(0, n as int).skip(TAG_LEN as int));
                    Ok(Message { port, data })
                } else {
                    Err(())
                }
            },
            Err(_) => Err(()),
        }
    }

    /// Writes the frame to the start of `buf` and returns its length. Fails,
    /// and leaves `buf` as it is, if the frame is longer than `buf`; it is
    /// not if `buf` has `max_frame_len` of the payload's length.
    pub fn encode_to(&self, buf: &mut [u8]) -> (r: Result<usize, ()>)
        requires
            max_frame_len(self.data@.len() as int) <= usize::MAX,
        ensures
            final(buf)@.len() == old(buf)@.len(),
            frame_bytes(self.port, self.data@).len() <= max_frame_len(self.data@.len() as int),
            match r {
                Ok(n) => n == frame_bytes(self.port, self.data@).len() && n <= old(buf)@.len()
                    && final(buf)@.subrange(0, n as int) == frame_bytes(self.port, self.data@)
                    && final(buf)@.skip(n as int) == old(buf)@.skip(n as int),
                Err(_) => frame_bytes(self.port, self.data@).len() > old(buf)@.len()
                    && final(buf)@ == old(buf)@,
            },
    {
        let mut plain: Vec<u8> = Vec::new();
        plain.push((self.port % 256) as u8);
        plain.push((self.port / 256) as u8);
        let len = self.data.len();
        let mut i: usize = 0;
        while i < len
            invariant
                i <= len,
                len == self.data@.len(),
                plain@ == tagged(self.port, self.data@.subrange(0, i as int)),
            decreases len - i,
        {
            plain.push(self.data[i]);
            i += 1;
            assert(plain@ =~= tagged(self.port, self.data@.subrange(0, i as int)));
        }
        assert(self.data@.subrange(0, len as int) =~= self.data@);
        let stuffed = cobs_encode(plain.as_slice());
        let n = stuffed.len();
        if n >= buf.len() {
            return Err(());
        }
        let ghost before = buf@;
        let mut j: usize = 0;
        while j < n
            invariant
                j <= n,
                n == stuffed@.len(),
                n < buf@.len(),
                buf@.len() == before.len(),
                buf@.subrange(0, j as int) == stuffed@.subrange(0, j as int),
                buf@.subrange(j as int, before.len() as int) == before.subrange(
                    j as int,
                    before.len() as int,
                ),
            decreases n - j,
        {
            let ghost prev = buf@;
            buf[j] = stuffed[j];
            j += 1;
            assert(buf@.subrange(0, j as int) =~= prev.subrange(0, j - 1).push(stuffed@[j - 1]));
            assert(stuffed@.subrange(0, j as int) =~= stuffed@.subrange(0, j - 1).push(
                stuffed@[j - 1],
            ));
            assert(buf@.subrange(j as int, before.len() as int) =~= prev.subrange(
                j - 1,
                before.len() as int,
            ).skip(1));
            assert(before.subrange(j as int, before.len() as int) =~= before.subrange(
                j - 1,
                before.len() as int,
            ).skip(1));
        }
        let ghost filled = buf@;
        buf[n] = SENTINEL;
        proof {
            assert(stuffed@.subrange(0, n as int) =~= stuffed@);
            assert(buf@.subrange(0, n + 1) =~= filled.subrange(0, n as int).push(SENTINEL));
            assert(buf@.subrange(n + 1, before.len() as int) =~= filled.subrange(
                n as int,
                before.len() as int,
            ).skip(1));
            assert(before.subrange(n + 1, before.len() as int) =~= before.subrange(
                n as int,
                before.len() as int,
            ).skip(1));
        }
        Ok(n + 1)
    }
}

} // verus!
