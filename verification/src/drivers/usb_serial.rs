//! Logical ports over one serial link.
//!
//! The link is a pair of ring channels shared with the interrupt handler:
//! one carries what came in, the other what is to go out. [`UsbUartSys`] is
//! the side that applications use. It cuts the incoming bytes into frames,
//! queues the payload of each frame on the port it names, and sends the
//! bytes of a port as frames.

use vstd::prelude::*;
use crate::drivers::accumulator::{
    Accumulator,
    AccError,
    drain,
    drain_all,
    feed_step,
    lemma_sentinel_pos,
};
use crate::drivers::frame::{
    Message,
    frame_bytes,
    lemma_max_frame_len_monotone,
    lemma_room_for,
    max_encoding_length,
    plan_piece,
    room_for,
};
use crate::drivers::port_queue::{
    deliver,
    deliver_frames,
    grown,
    lemma_deliver_frames_concat,
    lemma_deliver_frames_grows,
    lemma_drain_all_push,
    lemma_taken_in_grows,
    lemma_logged_refl,
    lemma_logged_trans,
    lemma_take_bytes,
    logged_for,
    stream,
    take_bytes,
    taken_in,
};
use crate::drivers::registry::{
    MAX_PORTS,
    QUEUE_DEPTH,
    queue_new,
    queue_pop_front,
    queue_push_back,
    queue_push_front,
    queued,
    table,
    table_contains,
    table_get_mut,
    table_insert,
    table_new,
    table_remove,
};
use crate::drivers::ring::{
    USB_BUF_SZ,
    grant_buf,
    grant_bytes,
    grant_commit,
    grant_release,
    ring_grant,
    ring_read,
    read_region,
    ring_split,
    write_region,
};

verus! {

/// Size of the scratch space for one incoming frame.
pub const ACC_SZ: usize = 1024;

/// The port that is always there. What arrives for it is also sent back.
pub const STDIO_PORT: u16 = 0;

/// The most that the interrupt handler asks to receive at a time.
pub const ISR_READ_SZ: usize = 128;

/// The side of the driver that serves the interrupt.
pub struct UsbUartIsr<'a> {
    out: bbqueue::Consumer<'a, USB_BUF_SZ>,
    inc: bbqueue::Producer<'a, USB_BUF_SZ>,
}

/// The side of the driver that applications use.
pub struct UsbUartSys<'a> {
    out: bbqueue::Producer<'a, USB_BUF_SZ>,
    inc: bbqueue::Consumer<'a, USB_BUF_SZ>,
    acc: Accumulator<ACC_SZ>,
    ports: heapless::LinearMap<u16, heapless::Deque<Vec<u8>, QUEUE_DEPTH>, MAX_PORTS>,
    sent: Ghost<Seq<(u16, Seq<u8>)>>,
}

/// Both sides of the driver.
pub struct UsbUartParts<'a> {
    pub isr: UsbUartIsr<'a>,
    pub sys: UsbUartSys<'a>,
}

/// What the serial port said of one transfer.
#[derive(Clone, Copy, Debug)]
pub enum UsbStatus {
    /// So many bytes went over.
    Moved(usize),
    /// The port can take or give nothing right now.
    WouldBlock,
    /// The port failed.
    Fault,
}

/// The bytes that leave a region of `granted` bytes after a transfer that
/// ended with `status`: those that went over, none if the port would
/// block. `None` if the port failed: no rule covers that.
pub open spec fn settled(status: UsbStatus, granted: int) -> Option<int> {
    match status {
        UsbStatus::Moved(n) => Some(if n <= granted {
            n as int
        } else {
            granted
        }),
        UsbStatus::WouldBlock => Some(0),
        UsbStatus::Fault => None,
    }
}

/// Decides how much of a region of `granted` bytes is given up after a
/// transfer, see [`settled`].
pub fn settle(status: UsbStatus, granted: usize) -> (r: Result<usize, ()>)
    ensures
        match settled(status, granted as int) {
            Some(n) => r == Ok::<usize, ()>(n as usize),
            None => r is Err,
        },
{
    match status {
        UsbStatus::Moved(n) => Ok(if n <= granted {
            n
        } else {
            granted
        }),
        UsbStatus::WouldBlock => Ok(0),
        UsbStatus::Fault => Err(()),
    }
}

impl<'a> UsbUartIsr<'a> {
    /// The next bytes to put on the wire, if the outgoing ring holds any.
    pub fn next_output(&mut self) -> (r: Option<bbqueue::GrantR<'a, USB_BUF_SZ>>)
        ensures
            r matches Some(grant) ==> read_region(grant).len() > 0,
    {
        match ring_read(&mut self.out) {
            Ok(grant) => Some(grant),
            Err(_) => None,
        }
    }

    /// Ends the transfer of `grant` to the wire: the bytes that went over
    /// are released, the others stay in the ring. Returns their number, or
    /// an error if the port failed.
    pub fn output_done(grant: bbqueue::GrantR<'a, USB_BUF_SZ>, status: UsbStatus) -> (r: Result<
        usize,
        (),
    >)
        ensures
            match settled(status, read_region(grant).len() as int) {
                Some(n) => r == Ok::<usize, ()>(n as usize),
                None => r is Err,
            },
    {
        let granted = grant_bytes(&grant).len();
        match settle(status, granted) {
            Ok(n) => {
                grant_release(grant, n);
                Ok(n)
            },
            Err(_) => Err(()),
        }
    }

    /// Room for the next bytes from the wire, at most `ISR_READ_SZ`, if the
    /// incoming ring has any.
    pub fn next_input(&mut self) -> (r: Option<bbqueue::GrantW<'a, USB_BUF_SZ>>)
        ensures
            r matches Some(grant) ==> 0 < write_region(grant).len() <= ISR_READ_SZ,
    {
        match ring_grant(&mut self.inc, ISR_READ_SZ) {
            Ok(grant) => Some(grant),
            Err(_) => None,
        }
    }

    /// Ends the transfer from the wire into `grant`: the bytes that came
    /// are committed. Returns their number, or an error if the port
    /// failed.
    pub fn input_done(grant: bbqueue::GrantW<'a, USB_BUF_SZ>, status: UsbStatus) -> (r: Result<
        usize,
        (),
    >)
        ensures
            match settled(status, write_region(grant).len() as int) {
                Some(n) => r == Ok::<usize, ()>(n as usize),
                None => r is Err,
            },
    {
        let mut grant = grant;
        let granted = grant_buf(&mut grant).len();
        match settle(status, granted) {
            Ok(n) => {
                grant_commit(grant, n);
                Ok(n)
            },
            Err(_) => Err(()),
        }
    }
}

/// Copies `src` into `buf`, from the index `at` on.
fn copy_into(buf: &mut [u8], at: usize, src: &[u8])
    requires
        at + src@.len() <= old(buf)@.len(),
    ensures
        final(buf)@ == old(buf)@.take(at as int) + src@ + old(buf)@.skip(at + src@.len()),
{
    let len = src.len();
    let size = buf.len();
    let ghost before = buf@;
    let mut i: usize = 0;
    while i < len
        invariant
            i <= len,
            len == src@.len(),
            size == before.len(),
            at + len <= before.len(),
            buf@ == before.take(at as int) + src@.take(i as int) + before.skip(at + i),
        decreases len - i,
    {
        let ghost prev = buf@;
        buf[at + i] = src[i];
        i += 1;
        assert(buf@ =~= before.take(at as int) + src@.take(i as int) + before.skip(at + i));
    }
    assert(src@.take(len as int) =~= src@);
}

/// The bytes of `src` from the index `from` on, as a chunk of their own.
fn tail_chunk(src: &[u8], from: usize) -> (r: Vec<u8>)
    requires
        from <= src@.len(),
    ensures
        r@ == src@.skip(from as int),
{
    let len = src.len();
    let mut r: Vec<u8> = Vec::new();
    let mut i: usize = from;
    while i < len
        invariant
            from <= i <= len,
            len == src@.len(),
            r@ == src@.subrange(from as int, i as int),
        decreases len - i,
    {
        r.push(src[i]);
        i += 1;
        assert(r@ =~= src@.subrange(from as int, i as int));
    }
    assert(src@.subrange(from as int, len as int) =~= src@.skip(from as int));
    r
}

/// Moves bytes from the front of the queue into `buf` until `buf` is full
/// or the queue is empty, and returns their number.
fn take_from_queue(q: &mut heapless::Deque<Vec<u8>, QUEUE_DEPTH>, buf: &mut [u8]) -> (n: usize)
    requires
        queued(*old(q)).len() <= QUEUE_DEPTH,
    ensures
        n == take_bytes(queued(*old(q)), old(buf)@.len() as int).0.len(),
        n <= old(buf)@.len(),
        final(buf)@ == take_bytes(queued(*old(q)), old(buf)@.len() as int).0 + old(buf)@.skip(
            n as int,
        ),
        queued(*final(q)) == take_bytes(queued(*old(q)), old(buf)@.len() as int).1,
{
    let buflen = buf.len();
    let ghost start = queued(*q);
    let ghost before = buf@;
    let mut used: usize = 0;
    assert(buf@ =~= buf@.take(0) + before.skip(0));
    assert(buf@.take(0) + take_bytes(start, buflen as int).0 =~= take_bytes(
        start,
        buflen as int,
    ).0);
    while used < buflen
        invariant
            used <= buflen,
            buflen == buf@.len(),
            buflen == before.len(),
            queued(*q).len() <= QUEUE_DEPTH,
            buf@ == buf@.take(used as int) + before.skip(used as int),
            take_bytes(start, buflen as int).0 == buf@.take(used as int) + take_bytes(
                queued(*q),
                buflen - used,
            ).0,
            take_bytes(start, buflen as int).1 == take_bytes(queued(*q), buflen - used).1,
        ensures
            used == buflen || queued(*q).len() == 0,
        decreases queued(*q).len() + buflen - used,
    {
        let ghost queue = queued(*q);
        let ghost filled = buf@.take(used as int);
        let msg = match queue_pop_front(q) {
            None => {
                break ;
            },
            Some(msg) => msg,
        };
        let avail = buflen - used;
        if msg.len() <= avail {
            copy_into(buf, used, msg.as_slice());
            used += msg.len();
            proof {
                let (out, rest) = take_bytes(queue.drop_first(), buflen - used);
                assert(buf@.take(used as int) =~= filled + msg@);
                assert(buf@ =~= buf@.take(used as int) + before.skip(used as int));
                assert(filled + (msg@ + out) =~= (filled + msg@) + out);
            }
        } else {
            let now = vstd::slice::slice_subrange(msg.as_slice(), 0, avail);
            copy_into(buf, used, now);
            let later = tail_chunk(msg.as_slice(), avail);
            let back = queue_push_front(q, later);
            used += avail;
            proof {
                assert(back is Ok);
                assert(now@ =~= msg@.take(avail as int));
                assert(buf@.take(used as int) =~= filled + msg@.take(avail as int));
                assert(buf@ =~= buf@.take(used as int) + before.skip(used as int));
                assert(filled + msg@.take(avail as int) + Seq::<u8>::empty() =~= filled
                    + msg@.take(avail as int));
            }
        }
    }
    proof {
        assert(take_bytes(queued(*q), buflen - used).0 =~= Seq::<u8>::empty());
        assert(buf@.take(used as int) + Seq::<u8>::empty() =~= buf@.take(used as int));
    }
    used
}

/// A chunk with the bytes of `data`, if memory can be had for it. For no bytes none is asked.
fn chunk_of(data: &[u8]) -> (r: Option<Vec<u8>>)
    ensures
        r matches Some(chunk) ==> chunk@ == data@,
        data@.len() == 0 ==> r is Some,
{
    let len = data.len();
    let mut chunk: Vec<u8> = Vec::new();
    if len > 0 && chunk.try_reserve(len).is_err() {
        return None;
    }
    let mut i: usize = 0;
    while i < len
        invariant
            i <= len,
            len == data@.len(),
            chunk@ == data@.take(i as int),
        decreases len - i,
    {
        chunk.push(data[i]);
        i += 1;
        assert(chunk@ =~= data@.take(i as int));
    }
    assert(data@.take(len as int) =~= data@);
    Some(chunk)
}

impl<'a> UsbUartSys<'a> {
    /// The registered ports, each with the chunks that wait on it, oldest
    /// first.
    pub closed spec fn ports(&self) -> Map<u16, Seq<Seq<u8>>> {
        table(self.ports)
    }

    /// The bytes of the incoming frame that is not complete yet.
    pub closed spec fn held(&self) -> Seq<u8> {
        self.acc@
    }

    /// The frames committed to the outgoing ring so far, oldest first, each
    /// as port and payload.
    pub closed spec fn sent(&self) -> Seq<(u16, Seq<u8>)> {
        self.sent@
    }

    /// The table is within its bounds and holds the standard port.
    pub open spec fn wf(&self) -> bool {
        &&& self.ports().contains_key(STDIO_PORT)
        &&& self.ports().dom().finite()
        &&& self.ports().dom().len() <= MAX_PORTS
        &&& forall|p: u16| #[trigger]
            self.ports().contains_key(p) ==> self.ports()[p].len() <= QUEUE_DEPTH
        &&& self.held().len() <= ACC_SZ
    }

    /// Opens a port. Fails if the port is open already or if `MAX_PORTS`
    /// ports are.
    pub fn register_port(&mut self, port: u16) -> (r: Result<(), ()>)
        requires
            old(self).wf(),
        ensures
            final(self).wf(),
            r is Ok <==> !old(self).ports().contains_key(port) && old(self).ports().dom().len()
                < MAX_PORTS,
            r is Ok ==> final(self).ports() == old(self).ports().insert(port, Seq::empty()),
            r is Err ==> final(self).ports() == old(self).ports(),
            final(self).held() == old(self).held(),
            final(self).sent() == old(self).sent(),
    {
        if table_contains(&self.ports, port) {
            return Err(());
        }
        match table_insert(&mut self.ports, port, queue_new()) {
            Ok(_) => Ok(()),
            Err(_) => Err(()),
        }
    }

    /// Closes a port and drops what waits on it. Fails for the standard
    /// port and for a port that is not open.
    pub fn release_port(&mut self, port: u16) -> (r: Result<(), ()>)
        requires
            old(self).wf(),
        ensures
            final(self).wf(),
            r is Ok <==> port != STDIO_PORT && old(self).ports().contains_key(port),
            r is Ok ==> final(self).ports() == old(self).ports().remove(port),
            r is Err ==> final(self).ports() == old(self).ports(),
            final(self).held() == old(self).held(),
            final(self).sent() == old(self).sent(),
    {
        if port == STDIO_PORT {
            return Err(());
        }
        match table_remove(&mut self.ports, port) {
            Some(_) => Ok(()),
            None => {
                assert(self.ports() =~= old(self).ports());
                Err(())
            },
        }
    }

    /// Reads what waits on a port, without looking at the ring first.
    ///
    /// Bytes go from the front of the port's queue into `buf` until `buf`
    /// is full or the queue is empty. Of a chunk that does not fit whole,
    /// what is left stays at the front of the queue. Fails if the port is
    /// not open.
    pub fn recv_queued(&mut self, port: u16, buf: &mut [u8]) -> (r: Result<usize, ()>)
        requires
            old(self).wf(),
        ensures
            final(self).wf(),
            r is Ok <==> old(self).ports().contains_key(port),
            r matches Ok(n) ==> n <= old(buf)@.len() && n == take_bytes(
                old(self).ports()[port],
                old(buf)@.len() as int,
            ).0.len() && final(buf)@ == take_bytes(
                old(self).ports()[port],
                old(buf)@.len() as int,
            ).0 + old(buf)@.skip(n as int) && final(self).ports() == old(self).ports().insert(
                port,
                take_bytes(old(self).ports()[port], old(buf)@.len() as int).1,
            ),
            r is Err ==> final(self).ports() == old(self).ports() && final(buf)@ == old(buf)@,
            final(self).held() == old(self).held(),
            final(self).sent() == old(self).sent(),
    {
        proof {
            lemma_take_bytes(old(self).ports()[port], buf@.len() as int);
        }
        match table_get_mut(&mut self.ports, port) {
            Some(q) => {
                let n = take_from_queue(q, buf);
                proof {
                    assert(self.ports().dom() =~= old(self).ports().dom());
                }
                Ok(n)
            },
            None => Err(()),
        }
    }

    /// Sends the bytes of `buf` on a port, as one frame or several.
    ///
    /// Each frame takes as much of what is left as fits the region that
    /// the outgoing ring grants for it. When the ring grants nothing, or
    /// too little for a frame with one byte of payload, the call ends and
    /// hands back the part of `buf` that was not sent, to be sent later.
    /// Fails at once, with all of `buf`, if the port is not open.
    pub fn send<'b>(&mut self, port: u16, buf: &'b [u8]) -> (r: Result<(), &'b [u8]>)
        requires
            old(self).wf(),
        ensures
            final(self).wf(),
            final(self).ports() == old(self).ports(),
            final(self).held() == old(self).held(),
            logged_for(old(self).sent(), final(self).sent(), port),
            !old(self).ports().contains_key(port) ==> final(self).sent() == old(self).sent() && (
            r matches Err(rest) && rest@ == buf@),
            old(self).ports().contains_key(port) ==> (r matches Err(rest) ==> rest@.len() > 0),
            match r {
                Ok(_) => stream(final(self).sent(), port) == stream(old(self).sent(), port) + buf@,
                Err(rest) => rest@.len() <= buf@.len() && rest@ == buf@.skip(
                    buf@.len() - rest@.len(),
                ) && stream(final(self).sent(), port) == stream(old(self).sent(), port)
                    + buf@.take(buf@.len() - rest@.len()),
            },
    {
        if !table_contains(&self.ports, port) {
            proof {
                assert(self.sent().take(self.sent().len() as int) =~= self.sent());
                assert(buf@.skip(0) =~= buf@);
                assert(stream(self.sent(), port) + buf@.take(0) =~= stream(self.sent(), port));
            }
            return Err(buf);
        }
        let mut remaining = buf;
        proof {
            assert(buf@.skip(0) =~= buf@);
            assert(stream(self.sent(), port) + buf@.take(0) =~= stream(self.sent(), port));
            assert(self.sent().take(self.sent().len() as int) =~= self.sent());
        }
        while !remaining.is_empty()
            invariant
                self.wf(),
                self.ports() == old(self).ports(),
                self.ports().contains_key(port),
                self.held() == old(self).held(),
                remaining@.len() <= buf@.len(),
                remaining@ == buf@.skip(buf@.len() - remaining@.len()),
                logged_for(old(self).sent(), self.sent(), port),
                stream(self.sent(), port) == stream(old(self).sent(), port) + buf@.take(
                    buf@.len() - remaining@.len(),
                ),
            decreases remaining@.len(),
        {
            let rem_len = remaining.len();
            let want = if rem_len > USB_BUF_SZ {
                USB_BUF_SZ
            } else {
                max_encoding_length(rem_len)
            };
            let mut grant = match ring_grant(&mut self.out, want) {
                Ok(grant) => grant,
                Err(_) => {
                    return Err(remaining);
                },
            };
            let region = grant_buf(&mut grant);
            let room = region.len();
            let now_len = match plan_piece(room, rem_len) {
                Some(n) => n,
                None => {
                    return Err(remaining);
                },
            };
            proof {
                lemma_room_for(room as int);
                lemma_max_frame_len_monotone(now_len as int, room_for(room as int));
            }
            let now = vstd::slice::slice_subrange(remaining, 0, now_len);
            let later = vstd::slice::slice_subrange(remaining, now_len, rem_len);
            let msg = Message { port, data: now };
            let used = match msg.encode_to(region) {
                Ok(used) => used,
                Err(_) => {
                    assert(false);
                    return Err(remaining);
                },
            };
            let ghost log = self.sent@;
            self.commit_frame(grant, used, port, Ghost(now@));
            proof {
                let done = buf@.len() - rem_len;
                assert(log.push((port, now@)).drop_last() =~= log);
                assert(buf@.take(done + now_len) =~= buf@.take(done) + now@);
                assert(later@ =~= buf@.skip(done + now_len));
                assert(self.sent().take(old(self).sent().len() as int) =~= log.take(
                    old(self).sent().len() as int,
                ));
                assert(stream(self.sent(), port) =~= stream(old(self).sent(), port) + buf@.take(
                    done + now_len,
                ));
            }
            remaining = later;
        }
        proof {
            assert(buf@.take(buf@.len() as int) =~= buf@);
        }
        Ok(())
    }

    /// Commits the frame that stands at the start of the granted region,
    /// and notes it in the log.
    fn commit_frame(
        &mut self,
        grant: bbqueue::GrantW<'a, USB_BUF_SZ>,
        used: usize,
        port: u16,
        Ghost(payload): Ghost<Seq<u8>>,
    )
        requires
            used <= write_region(grant).len(),
            write_region(grant).take(used as int) == frame_bytes(port, payload),
        ensures
            final(self).ports() == old(self).ports(),
            final(self).held() == old(self).held(),
            final(self).sent() == old(self).sent().push((port, payload)),
    {
        grant_commit(grant, used);
        self.sent = Ghost(self.sent@.push((port, payload)));
    }

    /// Puts a chunk at the back of the queue of a port. The chunk is
    /// dropped if the port is not open or its queue is full. Returns
    /// whether the chunk is in the queue.
    pub fn enqueue(&mut self, port: u16, chunk: Vec<u8>) -> (r: bool)
        requires
            old(self).wf(),
        ensures
            final(self).wf(),
            final(self).ports() == deliver(old(self).ports(), port, chunk@, true),
            r <==> old(self).ports().contains_key(port) && old(self).ports()[port].len()
                < QUEUE_DEPTH,
            final(self).held() == old(self).held(),
            final(self).sent() == old(self).sent(),
    {
        match table_get_mut(&mut self.ports, port) {
            Some(q) => {
                let pushed = queue_push_back(q, chunk);
                proof {
                    assert(self.ports().dom() =~= old(self).ports().dom());
                    if pushed is Err {
                        assert(self.ports() =~= old(self).ports());
                    }
                }
                pushed.is_ok()
            },
            None => false,
        }
    }

    /// Takes in bytes that came over the link.
    ///
    /// The bytes go through the accumulator. The payload of each frame
    /// that comes out goes to the queue of the port that the frame names;
    /// what arrives for the standard port is sent back as well, as far as
    /// the outgoing ring takes it. A frame that cannot be read is dropped,
    /// and so is a payload for which there is no open port, no room in the
    /// queue or no memory.
    pub fn ingest(&mut self, window: &[u8])
        requires
            old(self).wf(),
        ensures
            final(self).wf(),
            final(self).held() == drain(old(self).held(), window@, ACC_SZ as nat).1,
            exists|stored: Seq<bool>|
                stored.len() == drain(old(self).held(), window@, ACC_SZ as nat).0.len()
                    && final(self).ports() == deliver_frames(
                    old(self).ports(),
                    drain(old(self).held(), window@, ACC_SZ as nat).0,
                    stored,
                ),
            grown(old(self).ports(), final(self).ports()),
            logged_for(old(self).sent(), final(self).sent(), STDIO_PORT),
    {
        let ghost all = drain(old(self).held(), window@, ACC_SZ as nat);
        let ghost mut seen: Seq<Seq<u8>> = Seq::empty();
        let ghost mut stored: Seq<bool> = Seq::empty();
        let mut window = window;
        proof {
            assert(seen + all.0 =~= all.0);
            lemma_logged_refl(self.sent(), STDIO_PORT);
        }
        while !window.is_empty()
            invariant
                self.wf(),
                stored.len() == seen.len(),
                self.ports() == deliver_frames(old(self).ports(), seen, stored),
                all.0 == seen + drain(self.held(), window@, ACC_SZ as nat).0,
                all.1 == drain(self.held(), window@, ACC_SZ as nat).1,
                logged_for(old(self).sent(), self.sent(), STDIO_PORT),
            decreases window@.len(),
        {
            let ghost held = self.held();
            let ghost log = self.sent();
            let ghost fed = feed_step(held, window@, ACC_SZ as nat).1;
            proof {
                lemma_sentinel_pos(window@);
            }
            match self.acc.feed(window) {
                Ok(Some(mut msg)) => {
                    let ghost frame = msg.msg@;
                    let rest = msg.remainder;
                    let ghost mut kept = false;
                    match Message::decode_in_place(msg.msg.as_mut_slice()) {
                        Ok(smsg) => {
                            if smsg.port == STDIO_PORT {
                                let _ = self.send(STDIO_PORT, smsg.data);
                                proof {
                                    lemma_logged_trans(
                                        old(self).sent(),
                                        log,
                                        self.sent(),
                                        STDIO_PORT,
                                    );
                                }
                            }
                            if table_contains(&self.ports, smsg.port) {
                                match chunk_of(smsg.data) {
                                    Some(chunk) => {
                                        self.enqueue(smsg.port, chunk);
                                        proof {
                                            kept = true;
                                        }
                                    },
                                    None => {},
                                }
                            }
                        },
                        Err(_) => {},
                    }
                    proof {
                        let tail = drain(Seq::empty(), rest@, ACC_SZ as nat);
                        assert(seen + (seq![frame] + tail.0) =~= seen.push(frame) + tail.0);
                        assert(seen.push(frame).drop_last() =~= seen);
                        assert(stored.push(kept).drop_last() =~= stored);
                        seen = seen.push(frame);
                        stored = stored.push(kept);
                    }
                    window = rest;
                },
                Ok(None) => {
                    window = vstd::slice::slice_subrange(window, 0, 0);
                    proof {
                        assert(seen + Seq::<Seq<u8>>::empty() =~= seen);
                    }
                },
                Err(AccError::NoRoomNoRem) => {
                    window = vstd::slice::slice_subrange(window, 0, 0);
                    proof {
                        assert(window@ =~= fed->Dropped_rest);
                    }
                },
                Err(AccError::NoRoomWithRem(rem)) => {
                    window = rem;
                },
            }
        }
        proof {
            assert(seen + Seq::<Seq<u8>>::empty() =~= seen);
            lemma_deliver_frames_grows(old(self).ports(), seen, stored);
        }
    }

    /// Takes in what the incoming ring holds.
    ///
    /// Region after region is read from the ring, taken in (see
    /// [`Self::ingest`]) and released whole, until the ring has no more,
    /// and for at most `USB_BUF_SZ` regions, so that the call ends even
    /// while the interrupt handler goes on writing.
    pub fn process(&mut self)
        requires
            old(self).wf(),
        ensures
            final(self).wf(),
            taken_in(
                old(self).ports(),
                old(self).held(),
                final(self).ports(),
                final(self).held(),
                ACC_SZ as nat,
            ),
            grown(old(self).ports(), final(self).ports()),
            logged_for(old(self).sent(), final(self).sent(), STDIO_PORT),
    {
        let ghost mut windows: Seq<Seq<u8>> = Seq::empty();
        let ghost mut stored: Seq<bool> = Seq::empty();
        proof {
            lemma_logged_refl(self.sent(), STDIO_PORT);
        }
        let mut rounds: usize = 0;
        while rounds < USB_BUF_SZ
            invariant
                self.wf(),
                stored.len() == drain_all(old(self).held(), windows, ACC_SZ as nat).0.len(),
                self.ports() == deliver_frames(
                    old(self).ports(),
                    drain_all(old(self).held(), windows, ACC_SZ as nat).0,
                    stored,
                ),
                self.held() == drain_all(old(self).held(), windows, ACC_SZ as nat).1,
                logged_for(old(self).sent(), self.sent(), STDIO_PORT),
            ensures
                taken_in(
                    old(self).ports(),
                    old(self).held(),
                    self.ports(),
                    self.held(),
                    ACC_SZ as nat,
                ),
            decreases USB_BUF_SZ - rounds,
        {
            let grant = match ring_read(&mut self.inc) {
                Ok(grant) => grant,
                Err(_) => {
                    break ;
                },
            };
            let ghost before = self.ports();
            let ghost held = self.held();
            let ghost log = self.sent();
            let window = grant_bytes(&grant);
            let len = window.len();
            self.ingest(window);
            grant_release(grant, len);
            proof {
                let frames = drain(held, window@, ACC_SZ as nat).0;
                let kept = choose|kept: Seq<bool>|
                    kept.len() == frames.len() && self.ports() == deliver_frames(
                        before,
                        frames,
                        kept,
                    );
                let so_far = drain_all(old(self).held(), windows, ACC_SZ as nat).0;
                lemma_drain_all_push(old(self).held(), windows, window@, ACC_SZ as nat);
                lemma_deliver_frames_concat(old(self).ports(), so_far, stored, frames, kept);
                windows = windows.push(window@);
                stored = stored + kept;
                lemma_logged_trans(old(self).sent(), log, self.sent(), STDIO_PORT);
            }
            rounds += 1;
        }
        proof {
            lemma_taken_in_grows(
                old(self).ports(),
                old(self).held(),
                self.ports(),
                self.held(),
                ACC_SZ as nat,
            );
        }
    }

    /// Reads from a port into `buf` and returns the number of bytes read.
    ///
    /// First what the incoming ring holds is taken in (see
    /// [`Self::process`]), then the port is read (see
    /// [`Self::recv_queued`]). Fails if the port is not open.
    pub fn recv(&mut self, port: u16, buf: &mut [u8]) -> (r: Result<usize, ()>)
        requires
            old(self).wf(),
        ensures
            final(self).wf(),
            r is Ok <==> old(self).ports().contains_key(port),
            exists|mid: Map<u16, Seq<Seq<u8>>>|
                #![trigger grown(old(self).ports(), mid)]
                taken_in(
                    old(self).ports(),
                    old(self).held(),
                    mid,
                    final(self).held(),
                    ACC_SZ as nat,
                ) && grown(old(self).ports(), mid) && match r {
                    Ok(n) => n <= old(buf)@.len() && n == take_bytes(
                        mid[port],
                        old(buf)@.len() as int,
                    ).0.len() && final(buf)@ == take_bytes(mid[port], old(buf)@.len() as int).0
                        + old(buf)@.skip(n as int) && final(self).ports() == mid.insert(
                        port,
                        take_bytes(mid[port], old(buf)@.len() as int).1,
                    ),
                    Err(_) => final(self).ports() == mid && final(buf)@ == old(buf)@,
                },
            logged_for(old(self).sent(), final(self).sent(), STDIO_PORT),
    {
        self.process();
        let ghost mid = self.ports();
        let r = self.recv_queued(port, buf);
        proof {
            assert(grown(old(self).ports(), mid));
        }
        r
    }
}

/// The two sides of the driver over the incoming ring `inc` and the outgoing ring `out`, as
/// [`UsbUartParts::from_ends`] makes them. A ring gives out its ends once; after that this fails.
pub fn setup_usb_uart<'a>(
    inc: &'a bbqueue::BBBuffer<USB_BUF_SZ>,
    out: &'a bbqueue::BBBuffer<USB_BUF_SZ>,
) -> (r: Result<UsbUartParts<'a>, ()>)
    ensures
        r matches Ok(parts) ==> parts.sys.wf() && parts.sys.ports() == Map::<
            u16,
            Seq<Seq<u8>>,
        >::empty().insert(STDIO_PORT, Seq::empty()) && parts.sys.held() == Seq::<u8>::empty()
            && parts.sys.sent() == Seq::<(u16, Seq<u8>)>::empty(),
{
    let inc_ends = match ring_split(inc) {
        Ok(ends) => ends,
        Err(_) => {
            return Err(());
        },
    };
    let out_ends = match ring_split(out) {
        Ok(ends) => ends,
        Err(_) => {
            return Err(());
        },
    };
    Ok(UsbUartParts::from_ends(inc_ends, out_ends))
}

impl<'a> UsbUartParts<'a> {
    /// The two sides of the driver over the ends of the incoming ring and
    /// those of the outgoing ring. The interrupt's side writes to the first
    /// and reads from the second, the applications' side the other way
    /// round. Only the standard port is open at first, nothing waits on
    /// it, and nothing is held or has been sent.
    pub fn from_ends(
        inc: (bbqueue::Producer<'a, USB_BUF_SZ>, bbqueue::Consumer<'a, USB_BUF_SZ>),
        out: (bbqueue::Producer<'a, USB_BUF_SZ>, bbqueue::Consumer<'a, USB_BUF_SZ>),
    ) -> (parts: Self)
        ensures
            parts.sys.wf(),
            parts.sys.ports() == Map::<u16, Seq<Seq<u8>>>::empty().insert(
                STDIO_PORT,
                Seq::empty(),
            ),
            parts.sys.held() == Seq::<u8>::empty(),
            parts.sys.sent() == Seq::<(u16, Seq<u8>)>::empty(),
    {
        let (inc_prod, inc_cons) = inc;
        let (out_prod, out_cons) = out;
        let mut ports = table_new();
        let added = table_insert(&mut ports, STDIO_PORT, queue_new());
        assert(added is Ok);
        UsbUartParts {
            isr: UsbUartIsr { out: out_cons, inc: inc_prod },
            sys: UsbUartSys {
                out: out_prod,
                inc: inc_cons,
                acc: Accumulator::new(),
                ports,
                sent: Ghost(Seq::empty()),
            },
        }
    }
}

} // verus!
