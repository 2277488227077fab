//! What the queues of the ports hold, and how reading and delivery change
//! it.
//!
//! A queue is a sequence of chunks, oldest first. The bytes that a port has
//! to offer are the chunks of its queue, one after another.

use vstd::prelude::*;
use crate::drivers::accumulator::{drain, drain_all};
use crate::drivers::frame::parsed;
use crate::drivers::registry::QUEUE_DEPTH;

verus! {

/// One read on the model: the bytes that go into a buffer of `cap` bytes,
/// and the queue that is left. Chunks leave from the front while they fit;
/// one that does not is cut, and what is left of it stays at the front.
pub open spec fn take_bytes(queue: Seq<Seq<u8>>, cap: int) -> (Seq<u8>, Seq<Seq<u8>>)
    decreases queue.len(),
{
    if cap <= 0 || queue.len() == 0 {
        (Seq::empty(), queue)
    } else if queue[0].len() <= cap {
        let (out, rest) = take_bytes(queue.drop_first(), cap - queue[0].len());
        (queue[0] + out, rest)
    } else {
        (queue[0].take(cap), seq![queue[0].skip(cap)] + queue.drop_first())
    }
}

/// Several reads in a row, with buffers of the sizes `caps`: all the bytes
/// read, in the order read, and the queue that is left.
pub open spec fn take_all(queue: Seq<Seq<u8>>, caps: Seq<int>) -> (Seq<u8>, Seq<Seq<u8>>)
    decreases caps.len(),
{
    if caps.len() == 0 {
        (Seq::empty(), queue)
    } else {
        let (out, rest) = take_bytes(queue, caps[0]);
        let (more, last) = take_all(rest, caps.drop_first());
        (out + more, last)
    }
}

/// The sum of the sizes `caps`.
pub open spec fn total(caps: Seq<int>) -> int
    decreases caps.len(),
{
    if caps.len() == 0 {
        0
    } else {
        caps[0] + total(caps.drop_first())
    }
}

/// A read takes the first bytes of the queue, as many as the buffer holds
/// or as there are, and leaves the others in order. The queue gets no
/// longer by it.
pub proof fn lemma_take_bytes(queue: Seq<Seq<u8>>, cap: int)
    requires
        cap >= 0,
    ensures
        take_bytes(queue, cap).0 + take_bytes(queue, cap).1.flatten() == queue.flatten(),
        take_bytes(queue, cap).0.len() == if cap <= queue.flatten().len() {
            cap
        } else {
            queue.flatten().len() as int
        },
        take_bytes(queue, cap).1.len() <= queue.len(),
    decreases queue.len(),
{
    if cap <= 0 || queue.len() == 0 {
        assert(Seq::<u8>::empty() + queue.flatten() =~= queue.flatten());
    } else {
        let first = queue[0];
        let others = queue.drop_first();
        assert(queue.flatten() == first + others.flatten());
        if first.len() <= cap {
            lemma_take_bytes(others, cap - first.len());
            let (out, rest) = take_bytes(others, cap - first.len());
            assert((first + out) + rest.flatten() =~= first + (out + rest.flatten()));
        } else {
            let left = seq![first.skip(cap)] + others;
            assert(left.drop_first() =~= others);
            assert(left.flatten() == first.skip(cap) + others.flatten());
            assert(first.take(cap) + (first.skip(cap) + others.flatten()) =~= first
                + others.flatten());
        }
    }
}

/// First in, first out. Reads with buffers of any sizes give, put
/// together, the first bytes of what the queue held, in order, with none
/// lost, doubled or moved; what they leave in the queue is the rest. They
/// give all of it as soon as the buffers together are large enough.
pub proof fn lemma_fifo(queue: Seq<Seq<u8>>, caps: Seq<int>)
    requires
        forall|i: int| 0 <= i < caps.len() ==> caps[i] >= 0,
    ensures
        take_all(queue, caps).0 + take_all(queue, caps).1.flatten() == queue.flatten(),
        take_all(queue, caps).0.len() == if total(caps) <= queue.flatten().len() {
            total(caps)
        } else {
            queue.flatten().len() as int
        },
        total(caps) >= queue.flatten().len() ==> take_all(queue, caps).0 == queue.flatten(),
    decreases caps.len(),
{
    if caps.len() == 0 {
        assert(Seq::<u8>::empty() + queue.flatten() =~= queue.flatten());
    } else {
        lemma_take_bytes(queue, caps[0]);
        let (out, rest) = take_bytes(queue, caps[0]);
        let later = caps.drop_first();
        assert forall|i: int| 0 <= i < later.len() implies later[i] >= 0 by {
            assert(later[i] == caps[i + 1]);
        }
        lemma_fifo(rest, later);
        let (more, last) = take_all(rest, later);
        assert((out + more) + last.flatten() =~= out + (more + last.flatten()));
        lemma_total_nonnegative(later);
        if total(caps) >= queue.flatten().len() {
            assert(last.flatten().len() == 0);
            assert((out + more) + last.flatten() =~= out + more);
        }
    }
}

/// Sizes that are not negative have no negative sum.
pub proof fn lemma_total_nonnegative(caps: Seq<int>)
    requires
        forall|i: int| 0 <= i < caps.len() ==> caps[i] >= 0,
    ensures
        total(caps) >= 0,
    decreases caps.len(),
{
    if caps.len() != 0 {
        let later = caps.drop_first();
        assert forall|i: int| 0 <= i < later.len() implies later[i] >= 0 by {
            assert(later[i] == caps[i + 1]);
        }
        lemma_total_nonnegative(later);
    }
}

/// Delivery of one payload: it goes to the back of the queue of its port
/// if the port is registered, its queue is not full and memory was found
/// for it (`stored`). Else it is dropped and nothing changes.
pub open spec fn deliver(
    ports: Map<u16, Seq<Seq<u8>>>,
    port: u16,
    payload: Seq<u8>,
    stored: bool,
) -> Map<u16, Seq<Seq<u8>>> {
    if stored && ports.contains_key(port) && ports[port].len() < QUEUE_DEPTH {
        ports.insert(port, ports[port].push(payload))
    } else {
        ports
    }
}

/// Delivery of the frames `frames` in order, `stored[i]` saying whether
/// memory was found for the payload of the `i`th. A frame that cannot be
/// read is dropped.
pub open spec fn deliver_frames(
    ports: Map<u16, Seq<Seq<u8>>>,
    frames: Seq<Seq<u8>>,
    stored: Seq<bool>,
) -> Map<u16, Seq<Seq<u8>>>
    decreases frames.len(),
{
    if frames.len() == 0 || stored.len() != frames.len() {
        ports
    } else {
        let before = deliver_frames(ports, frames.drop_last(), stored.drop_last());
        match parsed(frames.last()) {
            Some((port, payload)) => deliver(before, port, payload, stored.last()),
            None => before,
        }
    }
}

/// Frames delivered in two goes are delivered as in one.
pub proof fn lemma_deliver_frames_concat(
    ports: Map<u16, Seq<Seq<u8>>>,
    first: Seq<Seq<u8>>,
    first_stored: Seq<bool>,
    then: Seq<Seq<u8>>,
    then_stored: Seq<bool>,
)
    requires
        first_stored.len() == first.len(),
        then_stored.len() == then.len(),
    ensures
        deliver_frames(deliver_frames(ports, first, first_stored), then, then_stored)
            == deliver_frames(ports, first + then, first_stored + then_stored),
    decreases then.len(),
{
    if then.len() == 0 {
        assert(first + then =~= first);
        assert(first_stored + then_stored =~= first_stored);
    } else {
        assert((first + then).drop_last() =~= first + then.drop_last());
        assert((first_stored + then_stored).drop_last() =~= first_stored
            + then_stored.drop_last());
        lemma_deliver_frames_concat(
            ports,
            first,
            first_stored,
            then.drop_last(),
            then_stored.drop_last(),
        );
    }
}

/// One more window at the end of a stream is fed to what the stream left
/// held, and its frames come after those of the stream.
pub proof fn lemma_drain_all_push(
    pending: Seq<u8>,
    windows: Seq<Seq<u8>>,
    window: Seq<u8>,
    cap: nat,
)
    ensures
        drain_all(pending, windows.push(window), cap).0 == drain_all(pending, windows, cap).0
            + drain(drain_all(pending, windows, cap).1, window, cap).0,
        drain_all(pending, windows.push(window), cap).1 == drain(
            drain_all(pending, windows, cap).1,
            window,
            cap,
        ).1,
    decreases windows.len(),
{
    let longer = windows.push(window);
    if windows.len() == 0 {
        assert(longer.drop_first() =~= windows);
        let fed = drain(pending, window, cap);
        assert(drain_all(fed.1, windows, cap) == (Seq::<Seq<u8>>::empty(), fed.1));
        assert(fed.0 + Seq::<Seq<u8>>::empty() =~= Seq::<Seq<u8>>::empty() + fed.0);
    } else {
        let head = drain(pending, windows[0], cap);
        assert(longer.drop_first() =~= windows.drop_first().push(window));
        lemma_drain_all_push(head.1, windows.drop_first(), window, cap);
        let rest = drain_all(head.1, windows.drop_first(), cap);
        let last = drain(rest.1, window, cap);
        assert(head.0 + (rest.0 + last.0) =~= (head.0 + rest.0) + last.0);
    }
}

/// Some bytes came over the link and were taken in: the table `after`
/// and the bytes `held_after` are what delivery of the frames of some
/// stream of windows makes of the table `before` and the bytes
/// `held_before`, with an accumulator of `cap` bytes. Which windows came,
/// and for which payloads memory was found, is not known beforehand.
pub open spec fn taken_in(
    before: Map<u16, Seq<Seq<u8>>>,
    held_before: Seq<u8>,
    after: Map<u16, Seq<Seq<u8>>>,
    held_after: Seq<u8>,
    cap: nat,
) -> bool {
    exists|windows: Seq<Seq<u8>>, stored: Seq<bool>|
        #![trigger deliver_frames(before, drain_all(held_before, windows, cap).0, stored)]
        stored.len() == drain_all(held_before, windows, cap).0.len() && after == deliver_frames(
            before,
            drain_all(held_before, windows, cap).0,
            stored,
        ) && held_after == drain_all(held_before, windows, cap).1
}

/// What is taken in only ever adds at the back of queues.
pub proof fn lemma_taken_in_grows(
    before: Map<u16, Seq<Seq<u8>>>,
    held_before: Seq<u8>,
    after: Map<u16, Seq<Seq<u8>>>,
    held_after: Seq<u8>,
    cap: nat,
)
    requires
        taken_in(before, held_before, after, held_after, cap),
    ensures
        grown(before, after),
{
    let (windows, stored) = choose|windows: Seq<Seq<u8>>, stored: Seq<bool>|
        #![trigger deliver_frames(before, drain_all(held_before, windows, cap).0, stored)]
        stored.len() == drain_all(held_before, windows, cap).0.len() && after == deliver_frames(
            before,
            drain_all(held_before, windows, cap).0,
            stored,
        ) && held_after == drain_all(held_before, windows, cap).1;
    lemma_deliver_frames_grows(before, drain_all(held_before, windows, cap).0, stored);
}

/// `b` has the ports of `a`, and each queue of `a` with chunks added at
/// its back, if any.
pub open spec fn grown(a: Map<u16, Seq<Seq<u8>>>, b: Map<u16, Seq<Seq<u8>>>) -> bool {
    &&& a.dom() == b.dom()
    &&& forall|p: u16| #[trigger]
        a.contains_key(p) ==> a[p].len() <= b[p].len() && b[p].take(a[p].len() as int) == a[p]
}

/// Delivery only ever adds at the back of queues.
pub proof fn lemma_deliver_grows(
    ports: Map<u16, Seq<Seq<u8>>>,
    port: u16,
    payload: Seq<u8>,
    stored: bool,
)
    ensures
        grown(ports, deliver(ports, port, payload, stored)),
{
    let after = deliver(ports, port, payload, stored);
    assert(after.dom() =~= ports.dom());
    assert forall|p: u16| #[trigger] ports.contains_key(p) implies ports[p].len() <= after[p].len()
        && after[p].take(ports[p].len() as int) == ports[p] by {
        assert(after[p].take(ports[p].len() as int) =~= ports[p]);
    }
}

/// A table has grown out of itself.
pub proof fn lemma_grown_refl(a: Map<u16, Seq<Seq<u8>>>)
    ensures
        grown(a, a),
{
    assert forall|p: u16| #[trigger] a.contains_key(p) implies a[p].take(a[p].len() as int)
        == a[p] by {
        assert(a[p].take(a[p].len() as int) =~= a[p]);
    }
}

/// What has grown out of a table that has grown out of `a` has grown out
/// of `a`.
pub proof fn lemma_grown_trans(
    a: Map<u16, Seq<Seq<u8>>>,
    b: Map<u16, Seq<Seq<u8>>>,
    c: Map<u16, Seq<Seq<u8>>>,
)
    requires
        grown(a, b),
        grown(b, c),
    ensures
        grown(a, c),
{
    assert forall|p: u16| #[trigger] a.contains_key(p) implies a[p].len() <= c[p].len()
        && c[p].take(a[p].len() as int) == a[p] by {
        assert(b.contains_key(p));
        assert(c[p].take(a[p].len() as int) =~= c[p].take(b[p].len() as int).take(
            a[p].len() as int,
        ));
    }
}

/// Delivery of any frames only ever adds at the back of queues.
pub proof fn lemma_deliver_frames_grows(
    ports: Map<u16, Seq<Seq<u8>>>,
    frames: Seq<Seq<u8>>,
    stored: Seq<bool>,
)
    ensures
        grown(ports, deliver_frames(ports, frames, stored)),
    decreases frames.len(),
{
    lemma_grown_refl(ports);
    if frames.len() != 0 && stored.len() == frames.len() {
        let before = deliver_frames(ports, frames.drop_last(), stored.drop_last());
        lemma_deliver_frames_grows(ports, frames.drop_last(), stored.drop_last());
        match parsed(frames.last()) {
            Some((port, payload)) => {
                lemma_deliver_grows(before, port, payload, stored.last());
                lemma_grown_trans(ports, before, deliver(before, port, payload, stored.last()));
            },
            None => {},
        }
    }
}

/// The payload bytes that the log `log` of frames holds for `port`, in
/// order.
pub open spec fn stream(log: Seq<(u16, Seq<u8>)>, port: u16) -> Seq<u8>
    decreases log.len(),
{
    if log.len() == 0 {
        Seq::empty()
    } else if log.last().0 == port {
        stream(log.drop_last(), port) + log.last().1
    } else {
        stream(log.drop_last(), port)
    }
}

/// `b` is the log `a` with frames for `port` added, if any.
pub open spec fn logged_for(a: Seq<(u16, Seq<u8>)>, b: Seq<(u16, Seq<u8>)>, port: u16) -> bool {
    &&& a.len() <= b.len()
    &&& b.take(a.len() as int) == a
    &&& forall|i: int| a.len() <= i < b.len() ==> (#[trigger] b[i]).0 == port
}

/// Nothing added is something added for any port.
pub proof fn lemma_logged_refl(a: Seq<(u16, Seq<u8>)>, port: u16)
    ensures
        logged_for(a, a, port),
{
    assert(a.take(a.len() as int) =~= a);
}

/// What is added to a log for a port in two steps is added to it for the
/// port.
pub proof fn lemma_logged_trans(
    a: Seq<(u16, Seq<u8>)>,
    b: Seq<(u16, Seq<u8>)>,
    c: Seq<(u16, Seq<u8>)>,
    port: u16,
)
    requires
        logged_for(a, b, port),
        logged_for(b, c, port),
    ensures
        logged_for(a, c, port),
{
    assert(c.take(a.len() as int) =~= c.take(b.len() as int).take(a.len() as int));
    assert forall|i: int| a.len() <= i < c.len() implies (#[trigger] c[i]).0 == port by {
        if i < b.len() {
            assert(c[i] == c.take(b.len() as int)[i]);
        }
    }
}

/// Frames added for one port leave the stream of every other port as it
/// was.
pub proof fn lemma_stream_of_others(
    a: Seq<(u16, Seq<u8>)>,
    b: Seq<(u16, Seq<u8>)>,
    port: u16,
    other: u16,
)
    requires
        logged_for(a, b, port),
        other != port,
    ensures
        stream(b, other) == stream(a, other),
    decreases b.len(),
{
    if b.len() > a.len() {
        let short = b.drop_last();
        assert(short.take(a.len() as int) =~= b.take(a.len() as int));
        lemma_stream_of_others(a, short, port, other);
    } else {
        assert(b.take(a.len() as int) =~= b);
    }
}

} // verus!
