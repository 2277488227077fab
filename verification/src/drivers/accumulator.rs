//! Bounded framing of a byte stream.
//!
//! An [`Accumulator`] collects bytes until it sees the sentinel, then hands
//! out everything collected since the previous sentinel as one frame. It
//! never holds more than `N` bytes: a frame that would not fit is dropped.

use vstd::prelude::*;

verus! {

/// The byte that ends a frame.
pub const SENTINEL: u8 = 0;

/// Offset of the first sentinel in `w`, or `w.len()` if `w` holds none.
pub open spec fn sentinel_pos(w: Seq<u8>) -> int
    decreases w.len(),
{
    if w.len() == 0 {
        0
    } else if w[0] == SENTINEL {
        0
    } else {
        1 + sentinel_pos(w.drop_first())
    }
}

/// What one call of [`Accumulator::feed`] reports.
pub enum Fed {
    /// No sentinel seen, the window was stored.
    Pending,
    /// A frame was completed; `rest` is what followed its sentinel.
    Frame { frame: Seq<u8>, rest: Seq<u8> },
    /// The bytes collected so far did not fit and were dropped; `rest` is
    /// what followed the sentinel, if there was one.
    Dropped { rest: Seq<u8> },
}

/// One feeding step on the model: the bytes held afterwards, and the report.
pub open spec fn feed_step(pending: Seq<u8>, window: Seq<u8>, cap: nat) -> (Seq<u8>, Fed) {
    let n = sentinel_pos(window);
    if n < window.len() {
        let rest = window.subrange(n + 1, window.len() as int);
        if pending.len() + n <= cap {
            (Seq::empty(), Fed::Frame { frame: pending + window.subrange(0, n), rest })
        } else {
            (Seq::empty(), Fed::Dropped { rest })
        }
    } else if pending.len() + window.len() <= cap {
        (pending + window, Fed::Pending)
    } else {
        (Seq::empty(), Fed::Dropped { rest: Seq::empty() })
    }
}

/// `sentinel_pos` is the least index that holds the sentinel.
pub proof fn lemma_sentinel_pos(w: Seq<u8>)
    ensures
        0 <= sentinel_pos(w) <= w.len(),
        forall|i: int| 0 <= i < sentinel_pos(w) ==> w[i] != SENTINEL,
        sentinel_pos(w) < w.len() ==> w[sentinel_pos(w)] == SENTINEL,
    decreases w.len(),
{
    if w.len() != 0 && w[0] != SENTINEL {
        let t = w.drop_first();
        lemma_sentinel_pos(t);
        assert forall|i: int| 0 <= i < sentinel_pos(w) implies w[i] != SENTINEL by {
            if i > 0 {
                assert(w[i] == t[i - 1]);
            }
        }
        if sentinel_pos(w) < w.len() {
            assert(w[sentinel_pos(w)] == t[sentinel_pos(t)]);
        }
    }
}

/// An index with no sentinel before it, and the sentinel or the end at it,
/// is `sentinel_pos`.
pub proof fn lemma_sentinel_pos_is(w: Seq<u8>, n: int)
    requires
        0 <= n <= w.len(),
        forall|i: int| 0 <= i < n ==> w[i] != SENTINEL,
        n < w.len() ==> w[n] == SENTINEL,
    ensures
        sentinel_pos(w) == n,
{
    lemma_sentinel_pos(w);
    let m = sentinel_pos(w);
    if m < n {
        assert(w[m] == SENTINEL);
    } else if n < m {
        assert(w[n] == SENTINEL);
    }
}

/// The frames that come out while `window` is fed until nothing of it is
/// left, oldest first, and the bytes held afterwards.
pub open spec fn drain(pending: Seq<u8>, window: Seq<u8>, cap: nat) -> (Seq<Seq<u8>>, Seq<u8>)
    decreases window.len(),
{
    if window.len() == 0 {
        (Seq::empty(), pending)
    } else {
        proof {
            lemma_sentinel_pos(window);
        }
        let (held, fed) = feed_step(pending, window, cap);
        match fed {
            Fed::Pending => (Seq::empty(), held),
            Fed::Frame { frame, rest } => {
                let (frames, last) = drain(held, rest, cap);
                (seq![frame] + frames, last)
            },
            Fed::Dropped { rest } => drain(held, rest, cap),
        }
    }
}

/// The same for a stream that arrives as several windows, one after another.
pub open spec fn drain_all(pending: Seq<u8>, windows: Seq<Seq<u8>>, cap: nat) -> (
    Seq<Seq<u8>>,
    Seq<u8>,
)
    decreases windows.len(),
{
    if windows.len() == 0 {
        (Seq::empty(), pending)
    } else {
        let (frames, held) = drain(pending, windows[0], cap);
        let (more, last) = drain_all(held, windows.drop_first(), cap);
        (frames + more, last)
    }
}

/// No stretch of `window` between two sentinels, counted with what is
/// already held, is longer than `cap`: feeding it drops nothing.
pub open spec fn fits(pending: Seq<u8>, window: Seq<u8>, cap: nat) -> bool
    decreases window.len(),
{
    let n = sentinel_pos(window);
    if 0 <= n < window.len() {
        pending.len() + n <= cap && fits(
            Seq::empty(),
            window.subrange(n + 1, window.len() as int),
            cap,
        )
    } else {
        pending.len() + window.len() <= cap
    }
}

/// The first sentinel of `a + b` is that of `a`, or else that of `b`.
pub proof fn lemma_sentinel_pos_concat(a: Seq<u8>, b: Seq<u8>)
    ensures
        sentinel_pos(a + b) == if sentinel_pos(a) < a.len() {
            sentinel_pos(a)
        } else {
            a.len() + sentinel_pos(b)
        },
{
    lemma_sentinel_pos(a);
    lemma_sentinel_pos(b);
    let n = if sentinel_pos(a) < a.len() {
        sentinel_pos(a)
    } else {
        a.len() + sentinel_pos(b)
    };
    assert forall|i: int| 0 <= i < n implies (a + b)[i] != SENTINEL by {
        if i >= a.len() {
            assert((a + b)[i] == b[i - a.len()]);
        }
    }
    lemma_sentinel_pos_is(a + b, n);
}

/// Feeding `a` and then `b` gives the frames of feeding `a + b` at once,
/// and leaves the same bytes held, as long as nothing is dropped.
pub proof fn lemma_drain_concat(pending: Seq<u8>, a: Seq<u8>, b: Seq<u8>, cap: nat)
    requires
        fits(pending, a + b, cap),
    ensures
        fits(pending, a, cap),
        fits(drain(pending, a, cap).1, b, cap),
        drain(pending, a + b, cap).0 == drain(pending, a, cap).0 + drain(
            drain(pending, a, cap).1,
            b,
            cap,
        ).0,
        drain(pending, a + b, cap).1 == drain(drain(pending, a, cap).1, b, cap).1,
    decreases a.len(),
{
    let w = a + b;
    lemma_sentinel_pos(a);
    lemma_sentinel_pos(b);
    lemma_sentinel_pos(w);
    lemma_sentinel_pos_concat(a, b);
    let n = sentinel_pos(a);
    if a.len() == 0 {
        assert(w =~= b);
    } else if n < a.len() {
        let a1 = a.subrange(n + 1, a.len() as int);
        assert(w.subrange(n + 1, w.len() as int) =~= a1 + b);
        assert(w.subrange(0, n) =~= a.subrange(0, n));
        lemma_drain_concat(Seq::empty(), a1, b, cap);
        let rest = drain(Seq::empty(), a1, cap);
        let tail = drain(rest.1, b, cap);
        let frame = pending + a.subrange(0, n);
        assert(seq![frame] + (rest.0 + tail.0) =~= (seq![frame] + rest.0) + tail.0);
    } else {
        let m = sentinel_pos(b);
        let held = pending + a;
        if b.len() == 0 {
            assert(w =~= a);
        } else if m < b.len() {
            assert(w.subrange(a.len() + m + 1, w.len() as int) =~= b.subrange(
                m + 1,
                b.len() as int,
            ));
            assert(pending + w.subrange(0, a.len() + m) =~= held + b.subrange(0, m));
            let tail = drain(Seq::empty(), b.subrange(m + 1, b.len() as int), cap);
            let frame = held + b.subrange(0, m);
            assert(Seq::<Seq<u8>>::empty() + (seq![frame] + tail.0) =~= seq![frame] + tail.0);
        } else {
            assert(pending + w =~= held + b);
            assert(Seq::<Seq<u8>>::empty() + Seq::<Seq<u8>>::empty() =~= Seq::<Seq<u8>>::empty());
        }
    }
}

/// Chunk invariance. However a stream is cut into windows, feeding the
/// windows in order yields the frames of feeding the whole stream in one
/// call, in the same order, and ends with the same bytes held. This holds
/// of every stream of which nothing has to be dropped.
pub proof fn lemma_chunk_invariance(pending: Seq<u8>, windows: Seq<Seq<u8>>, cap: nat)
    requires
        fits(pending, windows.flatten(), cap),
    ensures
        drain_all(pending, windows, cap) == drain(pending, windows.flatten(), cap),
    decreases windows.len(),
{
    if windows.len() != 0 {
        let first = windows[0];
        let others = windows.drop_first();
        assert(windows.flatten() == first + others.flatten());
        lemma_drain_concat(pending, first, others.flatten(), cap);
        let head = drain(pending, first, cap);
        lemma_chunk_invariance(head.1, others, cap);
    }
}

/// A completed frame, without its sentinel.
pub struct AccMsg<const N: usize> {
    buf: Vec<u8>,
}

impl<const N: usize> View for AccMsg<N> {
    type V = Seq<u8>;

    closed spec fn view(&self) -> Seq<u8> {
        self.buf@
    }
}

impl<const N: usize> AccMsg<N> {
    /// The frame's bytes, for decoding in place.
    pub fn as_mut_slice(&mut self) -> (r: &mut [u8])
        ensures
            r@ == old(self)@,
            final(r)@ == final(self)@,
    {
        self.buf.as_mut_slice()
    }

    /// Number of bytes in the frame.
    pub fn len(&self) -> (n: usize)
        ensures
            n == self@.len(),
    {
        self.buf.len()
    }
}

/// A frame together with the bytes of the window that followed it.
pub struct AccSuccess<'a, const N: usize> {
    pub remainder: &'a [u8],
    pub msg: AccMsg<N>,
}

/// The accumulator ran out of room and dropped what it held.
pub enum AccError<'a> {
    /// Nothing is left of the window.
    NoRoomNoRem,
    /// These bytes followed the sentinel of the dropped frame.
    NoRoomWithRem(&'a [u8]),
}

/// Does `r` report what the model reports as `fed`?
pub open spec fn reports<const N: usize>(
    r: Result<Option<AccSuccess<'_, N>>, AccError<'_>>,
    fed: Fed,
) -> bool {
    match fed {
        Fed::Pending => r == Ok::<Option<AccSuccess<'_, N>>, AccError<'_>>(None),
        Fed::Frame { frame, rest } => r matches Ok(Some(s)) && s.msg@ == frame && s.remainder@
            == rest,
        Fed::Dropped { rest } => if rest.len() == 0 {
            r == Err::<Option<AccSuccess<'_, N>>, AccError<'_>>(AccError::NoRoomNoRem)
        } else {
            r matches Err(AccError::NoRoomWithRem(rem)) && rem@ == rest
        },
    }
}

/// Scratch space for one frame of at most `N` bytes.
pub struct Accumulator<const N: usize> {
    buf: Vec<u8>,
    idx: usize,
}

impl<const N: usize> View for Accumulator<N> {
    type V = Seq<u8>;

    /// The bytes collected since the last sentinel.
    closed spec fn view(&self) -> Seq<u8> {
        self.buf@.subrange(0, self.idx as int)
    }
}

impl<const N: usize> Accumulator<N> {
    #[verifier::type_invariant]
    spec fn inv(self) -> bool {
        self.buf@.len() == N && self.idx <= N
    }

    /// An accumulator that holds nothing.
    pub fn new() -> (r: Self)
        ensures
            r@ == Seq::<u8>::empty(),
    {
        Self { buf: vec![0u8; N], idx: 0 }
    }

    /// Take in the next window of the stream.
    ///
    /// Up to the first sentinel the window is added to what is held. At a
    /// sentinel the held bytes are handed out as a frame, with the rest of
    /// the window, which the caller feeds again. Whenever the held bytes
    /// would exceed `N` they are dropped instead.
    pub fn feed<'a>(&mut self, buf: &'a [u8]) -> (r: Result<Option<AccSuccess<'a, N>>, AccError<'a>>)
        ensures
            final(self)@ == feed_step(old(self)@, buf@, N as nat).0,
            reports(r, feed_step(old(self)@, buf@, N as nat).1),
            final(self)@.len() <= N,
    {
        proof {
            use_type_invariant(&*self);
        }
        let len = buf.len();
        let mut n: usize = 0;
        while n < len && buf[n] != SENTINEL
            invariant
                n <= len,
                len == buf@.len(),
                forall|i: int| 0 <= i < n ==> buf@[i] != SENTINEL,
            decreases len - n,
        {
            n += 1;
        }
        proof {
            lemma_sentinel_pos_is(buf@, n as int);
        }
        let room = N - self.idx;
        if n < len {
            let later = vstd::slice::slice_subrange(buf, n + 1, len);
            if n <= room {
                let ghost held = self@;
                let mut frame: Vec<u8> = Vec::new();
                let mut i: usize = 0;
                while i < self.idx
                    invariant
                        i <= self.idx <= self.buf@.len(),
                        frame@ == self.buf@.subrange(0, i as int),
                    decreases self.idx - i,
                {
                    frame.push(self.buf[i]);
                    i += 1;
                    assert(frame@ =~= self.buf@.subrange(0, i as int));
                }
                let mut j: usize = 0;
                while j < n
                    invariant
                        j <= n <= buf@.len(),
                        frame@ == held + buf@.subrange(0, j as int),
                    decreases n - j,
                {
                    frame.push(buf[j]);
                    j += 1;
                    assert(frame@ =~= held + buf@.subrange(0, j as int));
                }
                self.idx = 0;
                assert(self@ =~= Seq::<u8>::empty());
                Ok(Some(AccSuccess { remainder: later, msg: AccMsg { buf: frame } }))
            } else {
                self.idx = 0;
                assert(self@ =~= Seq::<u8>::empty());
                if later.len() > 0 {
                    Err(AccError::NoRoomWithRem(later))
                } else {
                    Err(AccError::NoRoomNoRem)
                }
            }
        } else if len <= room {
            let ghost held = self@;
            let start = self.idx;
            let mut j: usize = 0;
            while j < len
                invariant
                    j <= len,
                    len == buf@.len(),
                    start + len <= N,
                    self.idx == start,
                    self.buf@.len() == N,
                    self.buf@.subrange(0, start as int) == held,
                    self.buf@.subrange(start as int, start + j) == buf@.subrange(0, j as int),
                decreases len - j,
            {
                let ghost before = self.buf@;
                self.buf[start + j] = buf[j];
                j += 1;
                assert(self.buf@.subrange(0, start as int) =~= before.subrange(0, start as int));
                assert(self.buf@.subrange(start as int, start + j) =~= before.subrange(
                    start as int,
                    start + j - 1,
                ).push(buf@[j - 1]));
                assert(buf@.subrange(0, j as int) =~= buf@.subrange(0, j - 1).push(buf@[j - 1]));
            }
            self.idx = start + len;
            assert(self@ =~= held + buf@) by {
                assert(buf@.subrange(0, len as int) =~= buf@);
                assert(self.buf@.subrange(0, start + len) =~= self.buf@.subrange(0, start as int)
                    + self.buf@.subrange(start as int, start + len));
            }
            Ok(None)
        } else {
            self.idx = 0;
            assert(self@ =~= Seq::<u8>::empty());
            Err(AccError::NoRoomNoRem)
        }
    }
}

} // verus!
