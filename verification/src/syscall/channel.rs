//! The slot through which a call reaches the kernel.
//!
//! The slot has four fields: where the encoded request stands and how long
//! it is, and where the answer is to go and how long it may be. The caller
//! claims the slot by putting the address of its request into the first
//! field, which works only while that field is null. It fills in the other
//! fields and traps into the kernel. The kernel reads the request, writes
//! the answer and puts the length of the answer into the last field. Back
//! from the trap, the caller takes that length and clears the slot.

use vstd::prelude::*;

verus! {

/// The most that a request or an answer may take in encoded form.
pub const MAX_WIRE: usize = 128;

/// The four fields of the slot. Addresses are plain numbers, 0 for null.
pub struct Slot {
    pub in_ptr: usize,
    pub in_len: usize,
    pub out_ptr: usize,
    pub out_len: usize,
}

impl Slot {
    /// The slot with nothing in it.
    pub open spec fn idle() -> Slot {
        Slot { in_ptr: 0, in_len: 0, out_ptr: 0, out_len: 0 }
    }

    /// No call is in the slot: no request stands in it, and both lengths
    /// are 0.
    pub open spec fn is_idle(self) -> bool {
        self.in_ptr == 0 && self.in_len == 0 && self.out_len == 0
    }

    /// An attempt to claim the slot for the request at `addr`: the slot
    /// afterwards, and whether the claim was made.
    pub open spec fn claim(self, addr: usize) -> (Slot, bool) {
        if self.in_ptr == 0 {
            (Slot { in_ptr: addr, ..self }, true)
        } else {
            (self, false)
        }
    }

    /// The caller fills in the rest: the length of the request, and where
    /// the answer goes and how long it may be.
    pub open spec fn publish(self, in_len: usize, out_ptr: usize, out_cap: usize) -> Slot {
        Slot { in_ptr: self.in_ptr, in_len, out_ptr, out_len: out_cap }
    }

    /// The kernel is done: it leaves the length of its answer, 0 if it
    /// has none, and clears the other fields.
    pub open spec fn respond(self, len: usize) -> Slot {
        Slot { in_ptr: 0, in_len: 0, out_ptr: 0, out_len: len }
    }

    /// The caller takes the length of the answer and clears the slot.
    pub open spec fn take(self) -> (Slot, usize) {
        (Slot::idle(), self.out_len)
    }
}

/// Why a call gave no answer.
#[derive(PartialEq, Eq, Structural, Clone, Copy, Debug)]
pub enum CallError {
    /// The encoded request is longer than `MAX_WIRE`.
    Oversize,
    /// Another call is in the slot.
    Busy,
    /// The kernel left no answer.
    Failed,
    /// The answer cannot be read.
    Malformed,
}

/// The one slot, with access through its methods only.
pub struct SyscallChannel {
    slot: Slot,
}

impl View for SyscallChannel {
    type V = Slot;

    closed spec fn view(&self) -> Slot {
        self.slot
    }
}

impl SyscallChannel {
    /// A slot with nothing in it.
    pub fn new() -> (r: Self)
        ensures
            r@ == Slot::idle(),
    {
        SyscallChannel { slot: Slot { in_ptr: 0, in_len: 0, out_ptr: 0, out_len: 0 } }
    }

    /// Is no call in the slot?
    pub fn is_idle(&self) -> (r: bool)
        ensures
            r == self@.is_idle(),
    {
        self.slot.in_ptr == 0 && self.slot.in_len == 0 && self.slot.out_len == 0
    }

    /// Claims the slot for the request at `addr`, if no request stands in
    /// it. Nothing changes otherwise.
    pub fn try_claim(&mut self, addr: usize) -> (r: bool)
        requires
            addr != 0,
        ensures
            final(self)@ == old(self)@.claim(addr).0,
            r == old(self)@.claim(addr).1,
    {
        if self.slot.in_ptr == 0 {
            self.slot.in_ptr = addr;
            true
        } else {
            false
        }
    }

    /// Fills in the fields that follow a claim.
    pub fn publish(&mut self, in_len: usize, out_ptr: usize, out_cap: usize)
        ensures
            final(self)@ == old(self)@.publish(in_len, out_ptr, out_cap),
    {
        self.slot.in_len = in_len;
        self.slot.out_ptr = out_ptr;
        self.slot.out_len = out_cap;
    }

    /// The call that waits in the slot, for the kernel to serve: the
    /// fields as the caller left them, or `None` if no request stands in
    /// the slot.
    pub fn pending(&self) -> (r: Option<Slot>)
        ensures
            r == if self@.in_ptr == 0 {
                None
            } else {
                Some(self@)
            },
    {
        if self.slot.in_ptr == 0 {
            None
        } else {
            Some(
                Slot {
                    in_ptr: self.slot.in_ptr,
                    in_len: self.slot.in_len,
                    out_ptr: self.slot.out_ptr,
                    out_len: self.slot.out_len,
                },
            )
        }
    }

    /// The kernel's last step: leaves the length of the answer, 0 for
    /// none, and clears the other fields.
    pub fn respond(&mut self, len: usize)
        ensures
            final(self)@ == old(self)@.respond(len),
    {
        self.slot.out_len = len;
        self.slot.out_ptr = 0;
        self.slot.in_len = 0;
        self.slot.in_ptr = 0;
    }

    /// The caller's last step: takes the length of the answer and clears
    /// the slot, whatever stands in it.
    pub fn take_output(&mut self) -> (r: usize)
        ensures
            final(self)@ == old(self)@.take().0,
            r == old(self)@.take().1,
    {
        let len = self.slot.out_len;
        self.slot.out_len = 0;
        self.slot.out_ptr = 0;
        self.slot.in_len = 0;
        self.slot.in_ptr = 0;
        len
    }
}

/// What the caller's side has to tell the call.
#[derive(Clone, Copy, Debug)]
pub enum CallEvent {
    /// A call begins. The encoded request of `in_len` bytes stands at
    /// `in_addr`; the answer may take `out_cap` bytes at `out_addr`.
    Enter { in_addr: usize, in_len: usize, out_addr: usize, out_cap: usize },
    /// The trap has returned. The answer was given `out_cap` bytes.
    Returned { out_cap: usize },
}

/// What the caller's side has to do next.
#[derive(Clone, Copy, Debug)]
pub enum CallAction {
    /// Trap into the kernel, then report `Returned`.
    Trap,
    /// The call is over: the length of the answer, or why there is none.
    Done(Result<usize, CallError>),
}

/// One step of a call on the model: the slot afterwards, and what to do
/// next.
///
/// A request longer than `MAX_WIRE` is refused before the slot is touched.
/// A call that finds the slot taken ends as `Busy` and leaves it as it is.
/// After the trap the slot is cleared in every case; no answer is
/// `Failed`, and one that claims more room than it was given is
/// `Malformed`.
pub open spec fn call_step(slot: Slot, event: CallEvent) -> (Slot, CallAction) {
    match event {
        CallEvent::Enter { in_addr, in_len, out_addr, out_cap } => if in_len > MAX_WIRE {
            (slot, CallAction::Done(Err(CallError::Oversize)))
        } else if !slot.claim(in_addr).1 {
            (slot, CallAction::Done(Err(CallError::Busy)))
        } else {
            (slot.claim(in_addr).0.publish(in_len, out_addr, out_cap), CallAction::Trap)
        },
        CallEvent::Returned { out_cap } => {
            let (cleared, len) = slot.take();
            if len == 0 {
                (cleared, CallAction::Done(Err(CallError::Failed)))
            } else if len > out_cap {
                (cleared, CallAction::Done(Err(CallError::Malformed)))
            } else {
                (cleared, CallAction::Done(Ok(len)))
            }
        },
    }
}

/// Carries a call with encoded request and answer through the slot, one
/// step at a time, see [`call_step`]. The trap itself is the caller's to
/// make, between the two steps.
pub fn raw_syscall(channel: &mut SyscallChannel, event: CallEvent) -> (r: CallAction)
    requires
        event matches CallEvent::Enter { in_addr, .. } ==> in_addr != 0,
    ensures
        final(channel)@ == call_step(old(channel)@, event).0,
        r == call_step(old(channel)@, event).1,
{
    match event {
        CallEvent::Enter { in_addr, in_len, out_addr, out_cap } => {
            if in_len > MAX_WIRE {
                return CallAction::Done(Err(CallError::Oversize));
            }
            if !channel.try_claim(in_addr) {
                return CallAction::Done(Err(CallError::Busy));
            }
            channel.publish(in_len, out_addr, out_cap);
            CallAction::Trap
        },
        CallEvent::Returned { out_cap } => {
            let len = channel.take_output();
            if len == 0 {
                CallAction::Done(Err(CallError::Failed))
            } else if len > out_cap {
                CallAction::Done(Err(CallError::Malformed))
            } else {
                CallAction::Done(Ok(len))
            }
        },
    }
}

/// Mutual exclusion. Of two attempts to claim an idle slot, in either
/// order, the first succeeds and the second fails and changes nothing.
pub proof fn lemma_one_claim(slot: Slot, a: usize, b: usize)
    requires
        slot.is_idle(),
        a != 0,
        b != 0,
    ensures
        slot.claim(a).1 && !slot.claim(a).0.claim(b).1,
        slot.claim(a).0.claim(b).0 == slot.claim(a).0,
        slot.claim(b).1 && !slot.claim(b).0.claim(a).1,
{
}

/// A call leaves the slot idle. Whatever the kernel, or anyone, did to
/// the slot during the trap, the step after the trap clears every field,
/// so that the next claim succeeds, and only that one.
pub proof fn lemma_call_ends_idle(during: Slot, out_cap: usize, a: usize, b: usize)
    requires
        a != 0,
        b != 0,
    ensures
        call_step(during, CallEvent::Returned { out_cap }).0 == Slot::idle(),
        call_step(during, CallEvent::Returned { out_cap }).0.is_idle(),
        call_step(during, CallEvent::Returned { out_cap }).0.claim(a).1,
        !call_step(during, CallEvent::Returned { out_cap }).0.claim(a).0.claim(b).1,
{
}

/// A call takes the slot. From its first step to its last the slot is
/// not idle, and every other call that begins ends as `Busy` and leaves
/// the slot as it is.
pub proof fn lemma_call_holds_slot(slot: Slot, first: CallEvent, second: CallEvent)
    requires
        slot.is_idle(),
        first matches CallEvent::Enter { in_addr, in_len, .. } && in_addr != 0 && in_len
            <= MAX_WIRE,
        second matches CallEvent::Enter { in_len, .. } && in_len <= MAX_WIRE,
    ensures
        call_step(slot, first).1 == CallAction::Trap,
        !call_step(slot, first).0.is_idle(),
        call_step(call_step(slot, first).0, second) == (
            call_step(slot, first).0,
            CallAction::Done(Err(CallError::Busy)),
        ),
{
}

} // verus!
