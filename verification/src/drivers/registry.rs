//! The table of logical ports and their queues.
//!
//! The table is a `heapless::LinearMap` from port number to a
//! `heapless::Deque` of chunks, both of fixed capacity. The contracts below
//! describe them by what they hold: a map from port number to the chunks
//! queued for it, oldest first.

use vstd::prelude::*;

verus! {

/// How many ports can be registered at a time.
pub const MAX_PORTS: usize = 8;

/// How many chunks can wait on one port.
pub const QUEUE_DEPTH: usize = 16;

/// `heapless::Deque`, a queue of fixed capacity; see `queued`.
#[verifier::external_type_specification]
#[verifier::external_body]
#[verifier::reject_recursive_types(T)]
pub struct ExDeque<T, const N: usize>(heapless::Deque<T, N>);

/// `heapless::LinearMap`, a map of fixed capacity; see `table`.
#[verifier::external_type_specification]
#[verifier::external_body]
#[verifier::reject_recursive_types(K)]
#[verifier::reject_recursive_types(V)]
pub struct ExLinearMap<K, V, const N: usize>(heapless::LinearMap<K, V, N>);

/// The chunks in a queue, front first.
pub uninterp spec fn queued(q: heapless::Deque<Vec<u8>, QUEUE_DEPTH>) -> Seq<Seq<u8>>;

/// The registered ports, each with the chunks in its queue.
pub uninterp spec fn table(
    t: heapless::LinearMap<u16, heapless::Deque<Vec<u8>, QUEUE_DEPTH>, MAX_PORTS>,
) -> Map<u16, Seq<Seq<u8>>>;

/// `Deque::new`: an empty queue.
#[verifier::external_body]
pub(crate) fn queue_new() -> (r: heapless::Deque<Vec<u8>, QUEUE_DEPTH>)
    ensures
        queued(r) == Seq::<Seq<u8>>::empty(),
{
    heapless::Deque::new()
}

/// `Deque::push_back`: appends the chunk, or hands it back if the queue
/// holds `QUEUE_DEPTH` chunks already.
#[verifier::external_body]
pub(crate) fn queue_push_back(
    q: &mut heapless::Deque<Vec<u8>, QUEUE_DEPTH>,
    chunk: Vec<u8>,
) -> (r: Result<(), Vec<u8>>)
    ensures
        r is Ok <==> queued(*old(q)).len() < QUEUE_DEPTH,
        r is Ok ==> queued(*final(q)) == queued(*old(q)).push(chunk@),
        r is Err ==> r->Err_0 == chunk && queued(*final(q)) == queued(*old(q)),
{
    q.push_back(chunk)
}

/// `Deque::push_front`: puts the chunk before all others, or hands it back
/// if the queue holds `QUEUE_DEPTH` chunks already.
#[verifier::external_body]
pub(crate) fn queue_push_front(
    q: &mut heapless::Deque<Vec<u8>, QUEUE_DEPTH>,
    chunk: Vec<u8>,
) -> (r: Result<(), Vec<u8>>)
    ensures
        r is Ok <==> queued(*old(q)).len() < QUEUE_DEPTH,
        r is Ok ==> queued(*final(q)) == seq![chunk@] + queued(*old(q)),
        r is Err ==> r->Err_0 == chunk && queued(*final(q)) == queued(*old(q)),
{
    q.push_front(chunk)
}

/// `Deque::pop_front`: takes the oldest chunk out, if there is one.
#[verifier::external_body]
pub(crate) fn queue_pop_front(q: &mut heapless::Deque<Vec<u8>, QUEUE_DEPTH>) -> (r: Option<
    Vec<u8>,
>)
    ensures
        r is Some <==> queued(*old(q)).len() > 0,
        r is Some ==> r->Some_0@ == queued(*old(q))[0] && queued(*final(q)) == queued(
            *old(q),
        ).drop_first(),
        r is None ==> queued(*final(q)) == queued(*old(q)),
{
    q.pop_front()
}

/// `LinearMap::new`: a table without ports.
#[verifier::external_body]
pub(crate) fn table_new() -> (r: heapless::LinearMap<
    u16,
    heapless::Deque<Vec<u8>, QUEUE_DEPTH>,
    MAX_PORTS,
>)
    ensures
        table(r) == (Map::<u16, Seq<Seq<u8>>>::empty()),
{
    heapless::LinearMap::new()
}

/// `LinearMap::contains_key`: is the port in the table?
#[verifier::external_body]
pub(crate) fn table_contains(
    t: &heapless::LinearMap<u16, heapless::Deque<Vec<u8>, QUEUE_DEPTH>, MAX_PORTS>,
    port: u16,
) -> (r: bool)
    ensures
        r == table(*t).contains_key(port),
{
    t.contains_key(&port)
}

/// `LinearMap::insert`: puts the queue under the port. A queue that was
/// there before is handed out. A new port is refused, and port and queue
/// are handed back, if the table holds `MAX_PORTS` ports already.
#[verifier::external_body]
pub(crate) fn table_insert(
    t: &mut heapless::LinearMap<u16, heapless::Deque<Vec<u8>, QUEUE_DEPTH>, MAX_PORTS>,
    port: u16,
    q: heapless::Deque<Vec<u8>, QUEUE_DEPTH>,
) -> (r: Result<
    Option<heapless::Deque<Vec<u8>, QUEUE_DEPTH>>,
    (u16, heapless::Deque<Vec<u8>, QUEUE_DEPTH>),
>)
    ensures
        r is Err <==> !table(*old(t)).contains_key(port) && table(*old(t)).dom().len()
            >= MAX_PORTS,
        r is Ok ==> table(*final(t)) == table(*old(t)).insert(port, queued(q)),
        r is Ok ==> (r->Ok_0 is Some <==> table(*old(t)).contains_key(port)),
        r matches Ok(Some(prev)) ==> queued(prev) == table(*old(t))[port],
        r matches Err(back) ==> back.0 == port && queued(back.1) == queued(q) && table(*final(t))
            == table(*old(t)),
{
    t.insert(port, q)
}

/// `LinearMap::remove`: takes the port out of the table and hands out its
/// queue, if the port is there.
#[verifier::external_body]
pub(crate) fn table_remove(
    t: &mut heapless::LinearMap<u16, heapless::Deque<Vec<u8>, QUEUE_DEPTH>, MAX_PORTS>,
    port: u16,
) -> (r: Option<heapless::Deque<Vec<u8>, QUEUE_DEPTH>>)
    ensures
        r is Some <==> table(*old(t)).contains_key(port),
        r matches Some(q) ==> queued(q) == table(*old(t))[port],
        table(*final(t)) == table(*old(t)).remove(port),
{
    t.remove(&port)
}

/// `LinearMap::get_mut`: the queue of the port, to be changed in place.
/// What the queue holds when the caller is done with it is what the table
/// then holds for the port.
#[verifier::external_body]
pub(crate) fn table_get_mut<'a>(
    t: &'a mut heapless::LinearMap<u16, heapless::Deque<Vec<u8>, QUEUE_DEPTH>, MAX_PORTS>,
    port: u16,
) -> (r: Option<&'a mut heapless::Deque<Vec<u8>, QUEUE_DEPTH>>)
    ensures
        r is Some <==> table(*old(t)).contains_key(port),
        r is None ==> table(*final(t)) == table(*old(t)),
        r is Some ==> queued(*r->Some_0) == table(*old(t))[port] && table(*final(t)) == table(
            *old(t),
        ).insert(port, queued(*final(r->Some_0))),
{
    t.get_mut(&port)
}

} // verus!
