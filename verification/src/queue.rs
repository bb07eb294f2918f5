//! The bounded byte queue that both directions of the link run through.

use vstd::prelude::*;

verus! {

/// Number of bytes that a [`ByteQueue`] holds at most.
pub const QUEUE_CAPACITY: usize = 128;

/// A first-in first-out queue of at most [`QUEUE_CAPACITY`] bytes, kept in
/// a `heapless::spsc::Queue<u8, U128>`.
///
/// The queue never allocates and never blocks. The verifier does not look
/// inside it: what it holds is [`queued`], and the functions of this module
/// say over that sequence what each operation of the outside queue does.
#[verifier::external_body]
pub struct ByteQueue {
    inner: heapless::spsc::Queue<u8, heapless::consts::U128>,
}

/// The bytes that the queue holds, the one to leave next first.
pub uninterp spec fn queued(q: ByteQueue) -> Seq<u8>;

/// Calls `heapless::spsc::Queue::new`, which makes an empty queue.
#[verifier::external_body]
pub(crate) fn queue_new() -> (q: ByteQueue)
    ensures
        queued(q) == Seq::<u8>::empty(),
{
    ByteQueue { inner: heapless::spsc::Queue::new() }
}

/// Calls `heapless::spsc::Queue::enqueue`, which appends `item` behind the
/// bytes already queued, or hands it back untouched, changing nothing, when
/// the queue already holds as many items as its capacity.
#[verifier::external_body]
pub(crate) fn queue_enqueue(q: &mut ByteQueue, item: u8) -> (r: Result<(), u8>)
    ensures
        r == (if queued(*old(q)).len() < QUEUE_CAPACITY {
            Ok(())
        } else {
            Err(item)
        }),
        queued(*final(q)) == (if queued(*old(q)).len() < QUEUE_CAPACITY {
            queued(*old(q)).push(item)
        } else {
            queued(*old(q))
        }),
{
    q.inner.enqueue(item)
}

/// Calls `heapless::spsc::Queue::dequeue`, which removes and returns the
/// byte at the front, or returns `None`, changing nothing, when the queue
/// is empty.
#[verifier::external_body]
pub(crate) fn queue_dequeue(q: &mut ByteQueue) -> (r: Option<u8>)
    ensures
        r == (if queued(*old(q)).len() > 0 {
            Some(queued(*old(q))[0])
        } else {
            None
        }),
        queued(*final(q)) == (if queued(*old(q)).len() > 0 {
            queued(*old(q)).drop_first()
        } else {
            queued(*old(q))
        }),
{
    q.inner.dequeue()
}

/// Calls `heapless::spsc::Queue::len`, which returns the number of items
/// in the queue.
#[verifier::external_body]
pub(crate) fn queue_len(q: &ByteQueue) -> (n: usize)
    ensures
        n == queued(*q).len(),
{
    q.inner.len()
}

} // verus!
