//! The duplex engine: a bounded queue of received bytes, a bounded queue of
//! bytes to send, and one held byte that the write primitive could not take
//! yet.
//!
//! The engine never touches the serial port. The receive interrupt hands
//! it what the read primitive answered, and [`MiniTxRx::pump`] is handed
//! the write primitive as a function that it calls at most once.

use crate::codec::SerializedMsg;
use crate::queue::{
    queue_dequeue, queue_enqueue, queue_len, queue_new, queued, ByteQueue, QUEUE_CAPACITY,
};
use vstd::prelude::*;

verus! {

/// The answer of the non-blocking write primitive to one byte.
pub enum TxStatus {
    /// The byte was taken for transmission.
    Accepted,
    /// The byte cannot be taken right now and has to be offered again.
    WouldBlock,
}

/// The answer of the non-blocking read primitive.
pub enum RxStatus {
    /// A byte arrived.
    Byte(u8),
    /// Nothing to read: the interrupt fired for another reason.
    WouldBlock,
    /// The primitive failed in some other way.
    Fault,
}

/// The held byte and the outbound queue after the write primitive
/// answered `status` to the first byte of `pending`, the bytes that wait
/// for transmission in their order: a byte that would block is held and
/// the rest stays queued behind it; an accepted byte is gone.
pub open spec fn after_write(pending: Seq<u8>, status: TxStatus) -> (Option<u8>, Seq<u8>)
    recommends
        pending.len() > 0,
{
    match status {
        TxStatus::Accepted => (None, pending.drop_first()),
        TxStatus::WouldBlock => (Some(pending[0]), pending.drop_first()),
    }
}

/// The bytes that wait for transmission, in their order: the held byte if
/// there is one, then the queue.
pub open spec fn pending_of(held: Option<u8>, queue: Seq<u8>) -> Seq<u8> {
    match held {
        Some(byte) => seq![byte] + queue,
        None => queue,
    }
}

/// The queue after as many bytes of `bytes` were appended to `queue` as its
/// capacity allows.
pub open spec fn enqueued(queue: Seq<u8>, bytes: Seq<u8>) -> Seq<u8>
    recommends
        queue.len() <= QUEUE_CAPACITY,
{
    if queue.len() + bytes.len() <= QUEUE_CAPACITY {
        queue + bytes
    } else {
        queue + bytes.subrange(0, QUEUE_CAPACITY - queue.len())
    }
}

/// The first byte of `bytes` that finds `queue` full, if there is one.
pub open spec fn rejected(queue: Seq<u8>, bytes: Seq<u8>) -> Option<u8>
    recommends
        queue.len() <= QUEUE_CAPACITY,
{
    if queue.len() + bytes.len() <= QUEUE_CAPACITY {
        None
    } else {
        Some(bytes[QUEUE_CAPACITY - queue.len()])
    }
}

/// The duplex engine of one serial link.
pub struct MiniTxRx {
    in_bytes: ByteQueue,
    tx_queue: ByteQueue,
    held_byte: Option<u8>,
    rx_faults: u32,
}

impl MiniTxRx {
    /// The received bytes that were not handed out yet, oldest first.
    pub closed spec fn inbound(&self) -> Seq<u8> {
        queued(self.in_bytes)
    }

    /// The queued bytes that were not offered to the write primitive yet,
    /// oldest first.
    pub closed spec fn outbound(&self) -> Seq<u8> {
        queued(self.tx_queue)
    }

    /// The byte that the write primitive could not take yet.
    pub closed spec fn held(&self) -> Option<u8> {
        self.held_byte
    }

    /// How often the read primitive failed, as far as the counter goes.
    pub closed spec fn faults(&self) -> nat {
        self.rx_faults as nat
    }

    /// The bytes that wait for transmission, in the order in which they
    /// will reach the write primitive.
    pub open spec fn pending(&self) -> Seq<u8> {
        pending_of(self.held(), self.outbound())
    }

    /// Neither queue holds more than its capacity. Every engine that
    /// [`Self::new`] made is, whatever was done with it since.
    pub open spec fn wf(&self) -> bool {
        self.inbound().len() <= QUEUE_CAPACITY && self.outbound().len() <= QUEUE_CAPACITY
    }

    /// An engine with both queues empty and no byte held.
    pub fn new() -> (engine: Self)
        ensures
            engine.wf(),
            engine.inbound() == Seq::<u8>::empty(),
            engine.outbound() == Seq::<u8>::empty(),
            engine.held() == None::<u8>,
            engine.faults() == 0,
    {
        Self { in_bytes: queue_new(), tx_queue: queue_new(), held_byte: None, rx_faults: 0 }
    }

    /// One round of the cooperative loop.
    ///
    /// Offers at most one byte to `write`: the held byte if there is one,
    /// else the oldest queued byte. A byte that would block is held and
    /// offered again in the next round, before any byte behind it. Then
    /// hands out the oldest received byte, if there is one. `write` has to
    /// take the byte that is offered, and is not called when no byte waits.
    pub fn pump<W>(&mut self, write: W) -> (received: Option<u8>) where W: FnOnce(u8) -> TxStatus
        requires
            old(self).wf(),
            old(self).pending().len() > 0 ==> call_requires(write, (old(self).pending()[0],)),
        ensures
            final(self).wf(),
            final(self).faults() == old(self).faults(),
            received == (if old(self).inbound().len() > 0 {
                Some(old(self).inbound()[0])
            } else {
                None
            }),
            final(self).inbound() == (if old(self).inbound().len() > 0 {
                old(self).inbound().drop_first()
            } else {
                old(self).inbound()
            }),
            old(self).pending().len() == 0 ==> final(self).held() == None::<u8>
                && final(self).outbound() == old(self).outbound(),
            old(self).pending().len() > 0 ==> exists|status: TxStatus| #[trigger]
                call_ensures(write, (old(self).pending()[0],), status) && (
                final(self).held(),
                final(self).outbound(),
            ) == after_write(old(self).pending(), status),
    {
        self.pump_sender(write);
        queue_dequeue(&mut self.in_bytes)
    }

    /// Appends the bytes of a frame to the outbound queue, as many as fit.
    ///
    /// Fails with the first byte that found the queue full; the bytes
    /// before it stay queued, and what was queued before is never
    /// disturbed.
    pub fn send_msg(&mut self, m: SerializedMsg) -> (out: Result<(), u8>)
        requires
            old(self).wf(),
        ensures
            final(self).wf(),
            final(self).outbound() == enqueued(old(self).outbound(), m@),
            out == (match rejected(old(self).outbound(), m@) {
                Some(byte) => Err(byte),
                None => Ok(()),
            }),
            final(self).inbound() == old(self).inbound(),
            final(self).held() == old(self).held(),
            final(self).faults() == old(self).faults(),
    {
        let frame = m.framed_slice();
        let mut i: usize = 0;
        while i < frame.len()
            invariant
                i <= frame@.len(),
                frame@ == m@,
                old(self).wf(),
                self.inbound() == old(self).inbound(),
                self.held() == old(self).held(),
                self.faults() == old(self).faults(),
                self.outbound() == old(self).outbound() + frame@.subrange(0, i as int),
                self.outbound().len() <= QUEUE_CAPACITY,
            decreases frame@.len() - i,
        {
            match queue_enqueue(&mut self.tx_queue, frame[i]) {
                Ok(()) => {},
                Err(byte) => {
                    return Err(byte);
                },
            }
            assert(frame@.subrange(0, i + 1) == frame@.subrange(0, i as int).push(frame@[i as int]));
            i += 1;
        }
        assert(frame@.subrange(0, i as int) == frame@);
        Ok(())
    }

    /// Hands the held byte or the byte just taken from the queue to the
    /// write primitive, and holds it if it would block.
    fn send_byte<W>(&mut self, byte: u8, write: W) where W: FnOnce(u8) -> TxStatus
        requires
            old(self).held() == None::<u8>,
            call_requires(write, (byte,)),
        ensures
            final(self).inbound() == old(self).inbound(),
            final(self).outbound() == old(self).outbound(),
            final(self).faults() == old(self).faults(),
            exists|status: TxStatus| #[trigger]
                call_ensures(write, (byte,), status) && final(self).held() == (match status {
                    TxStatus::Accepted => None,
                    TxStatus::WouldBlock => Some(byte),
                }),
    {
        match write(byte) {
            TxStatus::Accepted => {},
            TxStatus::WouldBlock => {
                self.held_byte = Some(byte);
            },
        }
    }

    /// The sending half of a round: the held byte goes first, and only
    /// when none is held does a byte leave the queue.
    fn pump_sender<W>(&mut self, write: W) where W: FnOnce(u8) -> TxStatus
        requires
            old(self).wf(),
            old(self).pending().len() > 0 ==> call_requires(write, (old(self).pending()[0],)),
        ensures
            final(self).wf(),
            final(self).inbound() == old(self).inbound(),
            final(self).faults() == old(self).faults(),
            old(self).pending().len() == 0 ==> final(self).held() == None::<u8>
                && final(self).outbound() == old(self).outbound(),
            old(self).pending().len() > 0 ==> exists|status: TxStatus| #[trigger]
                call_ensures(write, (old(self).pending()[0],), status) && (
                final(self).held(),
                final(self).outbound(),
            ) == after_write(old(self).pending(), status),
    {
        match self.held_byte {
            Some(byte) => {
                assert(old(self).pending()[0] == byte);
                assert(old(self).pending().drop_first() == old(self).outbound());
                self.held_byte = None;
                self.send_byte(byte, write);
            },
            None => match queue_dequeue(&mut self.tx_queue) {
                Some(byte) => {
                    self.send_byte(byte, write);
                },
                None => {},
            },
        }
    }

    /// Takes in what the read primitive answered in the receive interrupt:
    /// a byte is queued behind the bytes received before, a failure of the
    /// primitive is counted, and an answer that nothing is there to read
    /// changes nothing.
    ///
    /// A byte that finds the inbound queue full is a fault of the sizing
    /// and must not reach this function: see [`Self::inbound_is_full`].
    pub fn on_interrupt(&mut self, answer: RxStatus)
        requires
            old(self).wf(),
            answer is Byte ==> old(self).inbound().len() < QUEUE_CAPACITY,
        ensures
            final(self).wf(),
            final(self).inbound() == (match answer {
                RxStatus::Byte(byte) => old(self).inbound().push(byte),
                _ => old(self).inbound(),
            }),
            final(self).faults() == (if answer is Fault && old(self).faults() < u32::MAX {
                old(self).faults() + 1
            } else {
                old(self).faults()
            }),
            final(self).outbound() == old(self).outbound(),
            final(self).held() == old(self).held(),
    {
        match answer {
            RxStatus::Byte(byte) => {
                let _ = queue_enqueue(&mut self.in_bytes, byte);
            },
            RxStatus::WouldBlock => {},
            RxStatus::Fault => {
                if self.rx_faults < u32::MAX {
                    self.rx_faults = self.rx_faults + 1;
                }
            },
        }
    }

    /// How often the read primitive has failed since the engine was made;
    /// the count stops at `u32::MAX`.
    pub fn fault_count(&self) -> (count: u32)
        ensures
            count == self.faults(),
    {
        self.rx_faults
    }

    /// Whether the inbound queue has no room for another byte.
    pub fn inbound_is_full(&self) -> (full: bool)
        ensures
            full == (self.inbound().len() >= QUEUE_CAPACITY),
    {
        queue_len(&self.in_bytes) >= QUEUE_CAPACITY
    }
}

/// A byte that would block is offered again before any byte behind it: the
/// bytes that wait for transmission are the same after the blocked write
/// as before it, and an accepted byte leaves them from the front.
pub proof fn lemma_blocked_byte_is_retried(pending: Seq<u8>)
    requires
        pending.len() > 0,
    ensures
        pending_of(
            after_write(pending, TxStatus::WouldBlock).0,
            after_write(pending, TxStatus::WouldBlock).1,
        ) == pending,
        pending_of(
            after_write(pending, TxStatus::Accepted).0,
            after_write(pending, TxStatus::Accepted).1,
        ) == pending.drop_first(),
{
}

/// One thing that happens to the sending side of an engine.
pub enum TxOp {
    /// A frame with these bytes was handed to `send_msg`.
    Send(Seq<u8>),
    /// A round of `pump`, in which the write primitive answers this to the
    /// byte it is offered, if one is offered.
    Pump(TxStatus),
}

/// The held byte and the outbound queue after `op`.
pub open spec fn tx_after(held: Option<u8>, queue: Seq<u8>, op: TxOp) -> (Option<u8>, Seq<u8>) {
    match op {
        TxOp::Send(bytes) => (held, enqueued(queue, bytes)),
        TxOp::Pump(status) => if pending_of(held, queue).len() > 0 {
            after_write(pending_of(held, queue), status)
        } else {
            (held, queue)
        },
    }
}

/// The bytes that `op` takes into the outbound queue.
pub open spec fn taken_by(queue: Seq<u8>, op: TxOp) -> Seq<u8> {
    match op {
        TxOp::Send(bytes) => enqueued(queue, bytes).subrange(
            queue.len() as int,
            enqueued(queue, bytes).len() as int,
        ),
        TxOp::Pump(_) => Seq::empty(),
    }
}

/// The bytes that the write primitive accepts in `op`: the first byte that
/// waits, in a round in which the primitive accepts it, and none otherwise.
pub open spec fn accepted_by(held: Option<u8>, queue: Seq<u8>, op: TxOp) -> Seq<u8> {
    match op {
        TxOp::Pump(TxStatus::Accepted) => if pending_of(held, queue).len() > 0 {
            seq![pending_of(held, queue)[0]]
        } else {
            Seq::empty()
        },
        _ => Seq::empty(),
    }
}

/// The held byte and the outbound queue after all of `ops`, in their
/// order.
pub open spec fn tx_after_all(held: Option<u8>, queue: Seq<u8>, ops: Seq<TxOp>) -> (
    Option<u8>,
    Seq<u8>,
)
    decreases ops.len(),
{
    if ops.len() == 0 {
        (held, queue)
    } else {
        let before = tx_after_all(held, queue, ops.drop_last());
        tx_after(before.0, before.1, ops.last())
    }
}

/// All bytes that `ops` take into the outbound queue, in their order.
pub open spec fn taken_by_all(held: Option<u8>, queue: Seq<u8>, ops: Seq<TxOp>) -> Seq<u8>
    decreases ops.len(),
{
    if ops.len() == 0 {
        Seq::empty()
    } else {
        let before = tx_after_all(held, queue, ops.drop_last());
        taken_by_all(held, queue, ops.drop_last()) + taken_by(before.1, ops.last())
    }
}

/// All bytes that the write primitive accepts during `ops`, in their order.
pub open spec fn accepted_by_all(held: Option<u8>, queue: Seq<u8>, ops: Seq<TxOp>) -> Seq<u8>
    decreases ops.len(),
{
    if ops.len() == 0 {
        Seq::empty()
    } else {
        let before = tx_after_all(held, queue, ops.drop_last());
        accepted_by_all(held, queue, ops.drop_last()) + accepted_by(
            before.0,
            before.1,
            ops.last(),
        )
    }
}

/// The order of the stream is kept through every interleaving of frames
/// queued and rounds pumped, whatever the write primitive answers: the
/// bytes that it accepted, followed by the bytes that still wait, are the
/// bytes that waited at the start followed by the bytes taken in since.
/// No byte is skipped, none is sent twice, and none overtakes another. The
/// queue never holds more than its capacity.
pub proof fn lemma_stream_order_is_kept(held: Option<u8>, queue: Seq<u8>, ops: Seq<TxOp>)
    requires
        queue.len() <= QUEUE_CAPACITY,
    ensures
        tx_after_all(held, queue, ops).1.len() <= QUEUE_CAPACITY,
        accepted_by_all(held, queue, ops) + pending_of(
            tx_after_all(held, queue, ops).0,
            tx_after_all(held, queue, ops).1,
        ) == pending_of(held, queue) + taken_by_all(held, queue, ops),
    decreases ops.len(),
{
    if ops.len() == 0 {
        assert(accepted_by_all(held, queue, ops) + pending_of(held, queue) == pending_of(
            held,
            queue,
        ) + taken_by_all(held, queue, ops));
    } else {
        let earlier = ops.drop_last();
        lemma_stream_order_is_kept(held, queue, earlier);
        let before = tx_after_all(held, queue, earlier);
        let after = tx_after(before.0, before.1, ops.last());
        let waiting = pending_of(before.0, before.1);
        assert(accepted_by(before.0, before.1, ops.last()) + pending_of(after.0, after.1)
            == waiting + taken_by(before.1, ops.last())) by {
            match ops.last() {
                TxOp::Send(bytes) => {
                    assert(enqueued(before.1, bytes) == before.1 + taken_by(before.1, ops.last()));
                },
                TxOp::Pump(status) => {
                    if waiting.len() > 0 {
                        assert(seq![waiting[0]] + waiting.drop_first() == waiting);
                    }
                },
            }
        }
        assert(accepted_by_all(held, queue, ops) + pending_of(after.0, after.1) == pending_of(
            held,
            queue,
        ) + taken_by_all(held, queue, ops)) by {
            let a = accepted_by_all(held, queue, earlier);
            let t = taken_by_all(held, queue, earlier);
            let da = accepted_by(before.0, before.1, ops.last());
            let dt = taken_by(before.1, ops.last());
            assert((a + da) + pending_of(after.0, after.1) == a + (da + pending_of(
                after.0,
                after.1,
            )));
            assert(a + (waiting + dt) == (a + waiting) + dt);
            assert((pending_of(held, queue) + t) + dt == pending_of(held, queue) + (t + dt));
        }
        assert(after.1.len() <= QUEUE_CAPACITY) by {
            if waiting.len() > 0 && before.0 is Some {
                assert(waiting.drop_first() == before.1);
            }
        }
    }
}

/// A full queue rejects the first byte offered and keeps what it holds.
pub proof fn lemma_full_queue_rejects(queue: Seq<u8>, bytes: Seq<u8>)
    requires
        queue.len() == QUEUE_CAPACITY,
        bytes.len() > 0,
    ensures
        rejected(queue, bytes) == Some(bytes[0]),
        enqueued(queue, bytes) == queue,
{
}

/// Appending never disturbs what was queued before: the old contents are
/// the front of the new.
pub proof fn lemma_enqueue_keeps_front(queue: Seq<u8>, bytes: Seq<u8>)
    requires
        queue.len() <= QUEUE_CAPACITY,
    ensures
        enqueued(queue, bytes).len() <= QUEUE_CAPACITY,
        queue.len() <= enqueued(queue, bytes).len(),
        enqueued(queue, bytes).subrange(0, queue.len() as int) == queue,
{
}

} // verus!
