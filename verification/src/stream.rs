//! What a decoder makes of whole byte streams: the transitions of
//! [`step`] taken one after the other.

use crate::decoder::{step, DecoderState, FrameEvent};
use crate::wire::{frame, header, le16, lemma_header_declares};
use vstd::prelude::*;

verus! {

/// The state of a decoder that was in `state` and has read `bytes`.
pub open spec fn state_after(state: DecoderState, capacity: nat, bytes: Seq<u8>) -> DecoderState
    decreases bytes.len(),
{
    if bytes.len() == 0 {
        state
    } else {
        step(state_after(state, capacity, bytes.drop_last()), capacity, bytes.last()).0
    }
}

/// What the byte at index `i` of `bytes` brings forth in a decoder that
/// was in `state` before the first byte.
pub open spec fn event_at(state: DecoderState, capacity: nat, bytes: Seq<u8>, i: int) -> FrameEvent
    recommends
        0 <= i < bytes.len(),
{
    step(state_after(state, capacity, bytes.subrange(0, i)), capacity, bytes[i]).1
}

/// Whether a payload can travel to a decoder whose buffer holds `capacity`
/// bytes: the length prefix can declare its length and the buffer can
/// hold it.
pub open spec fn fits(capacity: nat, payload: Seq<u8>) -> bool {
    payload.len() <= 65535 && payload.len() <= capacity
}

/// The state of a decoder that has read `prefix` from between frames
/// without completing a frame.
pub open spec fn partial_state(prefix: Seq<u8>) -> DecoderState {
    if prefix.len() == 0 {
        DecoderState::Empty
    } else if prefix.len() == 1 {
        DecoderState::ReadingHeader(prefix[0])
    } else {
        DecoderState::ReadingMessage {
            len: le16(prefix[0], prefix[1]),
            received: prefix.subrange(2, prefix.len() as int),
        }
    }
}

/// Whether `prefix` is the start of a frame that a decoder with a buffer
/// of `capacity` bytes accepts, and ends before the frame does.
pub open spec fn inside_frame(capacity: nat, prefix: Seq<u8>) -> bool {
    prefix.len() >= 2 ==> 0 < le16(prefix[0], prefix[1]) <= capacity && prefix.len() < 2 + le16(
        prefix[0],
        prefix[1],
    )
}

/// Every transition leads from a valid state to a valid state.
pub proof fn lemma_step_valid(state: DecoderState, capacity: nat, byte: u8)
    requires
        state.valid(capacity),
    ensures
        step(state, capacity, byte).0.valid(capacity),
{
}

/// What a decoder that has read the first `i` bytes of `bytes` from between
/// frames, without completing a frame, makes of the byte that follows: it
/// stays inside the frame, or the frame is complete with the payload that
/// follows the length prefix, or the length prefix is oversized.
pub proof fn lemma_partial_step(capacity: nat, bytes: Seq<u8>, i: int)
    requires
        0 <= i < bytes.len(),
        inside_frame(capacity, bytes.subrange(0, i)),
    ensures
        match step(partial_state(bytes.subrange(0, i)), capacity, bytes[i]) {
            (next, FrameEvent::NotYetComplete) => next == partial_state(bytes.subrange(0, i + 1))
                && inside_frame(capacity, bytes.subrange(0, i + 1)),
            (next, FrameEvent::Payload(payload)) => next == DecoderState::Empty && i + 1 == 2
                + le16(bytes[0], bytes[1]) && le16(bytes[0], bytes[1]) <= capacity && payload
                == bytes.subrange(2, i + 1),
            (next, FrameEvent::TooLong) => next == DecoderState::Error && i == 1 && le16(
                bytes[0],
                bytes[1],
            ) > capacity,
            (next, FrameEvent::PreviousError) => false,
        },
{
    let prefix = bytes.subrange(0, i);
    let next = bytes.subrange(0, i + 1);
    assert(next == prefix.push(bytes[i]));
    if i >= 2 {
        assert(next.subrange(2, i + 1) == prefix.subrange(2, i).push(bytes[i]));
        assert(bytes.subrange(2, i + 1) == next.subrange(2, i + 1));
    } else if i == 1 {
        assert(next.subrange(2, 2) == Seq::<u8>::empty());
        assert(bytes.subrange(2, 2) == Seq::<u8>::empty());
    }
}

/// A decoder that has read, from between frames, bytes that end inside a
/// frame is in the state that those bytes describe.
pub proof fn lemma_state_inside_frame(capacity: nat, prefix: Seq<u8>)
    requires
        inside_frame(capacity, prefix),
    ensures
        state_after(DecoderState::Empty, capacity, prefix) == partial_state(prefix),
    decreases prefix.len(),
{
    if prefix.len() > 0 {
        let i = prefix.len() - 1;
        assert(prefix.drop_last() == prefix.subrange(0, i));
        lemma_state_inside_frame(capacity, prefix.drop_last());
        lemma_partial_step(capacity, prefix, i);
        assert(prefix.subrange(0, i + 1) == prefix);
    }
}

/// Reading `first` and then `second` leaves the decoder where reading
/// `second` leaves a decoder that has read `first`.
pub proof fn lemma_state_after_concat(
    state: DecoderState,
    capacity: nat,
    first: Seq<u8>,
    second: Seq<u8>,
)
    ensures
        state_after(state, capacity, first + second) == state_after(
            state_after(state, capacity, first),
            capacity,
            second,
        ),
    decreases second.len(),
{
    if second.len() == 0 {
        assert(first + second == first);
    } else {
        assert((first + second).drop_last() == first + second.drop_last());
        lemma_state_after_concat(state, capacity, first, second.drop_last());
    }
}

/// In a stream made of `first` and then `second`, a byte of `first` brings
/// forth what it does in `first` alone, and a byte of `second` what it does
/// in a decoder that has read `first`.
pub proof fn lemma_event_at_concat(
    state: DecoderState,
    capacity: nat,
    first: Seq<u8>,
    second: Seq<u8>,
    i: int,
)
    requires
        0 <= i < first.len() + second.len(),
    ensures
        i < first.len() ==> event_at(state, capacity, first + second, i) == event_at(
            state,
            capacity,
            first,
            i,
        ),
        i >= first.len() ==> event_at(state, capacity, first + second, i) == event_at(
            state_after(state, capacity, first),
            capacity,
            second,
            i - first.len(),
        ),
{
    let both = first + second;
    if i < first.len() {
        assert(both.subrange(0, i) == first.subrange(0, i));
    } else {
        let j = i - first.len();
        assert(both.subrange(0, i) == first + second.subrange(0, j));
        lemma_state_after_concat(state, capacity, first, second.subrange(0, j));
    }
}

/// Streaming one frame: every byte but the last leaves the frame
/// incomplete, the last byte completes it with exactly the payload that
/// was framed, and the decoder is between frames again. A frame without
/// payload is complete with its length prefix.
pub proof fn lemma_frame_streams(capacity: nat, payload: Seq<u8>)
    requires
        fits(capacity, payload),
    ensures
        frame(payload).len() == 2 + payload.len(),
        forall|i: int|
            0 <= i < frame(payload).len() - 1 ==> #[trigger] event_at(
                DecoderState::Empty,
                capacity,
                frame(payload),
                i,
            ) == FrameEvent::NotYetComplete,
        event_at(DecoderState::Empty, capacity, frame(payload), frame(payload).len() - 1)
            == FrameEvent::Payload(payload),
        state_after(DecoderState::Empty, capacity, frame(payload)) == DecoderState::Empty,
{
    let bytes = frame(payload);
    let last = bytes.len() - 1;
    lemma_header_declares(payload.len());
    assert(bytes[0] == header(payload.len())[0]);
    assert(bytes[1] == header(payload.len())[1]);
    assert(bytes.subrange(2, bytes.len() as int) == payload);
    assert forall|i: int| 0 <= i < bytes.len() implies inside_frame(
        capacity,
        #[trigger] bytes.subrange(0, i),
    ) by {
        if i >= 2 {
            assert(bytes.subrange(0, i)[0] == bytes[0]);
            assert(bytes.subrange(0, i)[1] == bytes[1]);
        }
    }
    assert forall|i: int| 0 <= i < last implies #[trigger] event_at(
        DecoderState::Empty,
        capacity,
        bytes,
        i,
    ) == FrameEvent::NotYetComplete by {
        lemma_state_inside_frame(capacity, bytes.subrange(0, i));
        lemma_partial_step(capacity, bytes, i);
    }
    lemma_state_inside_frame(capacity, bytes.subrange(0, last));
    lemma_partial_step(capacity, bytes, last);
    assert(bytes.drop_last() == bytes.subrange(0, last));
}

/// Streaming two frames one behind the other: the last byte of the first
/// frame completes the first payload, the last byte of the second frame
/// completes the second payload, every other byte leaves a frame
/// incomplete, and the decoder ends between frames. No byte is dropped and
/// none is attributed to the wrong frame.
pub proof fn lemma_two_frames_stream(capacity: nat, first: Seq<u8>, second: Seq<u8>)
    requires
        fits(capacity, first),
        fits(capacity, second),
    ensures
        forall|i: int|
            0 <= i < frame(first).len() + frame(second).len() ==> #[trigger] event_at(
                DecoderState::Empty,
                capacity,
                frame(first) + frame(second),
                i,
            ) == (if i == frame(first).len() - 1 {
                FrameEvent::Payload(first)
            } else if i == frame(first).len() + frame(second).len() - 1 {
                FrameEvent::Payload(second)
            } else {
                FrameEvent::NotYetComplete
            }),
        state_after(DecoderState::Empty, capacity, frame(first) + frame(second))
            == DecoderState::Empty,
{
    let a = frame(first);
    let b = frame(second);
    lemma_frame_streams(capacity, first);
    lemma_frame_streams(capacity, second);
    lemma_state_after_concat(DecoderState::Empty, capacity, a, b);
    assert forall|i: int| 0 <= i < a.len() + b.len() implies #[trigger] event_at(
        DecoderState::Empty,
        capacity,
        a + b,
        i,
    ) == (if i == a.len() - 1 {
        FrameEvent::Payload(first)
    } else if i == a.len() + b.len() - 1 {
        FrameEvent::Payload(second)
    } else {
        FrameEvent::NotYetComplete
    }) by {
        lemma_event_at_concat(DecoderState::Empty, capacity, a, b, i);
        if i >= a.len() {
            assert(event_at(DecoderState::Empty, capacity, a + b, i) == event_at(
                DecoderState::Empty,
                capacity,
                b,
                i - a.len(),
            ));
        }
    }
}

/// A decoder in its error state stays there whatever it reads.
pub proof fn lemma_error_is_latched(capacity: nat, bytes: Seq<u8>)
    ensures
        state_after(DecoderState::Error, capacity, bytes) == DecoderState::Error,
    decreases bytes.len(),
{
    if bytes.len() > 0 {
        lemma_error_is_latched(capacity, bytes.drop_last());
    }
}

/// A length prefix that declares more than the buffer holds fails with
/// `TooLong` and puts the decoder into its error state; every byte after
/// it, whatever it is, fails with `PreviousError`.
pub proof fn lemma_oversized_header_latches(capacity: nat, bytes: Seq<u8>)
    requires
        bytes.len() >= 2,
        le16(bytes[0], bytes[1]) > capacity,
    ensures
        event_at(DecoderState::Empty, capacity, bytes, 0) == FrameEvent::NotYetComplete,
        event_at(DecoderState::Empty, capacity, bytes, 1) == FrameEvent::TooLong,
        forall|i: int|
            2 <= i < bytes.len() ==> #[trigger] event_at(DecoderState::Empty, capacity, bytes, i)
                == FrameEvent::PreviousError,
        state_after(DecoderState::Empty, capacity, bytes) == DecoderState::Error,
{
    let head = bytes.subrange(0, 2);
    let rest = bytes.subrange(2, bytes.len() as int);
    assert(bytes == head + rest);
    lemma_state_inside_frame(capacity, head.subrange(0, 0));
    lemma_state_inside_frame(capacity, head.subrange(0, 1));
    lemma_partial_step(capacity, head, 0);
    lemma_partial_step(capacity, head, 1);
    assert(head.drop_last() == head.subrange(0, 1));
    assert(state_after(DecoderState::Empty, capacity, head) == DecoderState::Error);
    lemma_event_at_concat(DecoderState::Empty, capacity, head, rest, 0);
    lemma_event_at_concat(DecoderState::Empty, capacity, head, rest, 1);
    lemma_state_after_concat(DecoderState::Empty, capacity, head, rest);
    lemma_error_is_latched(capacity, rest);
    assert forall|i: int| 2 <= i < bytes.len() implies #[trigger] event_at(
        DecoderState::Empty,
        capacity,
        bytes,
        i,
    ) == FrameEvent::PreviousError by {
        lemma_event_at_concat(DecoderState::Empty, capacity, head, rest, i);
        lemma_error_is_latched(capacity, rest.subrange(0, i - 2));
    }
}

} // verus!
