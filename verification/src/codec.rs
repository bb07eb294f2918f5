//! Framing one message into a buffer, and reading one message back from a
//! buffer that holds exactly one frame.

use crate::decoder::{
    accepts, consume_inner, decoded_from, step, Decoded, DecoderState, FrameEvent,
    FramedReaderState,
};
use crate::error::{EncodeError, Error};
use crate::stream::{
    event_at, fits, inside_frame, lemma_event_at_concat, lemma_frame_streams,
    lemma_oversized_header_latches, lemma_partial_step, lemma_state_inside_frame, partial_state,
};
use crate::wire::{
    frame, header, le16, lemma_header_declares, lemma_header_of_le16, write_u16_le, HEADER_LEN,
    MAX_PAYLOAD_LEN,
};
use vstd::prelude::*;
use vstd::slice::slice_subrange;

verus! {

/// Size of the buffers that the owning variants allocate.
pub const OWNED_BUFFER_LEN: usize = 1024;

/// A framed message inside the buffer it was encoded into.
pub struct SerializedMsg<'a> {
    buf: &'a [u8],
    total_bytes: usize,
}

impl<'a> View for SerializedMsg<'a> {
    type V = Seq<u8>;

    /// The bytes of the frame.
    closed spec fn view(&self) -> Seq<u8> {
        self.buf@.subrange(0, self.total_bytes as int)
    }
}

impl<'a> SerializedMsg<'a> {
    #[verifier::type_invariant]
    spec fn inv(self) -> bool {
        self.total_bytes <= self.buf@.len()
    }

    /// The bytes to transmit: the whole frame and nothing else.
    pub fn framed_slice(&self) -> (bytes: &[u8])
        ensures
            bytes@ == self@,
    {
        proof {
            use_type_invariant(self);
        }
        slice_subrange(self.buf, 0, self.total_bytes)
    }
}

/// What framing makes of the answer `r` of the payload encoder, which was
/// given a payload area that holds `area` when it returns: the frame of the
/// first `n` bytes of the area where the encoder reports `n` bytes that the
/// length prefix and the area can hold; `TooLong` where it reports more,
/// or reports that the payload found no room; and any other error of the
/// codec passed through.
pub open spec fn framing_of<E>(area: Seq<u8>, r: Result<usize, EncodeError<E>>) -> Result<
    Seq<u8>,
    Error<E>,
> {
    match r {
        Err(EncodeError::NoRoom) => Err(Error::TooLong),
        Err(EncodeError::Other(e)) => Err(Error::SerializeError(e)),
        Ok(n) => if n > MAX_PAYLOAD_LEN || n > area.len() {
            Err(Error::TooLong)
        } else {
            Ok(frame(area.subrange(0, n as int)))
        },
    }
}

/// The bytes of a framing result.
pub open spec fn framed_bytes<'a, E>(out: Result<SerializedMsg<'a>, Error<E>>) -> Result<
    Seq<u8>,
    Error<E>,
> {
    match out {
        Ok(msg) => Ok(msg@),
        Err(e) => Err(e),
    }
}

/// The first two bytes of `buf` once a frame was sealed or not: the length
/// prefix where the encoder's answer `r` made a frame, the old bytes
/// otherwise.
pub open spec fn prefix_after<E>(
    buf: Seq<u8>,
    area: Seq<u8>,
    r: Result<usize, EncodeError<E>>,
) -> Seq<u8> {
    match framing_of(area, r) {
        Ok(_) => header(r->Ok_0 as nat),
        Err(_) => buf.subrange(0, 2),
    }
}

/// Whether `encode` can be called on every payload area that holds `area`.
pub open spec fn takes_area<E, F: FnOnce(&mut [u8]) -> Result<usize, EncodeError<E>>>(
    encode: F,
    area: Seq<u8>,
) -> bool {
    forall|handed: &mut [u8]| (*handed)@ == area ==> #[trigger] call_requires(encode, (handed,))
}

/// Frames one message into `buf`.
///
/// The first two bytes of `buf` are kept for the length prefix; `encode`
/// is handed the rest and writes the payload there, reporting its length,
/// or that the payload found no room. The frame is then sealed with the
/// length prefix. A payload that the buffer or the length prefix cannot
/// take fails with `TooLong`, and so does a buffer too short for the
/// prefix, on which `encode` need not be callable and is not called.
pub fn serialize_msg<'a, E, F>(encode: F, buf: &'a mut [u8]) -> (out: Result<
    SerializedMsg<'a>,
    Error<E>,
>) where F: FnOnce(&mut [u8]) -> Result<usize, EncodeError<E>>
    requires
        old(buf)@.len() >= HEADER_LEN ==> takes_area(
            encode,
            old(buf)@.subrange(2, old(buf)@.len() as int),
        ),
    ensures
        old(buf)@.len() < HEADER_LEN ==> framed_bytes(out) == Err::<Seq<u8>, Error<E>>(
            Error::TooLong,
        ) && final(buf)@ == old(buf)@,
        old(buf)@.len() >= HEADER_LEN ==> exists|area: &mut [u8], r: Result<usize, EncodeError<E>>|
            (*area)@ == old(buf)@.subrange(2, old(buf)@.len() as int) && #[trigger] call_ensures(
                encode,
                (area,),
                r,
            ) && framed_bytes(out) == framing_of((*final(area))@, r) && final(buf)@
                == prefix_after(old(buf)@, (*final(area))@, r) + (*final(area))@,
        out matches Ok(msg) ==> msg@.len() <= final(buf)@.len() && msg@ == final(buf)@.subrange(
            0,
            msg@.len() as int,
        ),
{
    if buf.len() < HEADER_LEN {
        return Err(Error::TooLong);
    }
    let (head, area) = buf.split_at_mut(HEADER_LEN);
    let r = encode(area);
    match r {
        Err(EncodeError::NoRoom) => {
            assert(head@ == old(buf)@.subrange(0, 2));
            Err(Error::TooLong)
        },
        Err(EncodeError::Other(e)) => {
            assert(head@ == old(buf)@.subrange(0, 2));
            Err(Error::SerializeError(e))
        },
        Ok(n_bytes) => {
            if n_bytes > MAX_PAYLOAD_LEN || n_bytes > area.len() {
                return Err(Error::TooLong);
            }
            write_u16_le(head, n_bytes as u16);
            assert(head@ == header(n_bytes as nat));
            let msg = SerializedMsg { buf, total_bytes: n_bytes + HEADER_LEN };
            assert(msg@ == frame(area@.subrange(0, n_bytes as int)));
            Ok(msg)
        },
    }
}

/// The bytes of an owned framing result.
pub open spec fn owned_bytes<E>(out: Result<Vec<u8>, Error<E>>) -> Result<Seq<u8>, Error<E>> {
    match out {
        Ok(bytes) => Ok(bytes@),
        Err(e) => Err(e),
    }
}

/// The payload area that [`serialize_msg_owned`] hands to the encoder:
/// `OWNED_BUFFER_LEN - 2` zero bytes.
pub open spec fn owned_area() -> Seq<u8> {
    Seq::new((OWNED_BUFFER_LEN - HEADER_LEN) as nat, |i: int| 0u8)
}

/// Frames one message into a vector of its own.
///
/// `encode` is handed a zeroed payload area of `OWNED_BUFFER_LEN - 2`
/// bytes; the vector that comes back holds the frame and nothing else.
pub fn serialize_msg_owned<E, F>(encode: F) -> (out: Result<Vec<u8>, Error<E>>) where
    F: FnOnce(&mut [u8]) -> Result<usize, EncodeError<E>>,

    requires
        takes_area(encode, owned_area()),
    ensures
        exists|area: &mut [u8], r: Result<usize, EncodeError<E>>|
            (*area)@ == owned_area() && #[trigger] call_ensures(encode, (area,), r) && owned_bytes(
                out,
            ) == framing_of((*final(area))@, r),
{
    let mut dest: Vec<u8> = vec![0u8; OWNED_BUFFER_LEN];
    assert(dest@.subrange(2, dest@.len() as int) == owned_area());
    let ghost framed: Seq<u8>;
    let n_bytes: usize = match serialize_msg(encode, dest.as_mut_slice()) {
        Ok(msg) => {
            proof {
                use_type_invariant(&msg);
                framed = msg@;
            }
            msg.total_bytes
        },
        Err(e) => {
            return Err(e);
        },
    };
    dest.truncate(n_bytes);
    assert(dest@ == framed);
    Ok(dest)
}

/// What the framing alone makes of a buffer that should hold one frame.
pub enum BulkFrame {
    /// The bytes end before the frame does.
    Incomplete,
    /// The length prefix declares more than the decoder's buffer holds.
    TooLong,
    /// The buffer starts with a whole frame that carries `payload`;
    /// `trailing` tells whether bytes follow it.
    Frame { payload: Seq<u8>, trailing: bool },
}

/// Reads `bytes` as one frame, for a decoder whose buffer holds `capacity`
/// bytes.
pub open spec fn bulk_frame(capacity: nat, bytes: Seq<u8>) -> BulkFrame {
    if bytes.len() < 2 {
        BulkFrame::Incomplete
    } else if le16(bytes[0], bytes[1]) > capacity {
        BulkFrame::TooLong
    } else if bytes.len() < 2 + le16(bytes[0], bytes[1]) {
        BulkFrame::Incomplete
    } else {
        BulkFrame::Frame {
            payload: bytes.subrange(2, 2 + le16(bytes[0], bytes[1]) as int),
            trailing: bytes.len() > 2 + le16(bytes[0], bytes[1]),
        }
    }
}

/// What reading one message makes of the answer `r` of the payload decoder
/// on the payload of the frame: a failure to decode comes first, then
/// bytes behind the frame, and only a frame that decodes and ends the
/// buffer gives the message.
pub open spec fn bulk_decoded<T, E>(trailing: bool, r: Result<(T, usize), E>) -> Result<
    T,
    Error<E>,
> {
    match r {
        Err(e) => Err(Error::SerializeError(e)),
        Ok(pair) => if trailing {
            Err(Error::ExtraCharactersFound)
        } else {
            Ok(pair.0)
        },
    }
}

/// Whether `out` is what reading one message from `bytes` gives, with a
/// decoder whose buffer holds `capacity` bytes and with payloads going to
/// `decode`.
pub open spec fn bulk_result<T, E, D: Fn(&[u8]) -> Result<(T, usize), E>>(
    capacity: nat,
    bytes: Seq<u8>,
    decode: D,
    out: Result<T, Error<E>>,
) -> bool {
    match bulk_frame(capacity, bytes) {
        BulkFrame::Incomplete => out == Err::<T, Error<E>>(Error::Incomplete),
        BulkFrame::TooLong => out == Err::<T, Error<E>>(Error::TooLong),
        BulkFrame::Frame { payload, trailing } => exists|p: &[u8], r: Result<(T, usize), E>|
            p@ == payload && #[trigger] call_ensures(decode, (p,), r) && out == bulk_decoded(
                trailing,
                r,
            ),
    }
}

/// Reading a buffer as one frame agrees with streaming it through a fresh
/// decoder: the payload found is the one that the stream completes first,
/// at the byte that ends the frame and not before; an oversized length
/// prefix is the one that the second byte of the stream fails on; and a
/// buffer that ends inside the frame is a stream that completes nothing.
pub proof fn lemma_bulk_frame_is_streamed(capacity: nat, bytes: Seq<u8>)
    ensures
        match bulk_frame(capacity, bytes) {
            BulkFrame::Frame { payload, trailing } => {
                &&& payload.len() + 2 <= bytes.len()
                &&& trailing == (payload.len() + 2 < bytes.len())
                &&& event_at(DecoderState::Empty, capacity, bytes, payload.len() as int + 1)
                    == FrameEvent::Payload(payload)
                &&& forall|i: int|
                    0 <= i < payload.len() + 1 ==> #[trigger] event_at(
                        DecoderState::Empty,
                        capacity,
                        bytes,
                        i,
                    ) == FrameEvent::NotYetComplete
            },
            BulkFrame::TooLong => event_at(DecoderState::Empty, capacity, bytes, 1)
                == FrameEvent::TooLong,
            BulkFrame::Incomplete => forall|i: int|
                0 <= i < bytes.len() ==> #[trigger] event_at(
                    DecoderState::Empty,
                    capacity,
                    bytes,
                    i,
                ) == FrameEvent::NotYetComplete,
        },
{
    match bulk_frame(capacity, bytes) {
        BulkFrame::Frame { payload, trailing } => {
            let first = frame(payload);
            let rest = bytes.subrange(2 + payload.len() as int, bytes.len() as int);
            lemma_header_of_le16(bytes[0], bytes[1]);
            assert(bytes == first + rest);
            lemma_frame_streams(capacity, payload);
            assert forall|i: int| 0 <= i < payload.len() + 2 implies #[trigger] event_at(
                DecoderState::Empty,
                capacity,
                bytes,
                i,
            ) == event_at(DecoderState::Empty, capacity, first, i) by {
                lemma_event_at_concat(DecoderState::Empty, capacity, first, rest, i);
            }
        },
        BulkFrame::TooLong => {
            lemma_oversized_header_latches(capacity, bytes);
        },
        BulkFrame::Incomplete => {
            assert forall|i: int| 0 <= i < bytes.len() implies #[trigger] event_at(
                DecoderState::Empty,
                capacity,
                bytes,
                i,
            ) == FrameEvent::NotYetComplete by {
                let prefix = bytes.subrange(0, i);
                let next = bytes.subrange(0, i + 1);
                if i >= 2 {
                    assert(prefix[0] == bytes[0] && prefix[1] == bytes[1]);
                }
                if i + 1 >= 2 {
                    assert(next[0] == bytes[0] && next[1] == bytes[1]);
                }
                lemma_state_inside_frame(capacity, prefix);
                lemma_partial_step(capacity, bytes, i);
            }
        },
    }
}

/// A frame reads back as the payload it was made of, with nothing left
/// over: all of its `2 + payload.len()` bytes are consumed.
pub proof fn lemma_frame_reads_back(capacity: nat, payload: Seq<u8>)
    requires
        fits(capacity, payload),
    ensures
        frame(payload).len() == 2 + payload.len(),
        bulk_frame(capacity, frame(payload)) == (BulkFrame::Frame { payload, trailing: false }),
{
    lemma_header_declares(payload.len());
    let bytes = frame(payload);
    assert(bytes[0] == header(payload.len())[0]);
    assert(bytes[1] == header(payload.len())[1]);
    assert(bytes.subrange(2, 2 + payload.len() as int) == payload);
}

/// A frame with one more byte behind it reads as the payload it was made
/// of, with bytes left over.
pub proof fn lemma_frame_with_trailing_byte(capacity: nat, payload: Seq<u8>, extra: u8)
    requires
        fits(capacity, payload),
    ensures
        bulk_frame(capacity, frame(payload).push(extra)) == (BulkFrame::Frame {
            payload,
            trailing: true,
        }),
{
    lemma_header_declares(payload.len());
    let bytes = frame(payload).push(extra);
    assert(bytes[0] == header(payload.len())[0]);
    assert(bytes[1] == header(payload.len())[1]);
    assert(bytes.subrange(2, 2 + payload.len() as int) == payload);
}

/// Round trip: reading one message from the frame of a payload hands the
/// payload decoder exactly that payload, and gives what it answered: the
/// message where the payload decodes, the codec's error where it does not.
pub proof fn lemma_roundtrip<T, E, D: Fn(&[u8]) -> Result<(T, usize), E>>(
    capacity: nat,
    payload: Seq<u8>,
    decode: D,
    out: Result<T, Error<E>>,
)
    requires
        fits(capacity, payload),
        bulk_result(capacity, frame(payload), decode, out),
    ensures
        exists|p: &[u8], r: Result<(T, usize), E>|
            p@ == payload && #[trigger] call_ensures(decode, (p,), r) && out == (match r {
                Ok(pair) => Ok(pair.0),
                Err(e) => Err(Error::SerializeError(e)),
            }),
{
    lemma_frame_reads_back(capacity, payload);
    let (p, r) = choose|p: &[u8], r: Result<(T, usize), E>|
        p@ == payload && #[trigger] call_ensures(decode, (p,), r) && out == bulk_decoded(false, r);
    assert(call_ensures(decode, (p,), r));
}

/// Reading one message from a frame whose payload decodes, with one more
/// byte behind the frame, fails with `ExtraCharactersFound`.
pub proof fn lemma_extra_byte_is_found<T, E, D: Fn(&[u8]) -> Result<(T, usize), E>>(
    capacity: nat,
    payload: Seq<u8>,
    extra: u8,
    decode: D,
    out: Result<T, Error<E>>,
)
    requires
        fits(capacity, payload),
        forall|p: &[u8], r: Result<(T, usize), E>|
            p@ == payload && #[trigger] call_ensures(decode, (p,), r) ==> r is Ok,
        bulk_result(capacity, frame(payload).push(extra), decode, out),
    ensures
        out == Err::<T, Error<E>>(Error::ExtraCharactersFound),
{
    lemma_frame_with_trailing_byte(capacity, payload, extra);
}

/// Whether `decode` can be called on the payload of the frame that
/// `bytes` starts with, if it starts with one that a decoder with a buffer
/// of `capacity` bytes accepts.
pub open spec fn takes_payload<T, E, D: Fn(&[u8]) -> Result<(T, usize), E>>(
    capacity: nat,
    bytes: Seq<u8>,
    decode: D,
) -> bool {
    forall|p: &[u8]|
        bulk_frame(capacity, bytes) is Frame && p@ == bulk_frame(capacity, bytes)->payload
            ==> #[trigger] call_requires(decode, (p,))
}

/// What a scratch buffer that held `scratch` holds after one message was
/// read from `bytes` with it: the payload bytes that arrived, as far as the
/// frame goes, stand at its start and the rest is as it was. Nothing is
/// written where the length prefix is missing or oversized.
pub open spec fn scratch_after(scratch: Seq<u8>, bytes: Seq<u8>) -> Seq<u8> {
    if bytes.len() < 2 || le16(bytes[0], bytes[1]) > scratch.len() {
        scratch
    } else if bytes.len() - 2 < le16(bytes[0], bytes[1]) {
        bytes.subrange(2, bytes.len() as int) + scratch.subrange(
            bytes.len() - 2,
            scratch.len() as int,
        )
    } else {
        bytes.subrange(2, 2 + le16(bytes[0], bytes[1]) as int) + scratch.subrange(
            le16(bytes[0], bytes[1]) as int,
            scratch.len() as int,
        )
    }
}

/// One more byte read inside a frame changes the scratch buffer as one
/// transition of the decoder does.
proof fn lemma_scratch_step(scratch: Seq<u8>, bytes: Seq<u8>, i: int)
    requires
        0 <= i < bytes.len(),
        inside_frame(scratch.len(), bytes.subrange(0, i)),
    ensures
        scratch_after(scratch, bytes.subrange(0, i + 1)) == (if i >= 2 {
            scratch_after(scratch, bytes.subrange(0, i)).update(i - 2, bytes[i])
        } else {
            scratch_after(scratch, bytes.subrange(0, i))
        }),
{
    let prefix = bytes.subrange(0, i);
    let next = bytes.subrange(0, i + 1);
    if i >= 2 {
        assert(prefix[0] == bytes[0] && prefix[1] == bytes[1]);
        assert(next[0] == bytes[0] && next[1] == bytes[1]);
        assert(scratch_after(scratch, next) =~= scratch_after(scratch, prefix).update(
            i - 2,
            bytes[i],
        ));
    } else if i == 1 {
        assert(next[0] == bytes[0] && next[1] == bytes[1]);
        assert(scratch_after(scratch, next) =~= scratch);
    }
}

/// Once the frame is complete, or its length prefix refused, the bytes
/// behind it change nothing in the scratch buffer.
proof fn lemma_scratch_settled(scratch: Seq<u8>, bytes: Seq<u8>, i: int)
    requires
        2 <= i <= bytes.len(),
        le16(bytes[0], bytes[1]) > scratch.len() || i == 2 + le16(bytes[0], bytes[1]),
    ensures
        scratch_after(scratch, bytes) == scratch_after(scratch, bytes.subrange(0, i)),
{
    let prefix = bytes.subrange(0, i);
    assert(prefix[0] == bytes[0] && prefix[1] == bytes[1]);
    if le16(bytes[0], bytes[1]) <= scratch.len() {
        assert(prefix.subrange(2, i) == bytes.subrange(2, i));
    }
}

/// Reads one message from `buf`, which must hold exactly one frame, with
/// `decode_buf` as the scratch space for the payload.
///
/// The bytes go through the transitions of a fresh decoder one by one. A
/// frame whose payload does not decode fails with the codec's error, bytes
/// behind the frame fail with `ExtraCharactersFound`, and a buffer that
/// ends inside the frame fails with `Incomplete`. `decode` has to take the
/// payload of the frame, and is called on nothing else.
pub fn deserialize_owned_borrowed<T, E, D>(buf: &[u8], decode_buf: &mut [u8], decode: &D) -> (out:
    Result<T, Error<E>>) where D: Fn(&[u8]) -> Result<(T, usize), E>
    requires
        takes_payload(old(decode_buf)@.len(), buf@, *decode),
    ensures
        bulk_result(old(decode_buf)@.len(), buf@, *decode, out),
        final(decode_buf)@ == scratch_after(old(decode_buf)@, buf@),
{
    let ghost capacity = decode_buf@.len();
    let mut state = FramedReaderState::Empty;
    let mut result: Option<T> = None;
    let mut i: usize = 0;
    while i < buf.len()
        invariant
            i <= buf@.len(),
            capacity == old(decode_buf)@.len(),
            decode_buf@.len() == capacity,
            state.fits(capacity),
            takes_payload(capacity, buf@, *decode),
            result is None ==> state.model(decode_buf@) == partial_state(
                buf@.subrange(0, i as int),
            ) && inside_frame(capacity, buf@.subrange(0, i as int)) && decode_buf@
                == scratch_after(old(decode_buf)@, buf@.subrange(0, i as int)),
            result matches Some(msg) ==> i >= 2 && le16(buf@[0], buf@[1]) <= capacity && i == 2
                + le16(buf@[0], buf@[1]) && decode_buf@ == scratch_after(old(decode_buf)@, buf@)
                && exists|p: &[u8], r: Result<(T, usize), E>|
                p@ == buf@.subrange(2, i as int) && #[trigger] call_ensures(*decode, (p,), r)
                    && decoded_from(r) == Decoded::<T, E>::Msg(msg),
        decreases buf@.len() - i,
    {
        if result.is_some() {
            return Err(Error::ExtraCharactersFound);
        }
        proof {
            lemma_partial_step(capacity, buf@, i as int);
            lemma_scratch_step(old(decode_buf)@, buf@, i as int);
            if step(partial_state(buf@.subrange(0, i as int)), capacity, buf@[i as int]).1
                !is NotYetComplete {
                lemma_scratch_settled(old(decode_buf)@, buf@, i + 1);
            }
        }
        let (new_state, decoded) = consume_inner(state, decode_buf, buf[i], decode);
        state = new_state;
        match decoded {
            Decoded::Msg(msg) => {
                result = Some(msg);
            },
            Decoded::FrameNotYetComplete => {},
            Decoded::Error(e) => {
                return Err(e);
            },
        }
        i += 1;
    }
    assert(buf@.subrange(0, i as int) == buf@);
    match result {
        Some(msg) => Ok(msg),
        None => Err(Error::Incomplete),
    }
}

/// Reads one message from `buf`, which must hold exactly one frame, with
/// a zeroed scratch buffer of `OWNED_BUFFER_LEN` bytes of its own: the
/// outcome is that of [`deserialize_owned_borrowed`] with such a buffer.
pub fn deserialize_owned<T, E, D>(buf: &[u8], decode: &D) -> (out: Result<T, Error<E>>) where
    D: Fn(&[u8]) -> Result<(T, usize), E>,

    requires
        takes_payload(OWNED_BUFFER_LEN as nat, buf@, *decode),
    ensures
        bulk_result(OWNED_BUFFER_LEN as nat, buf@, *decode, out),
{
    let mut decode_buf: Vec<u8> = vec![0u8; OWNED_BUFFER_LEN];
    deserialize_owned_borrowed(buf, decode_buf.as_mut_slice(), decode)
}

} // verus!
