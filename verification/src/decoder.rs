//! The streaming frame decoder: a state machine that takes one byte at a
//! time and hands each completed payload to the payload decoder.

use crate::error::Error;
use crate::wire::{le16, read_u16_le};
use vstd::prelude::*;
use vstd::slice::slice_subrange;

verus! {

/// What one byte fed to a decoder brings forth.
pub enum Decoded<T, E> {
    /// The byte completed a frame and its payload decoded to this message.
    Msg(T),
    /// The frame needs more bytes.
    FrameNotYetComplete,
    /// The byte could not be taken, or the completed payload did not decode.
    Error(Error<E>),
}

/// What the payload decoder's answer becomes as the outcome of a byte.
pub open spec fn decoded_from<T, E>(r: Result<(T, usize), E>) -> Decoded<T, E> {
    match r {
        Ok(pair) => Decoded::Msg(pair.0),
        Err(e) => Decoded::Error(Error::SerializeError(e)),
    }
}

impl<T, E> Decoded<T, E> {
    /// Turns the answer of the payload decoder on a completed payload into
    /// the outcome of the byte that completed it: the message on success,
    /// the codec's error passed through on failure. The count of consumed
    /// bytes is dropped.
    pub fn from_decode(r: Result<(T, usize), E>) -> (out: Self)
        ensures
            out == decoded_from(r),
    {
        match r {
            Ok((msg, _nbytes)) => Decoded::Msg(msg),
            Err(e) => Decoded::Error(Error::SerializeError(e)),
        }
    }
}

/// The state of a decoder as the protocol describes it.
pub enum DecoderState {
    /// Between frames: the next byte starts a length prefix.
    Empty,
    /// The first byte of a length prefix has arrived.
    ReadingHeader(u8),
    /// The prefix declared `len` payload bytes, of which `received` arrived.
    ReadingMessage { len: nat, received: Seq<u8> },
    /// An oversized length prefix arrived; the decoder reads no more.
    Error,
}

/// What the framing makes of one byte, before any payload is decoded.
pub enum FrameEvent {
    /// The frame needs more bytes.
    NotYetComplete,
    /// The byte completed a frame with this payload.
    Payload(Seq<u8>),
    /// The byte completed a length prefix that exceeds the buffer.
    TooLong,
    /// The decoder is latched in its error state.
    PreviousError,
}

impl DecoderState {
    /// A state that a decoder with a buffer of `capacity` bytes can be in:
    /// while a payload is read, at least one of its bytes is still missing
    /// and its declared length fits the buffer.
    pub open spec fn valid(self, capacity: nat) -> bool {
        self matches DecoderState::ReadingMessage { len, received } ==> received.len() < len
            <= capacity && len <= 65535
    }
}

/// One transition of the decoder: the state after `byte` and what the byte
/// brought forth, for a decoder whose buffer holds `capacity` bytes.
///
/// A length prefix that declares no payload completes its frame at once,
/// so a decoder that reads a payload always waits for at least one byte.
pub open spec fn step(state: DecoderState, capacity: nat, byte: u8) -> (DecoderState, FrameEvent) {
    match state {
        DecoderState::Empty => (DecoderState::ReadingHeader(byte), FrameEvent::NotYetComplete),
        DecoderState::ReadingHeader(b0) => {
            let len = le16(b0, byte);
            if len > capacity {
                (DecoderState::Error, FrameEvent::TooLong)
            } else if len == 0 {
                (DecoderState::Empty, FrameEvent::Payload(Seq::empty()))
            } else {
                (
                    DecoderState::ReadingMessage { len, received: Seq::empty() },
                    FrameEvent::NotYetComplete,
                )
            }
        },
        DecoderState::ReadingMessage { len, received } => {
            let got = received.push(byte);
            if got.len() < len {
                (DecoderState::ReadingMessage { len, received: got }, FrameEvent::NotYetComplete)
            } else {
                (DecoderState::Empty, FrameEvent::Payload(got))
            }
        },
        DecoderState::Error => (DecoderState::Error, FrameEvent::PreviousError),
    }
}

/// Whether `out` is what a decoder hands back for `event` when completed
/// payloads go to `decode`: a completed payload is handed to `decode` as it
/// arrived, and the outcome is made of what `decode` answered.
pub open spec fn emitted<T, E, D: Fn(&[u8]) -> Result<(T, usize), E>>(
    event: FrameEvent,
    decode: D,
    out: Decoded<T, E>,
) -> bool {
    match event {
        FrameEvent::NotYetComplete => out == Decoded::<T, E>::FrameNotYetComplete,
        FrameEvent::TooLong => out == Decoded::<T, E>::Error(Error::TooLong),
        FrameEvent::PreviousError => out == Decoded::<T, E>::Error(Error::PreviousError),
        FrameEvent::Payload(payload) => exists|bytes: &[u8], r: Result<(T, usize), E>|
            bytes@ == payload && #[trigger] call_ensures(decode, (bytes,), r) && out
                == decoded_from(r),
    }
}

#[derive(Clone, Copy)]
pub(crate) struct ReadingMessageState {
    pub(crate) len: u16,
    pub(crate) idx: u16,
}

#[derive(Clone, Copy)]
pub(crate) enum FramedReaderState {
    Empty,
    ReadingHeader(u8),
    ReadingMessage(ReadingMessageState),
    Error,
}

impl FramedReaderState {
    /// The protocol state that this state stands for over a buffer that
    /// holds `buf`.
    pub(crate) open spec fn model(self, buf: Seq<u8>) -> DecoderState {
        match self {
            FramedReaderState::Empty => DecoderState::Empty,
            FramedReaderState::ReadingHeader(b0) => DecoderState::ReadingHeader(b0),
            FramedReaderState::ReadingMessage(rms) => DecoderState::ReadingMessage {
                len: rms.len as nat,
                received: buf.subrange(0, rms.idx as int),
            },
            FramedReaderState::Error => DecoderState::Error,
        }
    }

    /// While a payload is read, the next byte has its place in a buffer of
    /// `capacity` bytes and is not beyond the declared length.
    pub(crate) open spec fn fits(self, capacity: nat) -> bool {
        self matches FramedReaderState::ReadingMessage(rms) ==> rms.idx < rms.len <= capacity
    }

    /// What a buffer that held `buf` holds after a transition from this
    /// state on `byte`: a payload byte is stored at its place, and no other
    /// element changes.
    pub(crate) open spec fn stored(self, buf: Seq<u8>, byte: u8) -> Seq<u8> {
        match self {
            FramedReaderState::ReadingMessage(rms) => buf.update(rms.idx as int, byte),
            _ => buf,
        }
    }
}

/// What the scratch buffer of a decoder in `state` holds after `byte`, if
/// it held `buf` before: while a payload is read the byte is stored behind
/// the bytes received so far, and in every other state nothing is written.
pub open spec fn buffer_after(state: DecoderState, buf: Seq<u8>, byte: u8) -> Seq<u8> {
    match state {
        DecoderState::ReadingMessage { len, received } => buf.update(received.len() as int, byte),
        _ => buf,
    }
}

/// Whether `decode` can be called on every payload that `event` completes.
pub open spec fn accepts<T, E, D: Fn(&[u8]) -> Result<(T, usize), E>>(
    event: FrameEvent,
    decode: D,
) -> bool {
    forall|bytes: &[u8]|
        event == FrameEvent::Payload(bytes@) ==> #[trigger] call_requires(decode, (bytes,))
}

/// One transition of a decoder whose state is `state` and whose buffer is
/// `buf`. Returns the next state and the outcome of the byte.
pub(crate) fn consume_inner<T, E, D>(
    state: FramedReaderState,
    buf: &mut [u8],
    byte: u8,
    decode: &D,
) -> (res: (FramedReaderState, Decoded<T, E>)) where D: Fn(&[u8]) -> Result<(T, usize), E>
    requires
        state.fits(old(buf)@.len()),
        accepts(step(state.model(old(buf)@), old(buf)@.len(), byte).1, *decode),
    ensures
        final(buf)@ == state.stored(old(buf)@, byte),
        res.0.fits(final(buf)@.len()),
        res.0.model(final(buf)@) == step(state.model(old(buf)@), old(buf)@.len(), byte).0,
        emitted(step(state.model(old(buf)@), old(buf)@.len(), byte).1, *decode, res.1),
{
    let (new_state, result): (FramedReaderState, Result<Option<usize>, Error<E>>) = match state {
        FramedReaderState::Empty => (FramedReaderState::ReadingHeader(byte), Ok(None)),
        FramedReaderState::ReadingHeader(byte0) => {
            let header: [u8; 2] = [byte0, byte];
            let len: u16 = read_u16_le(&header);
            assert(buf@.subrange(0, 0) == Seq::<u8>::empty());
            if (len as usize) > buf.len() {
                (FramedReaderState::Error, Err(Error::TooLong))
            } else if len == 0 {
                (FramedReaderState::Empty, Ok(Some(0)))
            } else {
                let rms = ReadingMessageState { len, idx: 0 };
                (FramedReaderState::ReadingMessage(rms), Ok(None))
            }
        },
        FramedReaderState::ReadingMessage(rms) => {
            buf[rms.idx as usize] = byte;
            let idx: u16 = rms.idx + 1;
            assert(buf@.subrange(0, idx as int) == old(buf)@.subrange(0, rms.idx as int).push(
                byte,
            ));
            if idx < rms.len {
                let rms = ReadingMessageState { len: rms.len, idx };
                (FramedReaderState::ReadingMessage(rms), Ok(None))
            } else {
                (FramedReaderState::Empty, Ok(Some(idx as usize)))
            }
        },
        FramedReaderState::Error => (FramedReaderState::Error, Err(Error::PreviousError)),
    };
    let decoded = match result {
        Ok(Some(n)) => {
            let payload = slice_subrange(buf, 0, n);
            let r = decode(payload);
            assert(call_ensures(*decode, (payload,), r));
            Decoded::from_decode(r)
        },
        Ok(None) => Decoded::FrameNotYetComplete,
        Err(e) => Decoded::Error(e),
    };
    (new_state, decoded)
}

/// A streaming decoder that uses a buffer of the caller as scratch space
/// for the payload of the frame being read.
///
/// A frame whose length prefix exceeds the buffer cannot be delimited
/// safely: it puts the decoder into its error state for good, and reading
/// goes on only with a new decoder.
pub struct Decoder<'a> {
    buf: &'a mut [u8],
    state: FramedReaderState,
}

impl<'a> View for Decoder<'a> {
    type V = DecoderState;

    closed spec fn view(&self) -> DecoderState {
        self.state.model(self.buf@)
    }
}

impl<'a> Decoder<'a> {
    /// The decoder is in a state that fits its buffer. Every decoder that
    /// [`Self::new`] made and [`Self::consume`] moved is.
    pub closed spec fn wf(&self) -> bool {
        self.state.fits(self.buf@.len())
    }

    /// What the scratch buffer holds.
    pub closed spec fn buffer(&self) -> Seq<u8> {
        self.buf@
    }

    /// The length of the longest payload that this decoder takes: the
    /// length of its scratch buffer.
    pub open spec fn capacity(&self) -> nat {
        self.buffer().len()
    }

    /// A decoder between frames that reads payloads into `buf`.
    pub fn new(buf: &'a mut [u8]) -> (decoder: Self)
        ensures
            decoder.wf(),
            decoder@ == DecoderState::Empty,
            decoder.buffer() == old(buf)@,
    {
        Self { buf, state: FramedReaderState::Empty }
    }

    /// Feeds one byte. The decoder makes the transition [`step`]; when the
    /// byte completes a frame, the payload goes to `decode` and the outcome
    /// is made of its answer, whether it succeeded or not. `decode` has to
    /// take the payload that the byte completes, and is called on nothing
    /// else.
    pub fn consume<T, E, D>(&mut self, byte: u8, decode: &D) -> (out: Decoded<T, E>) where
        D: Fn(&[u8]) -> Result<(T, usize), E>,

        requires
            old(self).wf(),
            accepts(step(old(self)@, old(self).capacity(), byte).1, *decode),
        ensures
            final(self).wf(),
            final(self)@.valid(final(self).capacity()),
            final(self).buffer() == buffer_after(old(self)@, old(self).buffer(), byte),
            final(self)@ == step(old(self)@, old(self).capacity(), byte).0,
            emitted(step(old(self)@, old(self).capacity(), byte).1, *decode, out),
    {
        let (new_state, decoded) = consume_inner(self.state, self.buf, byte, decode);
        self.state = new_state;
        decoded
    }
}

/// A streaming decoder that owns its payload buffer.
pub struct StdDecoder {
    buf: Vec<u8>,
    state: FramedReaderState,
}

impl View for StdDecoder {
    type V = DecoderState;

    closed spec fn view(&self) -> DecoderState {
        self.state.model(self.buf@)
    }
}

impl StdDecoder {
    /// The decoder is in a state that fits its buffer. Every decoder that
    /// [`Self::new`] made and [`Self::consume`] moved is.
    pub closed spec fn wf(&self) -> bool {
        self.state.fits(self.buf@.len())
    }

    /// What the scratch buffer holds.
    pub closed spec fn buffer(&self) -> Seq<u8> {
        self.buf@
    }

    /// The length of the longest payload that this decoder takes: the
    /// length of its scratch buffer.
    pub open spec fn capacity(&self) -> nat {
        self.buffer().len()
    }

    /// A decoder between frames with a payload buffer of `sz` bytes.
    pub fn new(sz: usize) -> (decoder: Self)
        ensures
            decoder.wf(),
            decoder@ == DecoderState::Empty,
            decoder.buffer() == Seq::new(sz as nat, |i: int| 0u8),
    {
        Self { buf: vec![0u8; sz], state: FramedReaderState::Empty }
    }

    /// Feeds one byte. The decoder makes the transition [`step`]; when the
    /// byte completes a frame, the payload goes to `decode` and the outcome
    /// is made of its answer, whether it succeeded or not. `decode` has to
    /// take the payload that the byte completes, and is called on nothing
    /// else.
    pub fn consume<T, E, D>(&mut self, byte: u8, decode: &D) -> (out: Decoded<T, E>) where
        D: Fn(&[u8]) -> Result<(T, usize), E>,

        requires
            old(self).wf(),
            accepts(step(old(self)@, old(self).capacity(), byte).1, *decode),
        ensures
            final(self).wf(),
            final(self)@.valid(final(self).capacity()),
            final(self).buffer() == buffer_after(old(self)@, old(self).buffer(), byte),
            final(self)@ == step(old(self)@, old(self).capacity(), byte).0,
            emitted(step(old(self)@, old(self).capacity(), byte).1, *decode, out),
    {
        let (new_state, decoded) = consume_inner(
            self.state,
            self.buf.as_mut_slice(),
            byte,
            decode,
        );
        self.state = new_state;
        decoded
    }
}

} // verus!
