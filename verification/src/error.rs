//! What can go wrong while a message is framed or a frame is read.

use vstd::prelude::*;

verus! {

/// A failure of the framing layer. `E` is the error type of the payload
/// codec, which this layer passes through without looking at it.
#[derive(Debug)]
pub enum Error<E> {
    /// The payload codec failed to encode or to decode a payload.
    SerializeError(E),
    /// A length exceeds what the length prefix or the buffer can take.
    TooLong,
    /// The decoder met an oversized length prefix earlier and reads no more.
    PreviousError,
    /// The bytes ended before the frame was complete.
    Incomplete,
    /// Bytes were left over behind a complete frame.
    ExtraCharactersFound,
}

/// Why a payload encoder wrote no payload. `E` is the error type of the
/// payload codec.
#[derive(Debug)]
pub enum EncodeError<E> {
    /// The payload does not fit the area that the encoder was handed.
    NoRoom,
    /// The payload codec failed in another way.
    Other(E),
}

impl<E> From<E> for Error<E> {
    /// An error of the payload codec, passed through.
    fn from(cause: E) -> (out: Error<E>) {
        Error::SerializeError(cause)
    }
}

impl<E> vstd::std_specs::convert::FromSpecImpl<E> for Error<E> {
    open spec fn obeys_from_spec() -> bool {
        true
    }

    open spec fn from_spec(cause: E) -> Error<E> {
        Error::SerializeError(cause)
    }
}

} // verus!
