//! Length-prefixed framing of messages over a serial byte stream, and a
//! non-blocking duplex engine that moves the framed bytes.
//!
//! A frame on the wire is a two-byte little-endian payload length followed
//! by the payload. The payload itself is written and read by a payload
//! codec that the caller hands in as a function, so the framing does not
//! depend on the message type.
//!
//! - [`serialize_msg`] frames one message into a buffer.
//! - [`Decoder`] and [`StdDecoder`] take a byte stream apart again, one
//!   byte at a time; [`deserialize_owned_borrowed`] and
//!   [`deserialize_owned`] read a buffer that holds exactly one frame.
//! - [`MiniTxRx`] queues received bytes and bytes to send, and offers the
//!   latter to a non-blocking write primitive in their order.

pub mod codec;
pub mod decoder;
pub mod error;
pub mod queue;
pub mod stream;
pub mod transport;
pub mod wire;

pub use crate::codec::{
    deserialize_owned, deserialize_owned_borrowed, serialize_msg, serialize_msg_owned,
    SerializedMsg,
};
pub use crate::decoder::{Decoded, Decoder, StdDecoder};
pub use crate::error::{EncodeError, Error};
pub use crate::transport::{MiniTxRx, RxStatus, TxStatus};
