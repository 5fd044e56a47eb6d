//! An incremental codec for Server-Sent Event streams.
//!
//! [`SSECodec`] turns the bytes of a stream, in whatever chunks they
//! arrive, into [`Event`]s, and writes events back out as bytes. The rules
//! of the wire format are stated over bytes in [`grammar`], [`lines`] and
//! [`format`]; [`stream`], [`laws`] and [`roundtrip`] prove what holds of
//! them for every stream.

pub mod buffer;
pub mod codec;
pub mod error;
pub mod event;
pub mod format;
pub mod grammar;
pub mod laws;
pub mod lines;
pub mod number;
pub mod roundtrip;
pub mod scan;
pub mod stream;
pub mod text;

pub use crate::codec::{strip_leading_space, SSECodec};
pub use crate::error::Error;
pub use crate::event::Event;
