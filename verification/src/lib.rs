//! An incremental decoder for the Server-Sent Events (SSE) wire format.
//!
//! Bytes arrive in arbitrarily fragmented chunks through [`SseCodec::feed`];
//! complete events are handed out one at a time by [`SseCodec::poll_event`].
//! The decoder tolerates any split point, including one inside a `\r\n`
//! line terminator, and its behaviour is specified against the byte-level
//! state machine in [`model`].

use vstd::prelude::*;

pub mod codec;
pub mod laws;
pub mod model;
pub mod text;

verus! {

pub use codec::SseCodec;
pub use codec::SseCodecError;
pub use codec::SseEvent;

} // verus!
