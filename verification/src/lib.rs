//! Link: the wire of the Grid, as a verified library.
//!
//! Bytes to messages and back, by refusal: the framing, the codec and the decisions the
//! transport and the recording take, each with its contract.

pub mod abi;
pub mod codec;
pub mod ieee;
pub mod laws;
pub mod layout;
pub mod offsets;
pub mod protocol;
pub mod recording;
pub mod transport;
pub mod words;
pub mod wording;
