//! Fast: a small request/response RPC protocol over one duplex byte stream.
//!
//! A frame is a fixed 15-byte header followed by a JSON payload.
//!
//! - `protocol`: the message types, the frame codec, the id source and the
//!   splitter that cuts a byte stream into frames.
//! - `payload`: the JSON envelope of a frame.
//! - `server`: the frames that answer a batch of requests.
//! - `client`: the request frame and the reading of a reply.
//! - `rpc`: the life of one RPC as its frames go by.
//! - `theorems`: what holds of the codec and the splitter for all inputs.
//! - `wire`, `checksum`, `buffer`: header integers, the payload checksum and
//!   the byte buffer.

pub mod buffer;
pub mod checksum;
pub mod client;
pub mod payload;
pub mod protocol;
pub mod rpc;
pub mod server;
pub mod theorems;
pub mod wire;
