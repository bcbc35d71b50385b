//! Peer-to-peer single-file transfer core.
//!
//! Two processes exchange one regular file over an authenticated,
//! confidential channel: a Noise-NN handshake, length-prefixed AEAD
//! framing, BLAKE3 end-to-end integrity, and a compact rendezvous
//! ticket as the only out-of-band information.  This crate holds the
//! protocol logic — ticket codec, frame codec, secure channel, file
//! header, transfer state machines, and the event plane — with the
//! behaviour of each piece stated in its contract.  Network and file
//! I/O live outside, in thin front-ends that drive these machines.

pub mod code;
pub mod connect_string;
pub mod errors;
pub mod events;
pub mod hashing;
pub mod json;
pub mod paths;
pub mod strings;
pub mod text;
pub mod ticket;

pub mod crypto;
pub mod protocol;
pub mod receiver;
pub mod sender;

pub use errors::TransferError;

use vstd::prelude::*;

verus! {

/// The version tag the embedding surface reports.
pub fn bindings_version() -> (r: &'static str)
    ensures
        r@ == "0.1.0"@,
{
    "0.1.0"
}

} // verus!

