//! Agent-to-agent messaging over a publish/subscribe transport.
//!
//! Agents advertise themselves with `AgentCard`s on a discovery topic,
//! exchange `Task`s with request/response semantics on per-recipient topics,
//! and may opt into end-to-end encryption via X25519 key agreement and
//! ChaCha20-Poly1305.  A small reliability layer adds acknowledgments,
//! retransmits and deduplication on top of the fire-and-forget transport.

use vstd::prelude::*;

pub mod chars;
pub mod model;
pub mod topics;
pub mod encoding;
pub mod json;
pub mod codec;
pub mod crypto;
pub mod transport;
pub mod sds;
pub mod rest;
pub mod memory;
pub mod node;

verus! {

/// Error kinds surfaced to callers: the transport failed, a payload could not
/// be encoded or decoded, or a cryptographic operation failed.
#[derive(Clone, Copy, Debug, PartialEq, Eq, Structural)]
pub enum A2AError {
    Transport,
    Encoding,
    Crypto,
}

} // verus!
