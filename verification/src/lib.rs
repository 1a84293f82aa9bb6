//! Connection-ingress and session pipeline for a Minecraft-protocol game
//! server: frame decoding, the handshake/status/login state machine, identity
//! binding, removal broadcasts, and the per-tick reconciliation directories.

use vstd::prelude::*;

pub mod codec;
pub mod command;
pub mod compose;
pub mod decoder;
pub mod event;
pub mod ident;
pub mod ign;
pub mod json;
pub mod lookup;
pub mod queue;
pub mod registry;
pub mod scratch;
pub mod session;
pub mod skin;
pub mod varint;
pub mod wire;
pub mod world;

verus! {

/// Protocol number for Minecraft Java Edition 1.20.1.
pub const PROTOCOL_VERSION: i32 = 763;

/// Largest frame body the decoder accepts, in bytes.
pub const MAX_PACKET_SIZE: usize = 0x1F_FFFF;

} // verus!
