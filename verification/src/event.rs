//! Event records the gameplay layer exchanges with the ingress core. They
//! carry plain values: entity ids, block coordinates and raw state ids.

use vstd::prelude::*;

verus! {

/// A block coordinate.
#[derive(Clone, Copy, PartialEq, Eq, Structural, Debug)]
pub struct BlockPos {
    pub x: i32,
    pub y: i32,
    pub z: i32,
}

/// Which hand performed an interaction.
#[derive(Clone, Copy, PartialEq, Eq, Structural, Debug)]
pub enum Hand {
    Main,
    Off,
}

/// The body posture a client reports.
#[derive(Copy, Clone, Debug, PartialEq, Eq, Structural, Hash)]
pub enum Posture {
    Standing,
    FallFlying,
    Sleeping,
    Swimming,
    SpinAttack,
    Sneaking,
    LongJumping,
    Dying,
    Croaking,
    UsingTongue,
    Sitting,
    Roaring,
    Sniffing,
    Emerging,
    Digging,
}

/// A posture change observed for an entity.
#[derive(Copy, Clone, Debug, PartialEq, Eq, Structural)]
pub struct PostureUpdate {
    /// The new posture of the entity.
    pub state: Posture,
}

/// A block interaction marker event.
pub struct BlockInteract {}

/// The client status actions a client may request.
#[derive(Clone, Debug, PartialEq, Eq, Structural)]
pub enum ClientStatusCommand {
    PerformRespawn,
    RequestStats,
}

/// A client status request raised by a session.
#[derive(Clone, Debug, PartialEq, Eq, Structural)]
pub struct ClientStatusEvent {
    pub client: u64,
    pub status: ClientStatusCommand,
}

/// A block-destroy gesture has begun.
#[derive(Copy, Clone, Debug, PartialEq, Eq, Structural)]
pub struct StartDestroyBlock {
    pub position: BlockPos,
    pub from: u64,
    pub sequence: i32,
}

/// A block was destroyed.
#[derive(Copy, Clone, Debug, PartialEq, Eq, Structural)]
pub struct DestroyBlock {
    pub position: BlockPos,
    pub from: u64,
    pub sequence: i32,
}

/// A block was placed; the block is its raw state id.
#[derive(Copy, Clone, Debug, PartialEq, Eq, Structural)]
pub struct PlaceBlock {
    pub position: BlockPos,
    pub block: u16,
    pub from: u64,
    pub sequence: i32,
}

/// A door was toggled.
#[derive(Copy, Clone, Debug, PartialEq, Eq, Structural)]
pub struct ToggleDoor {
    pub position: BlockPos,
    pub from: u64,
    pub sequence: i32,
}

/// An arm swing.
#[derive(Copy, Clone, Debug, PartialEq, Eq, Structural)]
pub struct SwingArm {
    pub hand: Hand,
}

/// The hotbar slot selection changed.
#[derive(Clone, Debug, PartialEq, Eq, Structural)]
pub struct UpdateSelectedSlotEvent {
    pub client: u64,
    pub slot: u8,
}

} // verus!
