//! Which optional parts a movement section carries.
use vstd::prelude::*;

verus! {

/// This object is the player receiving the packet.
pub const SELF: u16 = 0x0001;

pub const TRANSPORT: u16 = 0x0002;

pub const HAS_TARGET: u16 = 0x0004;

pub const UNKNOWN: u16 = 0x0008;

pub const LOW_GUID: u16 = 0x0010;

/// Carries a full movement block.
pub const LIVING: u16 = 0x0020;

/// Carries a bare position.
pub const STATIONARY_POSITION: u16 = 0x0040;

pub const VEHICLE: u16 = 0x0080;

/// Carries a position on a transport.
pub const POSITION: u16 = 0x0100;

pub const ROTATION: u16 = 0x0200;

} // verus!
