//! The movement-state bits this client sets or reads.
use vstd::prelude::*;

verus! {

/// Running or walking forwards.
pub const FORWARD: u32 = 0x0000_0001;

pub const BACKWARD: u32 = 0x0000_0002;

/// Sidestepping; combines with forwards and backwards.
pub const STRAFE_LEFT: u32 = 0x0000_0004;

pub const STRAFE_RIGHT: u32 = 0x0000_0008;

pub const WALKING: u32 = 0x0000_0100;

pub const ON_TRANSPORT: u32 = 0x0000_0200;

pub const FALLING: u32 = 0x0000_1000;

pub const SWIMMING: u32 = 0x0020_0000;

pub const FLYING: u32 = 0x0200_0000;

pub const SPLINE_ELEVATION: u32 = 0x0400_0000;

pub const SPLINE_ENABLED: u32 = 0x0800_0000;

} // verus!
