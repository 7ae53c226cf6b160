//! Which of a spell's possible targets the client is supplying.
use vstd::prelude::*;

verus! {

/// No target: the spell acts on the caster.
pub const SELF: u32 = 0x0000_0000;

/// A unit, whose guid follows packed.
pub const UNIT: u32 = 0x0000_0002;

/// A game object, whose guid follows packed.
pub const GAMEOBJECT: u32 = 0x0000_0800;

} // verus!
