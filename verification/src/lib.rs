//! A client's side of a 3.3.5a world server: reading what the server sends,
//! writing what it is sent, and keeping the world that follows from it.
//!
//! Every packet layout is written twice. Once as mathematics, as a chain of
//! [`cursor::Cursor`] steps that says what a body means and which field is the
//! first to be wrong; and once as a parser, which is proved to do exactly that.
//! The replicated world in [`state`] is a fold over such packets, and the laws
//! of that fold stand in [`state::laws`].
use vstd::prelude::*;

pub mod client;
pub mod codec;
pub mod combat;
pub mod cursor;
pub mod exact;
pub mod movement;
pub mod names;
pub mod opcode;
pub mod order;
pub mod protocol;
pub mod query;
pub mod quest;
pub mod quest_cache;
pub mod spawns;
pub mod spell;
pub mod state;
pub mod taxi;
pub mod text;
pub mod trade;
pub mod trainer;
pub mod update;
pub mod vendor;
pub mod weather;
pub mod wire;
pub mod written;

verus! {

} // verus!
