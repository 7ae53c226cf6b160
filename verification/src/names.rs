//! What things are called, as far as the server has said.
//!
//! That it does not know a name is an answer too, and is kept like one, so
//! that the question need not be asked again.
use crate::query::{CreatureInfo, CreatureInfoView, PlayerName, PlayerNameView};
use std::collections::HashMap;
use vstd::prelude::*;

verus! {

/// Every answer so far: players by guid, creatures by entry.
#[derive(Debug)]
pub struct Names {
    pub players: HashMap<u64, PlayerName>,
    pub creatures: HashMap<u32, CreatureInfo>,
}

/// A [`Names`] as a mathematical value.
#[verifier::ext_equal]
pub struct NamesView {
    pub players: Map<u64, PlayerNameView>,
    pub creatures: Map<u32, CreatureInfoView>,
}

impl View for Names {
    type V = NamesView;

    open spec fn view(&self) -> NamesView {
        NamesView {
            players: self.players@.map_values(|name: PlayerName| name@),
            creatures: self.creatures@.map_values(|info: CreatureInfo| info@),
        }
    }
}

impl NamesView {
    /// With what was said about a player.
    pub open spec fn with_player(self, answer: PlayerNameView) -> NamesView {
        NamesView { players: self.players.insert(answer.guid, answer), ..self }
    }

    /// With what was said about a kind of creature.
    pub open spec fn with_creature(self, answer: CreatureInfoView) -> NamesView {
        NamesView { creatures: self.creatures.insert(answer.entry, answer), ..self }
    }
}

/// Before anything was said.
pub open spec fn no_names() -> NamesView {
    NamesView { players: Map::empty(), creatures: Map::empty() }
}

impl Names {
    pub fn new() -> (r: Self)
        ensures
            r@ == no_names(),
    {
        broadcast use vstd::std_specs::hash::group_hash_axioms;

        let r = Names { players: HashMap::new(), creatures: HashMap::new() };
        assert(r@ =~= no_names());
        r
    }

    /// Keeps what was said about a player.
    pub fn apply_player(&mut self, answer: PlayerName)
        ensures
            final(self)@ == old(self)@.with_player(answer@),
    {
        broadcast use vstd::std_specs::hash::group_hash_axioms;

        let guid: u64 = answer.guid;
        self.players.insert(guid, answer);
        assert(self@ =~= old(self)@.with_player(answer@));
    }

    /// Keeps what was said about a kind of creature.
    pub fn apply_creature(&mut self, answer: CreatureInfo)
        ensures
            final(self)@ == old(self)@.with_creature(answer@),
    {
        broadcast use vstd::std_specs::hash::group_hash_axioms;

        let entry: u32 = answer.entry;
        self.creatures.insert(entry, answer);
        assert(self@ =~= old(self)@.with_creature(answer@));
    }
}

impl Default for Names {
    fn default() -> (r: Self)
        ensures
            r@ == no_names(),
    {
        Names::new()
    }
}

} // verus!
