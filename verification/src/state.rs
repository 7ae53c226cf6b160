//! A replicated view of the world.
//!
//! The server never sends the world; it sends changes to it. Reconstructing
//! the world means folding that stream into state and keeping it there, which
//! makes this the place where a mistake survives: a dropped update is
//! permanent, and a merge that overwrites erases what nothing will resend.
//!
//! So every change is counted, an update about an object that was never
//! created is counted and not invented, and a packet that does not decode
//! costs only itself.
use crate::cursor::views;
use crate::movement::MovementInfo;
use crate::names::{no_names, Names, NamesView};
use crate::order::{keys_of, lemma_listing, listing};
use crate::spell::{no_spells, InitialSpells, InitialSpellsView};
use crate::update::{
    Block, BlockView, Fields, MonsterMove, MonsterMoveView, Movement, MovementView, ObjectType,
    Position,
};
use entity::{
    bump, bumped, cast_done, fresh_entity, Cast, Cooldown, Entity, EntityView, Moment,
};
use std::collections::HashMap;
use vstd::prelude::*;

pub mod effects;
pub mod entity;
pub mod laws;
pub mod replication;

verus! {

/// The objects that are in view.
struct Entities {
    table: HashMap<u64, Entity>,
}

spec fn entity_views(table: Map<u64, Entity>) -> Map<u64, EntityView> {
    table.map_values(|entity: Entity| entity@)
}

/// Whether every object is filed under its own guid, with its path complete
/// or absent.
pub open spec fn filed_rightly(entities: Map<u64, EntityView>) -> bool {
    &&& entities.dom().finite()
    &&& forall|guid: u64| #[trigger]
        entities.contains_key(guid) ==> entities[guid].guid == guid && entities[guid].paired()
}

proof fn lemma_entity_views(table: Map<u64, Entity>, guid: u64, entity: Entity)
    ensures
        entity_views(Map::empty()) == Map::<u64, EntityView>::empty(),
        entity_views(table).dom() == table.dom(),
        entity_views(table.insert(guid, entity)) == entity_views(table).insert(guid, entity@),
        entity_views(table.remove(guid)) == entity_views(table).remove(guid),
{
    assert(entity_views(Map::empty()) =~= Map::<u64, EntityView>::empty());
    assert(entity_views(table).dom() =~= table.dom());
    assert(entity_views(table.insert(guid, entity)) =~= entity_views(table).insert(guid, entity@));
    assert(entity_views(table.remove(guid)) =~= entity_views(table).remove(guid));
}

impl View for Entities {
    type V = Map<u64, EntityView>;

    closed spec fn view(&self) -> Map<u64, EntityView> {
        entity_views(self.table@)
    }
}

impl Entities {
    #[verifier::type_invariant]
    spec fn coherent(self) -> bool {
        filed_rightly(self@)
    }

    fn new() -> (r: Self)
        ensures
            r@ == Map::<u64, EntityView>::empty(),
    {
        broadcast use vstd::std_specs::hash::group_hash_axioms;

        let table: HashMap<u64, Entity> = HashMap::new();
        assert(entity_views(table@) =~= Map::empty());
        Entities { table }
    }

    fn len(&self) -> (r: usize)
        ensures
            r == self@.len(),
    {
        broadcast use vstd::std_specs::hash::group_hash_axioms;

        assert(self@.dom() =~= self.table@.dom());
        self.table.len()
    }

    fn get(&self, guid: u64) -> (r: Option<&Entity>)
        ensures
            match r {
                Some(entity) => self@.contains_key(guid) && entity@ == self@[guid],
                None => !self@.contains_key(guid),
            },
            filed_rightly(self@),
    {
        broadcast use vstd::std_specs::hash::group_hash_axioms;

        proof {
            use_type_invariant(self);
        }
        self.table.get(&guid)
    }

    /// The guids in view, in ascending order.
    fn guids(&self) -> (r: Vec<u64>)
        ensures
            r@ == listing(self@.dom()),
            r@.to_set() == self@.dom(),
            filed_rightly(self@),
    {
        broadcast use vstd::std_specs::hash::group_hash_axioms;

        proof {
            use_type_invariant(self);
            assert(self@.dom() =~= self.table@.dom());
            lemma_listing(self@.dom());
        }
        keys_of(&self.table)
    }

    fn put(&mut self, entity: Entity)
        requires
            entity@.paired(),
        ensures
            final(self)@ == old(self)@.insert(entity.guid, entity@),
    {
        broadcast use vstd::std_specs::hash::group_hash_axioms;

        let guid: u64 = entity.guid;
        let mut table: HashMap<u64, Entity> = HashMap::new();
        proof {
            use_type_invariant(&*self);
            lemma_entity_views(self.table@, guid, entity);
        }
        core::mem::swap(&mut self.table, &mut table);
        table.insert(guid, entity);
        *self = Entities { table };
    }

    fn take(&mut self, guid: u64) -> (r: Option<Entity>)
        ensures
            final(self)@ == old(self)@.remove(guid),
            match r {
                Some(entity) => old(self)@.contains_key(guid) && entity@ == old(self)@[guid]
                    && entity.guid == guid && entity@.paired(),
                None => !old(self)@.contains_key(guid),
            },
    {
        broadcast use vstd::std_specs::hash::group_hash_axioms;

        let mut table: HashMap<u64, Entity> = HashMap::new();
        proof {
            use_type_invariant(&*self);
            assert(entity_views(table@) =~= Map::empty());
            assert(entity_views(self.table@.remove(guid)) =~= entity_views(self.table@).remove(
                guid,
            ));
        }
        core::mem::swap(&mut self.table, &mut table);
        let entity = table.remove(&guid);
        *self = Entities { table };
        entity
    }
}

/// Counters that make a mistake visible before the world is wrong.
#[derive(Debug, Clone, Copy, PartialEq, Eq, Structural)]
pub struct Stats {
    pub created: usize,
    /// Create blocks about an object that was already there.
    pub recreated: usize,
    pub value_updates: usize,
    pub movement_updates: usize,
    pub removed: usize,
    /// Updates about an object that was never created.
    pub orphaned: usize,
}

/// Before anything happened.
pub open spec fn no_stats() -> Stats {
    Stats {
        created: 0,
        recreated: 0,
        value_updates: 0,
        movement_updates: 0,
        removed: 0,
        orphaned: 0,
    }
}

impl Default for Stats {
    fn default() -> (r: Self)
        ensures
            r == no_stats(),
    {
        Stats {
            created: 0,
            recreated: 0,
            value_updates: 0,
            movement_updates: 0,
            removed: 0,
            orphaned: 0,
        }
    }
}

/// The world as far as it has been told.
pub struct WorldState {
    entities: Entities,
    stats: Stats,
    /// What this character knows how to cast.
    pub spells: InitialSpells,
    /// Spells on cooldown, by spell id. One that is over stays and reads as
    /// over.
    pub cooldowns: HashMap<u32, Cooldown>,
    /// Casts in progress, by caster.
    pub casts: HashMap<u64, Cast>,
    /// Who each unit is swinging at, by attacker.
    pub attacking: HashMap<u64, u64>,
    /// What things are called.
    pub names: Names,
}

/// A [`WorldState`] as a mathematical value.
#[verifier::ext_equal]
pub struct WorldStateView {
    pub entities: Map<u64, EntityView>,
    pub stats: Stats,
    pub spells: InitialSpellsView,
    pub cooldowns: Map<u32, Cooldown>,
    pub casts: Map<u64, Cast>,
    pub attacking: Map<u64, u64>,
    pub names: NamesView,
}

impl View for WorldState {
    type V = WorldStateView;

    closed spec fn view(&self) -> WorldStateView {
        WorldStateView {
            entities: self.entities@,
            stats: self.stats,
            spells: self.spells@,
            cooldowns: self.cooldowns@,
            casts: self.casts@,
            attacking: self.attacking@,
            names: self.names@,
        }
    }
}

/// Before anything was told.
pub open spec fn empty_world() -> WorldStateView {
    WorldStateView {
        entities: Map::empty(),
        stats: no_stats(),
        spells: no_spells(),
        cooldowns: Map::empty(),
        casts: Map::empty(),
        attacking: Map::empty(),
        names: no_names(),
    }
}

/// The fights that a unit is on neither side of.
pub open spec fn fights_without(attacking: Map<u64, u64>, guid: u64) -> Map<u64, u64> {
    Map::new(
        |attacker: u64|
            attacking.contains_key(attacker) && attacker != guid && attacking[attacker] != guid,
        |attacker: u64| attacking[attacker],
    )
}

impl WorldStateView {
    /// With one more update about an object that is not there.
    pub open spec fn orphaned(self) -> WorldStateView {
        WorldStateView {
            stats: Stats { orphaned: bumped(self.stats.orphaned), ..self.stats },
            ..self
        }
    }

    /// With an object created, or with what a create block says folded over
    /// one that is there.
    pub open spec fn created(
        self,
        guid: u64,
        object_type: ObjectType,
        movement: MovementView,
        fields: Map<u16, u32>,
    ) -> WorldStateView {
        if self.entities.contains_key(guid) {
            WorldStateView {
                entities: self.entities.insert(
                    guid,
                    self.entities[guid].recreated(object_type, movement, fields),
                ),
                stats: Stats { recreated: bumped(self.stats.recreated), ..self.stats },
                ..self
            }
        } else {
            WorldStateView {
                entities: self.entities.insert(
                    guid,
                    fresh_entity(guid, object_type, movement, fields),
                ),
                stats: Stats { created: bumped(self.stats.created), ..self.stats },
                ..self
            }
        }
    }

    /// With fields folded over those of an object.
    pub open spec fn with_values(self, guid: u64, fields: Map<u16, u32>) -> WorldStateView {
        if self.entities.contains_key(guid) {
            WorldStateView {
                entities: self.entities.insert(guid, self.entities[guid].merged(fields)),
                stats: Stats { value_updates: bumped(self.stats.value_updates), ..self.stats },
                ..self
            }
        } else {
            self.orphaned()
        }
    }

    /// With an object somewhere else.
    pub open spec fn with_movement(
        self,
        guid: u64,
        position: Option<Position>,
        info: Option<MovementInfo>,
    ) -> WorldStateView {
        if self.entities.contains_key(guid) {
            WorldStateView {
                entities: self.entities.insert(guid, self.entities[guid].placed(position, info)),
                stats: Stats {
                    movement_updates: bumped(self.stats.movement_updates),
                    ..self.stats
                },
                ..self
            }
        } else {
            self.orphaned()
        }
    }

    /// With a creature setting out on a path.
    pub open spec fn with_path(self, moved: MonsterMoveView, now: Moment) -> WorldStateView {
        if self.entities.contains_key(moved.guid) {
            WorldStateView {
                entities: self.entities.insert(
                    moved.guid,
                    self.entities[moved.guid].setting_out(moved, now),
                ),
                stats: Stats {
                    movement_updates: bumped(self.stats.movement_updates),
                    ..self.stats
                },
                ..self
            }
        } else {
            self.orphaned()
        }
    }

    /// Without an object, its cast, and every fight that it is in.
    pub open spec fn without(self, guid: u64) -> WorldStateView {
        WorldStateView {
            entities: self.entities.remove(guid),
            stats: Stats {
                removed: if self.entities.contains_key(guid) {
                    bumped(self.stats.removed)
                } else {
                    self.stats.removed
                },
                ..self.stats
            },
            casts: self.casts.remove(guid),
            attacking: fights_without(self.attacking, guid),
            ..self
        }
    }

    /// Without a number of objects.
    pub open spec fn without_all(self, guids: Seq<u64>) -> WorldStateView
        decreases guids.len(),
    {
        if guids.len() == 0 {
            self
        } else {
            self.without_all(guids.drop_last()).without(guids.last())
        }
    }

    /// With one block of an object update folded in. Objects that are merely
    /// said to be near change nothing.
    pub open spec fn with_block(self, block: BlockView) -> WorldStateView {
        match block {
            BlockView::Create { guid, object_type, spawned: _, movement, fields } => self.created(
                guid,
                object_type,
                movement,
                fields,
            ),
            BlockView::Values { guid, fields } => self.with_values(guid, fields),
            BlockView::Movement { guid, movement } => self.with_movement(
                guid,
                movement.position,
                movement.info,
            ),
            BlockView::OutOfRange { guids } => self.without_all(guids),
            BlockView::NearObjects { guids: _ } => self,
        }
    }

    /// With the blocks of an object update folded in, one after the other.
    pub open spec fn with_blocks(self, blocks: Seq<BlockView>) -> WorldStateView
        decreases blocks.len(),
    {
        if blocks.len() == 0 {
            self
        } else {
            self.with_blocks(blocks.drop_last()).with_block(blocks.last())
        }
    }
}

impl WorldState {
    /// A world that nothing was told about.
    pub fn new() -> (r: Self)
        ensures
            r@ == empty_world(),
    {
        broadcast use vstd::std_specs::hash::group_hash_axioms;

        WorldState {
            entities: Entities::new(),
            stats: Stats::default(),
            spells: InitialSpells::default(),
            cooldowns: HashMap::new(),
            casts: HashMap::new(),
            attacking: HashMap::new(),
            names: Names::new(),
        }
    }

    pub fn stats(&self) -> (r: Stats)
        ensures
            r == self@.stats,
    {
        self.stats
    }

    /// How many objects are in view.
    pub fn len(&self) -> (r: usize)
        ensures
            r == self@.entities.len(),
    {
        self.entities.len()
    }

    /// Whether no object is in view.
    pub fn is_empty(&self) -> (r: bool)
        ensures
            r == (self@.entities.len() == 0),
    {
        self.entities.len() == 0
    }

    /// One object.
    pub fn get(&self, guid: u64) -> (r: Option<&Entity>)
        ensures
            match r {
                Some(entity) => self@.entities.contains_key(guid) && entity@
                    == self@.entities[guid],
                None => !self@.entities.contains_key(guid),
            },
            filed_rightly(self@.entities),
    {
        self.entities.get(guid)
    }

    /// Every object, by ascending guid.
    pub fn iter(&self) -> (r: Vec<&Entity>)
        ensures
            r@.len() == listing(self@.entities.dom()).len(),
            forall|i: int|
                0 <= i < r@.len() ==> (#[trigger] r@[i])@ == self@.entities[listing(
                    self@.entities.dom(),
                )[i]],
    {
        let guids = self.entities.guids();
        let mut out: Vec<&Entity> = Vec::new();
        for i in 0..guids.len()
            invariant
                guids@ == listing(self@.entities.dom()),
                guids@.to_set() == self@.entities.dom(),
                out@.len() == i,
                forall|k: int| 0 <= k < i ==> (#[trigger] out@[k])@ == self@.entities[guids@[k]],
        {
            assert(guids@.to_set().contains(guids@[i as int]));
            if let Some(entity) = self.entities.get(guids[i]) {
                out.push(entity);
            }
        }
        out
    }

    /// Every player, by ascending guid.
    pub fn players(&self) -> (r: Vec<&Entity>)
        ensures
            r@.len() == player_guids(self@.entities).len(),
            forall|i: int|
                0 <= i < r@.len() ==> (#[trigger] r@[i])@ == self@.entities[player_guids(
                    self@.entities,
                )[i]],
    {
        let guids = self.entities.guids();
        let ghost shown = |guid: u64| self@.entities[guid].object_type == ObjectType::Player;
        let mut out: Vec<&Entity> = Vec::new();
        assert(guids@.take(0).filter(shown).len() == 0) by {
            reveal(Seq::filter);
        }
        for i in 0..guids.len()
            invariant
                guids@ == listing(self@.entities.dom()),
                guids@.to_set() == self@.entities.dom(),
                shown == (|guid: u64| self@.entities[guid].object_type == ObjectType::Player),
                out@.len() == guids@.take(i as int).filter(shown).len(),
                forall|k: int|
                    0 <= k < out@.len() ==> (#[trigger] out@[k])@ == self@.entities[guids@.take(
                        i as int,
                    ).filter(shown)[k]],
        {
            proof {
                reveal(Seq::filter);
                assert(guids@.to_set().contains(guids@[i as int]));
                assert(guids@.take(i + 1).drop_last() =~= guids@.take(i as int));
            }
            if let Some(entity) = self.entities.get(guids[i]) {
                if entity.is_player() {
                    out.push(entity);
                }
            }
        }
        assert(guids@.take(guids@.len() as int) =~= guids@);
        out
    }

    /// The cast that a unit is in the middle of, if any. A cast whose time has
    /// passed is over, whether or not anything said so.
    pub fn active_cast(&self, caster: u64, now: Moment) -> (r: Option<Cast>)
        ensures
            r == if self@.casts.contains_key(caster) && !cast_done(self@.casts[caster], now) {
                Some(self@.casts[caster])
            } else {
                None
            },
    {
        broadcast use vstd::std_specs::hash::group_hash_axioms;

        match self.casts.get(&caster) {
            Some(cast) => {
                if cast.is_done(now) {
                    None
                } else {
                    Some(*cast)
                }
            },
            None => None,
        }
    }

    /// Folds one object update's blocks into the world.
    pub fn apply(&mut self, blocks: &[Block])
        ensures
            final(self)@ == old(self)@.with_blocks(views(blocks@)),
    {
        for i in 0..blocks.len()
            invariant
                self@ == old(self)@.with_blocks(views(blocks@.take(i as int))),
        {
            let ghost all = views(blocks@.take(i + 1));
            assert(all.drop_last() =~= views(blocks@.take(i as int)));
            assert(all.last() == blocks@[i as int]@);
            match &blocks[i] {
                Block::Create { guid, object_type, spawned: _, movement, fields } => {
                    self.create(*guid, *object_type, movement, fields)
                },
                Block::Values { guid, fields } => self.update_values(*guid, fields),
                Block::Movement { guid, movement } => self.update_movement(
                    *guid,
                    movement.position,
                    movement.info,
                ),
                Block::OutOfRange { guids } => self.remove_all(guids),
                Block::NearObjects { guids: _ } => {},
            }
        }
        assert(blocks@.take(blocks@.len() as int) =~= blocks@);
    }

    /// Creates an object. One that comes into view again keeps what the block
    /// does not carry.
    pub fn create(
        &mut self,
        guid: u64,
        object_type: ObjectType,
        movement: &Movement,
        fields: &Fields,
    )
        ensures
            final(self)@ == old(self)@.created(guid, object_type, movement@, fields@),
    {
        match self.entities.take(guid) {
            Some(mut entity) => {
                self.stats.recreated = bump(self.stats.recreated);
                entity.recreate(object_type, movement, fields);
                self.entities.put(entity);
            },
            None => {
                self.stats.created = bump(self.stats.created);
                self.entities.put(Entity::fresh(guid, object_type, movement, fields));
            },
        }
        assert(self@ =~= old(self)@.created(guid, object_type, movement@, fields@));
    }

    /// Folds changed fields into an object. An object that was never created
    /// is counted and not invented.
    pub fn update_values(&mut self, guid: u64, fields: &Fields)
        ensures
            final(self)@ == old(self)@.with_values(guid, fields@),
    {
        match self.entities.take(guid) {
            Some(mut entity) => {
                self.stats.value_updates = bump(self.stats.value_updates);
                entity.fold(fields);
                self.entities.put(entity);
            },
            None => {
                self.stats.orphaned = bump(self.stats.orphaned);
            },
        }
        assert(self@ =~= old(self)@.with_values(guid, fields@));
    }

    /// Moves an object.
    pub fn update_movement(
        &mut self,
        guid: u64,
        position: Option<Position>,
        info: Option<MovementInfo>,
    )
        ensures
            final(self)@ == old(self)@.with_movement(guid, position, info),
    {
        match self.entities.take(guid) {
            Some(mut entity) => {
                self.stats.movement_updates = bump(self.stats.movement_updates);
                entity.place(position, info);
                self.entities.put(entity);
            },
            None => {
                self.stats.orphaned = bump(self.stats.orphaned);
            },
        }
        assert(self@ =~= old(self)@.with_movement(guid, position, info));
    }

    /// Applies a movement that another mover reported.
    pub fn apply_relayed_movement(&mut self, guid: u64, info: &MovementInfo)
        ensures
            final(self)@ == old(self)@.with_movement(guid, Some(info.position), Some(*info)),
    {
        self.update_movement(guid, Some(info.position), Some(*info));
    }

    /// Applies a creature's path. The creature is placed at its start: the
    /// travel is about to happen.
    pub fn apply_monster_move(&mut self, moved: &MonsterMove, now: Moment)
        ensures
            final(self)@ == old(self)@.with_path(moved@, now),
    {
        match self.entities.take(moved.guid) {
            Some(mut entity) => {
                self.stats.movement_updates = bump(self.stats.movement_updates);
                entity.set_out(moved, now);
                self.entities.put(entity);
            },
            None => {
                self.stats.orphaned = bump(self.stats.orphaned);
            },
        }
        assert(self@ =~= old(self)@.with_path(moved@, now));
    }

    /// Removes an object, and says whether it was there. Its cast and its
    /// fights go with it either way.
    pub fn remove(&mut self, guid: u64) -> (r: bool)
        ensures
            final(self)@ == old(self)@.without(guid),
            r == old(self)@.entities.contains_key(guid),
    {
        broadcast use vstd::std_specs::hash::group_hash_axioms;

        self.casts.remove(&guid);
        self.end_fights(guid);
        let gone: bool = self.entities.take(guid).is_some();
        if gone {
            self.stats.removed = bump(self.stats.removed);
        }
        assert(self@ =~= old(self)@.without(guid));
        gone
    }

    fn end_fights(&mut self, guid: u64)
        ensures
            final(self)@ == (WorldStateView {
                attacking: fights_without(old(self)@.attacking, guid),
                ..old(self)@
            }),
    {
        broadcast use vstd::std_specs::hash::group_hash_axioms;

        proof {
            lemma_listing(self.attacking@.dom());
        }
        let attackers = keys_of(&self.attacking);
        let mut kept: HashMap<u64, u64> = HashMap::new();
        for i in 0..attackers.len()
            invariant
                attackers@.to_set() == self.attacking@.dom(),
                forall|attacker: u64| #[trigger]
                    kept@.contains_key(attacker) <==> fights_without(
                        self.attacking@,
                        guid,
                    ).contains_key(attacker) && attackers@.take(i as int).contains(attacker),
                forall|attacker: u64| #[trigger]
                    kept@.contains_key(attacker) ==> kept@[attacker] == self.attacking@[attacker],
        {
            let attacker: u64 = attackers[i];
            assert(attackers@.to_set().contains(attacker));
            proof {
                let done = attackers@.take(i as int);
                let more = attackers@.take(i + 1);
                assert(more =~= done.push(attacker));
                assert forall|x: u64| more.contains(x) == (done.contains(x) || x == attacker) by {
                    if done.contains(x) {
                        assert(more[done.index_of(x)] == x);
                    }
                    assert(more[i as int] == attacker);
                }
            }
            if let Some(victim) = self.attacking.get(&attacker) {
                if attacker != guid && *victim != guid {
                    kept.insert(attacker, *victim);
                }
            }
        }
        proof {
            assert(attackers@.take(attackers@.len() as int) =~= attackers@);
            assert forall|attacker: u64| self.attacking@.contains_key(attacker) implies #[trigger]
                attackers@.contains(attacker) by {
                assert(attackers@.to_set().contains(attacker));
            }
            assert(kept@ =~= fights_without(self.attacking@, guid));
        }
        self.attacking = kept;
    }

    fn remove_all(&mut self, guids: &Vec<u64>)
        ensures
            final(self)@ == old(self)@.without_all(guids@),
    {
        for i in 0..guids.len()
            invariant
                self@ == old(self)@.without_all(guids@.take(i as int)),
        {
            assert(guids@.take(i + 1).drop_last() =~= guids@.take(i as int));
            self.remove(guids[i]);
        }
        assert(guids@.take(guids@.len() as int) =~= guids@);
    }
}

/// The guids of the players among a number of objects, in ascending order.
pub open spec fn player_guids(entities: Map<u64, EntityView>) -> Seq<u64> {
    listing(entities.dom()).filter(
        |guid: u64| entities[guid].object_type == ObjectType::Player,
    )
}

impl Default for WorldState {
    fn default() -> (r: Self)
        ensures
            r@ == empty_world(),
    {
        WorldState::new()
    }
}

} // verus!
