//! One object of the world, as the client currently believes it to be.
//!
//! The wire reports where a path starts, where it ends and how long the whole
//! of it takes. What is between is for the reader to work out, and so is which
//! way the object faces on its way: [`Entity::pose`] says from what.
use crate::movement::MovementInfo;
use crate::update::{fields, Fields, MonsterMoveView, MoveFacing, MovementView, ObjectType, Position};
use crate::update::field_set::guid_field;
use crate::update::{MonsterMove, Movement};
use crate::wire::{bytes32, group_word_lengths};
use vstd::prelude::*;

verus! {

broadcast use group_word_lengths;

/// A reading of a clock that never goes back, in nanoseconds.
#[derive(Debug, Clone, Copy, PartialEq, Eq, Structural)]
pub struct Moment {
    pub nanos: u64,
}

/// The whole milliseconds from one moment to a later one, and zero to an
/// earlier one.
pub open spec fn millis_between(from: Moment, to: Moment) -> u64 {
    if to.nanos <= from.nanos {
        0
    } else {
        ((to.nanos - from.nanos) / 1_000_000) as u64
    }
}

impl Moment {
    /// The whole milliseconds since an earlier moment, and zero since a later
    /// one.
    pub fn millis_since(self, earlier: Moment) -> (r: u64)
        ensures
            r == millis_between(earlier, self),
    {
        if self.nanos <= earlier.nanos {
            0
        } else {
            (self.nanos - earlier.nanos) / 1_000_000
        }
    }
}

/// One more, up to the largest number there is.
pub open spec fn bumped(n: usize) -> usize {
    if n < usize::MAX {
        (n + 1) as usize
    } else {
        n
    }
}

pub(crate) fn bump(n: usize) -> (r: usize)
    ensures
        r == bumped(n),
{
    if n < usize::MAX {
        n + 1
    } else {
        n
    }
}

/// Which way an object faces.
#[derive(Debug, Clone, Copy, PartialEq, Eq, Structural)]
pub enum Heading {
    /// A heading in radians, as the bits of a float.
    Angle(u32),
    /// The direction of travel from one place to another.
    Course { from: Position, to: Position },
    /// Towards a point in the world.
    Spot { x: u32, y: u32, z: u32 },
    /// Towards another unit.
    Target(u64),
}

/// The heading that a move asks for.
pub open spec fn heading_for(facing: MoveFacing) -> Heading {
    match facing {
        MoveFacing::Angle(bits) => Heading::Angle(bits),
        MoveFacing::Spot { x, y, z } => Heading::Spot { x, y, z },
        MoveFacing::Target(guid) => Heading::Target(guid),
    }
}

fn heading_from(facing: MoveFacing) -> (r: Heading)
    ensures
        r == heading_for(facing),
{
    match facing {
        MoveFacing::Angle(bits) => Heading::Angle(bits),
        MoveFacing::Spot { x, y, z } => Heading::Spot { x, y, z },
        MoveFacing::Target(guid) => Heading::Target(guid),
    }
}

/// How far along a path an object is: `elapsed` of `duration` milliseconds.
#[derive(Debug, Clone, Copy, PartialEq, Eq, Structural)]
pub struct Travel {
    pub to: Position,
    pub elapsed: u32,
    pub duration: u32,
}

/// Where an object is at one moment. It stands at `from`, or is on its way
/// from there as far as `travel` says.
#[derive(Debug, Clone, Copy, PartialEq, Eq, Structural)]
pub struct Pose {
    pub from: Position,
    pub travel: Option<Travel>,
    pub heading: Heading,
}

/// One object as the client currently believes it to be.
#[derive(Debug, Clone)]
pub struct Entity {
    pub guid: u64,
    pub object_type: ObjectType,
    pub position: Option<Position>,
    /// Every field seen so far, with later updates folded over earlier ones.
    pub fields: Fields,
    pub movement: Option<MovementInfo>,
    /// Where a monster move says this creature is heading, if anywhere.
    pub destination: Option<Position>,
    /// How long the move takes, in milliseconds.
    pub move_duration: Option<u32>,
    /// When the move was received.
    pub move_started: Option<Moment>,
    /// A facing to arrive at, which counts only once the move has arrived.
    pub arrival_facing: Option<MoveFacing>,
    /// Which way the object faces at rest, where that is not an angle that
    /// the position could hold.
    pub bearing: Option<Heading>,
    /// How many updates of any kind have touched this object.
    pub updates: usize,
}

/// An [`Entity`] as a mathematical value.
#[verifier::ext_equal]
pub struct EntityView {
    pub guid: u64,
    pub object_type: ObjectType,
    pub position: Option<Position>,
    pub fields: Map<u16, u32>,
    pub movement: Option<MovementInfo>,
    pub destination: Option<Position>,
    pub move_duration: Option<u32>,
    pub move_started: Option<Moment>,
    pub arrival_facing: Option<MoveFacing>,
    pub bearing: Option<Heading>,
    pub updates: usize,
}

impl View for Entity {
    type V = EntityView;

    open spec fn view(&self) -> EntityView {
        EntityView {
            guid: self.guid,
            object_type: self.object_type,
            position: self.position,
            fields: self.fields@,
            movement: self.movement,
            destination: self.destination,
            move_duration: self.move_duration,
            move_started: self.move_started,
            arrival_facing: self.arrival_facing,
            bearing: self.bearing,
            updates: self.updates,
        }
    }
}

/// An object as its create block describes it.
pub open spec fn fresh_entity(
    guid: u64,
    object_type: ObjectType,
    movement: MovementView,
    fields: Map<u16, u32>,
) -> EntityView {
    EntityView {
        guid,
        object_type,
        position: movement.position,
        fields,
        movement: movement.info,
        destination: None,
        move_duration: None,
        move_started: None,
        arrival_facing: None,
        bearing: None,
        updates: 1,
    }
}

/// The orientation that a position keeps of a heading.
pub open spec fn kept_angle(heading: Heading) -> u32 {
    match heading {
        Heading::Angle(bits) => bits,
        _ => 0,
    }
}

/// A heading that a position's orientation cannot keep.
pub open spec fn kept_bearing(heading: Heading) -> Option<Heading> {
    match heading {
        Heading::Angle(_) => None,
        _ => Some(heading),
    }
}

impl EntityView {
    /// Whether the parts of a path are all there or all absent.
    pub open spec fn paired(self) -> bool {
        &&& self.destination is Some <==> self.move_duration is Some
        &&& self.destination is Some <==> self.move_started is Some
        &&& self.destination is Some ==> self.position is Some
        &&& self.arrival_facing is Some ==> self.destination is Some
    }

    /// Whether a path lies ahead or behind, as opposed to a mere position.
    pub open spec fn has_path(self) -> bool {
        &&& self.position is Some
        &&& self.destination is Some
        &&& self.move_duration is Some
        &&& self.move_started is Some
    }

    /// The milliseconds that the move has taken so far.
    pub open spec fn elapsed(self, now: Moment) -> u64 {
        millis_between(self.move_started->0, now)
    }

    /// Whether a move is in flight, as opposed to having arrived.
    pub open spec fn moving(self, now: Moment) -> bool {
        &&& self.move_duration is Some
        &&& self.move_started is Some
        &&& self.elapsed(now) < self.move_duration->0
    }

    /// Which way the object faces: along its path while it travels, as the
    /// move asked for once it has arrived, and as it last did otherwise.
    pub open spec fn heading(self, now: Moment) -> Heading {
        if !self.has_path() {
            match (self.bearing, self.position) {
                (Some(bearing), _) => bearing,
                (None, Some(position)) => Heading::Angle(position.orientation),
                (None, None) => Heading::Angle(0),
            }
        } else if self.elapsed(now) >= self.move_duration->0 && self.arrival_facing is Some {
            heading_for(self.arrival_facing->0)
        } else {
            Heading::Course { from: self.position->0, to: self.destination->0 }
        }
    }

    /// Where the object is at one moment.
    pub open spec fn pose(self, now: Moment) -> Option<Pose> {
        match self.position {
            None => None,
            Some(from) => Some(
                Pose {
                    from,
                    travel: if self.has_path() {
                        let duration = self.move_duration->0;
                        Some(
                            Travel {
                                to: self.destination->0,
                                elapsed: if self.elapsed(now) < duration {
                                    self.elapsed(now) as u32
                                } else {
                                    duration
                                },
                                duration,
                            },
                        )
                    } else {
                        None
                    },
                    heading: self.heading(now),
                },
            ),
        }
    }

    /// With a path that was predicted from an older move dropped.
    pub open spec fn settled(self) -> EntityView {
        EntityView {
            destination: None,
            move_duration: None,
            move_started: None,
            arrival_facing: None,
            bearing: None,
            ..self
        }
    }

    /// With a position and a movement state, where they are given. A position
    /// supersedes any path.
    pub open spec fn placed(
        self,
        position: Option<Position>,
        info: Option<MovementInfo>,
    ) -> EntityView {
        let settled = if position is Some {
            EntityView { position, ..self.settled() }
        } else {
            self
        };
        EntityView {
            movement: if info is Some {
                info
            } else {
                self.movement
            },
            updates: bumped(self.updates),
            ..settled
        }
    }

    /// With fields folded over those that were there.
    pub open spec fn merged(self, fields: Map<u16, u32>) -> EntityView {
        EntityView {
            fields: self.fields.union_prefer_right(fields),
            updates: bumped(self.updates),
            ..self
        }
    }

    /// Coming into view again. What the block does not carry stays.
    pub open spec fn recreated(
        self,
        object_type: ObjectType,
        movement: MovementView,
        fields: Map<u16, u32>,
    ) -> EntityView {
        EntityView {
            object_type,
            fields: self.fields.union_prefer_right(fields),
            ..self.placed(movement.position, movement.info)
        }
    }

    /// Setting out on a creature's path, from its start. At rest it will face
    /// as the move asks, or as the object did a moment ago. A move that leads
    /// nowhere is a stop, and leaves no path behind.
    pub open spec fn setting_out(self, moved: MonsterMoveView, now: Moment) -> EntityView {
        let heading = match moved.facing {
            Some(facing) => heading_for(facing),
            None => self.heading(now),
        };
        EntityView {
            position: Some(Position { orientation: kept_angle(heading), ..moved.from }),
            destination: moved.to,
            move_duration: if moved.to is Some {
                Some(moved.duration)
            } else {
                None
            },
            move_started: if moved.to is Some {
                Some(now)
            } else {
                None
            },
            arrival_facing: if moved.to is Some {
                moved.facing
            } else {
                None
            },
            bearing: kept_bearing(heading),
            updates: bumped(self.updates),
            ..self
        }
    }

    /// The offset of the unit's own power into the power fields, where it has
    /// one.
    pub open spec fn power_offset(self) -> Option<u16> {
        match self.fields.get(fields::UNIT_BYTES_0) {
            Some(word) => if bytes32(word)[3] < fields::POWER_COUNT {
                Some(bytes32(word)[3] as u16)
            } else {
                None
            },
            None => None,
        }
    }

    /// One of the four bytes that share a field.
    pub open spec fn packed_byte(self, index: int) -> Option<u8> {
        match self.fields.get(fields::UNIT_BYTES_0) {
            Some(word) => Some(bytes32(word)[index]),
            None => None,
        }
    }

    /// The field that the unit's own power selects in an array of fields.
    pub open spec fn power_field(self, base: u16) -> Option<u32> {
        match self.power_offset() {
            Some(offset) => self.fields.get((base + offset) as u16),
            None => None,
        }
    }
}

impl Entity {
    pub fn level(&self) -> (r: Option<u32>)
        ensures
            r == self@.fields.get(fields::UNIT_LEVEL),
    {
        self.fields.get(fields::UNIT_LEVEL)
    }

    pub fn display_id(&self) -> (r: Option<u32>)
        ensures
            r == self@.fields.get(fields::UNIT_DISPLAY_ID),
    {
        self.fields.get(fields::UNIT_DISPLAY_ID)
    }

    pub fn health(&self) -> (r: Option<u32>)
        ensures
            r == self@.fields.get(fields::UNIT_HEALTH),
    {
        self.fields.get(fields::UNIT_HEALTH)
    }

    pub fn max_health(&self) -> (r: Option<u32>)
        ensures
            r == self@.fields.get(fields::UNIT_MAX_HEALTH),
    {
        self.fields.get(fields::UNIT_MAX_HEALTH)
    }

    /// Race, class, gender and power type, which share one field.
    pub fn bytes_0(&self) -> (r: Option<[u8; 4]>)
        ensures
            match (r, self@.fields.get(fields::UNIT_BYTES_0)) {
                (Some(bytes), Some(word)) => bytes@ == bytes32(word),
                (None, None) => true,
                _ => false,
            },
    {
        match self.fields.get(fields::UNIT_BYTES_0) {
            Some(word) => {
                let bytes: [u8; 4] = [
                    (word % 0x100) as u8,
                    (word / 0x100 % 0x100) as u8,
                    (word / 0x1_0000 % 0x100) as u8,
                    (word / 0x100_0000) as u8,
                ];
                reveal(bytes32);
                assert(bytes@ =~= bytes32(word));
                Some(bytes)
            },
            None => None,
        }
    }

    fn packed(&self, index: usize) -> (r: Option<u8>)
        requires
            index < 4,
        ensures
            r == self@.packed_byte(index as int),
    {
        match self.bytes_0() {
            Some(bytes) => Some(bytes[index]),
            None => None,
        }
    }

    pub fn race(&self) -> (r: Option<u8>)
        ensures
            r == self@.packed_byte(0),
    {
        self.packed(0)
    }

    pub fn class(&self) -> (r: Option<u8>)
        ensures
            r == self@.packed_byte(1),
    {
        self.packed(1)
    }

    pub fn gender(&self) -> (r: Option<u8>)
        ensures
            r == self@.packed_byte(2),
    {
        self.packed(2)
    }

    /// Which resource this unit spends: mana, rage, energy and so on.
    pub fn power_type(&self) -> (r: Option<u8>)
        ensures
            r == self@.packed_byte(3),
    {
        self.packed(3)
    }

    /// The unit's current power, from the one field that its type selects.
    pub fn power(&self) -> (r: Option<u32>)
        ensures
            r == self@.power_field(fields::UNIT_POWER1),
    {
        match self.power_index() {
            Some(offset) => self.fields.get(fields::UNIT_POWER1 + offset),
            None => None,
        }
    }

    pub fn max_power(&self) -> (r: Option<u32>)
        ensures
            r == self@.power_field(fields::UNIT_MAX_POWER1),
    {
        match self.power_index() {
            Some(offset) => self.fields.get(fields::UNIT_MAX_POWER1 + offset),
            None => None,
        }
    }

    /// The offset into the power fields. A type past their end has none, or it
    /// would read whatever field lies there.
    fn power_index(&self) -> (r: Option<u16>)
        ensures
            r == self@.power_offset(),
    {
        match self.power_type() {
            Some(kind) => {
                if (kind as u16) < fields::POWER_COUNT {
                    Some(kind as u16)
                } else {
                    None
                }
            },
            None => None,
        }
    }

    /// What this unit has targeted, if anything.
    pub fn target(&self) -> (r: Option<u64>)
        ensures
            r == match guid_field(self@.fields, fields::UNIT_TARGET) {
                Some(guid) => if guid == 0 {
                    None
                } else {
                    Some(guid)
                },
                None => None,
            },
    {
        match self.fields.get_u64(fields::UNIT_TARGET) {
            Some(guid) => {
                if guid == 0 {
                    None
                } else {
                    Some(guid)
                }
            },
            None => None,
        }
    }

    pub fn is_player(&self) -> (r: bool)
        ensures
            r == (self@.object_type == ObjectType::Player),
    {
        self.object_type == ObjectType::Player
    }

    /// Whether a monster move is still in flight. The destination alone does
    /// not say so: it stays until something fresher arrives.
    pub fn is_moving(&self, now: Moment) -> (r: bool)
        ensures
            r == self@.moving(now),
    {
        match (self.move_duration, self.move_started) {
            (Some(duration), Some(started)) => now.millis_since(started) < duration as u64,
            _ => false,
        }
    }

    fn faces(&self, now: Moment) -> (r: Heading)
        ensures
            r == self@.heading(now),
    {
        match (self.position, self.destination, self.move_duration, self.move_started) {
            (Some(from), Some(to), Some(duration), Some(started)) => {
                match self.arrival_facing {
                    Some(facing) if now.millis_since(started) >= duration as u64 => heading_from(
                        facing,
                    ),
                    _ => Heading::Course { from, to },
                }
            },
            _ => match (self.bearing, self.position) {
                (Some(bearing), _) => bearing,
                (None, Some(position)) => Heading::Angle(position.orientation),
                (None, None) => Heading::Angle(0),
            },
        }
    }

    /// Where the object is at one moment: what its place and its facing are
    /// to be worked out from.
    pub fn pose(&self, now: Moment) -> (r: Option<Pose>)
        ensures
            r == self@.pose(now),
    {
        let heading = self.faces(now);
        let from = match self.position {
            Some(from) => from,
            None => return None,
        };
        let travel = match (self.destination, self.move_duration, self.move_started) {
            (Some(to), Some(duration), Some(started)) => {
                let passed: u64 = now.millis_since(started);
                let elapsed: u32 = if passed < duration as u64 {
                    passed as u32
                } else {
                    duration
                };
                Some(Travel { to, elapsed, duration })
            },
            _ => None,
        };
        Some(Pose { from, travel, heading })
    }

    /// The path that is being travelled, where one is: its ends and how many
    /// milliseconds it takes, which are not zero.
    pub fn travelling(&self, now: Moment) -> (r: Option<(Position, Position, u32)>)
        ensures
            match r {
                Some((from, to, duration)) => {
                    &&& self@.moving(now)
                    &&& self@.position == Some(from)
                    &&& self@.destination == Some(to)
                    &&& self@.move_duration == Some(duration)
                    &&& duration > 0
                },
                None => !self@.moving(now) || self@.position is None || self@.destination is None,
            },
    {
        if !self.is_moving(now) {
            return None;
        }
        match (self.position, self.destination, self.move_duration) {
            (Some(from), Some(to), Some(duration)) => Some((from, to, duration)),
            _ => None,
        }
    }

    pub(crate) fn fresh(
        guid: u64,
        object_type: ObjectType,
        movement: &Movement,
        fields: &Fields,
    ) -> (r: Entity)
        ensures
            r@ == fresh_entity(guid, object_type, movement@, fields@),
    {
        Entity {
            guid,
            object_type,
            position: movement.position,
            fields: fields.clone(),
            movement: movement.info,
            destination: None,
            move_duration: None,
            move_started: None,
            arrival_facing: None,
            bearing: None,
            updates: 1,
        }
    }

    fn clear_predicted_move(&mut self)
        ensures
            final(self)@ == old(self)@.settled(),
    {
        self.destination = None;
        self.move_duration = None;
        self.move_started = None;
        self.arrival_facing = None;
        self.bearing = None;
    }

    pub(crate) fn place(&mut self, position: Option<Position>, info: Option<MovementInfo>)
        ensures
            final(self)@ == old(self)@.placed(position, info),
    {
        if position.is_some() {
            self.position = position;
            self.clear_predicted_move();
        }
        if info.is_some() {
            self.movement = info;
        }
        self.updates = bump(self.updates);
    }

    pub(crate) fn fold(&mut self, fields: &Fields)
        ensures
            final(self)@ == old(self)@.merged(fields@),
    {
        self.fields.merge(fields);
        self.updates = bump(self.updates);
    }

    pub(crate) fn recreate(&mut self, object_type: ObjectType, movement: &Movement, fields: &Fields)
        ensures
            final(self)@ == old(self)@.recreated(object_type, movement@, fields@),
    {
        self.object_type = object_type;
        self.fields.merge(fields);
        self.place(movement.position, movement.info);
    }

    pub(crate) fn set_out(&mut self, moved: &MonsterMove, now: Moment)
        ensures
            final(self)@ == old(self)@.setting_out(moved@, now),
    {
        let heading = match moved.facing {
            Some(facing) => heading_from(facing),
            None => self.faces(now),
        };
        let (orientation, bearing) = match heading {
            Heading::Angle(bits) => (bits, None),
            _ => (0, Some(heading)),
        };
        self.position = Some(
            Position { x: moved.from.x, y: moved.from.y, z: moved.from.z, orientation },
        );
        self.bearing = bearing;
        self.destination = moved.to;
        self.move_duration = match moved.to {
            Some(_) => Some(moved.duration),
            None => None,
        };
        self.move_started = match moved.to {
            Some(_) => Some(now),
            None => None,
        };
        self.arrival_facing = match moved.to {
            Some(_) => moved.facing,
            None => None,
        };
        self.updates = bump(self.updates);
    }
}

/// A spell on cooldown, timed from when the client learned of it.
#[derive(Debug, Clone, Copy, PartialEq, Eq, Structural)]
pub struct Cooldown {
    pub started: Moment,
    pub duration_ms: u32,
}

impl Cooldown {
    /// The milliseconds that are left.
    pub fn remaining_ms(&self, now: Moment) -> (r: u32)
        ensures
            r == if millis_between(self.started, now) >= self.duration_ms {
                0
            } else {
                self.duration_ms - millis_between(self.started, now)
            },
    {
        let elapsed: u64 = now.millis_since(self.started);
        if elapsed >= self.duration_ms as u64 {
            0
        } else {
            self.duration_ms - elapsed as u32
        }
    }
}

/// A cast in progress, timed from when the client learned of it.
///
/// Once its time has passed it reads as finished, whether or not the packet
/// that says so was ever understood.
#[derive(Debug, Clone, Copy, PartialEq, Eq, Structural)]
pub struct Cast {
    pub spell_id: u32,
    pub started: Moment,
    pub duration_ms: u32,
}

/// Whether a cast's time has passed.
pub open spec fn cast_done(cast: Cast, now: Moment) -> bool {
    millis_between(cast.started, now) >= cast.duration_ms
}

impl Cast {
    /// Whether the cast's time has passed. A cast that takes no time is done
    /// the moment it starts.
    pub fn is_done(&self, now: Moment) -> (r: bool)
        ensures
            r == cast_done(*self, now),
    {
        now.millis_since(self.started) >= self.duration_ms as u64
    }
}

} // verus!
