//! The field indices this client interprets.
use vstd::prelude::*;

verus! {

/// The object's own guid, low word first.
pub const OBJECT_GUID: u16 = 0x00;

pub const OBJECT_TYPE: u16 = 0x02;

pub const OBJECT_ENTRY: u16 = 0x03;

pub const OBJECT_SCALE: u16 = 0x04;

/// What this unit has selected, as a guid pair.
pub const UNIT_TARGET: u16 = 0x12;

/// Race, class, gender and power type, one per byte in that order.
pub const UNIT_BYTES_0: u16 = 0x17;

pub const UNIT_HEALTH: u16 = 0x18;

/// The first of seven consecutive power fields, indexed by the unit's own
/// power type.
pub const UNIT_POWER1: u16 = 0x19;

pub const UNIT_MAX_HEALTH: u16 = 0x20;

/// The first of seven maximums, parallel to [`UNIT_POWER1`].
pub const UNIT_MAX_POWER1: u16 = 0x21;

pub const UNIT_LEVEL: u16 = 0x36;

pub const UNIT_FACTION: u16 = 0x37;

pub const UNIT_FLAGS: u16 = 0x3B;

pub const UNIT_DISPLAY_ID: u16 = 0x43;

/// The model this unit wears when nothing is transforming it.
pub const UNIT_NATIVE_DISPLAY_ID: u16 = 0x44;

/// Stand state, an unread byte, visibility flags and animation tier.
pub const UNIT_BYTES_1: u16 = 0x4A;

/// Which byte of [`UNIT_BYTES_1`] carries the visibility flags.
pub const UNIT_BYTES_1_VIS_FLAGS: usize = 2;

/// The visibility bit of a stealthed unit.
pub const UNIT_VIS_FLAG_CREEP: u8 = 0x02;

/// Sheath state in byte 0, shapeshift form in byte 3.
pub const UNIT_BYTES_2: u16 = 0x7A;

/// Which byte of [`UNIT_BYTES_2`] carries the shapeshift form.
pub const UNIT_BYTES_2_FORM: usize = 3;

/// Which model a game object wears.
pub const GAMEOBJECT_DISPLAY_ID: u16 = 0x08;

/// Skin, face, hairstyle and hair colour, low byte first.
pub const PLAYER_BYTES: u16 = 0x99;

/// Which guild this character belongs to.
pub const PLAYER_GUILDID: u16 = 0x97;

/// Which rank within that guild; zero is the guild master.
pub const PLAYER_GUILDRANK: u16 = 0x98;

/// Facial hair in the low byte.
pub const PLAYER_BYTES_2: u16 = 0x9A;

/// The base of the player's own quest log.
pub const PLAYER_QUEST_LOG: u16 = 0x9E;

/// How many fields one quest log entry occupies.
pub const QUEST_LOG_STRIDE: u16 = 5;

/// Offset within an entry of the field that says whether it is finished.
pub const QUEST_LOG_STATE: u16 = 1;

/// How many quests the log holds.
pub const QUEST_LOG_SLOTS: u16 = 25;

/// Offset within an entry of the first objective counter.
pub const QUEST_LOG_COUNTS: u16 = 2;

/// How many objective counters share one field.
pub const COUNTERS_PER_FIELD: u32 = 2;

/// How many objectives the counters cover.
pub const QUEST_LOG_OBJECTIVES: u32 = 4;

/// The base of the worn-item block, an item entry per equipped slot.
pub const PLAYER_VISIBLE_ITEM_ENTRY_HEAD: u16 = 0x11b;

/// How many fields one visible-item slot occupies.
pub const VISIBLE_ITEM_STRIDE: u16 = 2;

/// How many powers a unit has, and so how far past [`UNIT_POWER1`] a power
/// index may reach.
pub const POWER_COUNT: u16 = 7;

/// Only [`PLAYER_RELEASE_TIMER_BIT`] of it is read.
pub const PLAYER_FIELD_BYTES: u16 = 0x4AD;

/// Set while a countdown to releasing the spirit should show.
pub const PLAYER_RELEASE_TIMER_BIT: u32 = 0x08;

/// Whose body a corpse is, as a guid pair.
pub const CORPSE_OWNER: u16 = 0x06;

/// Set on a player who has released and runs back as a ghost.
pub const PLAYER_GHOST: u16 = 0x96;

/// The one bit of [`PLAYER_GHOST`] that is read.
pub const PLAYER_GHOST_BIT: u32 = 0x10;

/// The base of the inventory slot array, an item guid per slot.
pub const PLAYER_FIELD_INV_SLOT_HEAD: u16 = 0x0144;

/// How many fields one inventory slot occupies.
pub const INV_SLOT_STRIDE: u16 = 2;

/// The high word every item guid carries.
pub const ITEM_GUID_HIGH: u32 = 0x4000_0000;

/// Money, in copper.
pub const PLAYER_FIELD_COINAGE: u16 = 0x0492;

/// The base of the explored-areas bitfield.
pub const PLAYER_EXPLORED_ZONES: u16 = 0x0411;

/// How many fields the explored-areas bitfield spans.
pub const EXPLORED_ZONES_WORDS: u16 = 128;

/// What this creature will do if you talk to it.
pub const UNIT_NPC_FLAGS: u16 = 0x52;

/// Whether this unit has loot on it, or is tapped.
pub const UNIT_DYNAMIC_FLAGS: u16 = 0x4F;

/// The loot bit of [`UNIT_DYNAMIC_FLAGS`].
pub const UNIT_DYNFLAG_LOOTABLE: u32 = 0x1;

/// How many are in this stack. Absent means one.
pub const ITEM_FIELD_STACK_COUNT: u16 = 0x0E;

/// How many slots this bag has.
pub const CONTAINER_FIELD_NUM_SLOTS: u16 = 0x40;

/// The base of a bag's own contents array.
pub const CONTAINER_FIELD_SLOT_1: u16 = 0x42;

/// Whose item this is, as a guid pair.
pub const ITEM_FIELD_OWNER: u16 = 0x06;

/// What this item is inside, as a guid pair.
pub const ITEM_FIELD_CONTAINED: u16 = 0x08;

} // verus!
