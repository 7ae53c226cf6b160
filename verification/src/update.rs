//! Object updates: how the server describes the world to the client.
//!
//! Nothing in an update packet is length-prefixed and every part is
//! conditional on a flag read a moment earlier, so there is no way to skip a
//! part that is not understood. The defence is to consume a body exactly: a
//! block structure that is subtly wrong almost never ends where the body does.
use crate::codec::{inflate, inflated, ZlibFault};
use crate::cursor::{
    agrees, lemma_many_step, lemma_many_sticky, lemma_views_push, many, ran, sticky, views, Cursor,
};
use crate::movement::{lemma_read_info_sticky, read_info, MovementInfo};
use crate::protocol::{Error, Reader, MAX_PACKET};
use crate::wire::{
    bytes32, group_word_lengths, holds, le32, lemma_holds_both, lemma_holds_whole,
    lemma_le32_of_bytes, same_bytes,
};
use vstd::prelude::*;

pub use field_set::Fields;
use field_set::{entries_map, increasing};

pub mod field_set;
pub mod fields;
pub mod movement_flags;
pub mod update_flags;

verus! {

broadcast use group_word_lengths;

/// A position in world space. The four numbers are floating-point bit
/// patterns.
#[derive(Debug, Clone, Copy, PartialEq, Eq, Structural)]
pub struct Position {
    pub x: u32,
    pub y: u32,
    pub z: u32,
    pub orientation: u32,
}

/// The origin, facing along the first axis.
pub open spec fn origin() -> Position {
    Position { x: 0, y: 0, z: 0, orientation: 0 }
}

impl Default for Position {
    fn default() -> (r: Self)
        ensures
            r == origin(),
    {
        Position { x: 0, y: 0, z: 0, orientation: 0 }
    }
}

/// What a block does to the object it names.
#[derive(Debug, Clone, Copy, PartialEq, Eq, Structural)]
pub enum UpdateType {
    /// Changed field values for an object the client already knows.
    Values,
    /// A movement change alone.
    Movement,
    /// A new object entering view.
    Create,
    /// The same, for an object that spawned rather than came into view.
    Create2,
    /// Objects that have left view.
    OutOfRange,
    /// Objects that are nearby.
    NearObjects,
}

/// The kind of block a code stands for.
pub open spec fn update_type(code: u8) -> Option<UpdateType> {
    match code {
        0 => Some(UpdateType::Values),
        1 => Some(UpdateType::Movement),
        2 => Some(UpdateType::Create),
        3 => Some(UpdateType::Create2),
        4 => Some(UpdateType::OutOfRange),
        5 => Some(UpdateType::NearObjects),
        _ => None,
    }
}

impl UpdateType {
    fn from_code(code: u8) -> (r: Option<Self>)
        ensures
            r == update_type(code),
    {
        match code {
            0 => Some(Self::Values),
            1 => Some(Self::Movement),
            2 => Some(Self::Create),
            3 => Some(Self::Create2),
            4 => Some(Self::OutOfRange),
            5 => Some(Self::NearObjects),
            _ => None,
        }
    }
}

/// The eight kinds of thing that can exist in the world.
#[derive(Debug, Clone, Copy, PartialEq, Eq, Structural)]
pub enum ObjectType {
    Object,
    Item,
    Container,
    Unit,
    Player,
    GameObject,
    DynamicObject,
    Corpse,
}

/// The kind of object a code stands for.
pub open spec fn object_type(code: u8) -> Option<ObjectType> {
    match code {
        0 => Some(ObjectType::Object),
        1 => Some(ObjectType::Item),
        2 => Some(ObjectType::Container),
        3 => Some(ObjectType::Unit),
        4 => Some(ObjectType::Player),
        5 => Some(ObjectType::GameObject),
        6 => Some(ObjectType::DynamicObject),
        7 => Some(ObjectType::Corpse),
        _ => None,
    }
}

/// What an object of a kind is called.
pub open spec fn object_name(kind: ObjectType) -> &'static str {
    match kind {
        ObjectType::Object => "object",
        ObjectType::Item => "item",
        ObjectType::Container => "container",
        ObjectType::Unit => "unit",
        ObjectType::Player => "player",
        ObjectType::GameObject => "game object",
        ObjectType::DynamicObject => "dynamic object",
        ObjectType::Corpse => "corpse",
    }
}

impl ObjectType {
    /// The kind of object a code stands for.
    pub fn from_code(code: u8) -> (r: Option<Self>)
        ensures
            r == object_type(code),
    {
        match code {
            0 => Some(Self::Object),
            1 => Some(Self::Item),
            2 => Some(Self::Container),
            3 => Some(Self::Unit),
            4 => Some(Self::Player),
            5 => Some(Self::GameObject),
            6 => Some(Self::DynamicObject),
            7 => Some(Self::Corpse),
            _ => None,
        }
    }

    /// What an object of this kind is called.
    pub fn name(&self) -> (r: &'static str)
        ensures
            r == object_name(*self),
    {
        match self {
            Self::Object => "object",
            Self::Item => "item",
            Self::Container => "container",
            Self::Unit => "unit",
            Self::Player => "player",
            Self::GameObject => "game object",
            Self::DynamicObject => "dynamic object",
            Self::Corpse => "corpse",
        }
    }
}

/// The second-tier movement flag that puts a pitch on the wire.
pub const MOVEMENT_FLAG2_ALWAYS_ALLOW_PITCHING: u16 = 0x0010;

/// The second-tier movement flag that puts a second timestamp on a carriage.
pub const MOVEMENT_FLAG2_INTERPOLATED_MOVEMENT: u16 = 0x0400;

/// The largest number of `n` bytes, plus one.
pub open spec fn byte_range(n: nat) -> int
    decreases n,
{
    if n == 0 {
        1
    } else {
        0x100 * byte_range((n - 1) as nat)
    }
}

/// The bytes of a packed guid after its mask: each bit of the mask, from the
/// lowest, says whether the byte in that position follows or is zero.
pub open spec fn guid_bytes(c: Cursor, mask: int, n: nat) -> (int, Cursor)
    decreases n,
{
    if n == 0 {
        (0, c)
    } else if mask % 2 == 1 {
        let (high, end) = guid_bytes(c.take(1), mask / 2, (n - 1) as nat);
        (c.byte() + 0x100 * high, end)
    } else {
        let (high, end) = guid_bytes(c, mask / 2, (n - 1) as nat);
        (0x100 * high, end)
    }
}

/// A packed guid: a mask byte, then the bytes that are not zero.
pub open spec fn read_guid(c: Cursor) -> (u64, Cursor) {
    let (guid, end) = guid_bytes(c.take(1), c.byte() as int, 8);
    (guid as u64, end)
}

/// The mask and the bytes that pack a number of `n` bytes.
pub open spec fn pack(guid: int, n: nat) -> (int, Seq<u8>)
    decreases n,
{
    if n == 0 {
        (0, seq![])
    } else {
        let (mask, bytes) = pack(guid / 0x100, (n - 1) as nat);
        if guid % 0x100 != 0 {
            (1 + 2 * mask, seq![(guid % 0x100) as u8] + bytes)
        } else {
            (2 * mask, bytes)
        }
    }
}

/// A guid in its packed form.
pub open spec fn packed_guid(guid: u64) -> Seq<u8> {
    let (mask, bytes) = pack(guid as int, 8);
    seq![mask as u8] + bytes
}

pub proof fn lemma_guid_bytes_sticky(c: Cursor, mask: int, n: nat)
    requires
        c.failed is Some,
    ensures
        guid_bytes(c, mask, n).1 == c,
    decreases n,
{
    if n > 0 {
        lemma_guid_bytes_sticky(c, mask / 2, (n - 1) as nat);
    }
}

/// A failed cursor gets no further by way of a guid.
pub broadcast proof fn lemma_read_guid_sticky(c: Cursor)
    requires
        c.failed is Some,
    ensures
        (#[trigger] read_guid(c)).1 == c,
{
    lemma_guid_bytes_sticky(c, c.byte() as int, 8);
}

proof fn lemma_guid_bytes_range(c: Cursor, mask: int, n: nat)
    ensures
        0 <= guid_bytes(c, mask, n).0 < byte_range(n),
    decreases n,
{
    if n > 0 {
        lemma_guid_bytes_range(c.take(1), mask / 2, (n - 1) as nat);
        lemma_guid_bytes_range(c, mask / 2, (n - 1) as nat);
    }
}

proof fn lemma_byte_range_8()
    ensures
        byte_range(8) == 0x1_0000_0000_0000_0000,
{
    reveal_with_fuel(byte_range, 9);
}

proof fn lemma_byte_range_up_to(n: nat)
    requires
        n <= 8,
    ensures
        byte_range(n) <= 0x1_0000_0000_0000_0000,
{
    reveal_with_fuel(byte_range, 9);
}

proof fn lemma_mask_range(guid: int, n: nat)
    requires
        n <= 8,
    ensures
        0 <= pack(guid, n).0 < 256,
        n < 8 ==> pack(guid, n).0 < 128,
        n < 7 ==> pack(guid, n).0 < 64,
        n < 6 ==> pack(guid, n).0 < 32,
        n < 5 ==> pack(guid, n).0 < 16,
        n < 4 ==> pack(guid, n).0 < 8,
        n < 3 ==> pack(guid, n).0 < 4,
        n < 2 ==> pack(guid, n).0 < 2,
        n < 1 ==> pack(guid, n).0 == 0,
    decreases n,
{
    if n > 0 {
        lemma_mask_range(guid / 0x100, (n - 1) as nat);
    }
}

fn read_guid_bytes(reader: &mut Reader<'_>, mask: u8, n: u8) -> (r: Result<u64, Error>)
    requires
        n <= 8,
        old(reader)@.sound(),
    ensures
        ran(r, final(reader)@, guid_bytes(old(reader)@, mask as int, n as nat).1),
        r matches Ok(v) ==> v == guid_bytes(old(reader)@, mask as int, n as nat).0,
        final(reader)@.sound(),
    decreases n,
{
    if n == 0 {
        return Ok(0);
    }
    proof {
        lemma_guid_bytes_range(reader@, mask as int, n as nat);
        lemma_byte_range_up_to(n as nat);
    }
    if mask % 2 == 1 {
        let ghost start = reader@;
        proof {
            if start.take(1).failed is Some {
                lemma_guid_bytes_sticky(start.take(1), mask as int / 2, (n - 1) as nat);
            }
        }
        let byte: u8 = reader.u8()?;
        let high: u64 = read_guid_bytes(reader, mask / 2, n - 1)?;
        Ok(byte as u64 + 0x100 * high)
    } else {
        let high: u64 = read_guid_bytes(reader, mask / 2, n - 1)?;
        Ok(0x100 * high)
    }
}

/// Reads a packed guid.
///
/// A mask byte says which of the eight bytes are not zero, and only those
/// follow.
pub fn read_packed_guid(reader: &mut Reader<'_>) -> (r: Result<u64, Error>)
    ensures
        ran(r, final(reader)@, read_guid(old(reader)@).1),
        r matches Ok(v) ==> v == read_guid(old(reader)@).0,
        old(reader)@.sound(),
        final(reader)@.sound(),
{
    let ghost start = reader@;
    proof {
        if start.take(1).failed is Some {
            lemma_guid_bytes_sticky(start.take(1), start.byte() as int, 8);
        }
    }
    let mask: u8 = reader.u8()?;
    proof {
        lemma_guid_bytes_range(reader@, mask as int, 8);
        lemma_byte_range_8();
    }
    read_guid_bytes(reader, mask, 8)
}

fn push_guid_bytes(guid: u64, n: u8, into: &mut Vec<u8>) -> (mask: u8)
    requires
        n <= 8,
    ensures
        final(into)@ == old(into)@ + pack(guid as int, n as nat).1,
        mask == pack(guid as int, n as nat).0,
    decreases n,
{
    if n == 0 {
        assert(into@ =~= old(into)@ + pack(guid as int, 0).1);
        return 0;
    }
    proof {
        lemma_mask_range(guid as int, n as nat);
        lemma_mask_range(guid as int / 0x100, (n - 1) as nat);
    }
    let byte: u8 = (guid % 0x100) as u8;
    if byte != 0 {
        into.push(byte);
    }
    let mask: u8 = push_guid_bytes(guid / 0x100, n - 1, into);
    assert(into@ =~= old(into)@ + pack(guid as int, n as nat).1);
    if byte != 0 {
        1 + 2 * mask
    } else {
        2 * mask
    }
}

/// Writes a guid in its packed form, for the client's own packets.
pub fn write_packed_guid(guid: u64, into: &mut Vec<u8>)
    ensures
        final(into)@ == old(into)@ + packed_guid(guid),
{
    let at: usize = into.len();
    into.push(0);
    let mask: u8 = push_guid_bytes(guid, 8, into);
    into.set(at, mask);
    assert(into@ =~= old(into)@ + packed_guid(guid));
}

proof fn lemma_guid_bytes_of_pack(c: Cursor, guid: int, n: nat)
    requires
        c.sound(),
        0 <= guid < byte_range(n),
        holds(c.data, c.at, pack(guid, n).1),
    ensures
        guid_bytes(c, pack(guid, n).0, n) == (
            guid,
            (Cursor { at: c.at + pack(guid, n).1.len(), ..c }),
        ),
    decreases n,
{
    reveal(holds);
    if n > 0 {
        let (mask, bytes) = pack(guid / 0x100, (n - 1) as nat);
        let whole = pack(guid, n).1;
        if guid % 0x100 != 0 {
            assert(whole[0] == c.data.subrange(c.at, c.at + whole.len())[0]);
            assert(c.data.subrange(c.at + 1, c.at + 1 + bytes.len()) =~= bytes) by {
                assert(bytes =~= whole.subrange(1, whole.len() as int));
            }
            lemma_guid_bytes_of_pack(c.take(1), guid / 0x100, (n - 1) as nat);
        } else {
            lemma_guid_bytes_of_pack(c, guid / 0x100, (n - 1) as nat);
        }
    }
}

/// A packed guid reads back as itself wherever it stands in a body, and the
/// reader ends right behind it.
pub proof fn lemma_guid_round_trip(c: Cursor, guid: u64)
    requires
        c.sound(),
        holds(c.data, c.at, packed_guid(guid)),
    ensures
        read_guid(c) == (guid, (Cursor { at: c.at + packed_guid(guid).len(), ..c })),
{
    reveal(holds);
    let (mask, bytes) = pack(guid as int, 8);
    let whole = packed_guid(guid);
    lemma_mask_range(guid as int, 8);
    lemma_byte_range_8();
    assert(whole[0] == c.data.subrange(c.at, c.at + whole.len())[0]);
    assert(c.data.subrange(c.at + 1, c.at + 1 + bytes.len()) =~= bytes) by {
        assert(bytes =~= whole.subrange(1, whole.len() as int));
    }
    lemma_guid_bytes_of_pack(c.take(1), guid as int, 8);
}

/// The fields that the lowest `n` bits of a mask word select, from `index` on.
/// They follow one another in ascending order of index.
pub open spec fn word_fields(
    found: Map<u16, u32>,
    c: Cursor,
    bits: int,
    index: int,
    n: nat,
) -> (Map<u16, u32>, Cursor)
    decreases n,
{
    if n == 0 {
        (found, c)
    } else if bits % 2 == 1 {
        word_fields(
            found.insert(index as u16, c.word()),
            c.take(4),
            bits / 2,
            index + 1,
            (n - 1) as nat,
        )
    } else {
        word_fields(found, c, bits / 2, index + 1, (n - 1) as nat)
    }
}

/// The fields that a run of mask words selects, from `word` on.
pub open spec fn mask_fields(
    found: Map<u16, u32>,
    c: Cursor,
    masks: Seq<u32>,
    word: int,
) -> (Map<u16, u32>, Cursor)
    decreases masks.len() - word,
{
    if word >= masks.len() {
        (found, c)
    } else {
        let (more, next) = word_fields(found, c, masks[word] as int, 32 * word, 32);
        mask_fields(more, next, masks, word + 1)
    }
}

/// A values block: how many mask words there are, the words, then a value for
/// every bit that is set.
pub open spec fn field_values(c: Cursor) -> (Map<u16, u32>, Cursor) {
    let masks = c.take(1);
    mask_fields(
        Map::empty(),
        masks.words(c.byte() as int),
        Seq::new(c.byte() as nat, |k: int| masks.nth(k)),
        0,
    )
}

proof fn lemma_word_fields_sticky(
    found: Map<u16, u32>,
    c: Cursor,
    bits: int,
    index: int,
    n: nat,
)
    requires
        c.failed is Some,
    ensures
        word_fields(found, c, bits, index, n).1 == c,
    decreases n,
{
    if n > 0 {
        lemma_word_fields_sticky(
            found.insert(index as u16, c.word()),
            c,
            bits / 2,
            index + 1,
            (n - 1) as nat,
        );
        lemma_word_fields_sticky(found, c, bits / 2, index + 1, (n - 1) as nat);
    }
}

pub proof fn lemma_mask_fields_sticky(found: Map<u16, u32>, c: Cursor, masks: Seq<u32>, word: int)
    requires
        c.failed is Some,
    ensures
        mask_fields(found, c, masks, word).1 == c,
    decreases masks.len() - word,
{
    if word < masks.len() {
        lemma_word_fields_sticky(found, c, masks[word] as int, 32 * word, 32);
        let (more, next) = word_fields(found, c, masks[word] as int, 32 * word, 32);
        lemma_mask_fields_sticky(more, next, masks, word + 1);
    }
}

/// A failed cursor gets no further by way of a values block.
pub broadcast proof fn lemma_field_values_sticky(c: Cursor)
    requires
        c.failed is Some,
    ensures
        (#[trigger] field_values(c)).1 == c,
{
    let masks = Seq::new(c.byte() as nat, |k: int| c.take(1).nth(k));
    lemma_mask_fields_sticky(Map::empty(), c, masks, 0);
}

fn read_word_fields(
    reader: &mut Reader<'_>,
    values: &mut Vec<(u16, u32)>,
    mask: u32,
    first: u16,
) -> (r: Result<(), Error>)
    requires
        first <= 0xFF00,
        increasing(old(values)@),
        forall|k: int| 0 <= k < old(values)@.len() ==> #[trigger] old(values)@[k].0 < first,
    ensures
        ({
            let (found, end) = word_fields(
                entries_map(old(values)@),
                old(reader)@,
                mask as int,
                first as int,
                32,
            );
            &&& ran(r, final(reader)@, end)
            &&& r is Ok ==> entries_map(final(values)@) == found
        }),
        increasing(final(values)@),
        forall|k: int| 0 <= k < final(values)@.len() ==> #[trigger] final(values)@[k].0 < first
            + 32,
{
    let ghost all = word_fields(
        entries_map(values@),
        reader@,
        mask as int,
        first as int,
        32,
    );
    let mut bits: u32 = mask;
    for i in 0..32u16
        invariant
            first <= 0xFF00,
            all == word_fields(
                entries_map(values@),
                reader@,
                bits as int,
                first + i,
                (32 - i) as nat,
            ),
            all == word_fields(
                entries_map(old(values)@),
                old(reader)@,
                mask as int,
                first as int,
                32,
            ),
            increasing(values@),
            forall|k: int| 0 <= k < values@.len() ==> #[trigger] values@[k].0 < first + i,
    {
        if bits % 2 == 1 {
            let ghost before = values@;
            proof {
                if reader@.take(4).failed is Some {
                    lemma_word_fields_sticky(
                        entries_map(before).insert((first + i) as u16, reader@.word()),
                        reader@.take(4),
                        bits as int / 2,
                        first + i + 1,
                        (32 - i - 1) as nat,
                    );
                }
            }
            let value: u32 = reader.u32()?;
            values.push((first + i, value));
            assert(values@.drop_last() =~= before);
        }
        bits = bits / 2;
    }
    Ok(())
}

/// Reads the field values of a block.
pub fn read_fields(reader: &mut Reader<'_>) -> (r: Result<Fields, Error>)
    ensures
        ran(r, final(reader)@, field_values(old(reader)@).1),
        r matches Ok(v) ==> v@ == field_values(old(reader)@).0,
{
    broadcast use lemma_field_values_sticky;

    let ghost start = reader@;
    let ghost all = field_values(start);
    let ghost words = Seq::new(start.byte() as nat, |k: int| start.take(1).nth(k));
    proof {
        if start.take(1).failed is Some {
            lemma_mask_fields_sticky(Map::empty(), start.take(1), words, 0);
        }
        if start.take(1).words(start.byte() as int).failed is Some {
            lemma_mask_fields_sticky(
                Map::empty(),
                start.take(1).words(start.byte() as int),
                words,
                0,
            );
        }
    }
    let count: u8 = reader.u8()?;
    let mut masks: Vec<u32> = Vec::new();
    for i in 0..count
        invariant
            start.sound(),
            start.take(1).sound(),
            count == start.byte(),
            reader@ == (Cursor { at: start.take(1).at + 4 * i, ..start }),
            reader@.sound(),
            masks@ == words.subrange(0, i as int),
            words == Seq::new(start.byte() as nat, |k: int| start.take(1).nth(k)),
            all == field_values(old(reader)@),
            start.take(1).words(start.byte() as int).failed is Some ==> all.1 == start.take(
                1,
            ).words(start.byte() as int),
    {
        masks.push(reader.u32()?);
        assert(masks@ =~= words.subrange(0, i + 1));
    }
    assert(masks@ =~= words);
    let mut values: Vec<(u16, u32)> = Vec::new();
    for i in 0..count
        invariant
            count == masks@.len(),
            all == mask_fields(entries_map(values@), reader@, masks@, i as int),
            all == field_values(old(reader)@),
            increasing(values@),
            forall|k: int| 0 <= k < values@.len() ==> #[trigger] values@[k].0 < 32 * i,
    {
        proof {
            let (more, next) = word_fields(
                entries_map(values@),
                reader@,
                masks@[i as int] as int,
                32 * i,
                32,
            );
            if next.failed is Some {
                lemma_mask_fields_sticky(more, next, masks@, i + 1);
            }
        }
        read_word_fields(reader, &mut values, masks[i as usize], 32 * i as u16)?;
    }
    Ok(Fields::from_entries(values))
}

/// What a block says about where something is and how it is moving.
#[derive(Debug, Clone, Copy)]
pub struct Movement {
    pub flags: u16,
    pub position: Option<Position>,
    pub movement_flags: u32,
    /// Walk, run, run-back, swim, swim-back, flight, flight-back, turn and
    /// pitch, as floating-point bit patterns.
    pub speeds: Option<[u32; 9]>,
    pub target: Option<u64>,
    /// The full movement state, when this object carries one.
    pub info: Option<MovementInfo>,
}

/// A [`Movement`] as a mathematical value.
pub struct MovementView {
    pub flags: u16,
    pub position: Option<Position>,
    pub movement_flags: u32,
    pub speeds: Option<Seq<u32>>,
    pub target: Option<u64>,
    pub info: Option<MovementInfo>,
}

impl View for Movement {
    type V = MovementView;

    open spec fn view(&self) -> MovementView {
        MovementView {
            flags: self.flags,
            position: self.position,
            movement_flags: self.movement_flags,
            speeds: match self.speeds {
                Some(speeds) => Some(speeds@),
                None => None,
            },
            target: self.target,
            info: self.info,
        }
    }
}

/// A section that says nothing beyond its flags.
pub open spec fn no_movement(flags: u16) -> MovementView {
    MovementView {
        flags,
        position: None,
        movement_flags: 0,
        speeds: None,
        target: None,
        info: None,
    }
}

impl Default for Movement {
    fn default() -> (r: Self)
        ensures
            r@ == no_movement(0),
    {
        Movement {
            flags: 0,
            position: None,
            movement_flags: 0,
            speeds: None,
            target: None,
            info: None,
        }
    }
}

impl Movement {
    /// Whether the object is the player receiving the packet.
    pub fn is_self(&self) -> (r: bool)
        ensures
            r == (self@.flags & update_flags::SELF != 0),
    {
        self.flags & update_flags::SELF != 0
    }

    /// Whether the object moves under its own power.
    pub fn is_living(&self) -> (r: bool)
        ensures
            r == (self@.flags & update_flags::LIVING != 0),
    {
        self.flags & update_flags::LIVING != 0
    }
}

/// The spline's final facing is a point.
pub const SPLINE_FINAL_POINT: u32 = 0x0000_8000;

/// The spline's final facing is another object.
pub const SPLINE_FINAL_TARGET: u32 = 0x0001_0000;

/// The spline's final facing is an angle.
pub const SPLINE_FINAL_ANGLE: u32 = 0x0002_0000;

/// The spline block of something that is following a path: its flags, at most
/// one facing, six words of timing, an effect time, a counted run of points,
/// a mode and the final destination.
#[verifier::opaque]
pub open spec fn spline(c: Cursor) -> Cursor {
    let flags = c.word();
    let facing = c.take(4);
    let timing = if flags & SPLINE_FINAL_ANGLE != 0 {
        facing.take(4)
    } else if flags & SPLINE_FINAL_TARGET != 0 {
        facing.take(8)
    } else if flags & SPLINE_FINAL_POINT != 0 {
        facing.take(12)
    } else {
        facing
    };
    let count = timing.take(12).take(12).take(4);
    let points = count.word();
    count.take(4).check(
        12 * points <= usize::MAX,
        Error::Oversized { got: points as usize },
    ).take(12 * points).take(1).take(12)
}

/// The part of a movement section that says where the object is.
#[verifier::opaque]
pub open spec fn placement(c: Cursor, flags: u16) -> (MovementView, Cursor) {
    if flags & update_flags::LIVING != 0 {
        let (info, speeds) = read_info(c);
        let end = speeds.words(9);
        (
            MovementView {
                position: Some(info.position),
                movement_flags: info.flags,
                speeds: Some(Seq::new(9, |k: int| speeds.nth(k))),
                info: Some(info),
                ..no_movement(flags)
            },
            if info.flags & movement_flags::SPLINE_ENABLED != 0 {
                spline(end)
            } else {
                end
            },
        )
    } else if flags & update_flags::POSITION != 0 {
        // The point appears twice, absolute and then relative to the
        // transport; the orientation appears once, before a trailing word.
        let point = read_guid(c).1;
        let facing = point.words(3).take(12);
        (
            MovementView {
                position: Some(
                    Position {
                        x: point.nth(0),
                        y: point.nth(1),
                        z: point.nth(2),
                        orientation: facing.word(),
                    },
                ),
                ..no_movement(flags)
            },
            facing.take(4).take(4),
        )
    } else if flags & update_flags::STATIONARY_POSITION != 0 {
        (
            MovementView {
                position: Some(
                    Position {
                        x: c.nth(0),
                        y: c.nth(1),
                        z: c.nth(2),
                        orientation: c.nth(3),
                    },
                ),
                ..no_movement(flags)
            },
            c.words(4),
        )
    } else {
        (no_movement(flags), c)
    }
}

/// Two optional words that stand before the target.
#[verifier::opaque]
pub open spec fn before_target(c: Cursor, flags: u16) -> Cursor {
    let low_guid = if flags & update_flags::UNKNOWN != 0 {
        c.take(4)
    } else {
        c
    };
    if flags & update_flags::LOW_GUID != 0 {
        low_guid.take(4)
    } else {
        low_guid
    }
}

/// Three optional fields that stand behind the target.
#[verifier::opaque]
pub open spec fn behind_target(c: Cursor, flags: u16) -> Cursor {
    let vehicle = if flags & update_flags::TRANSPORT != 0 {
        c.take(4)
    } else {
        c
    };
    let rotation = if flags & update_flags::VEHICLE != 0 {
        vehicle.take(4).take(4)
    } else {
        vehicle
    };
    if flags & update_flags::ROTATION != 0 {
        rotation.take(8)
    } else {
        rotation
    }
}

/// A whole movement section: flags, a placement, and optional fields of which
/// only the target is kept.
pub open spec fn movement_section(c: Cursor) -> (MovementView, Cursor) {
    let flags = c.short();
    let (placed, next) = placement(c.take(2), flags);
    let has_target = before_target(next, flags);
    if flags & update_flags::HAS_TARGET != 0 {
        let (guid, end) = read_guid(has_target);
        (MovementView { target: Some(guid), ..placed }, behind_target(end, flags))
    } else {
        (placed, behind_target(has_target, flags))
    }
}

broadcast proof fn lemma_spline_sticky(c: Cursor)
    requires
        c.failed is Some,
    ensures
        #[trigger] spline(c) == c,
{
    reveal(spline);
}

broadcast proof fn lemma_placement_sticky(c: Cursor, flags: u16)
    requires
        c.failed is Some,
    ensures
        (#[trigger] placement(c, flags)).1 == c,
{
    broadcast use {lemma_read_guid_sticky, lemma_read_info_sticky, lemma_spline_sticky};

    reveal(placement);
}

broadcast proof fn lemma_around_target_sticky(c: Cursor, flags: u16)
    requires
        c.failed is Some,
    ensures
        #[trigger] before_target(c, flags) == c,
        #[trigger] behind_target(c, flags) == c,
{
    reveal(before_target);
    reveal(behind_target);
}

/// A failed cursor gets no further by way of a movement section.
pub broadcast proof fn lemma_movement_section_sticky(c: Cursor)
    requires
        c.failed is Some,
    ensures
        (#[trigger] movement_section(c)).1 == c,
{
    broadcast use {lemma_read_guid_sticky, lemma_placement_sticky};

    let flags = c.short();
    lemma_around_target_sticky(c, flags);
}

fn skip_spline(reader: &mut Reader<'_>) -> (r: Result<(), Error>)
    ensures
        ran(r, final(reader)@, spline(old(reader)@)),
{
    proof {
        reveal(spline);
    }
    let flags: u32 = reader.u32()?;
    if flags & SPLINE_FINAL_ANGLE != 0 {
        reader.skip(4)?;
    } else if flags & SPLINE_FINAL_TARGET != 0 {
        reader.skip(8)?;
    } else if flags & SPLINE_FINAL_POINT != 0 {
        reader.skip(12)?;
    }
    reader.skip(12)?;  // time passed, duration, id
    reader.skip(12)?;  // duration modifiers, vertical acceleration
    let _effect_start: u32 = reader.u32()?;
    let points: usize = reader.u32()? as usize;
    match points.checked_mul(12) {
        Some(bytes) => reader.skip(bytes)?,
        None => return Err(Error::Oversized { got: points }),
    }
    let _mode: u8 = reader.u8()?;
    reader.skip(12)?;  // final destination
    Ok(())
}

fn read_placement(reader: &mut Reader<'_>, flags: u16) -> (r: Result<Movement, Error>)
    ensures
        ran(r, final(reader)@, placement(old(reader)@, flags).1),
        r matches Ok(v) ==> v@ == placement(old(reader)@, flags).0,
{
    broadcast use {lemma_read_guid_sticky, lemma_read_info_sticky, lemma_spline_sticky};

    proof {
        reveal(placement);
    }
    let mut movement = Movement {
        flags,
        position: None,
        movement_flags: 0,
        speeds: None,
        target: None,
        info: None,
    };
    if flags & update_flags::LIVING != 0 {
        let info = MovementInfo::read(reader)?;
        movement.movement_flags = info.flags;
        movement.position = Some(info.position);
        movement.info = Some(info);
        let speeds = reader.words::<9>()?;
        movement.speeds = Some(speeds);
        assert(speeds@ =~= placement(old(reader)@, flags).0.speeds->Some_0);
        if info.flags & movement_flags::SPLINE_ENABLED != 0 {
            skip_spline(reader)?;
        }
    } else if flags & update_flags::POSITION != 0 {
        let _transport: u64 = read_packed_guid(reader)?;
        let point = reader.words::<3>()?;
        reader.skip(12)?;
        let orientation: u32 = reader.u32()?;
        let _corpse_orientation: u32 = reader.u32()?;
        movement.position = Some(Position { x: point[0], y: point[1], z: point[2], orientation });
    } else if flags & update_flags::STATIONARY_POSITION != 0 {
        let w = reader.words::<4>()?;
        movement.position = Some(Position { x: w[0], y: w[1], z: w[2], orientation: w[3] });
    }
    Ok(movement)
}

fn skip_before_target(reader: &mut Reader<'_>, flags: u16) -> (r: Result<(), Error>)
    ensures
        ran(r, final(reader)@, before_target(old(reader)@, flags)),
{
    proof {
        reveal(before_target);
    }
    if flags & update_flags::UNKNOWN != 0 {
        reader.skip(4)?;
    }
    if flags & update_flags::LOW_GUID != 0 {
        reader.skip(4)?;
    }
    Ok(())
}

fn skip_behind_target(reader: &mut Reader<'_>, flags: u16) -> (r: Result<(), Error>)
    ensures
        ran(r, final(reader)@, behind_target(old(reader)@, flags)),
{
    proof {
        reveal(behind_target);
    }
    if flags & update_flags::TRANSPORT != 0 {
        reader.skip(4)?;  // path timer
    }
    if flags & update_flags::VEHICLE != 0 {
        reader.skip(4)?;  // vehicle id
        reader.skip(4)?;  // facing
    }
    if flags & update_flags::ROTATION != 0 {
        reader.skip(8)?;
    }
    Ok(())
}

fn read_movement(reader: &mut Reader<'_>) -> (r: Result<Movement, Error>)
    ensures
        ran(r, final(reader)@, movement_section(old(reader)@).1),
        r matches Ok(v) ==> v@ == movement_section(old(reader)@).0,
{
    broadcast use {lemma_read_guid_sticky, lemma_placement_sticky};

    let ghost flags = reader@.short();
    proof {
        let c = reader@;
        let placed = placement(c.take(2), flags).1;
        let lead = before_target(placed, flags);
        let target = read_guid(lead).1;
        if placed.failed is Some {
            lemma_around_target_sticky(placed, flags);
        }
        if lead.failed is Some {
            lemma_around_target_sticky(lead, flags);
        }
        if target.failed is Some {
            lemma_around_target_sticky(target, flags);
        }
    }
    let flags: u16 = reader.u16()?;
    let mut movement = read_placement(reader, flags)?;
    skip_before_target(reader, flags)?;
    if flags & update_flags::HAS_TARGET != 0 {
        movement.target = Some(read_packed_guid(reader)?);
    }
    skip_behind_target(reader, flags)?;
    Ok(movement)
}

/// One entry in an update packet.
#[derive(Debug, Clone)]
pub enum Block {
    Values { guid: u64, fields: Fields },
    Movement { guid: u64, movement: Movement },
    Create {
        guid: u64,
        object_type: ObjectType,
        /// Whether this marks a spawn rather than a thing coming into view.
        spawned: bool,
        movement: Movement,
        fields: Fields,
    },
    OutOfRange { guids: Vec<u64> },
    NearObjects { guids: Vec<u64> },
}

/// A [`Block`] as a mathematical value.
pub enum BlockView {
    Values { guid: u64, fields: Map<u16, u32> },
    Movement { guid: u64, movement: MovementView },
    Create {
        guid: u64,
        object_type: ObjectType,
        spawned: bool,
        movement: MovementView,
        fields: Map<u16, u32>,
    },
    OutOfRange { guids: Seq<u64> },
    NearObjects { guids: Seq<u64> },
}

impl View for Block {
    type V = BlockView;

    open spec fn view(&self) -> BlockView {
        match self {
            Block::Values { guid, fields } => BlockView::Values { guid: *guid, fields: fields@ },
            Block::Movement { guid, movement } => BlockView::Movement {
                guid: *guid,
                movement: movement@,
            },
            Block::Create { guid, object_type, spawned, movement, fields } => BlockView::Create {
                guid: *guid,
                object_type: *object_type,
                spawned: *spawned,
                movement: movement@,
                fields: fields@,
            },
            Block::OutOfRange { guids } => BlockView::OutOfRange { guids: guids@ },
            Block::NearObjects { guids } => BlockView::NearObjects { guids: guids@ },
        }
    }
}

impl Block {
    /// The one object this block is about, where there is one.
    pub fn guid(&self) -> (r: Option<u64>)
        ensures
            r == match self@ {
                BlockView::Values { guid, .. } => Some(guid),
                BlockView::Movement { guid, .. } => Some(guid),
                BlockView::Create { guid, .. } => Some(guid),
                _ => None::<u64>,
            },
    {
        match self {
            Block::Values { guid, .. } => Some(*guid),
            Block::Movement { guid, .. } => Some(*guid),
            Block::Create { guid, .. } => Some(*guid),
            _ => None,
        }
    }
}

/// A counted list of packed guids.
#[verifier::opaque]
pub open spec fn guid_list(c: Cursor) -> (Seq<u64>, Cursor) {
    many(c.take(4), c.word() as nat, |c: Cursor| read_guid(c))
}

/// One block: a code, then what its kind calls for.
#[verifier::opaque]
pub open spec fn block(c: Cursor) -> (BlockView, Cursor) {
    let code = c.byte();
    let body = c.take(1);
    match update_type(code) {
        Some(UpdateType::Values) => {
            let (guid, next) = read_guid(body);
            let (fields, end) = field_values(next);
            (BlockView::Values { guid, fields }, end)
        },
        Some(UpdateType::Movement) => {
            let (guid, next) = read_guid(body);
            let (movement, end) = movement_section(next);
            (BlockView::Movement { guid, movement }, end)
        },
        Some(UpdateType::OutOfRange) => {
            let (guids, end) = guid_list(body);
            (BlockView::OutOfRange { guids }, end)
        },
        Some(UpdateType::NearObjects) => {
            let (guids, end) = guid_list(body);
            (BlockView::NearObjects { guids }, end)
        },
        Some(created) => {
            let (guid, kind) = read_guid(body);
            let known = kind.take(1).check(
                object_type(kind.byte()) is Some,
                Error::UnknownObjectType { got: kind.byte() },
            );
            let (movement, next) = movement_section(known);
            let (fields, end) = field_values(next);
            (
                BlockView::Create {
                    guid,
                    object_type: object_type(kind.byte())->Some_0,
                    spawned: created == UpdateType::Create2,
                    movement,
                    fields,
                },
                end,
            )
        },
        None => (
            BlockView::NearObjects { guids: seq![] },
            body.fail(Error::UnknownUpdateType { got: code }),
        ),
    }
}

/// What [`parse_update_object`] makes of a body: a count and as many blocks,
/// with nothing left over.
pub open spec fn update_object(body: Seq<u8>) -> Result<Seq<BlockView>, Error> {
    let c = Cursor::over(body, "SMSG_UPDATE_OBJECT");
    let (blocks, end) = many(c.take(4), c.word() as nat, |c: Cursor| block(c));
    end.finish().outcome(blocks)
}

proof fn lemma_guid_sticky_record()
    ensures
        sticky(|c: Cursor| read_guid(c)),
{
    assert forall|c: Cursor| c.failed is Some implies #[trigger] read_guid(c).1 == c by {
        lemma_read_guid_sticky(c);
    }
}

/// A failed cursor gets no further by way of a list of guids.
pub broadcast proof fn lemma_guid_list_sticky(c: Cursor)
    requires
        c.failed is Some,
    ensures
        (#[trigger] guid_list(c)).1 == c,
{
    reveal(guid_list);
    lemma_guid_sticky_record();
    lemma_many_sticky(c, c.word() as nat, |c: Cursor| read_guid(c));
}

proof fn lemma_block_sticky()
    ensures
        sticky(|c: Cursor| block(c)),
{
    broadcast use {
        lemma_read_guid_sticky,
        lemma_field_values_sticky,
        lemma_movement_section_sticky,
        lemma_guid_list_sticky,
    };

    reveal(block);
    assert forall|c: Cursor| c.failed is Some implies #[trigger] block(c).1 == c by {}
}

fn read_guid_list(reader: &mut Reader<'_>) -> (r: Result<Vec<u64>, Error>)
    ensures
        ran(r, final(reader)@, guid_list(old(reader)@).1),
        r matches Ok(v) ==> v@ == guid_list(old(reader)@).0,
{
    let ghost c = reader@;
    let ghost record = |c: Cursor| read_guid(c);
    let ghost all = many(c.take(4), c.word() as nat, record);
    proof {
        reveal(guid_list);
        lemma_guid_sticky_record();
        if c.take(4).failed is Some {
            lemma_many_sticky(c.take(4), c.word() as nat, record);
        }
    }
    let count: u32 = reader.u32()?;
    let mut guids: Vec<u64> = Vec::new();
    assert(guids@ + all.0 =~= all.0);
    for i in 0..count
        invariant
            all.0 == guids@ + many(reader@, (count - i) as nat, record).0,
            all.1 == many(reader@, (count - i) as nat, record).1,
            all == guid_list(old(reader)@),
            record == (|c: Cursor| read_guid(c)),
            sticky(record),
    {
        let ghost left = (count - i) as nat;
        proof {
            lemma_many_step(guids@, reader@, left, record);
            if read_guid(reader@).1.failed is Some {
                lemma_many_sticky(read_guid(reader@).1, (left - 1) as nat, record);
            }
        }
        guids.push(read_packed_guid(reader)?);
    }
    assert(guids@ + seq![] =~= guids@);
    Ok(guids)
}

fn read_create(reader: &mut Reader<'_>, spawned: bool) -> (r: Result<Block, Error>)
    ensures
        ({
            let (guid, kind) = read_guid(old(reader)@);
            let known = kind.take(1).check(
                object_type(kind.byte()) is Some,
                Error::UnknownObjectType { got: kind.byte() },
            );
            let (movement, next) = movement_section(known);
            let (fields, end) = field_values(next);
            &&& ran(r, final(reader)@, end)
            &&& r matches Ok(v) ==> v@ == (BlockView::Create {
                guid,
                object_type: object_type(kind.byte())->Some_0,
                spawned,
                movement,
                fields,
            })
        }),
{
    broadcast use {
        lemma_read_guid_sticky,
        lemma_field_values_sticky,
        lemma_movement_section_sticky,
    };

    let guid: u64 = read_packed_guid(reader)?;
    let code: u8 = reader.u8()?;
    let object_type = match ObjectType::from_code(code) {
        Some(kind) => kind,
        None => return Err(Error::UnknownObjectType { got: code }),
    };
    let movement = read_movement(reader)?;
    let fields = read_fields(reader)?;
    Ok(Block::Create { guid, object_type, spawned, movement, fields })
}

fn read_block(reader: &mut Reader<'_>) -> (r: Result<Block, Error>)
    ensures
        ran(r, final(reader)@, block(old(reader)@).1),
        r matches Ok(v) ==> v@ == block(old(reader)@).0,
{
    broadcast use {
        lemma_read_guid_sticky,
        lemma_field_values_sticky,
        lemma_movement_section_sticky,
        lemma_guid_list_sticky,
    };

    proof {
        reveal(block);
    }
    let code: u8 = reader.u8()?;
    match UpdateType::from_code(code) {
        Some(UpdateType::Values) => {
            let guid: u64 = read_packed_guid(reader)?;
            let fields = read_fields(reader)?;
            Ok(Block::Values { guid, fields })
        },
        Some(UpdateType::Movement) => {
            let guid: u64 = read_packed_guid(reader)?;
            let movement = read_movement(reader)?;
            Ok(Block::Movement { guid, movement })
        },
        Some(UpdateType::Create) => read_create(reader, false),
        Some(UpdateType::Create2) => read_create(reader, true),
        Some(UpdateType::OutOfRange) => {
            let guids = read_guid_list(reader)?;
            Ok(Block::OutOfRange { guids })
        },
        Some(UpdateType::NearObjects) => {
            let guids = read_guid_list(reader)?;
            Ok(Block::NearObjects { guids })
        },
        None => Err(Error::UnknownUpdateType { got: code }),
    }
}

/// Parses an `SMSG_UPDATE_OBJECT` body.
pub fn parse_update_object(body: &[u8]) -> (r: Result<Vec<Block>, Error>)
    ensures
        match r {
            Ok(blocks) => update_object(body@) == Ok::<Seq<BlockView>, Error>(views(blocks@)),
            Err(error) => update_object(body@) == Err::<Seq<BlockView>, Error>(error),
        },
{
    let mut reader = Reader::new(body, "SMSG_UPDATE_OBJECT");
    let ghost c = reader@;
    let ghost record = |c: Cursor| block(c);
    let ghost all = many(c.take(4), c.word() as nat, record);
    proof {
        lemma_block_sticky();
        if c.take(4).failed is Some {
            lemma_many_sticky(c.take(4), c.word() as nat, record);
        }
    }
    let count: u32 = reader.u32()?;
    let mut blocks: Vec<Block> = Vec::new();
    assert(views(blocks@) + all.0 =~= all.0);
    for i in 0..count
        invariant
            all.0 == views(blocks@) + many(reader@, (count - i) as nat, record).0,
            all.1 == many(reader@, (count - i) as nat, record).1,
            update_object(body@) == all.1.finish().outcome(all.0),
            record == (|c: Cursor| block(c)),
            sticky(record),
    {
        let ghost left = (count - i) as nat;
        proof {
            lemma_many_step(views(blocks@), reader@, left, record);
            if block(reader@).1.failed is Some {
                lemma_many_sticky(block(reader@).1, (left - 1) as nat, record);
            }
        }
        let one = read_block(&mut reader)?;
        proof {
            lemma_views_push(blocks@, one);
        }
        blocks.push(one);
    }
    assert(views(blocks@) + seq![] =~= views(blocks@));
    reader.finish()?;
    Ok(blocks)
}

/// A payload that a zlib stream expanded to, held against the length that was
/// declared for it.
pub open spec fn expansion(
    declared: usize,
    plain: Result<Seq<u8>, ZlibFault>,
) -> Result<Seq<u8>, Error> {
    match plain {
        Err(fault) => Err(Error::Compress(fault)),
        Ok(bytes) => if bytes.len() == declared {
            Ok(bytes)
        } else {
            Err(Error::CompressedLength { declared, got: bytes.len() as usize })
        },
    }
}

/// What [`decompress_update_object`] makes of a body: the declared length,
/// then a zlib stream.
pub open spec fn decompressed(body: Seq<u8>) -> Result<Seq<u8>, Error> {
    let c = Cursor::over(body, "SMSG_COMPRESSED_UPDATE_OBJECT").take(4);
    let declared = le32(body, 0) as usize;
    if c.failed is Some {
        c.outcome(seq![])
    } else if declared > MAX_PACKET {
        Err(Error::Oversized { got: declared })
    } else {
        expansion(declared, inflated(body.subrange(4, body.len() as int)))
    }
}

/// Holds an expanded payload against the length that was declared for it.
pub fn checked_expansion(declared: usize, plain: Result<Vec<u8>, ZlibFault>) -> (r: Result<
    Vec<u8>,
    Error,
>)
    ensures
        agrees(
            r,
            expansion(
                declared,
                match plain {
                    Ok(bytes) => Ok(bytes@),
                    Err(fault) => Err(fault),
                },
            ),
        ),
{
    match plain {
        Err(fault) => Err(Error::Compress(fault)),
        Ok(bytes) => if bytes.len() == declared {
            Ok(bytes)
        } else {
            Err(Error::CompressedLength { declared, got: bytes.len() })
        },
    }
}

/// Expands a compressed update packet without parsing it.
///
/// The declared length is that of the expanded payload, and may not exceed
/// [`MAX_PACKET`].
pub fn decompress_update_object(body: &[u8]) -> (r: Result<Vec<u8>, Error>)
    ensures
        agrees(r, decompressed(body@)),
{
    let mut reader = Reader::new(body, "SMSG_COMPRESSED_UPDATE_OBJECT");
    let declared: usize = reader.u32()? as usize;
    if declared > MAX_PACKET {
        return Err(Error::Oversized { got: declared });
    }
    checked_expansion(declared, inflate(reader.rest()))
}

/// What [`parse_compressed_update_object`] makes of a body.
pub open spec fn compressed_update_object(body: Seq<u8>) -> Result<Seq<BlockView>, Error> {
    match decompressed(body) {
        Ok(plain) => update_object(plain),
        Err(error) => Err(error),
    }
}

/// A compressed update says what the update that was packed says: whatever
/// expands to the length that stands before it is read as the plain form.
pub proof fn lemma_compression_changes_nothing(packed: Seq<u8>, plain: Seq<u8>)
    requires
        inflated(packed) == Ok::<Seq<u8>, ZlibFault>(plain),
        plain.len() <= MAX_PACKET,
    ensures
        decompressed(bytes32(plain.len() as u32) + packed) == Ok::<Seq<u8>, Error>(plain),
        compressed_update_object(bytes32(plain.len() as u32) + packed) == update_object(plain),
{
    let declared = bytes32(plain.len() as u32);
    let body = declared + packed;
    lemma_holds_whole(body);
    lemma_holds_both(body, 0, declared, packed);
    lemma_le32_of_bytes(body, 0, plain.len() as u32);
    assert(body.subrange(4, body.len() as int) =~= packed);
}

/// Parses `SMSG_COMPRESSED_UPDATE_OBJECT`: the same payload behind zlib.
pub fn parse_compressed_update_object(body: &[u8]) -> (r: Result<Vec<Block>, Error>)
    ensures
        match r {
            Ok(blocks) => compressed_update_object(body@) == Ok::<Seq<BlockView>, Error>(
                views(blocks@),
            ),
            Err(error) => compressed_update_object(body@) == Err::<Seq<BlockView>, Error>(error),
        },
{
    let plain = decompress_update_object(body)?;
    parse_update_object(plain.as_slice())
}

/// One unit's power changing without a whole update block behind it.
#[derive(Debug, Clone, Copy, PartialEq, Eq, Structural)]
pub struct PowerUpdate {
    pub guid: u64,
    /// Indexes the seven consecutive power fields from
    /// [`fields::UNIT_POWER1`].
    pub power_type: u8,
    pub value: u32,
}

/// The field that holds a power of one kind.
pub open spec fn power_field(power_type: u8) -> Option<u16> {
    if power_type < fields::POWER_COUNT {
        Some((fields::UNIT_POWER1 + power_type) as u16)
    } else {
        None
    }
}

impl PowerUpdate {
    /// Which update field this writes, or `None` for a power index past the
    /// end of the array.
    pub fn field(&self) -> (r: Option<u16>)
        ensures
            r == power_field(self.power_type),
    {
        if (self.power_type as u16) < fields::POWER_COUNT {
            Some(fields::UNIT_POWER1 + self.power_type as u16)
        } else {
            None
        }
    }
}

/// What [`parse_power_update`] makes of a body.
pub open spec fn power_update(body: Seq<u8>) -> Result<PowerUpdate, Error> {
    let (guid, kind) = read_guid(Cursor::over(body, "SMSG_POWER_UPDATE"));
    kind.take(1).take(4).finish().outcome(
        PowerUpdate { guid, power_type: kind.byte(), value: kind.take(1).word() },
    )
}

/// Parses `SMSG_POWER_UPDATE`.
pub fn parse_power_update(body: &[u8]) -> (r: Result<PowerUpdate, Error>)
    ensures
        r == power_update(body@),
{
    let mut reader = Reader::new(body, "SMSG_POWER_UPDATE");
    let guid: u64 = read_packed_guid(&mut reader)?;
    let power_type: u8 = reader.u8()?;
    let value: u32 = reader.u32()?;
    reader.finish()?;
    Ok(PowerUpdate { guid, power_type, value })
}

/// The realm's calendar and clock.
#[derive(Debug, Clone, Copy, PartialEq, Eq, Structural)]
pub struct GameTime {
    /// 0-59.
    pub minute: u8,
    /// 0-23.
    pub hour: u8,
    /// 0 is Sunday.
    pub weekday: u8,
    /// 0-based, so 12 is the thirteenth.
    pub day: u8,
    /// 0-based, so 7 is August.
    pub month: u8,
    /// Years since 2000.
    pub year: u8,
    /// Game minutes per real second, as a floating-point bit pattern.
    pub speed: u32,
}

impl GameTime {
    /// Minutes since midnight.
    pub fn minute_of_day(&self) -> (r: u32)
        ensures
            r == 60 * self.hour + self.minute,
    {
        60 * self.hour as u32 + self.minute as u32
    }

    /// The same day at another minute, counted from midnight.
    pub fn at_minute(&self, minute_of_day: u32) -> (r: Self)
        requires
            minute_of_day <= 1440,
        ensures
            r == (GameTime {
                minute: (minute_of_day % 60) as u8,
                hour: (minute_of_day / 60) as u8,
                ..*self
            }),
            60 * r.hour + r.minute == minute_of_day,
    {
        GameTime {
            minute: (minute_of_day % 60) as u8,
            hour: (minute_of_day / 60) as u8,
            weekday: self.weekday,
            day: self.day,
            month: self.month,
            year: self.year,
            speed: self.speed,
        }
    }
}

/// A packed date and time, from the low bits up: six bits of minute, five of
/// hour, three of weekday, six of day, four of month and eight of year.
pub open spec fn calendar(packed: u32, speed: u32) -> GameTime {
    GameTime {
        minute: (packed % 0x40) as u8,
        hour: (packed / 0x40 % 0x20) as u8,
        weekday: (packed / 0x800 % 0x8) as u8,
        day: (packed / 0x4000 % 0x40) as u8,
        month: (packed / 0x10_0000 % 0x10) as u8,
        year: (packed / 0x100_0000) as u8,
        speed,
    }
}

/// What [`parse_login_set_time_speed`] makes of a body.
pub open spec fn login_set_time_speed(body: Seq<u8>) -> Result<GameTime, Error> {
    Cursor::over(body, "SMSG_LOGIN_SETTIMESPEED").words(3).finish().outcome(
        calendar(le32(body, 0), le32(body, 4)),
    )
}

/// Reads the realm's clock. A third word follows the date and the speed, and
/// is not kept.
pub fn parse_login_set_time_speed(body: &[u8]) -> (r: Result<GameTime, Error>)
    ensures
        r == login_set_time_speed(body@),
{
    let mut reader = Reader::new(body, "SMSG_LOGIN_SETTIMESPEED");
    let w = reader.words::<3>()?;
    reader.finish()?;
    let packed: u32 = w[0];
    Ok(
        GameTime {
            minute: (packed % 0x40) as u8,
            hour: (packed / 0x40 % 0x20) as u8,
            weekday: (packed / 0x800 % 0x8) as u8,
            day: (packed / 0x4000 % 0x40) as u8,
            month: (packed / 0x10_0000 % 0x10) as u8,
            year: (packed / 0x100_0000) as u8,
            speed: w[1],
        },
    )
}

/// Where a move says the creature should end up looking. The numbers are
/// floating-point bit patterns.
#[derive(Debug, Clone, Copy, PartialEq, Eq, Structural)]
pub enum MoveFacing {
    /// A heading in radians.
    Angle(u32),
    /// A point in the world to look at.
    Spot { x: u32, y: u32, z: u32 },
    /// Another unit to look at, by guid.
    Target(u64),
}

/// A creature being sent along a server-computed path.
#[derive(Debug, Clone)]
pub struct MonsterMove {
    pub guid: u64,
    /// Where the path starts, which is where the creature is now.
    pub from: Position,
    /// Where it ends. Absent when the packet is a stop rather than a move.
    pub to: Option<Position>,
    /// Every point of the path, when the server sent them in full. Empty
    /// where the packet gave the destination and no more.
    pub path: Vec<Position>,
    /// How long the whole path takes, in milliseconds.
    pub duration: u32,
    pub stopped: bool,
    /// An explicit facing to arrive at, where the move provides one.
    pub facing: Option<MoveFacing>,
}

/// A [`MonsterMove`] as a mathematical value.
pub struct MonsterMoveView {
    pub guid: u64,
    pub from: Position,
    pub to: Option<Position>,
    pub path: Seq<Position>,
    pub duration: u32,
    pub stopped: bool,
    pub facing: Option<MoveFacing>,
}

impl View for MonsterMove {
    type V = MonsterMoveView;

    open spec fn view(&self) -> MonsterMoveView {
        MonsterMoveView {
            guid: self.guid,
            from: self.from,
            to: self.to,
            path: self.path@,
            duration: self.duration,
            stopped: self.stopped,
            facing: self.facing,
        }
    }
}

/// The kinds of creature move.
pub const MOVE_NORMAL: u8 = 0;

pub const MOVE_STOP: u8 = 1;

pub const MOVE_FACING_SPOT: u8 = 2;

pub const MOVE_FACING_TARGET: u8 = 3;

pub const MOVE_FACING_ANGLE: u8 = 4;

/// An animation and its start time follow the flags.
pub const SPLINE_ANIMATION: u32 = 0x0020_0000;

/// A vertical acceleration and its start time follow the duration.
pub const SPLINE_PARABOLIC: u32 = 0x0000_0800;

/// Every point of the path is written out.
pub const SPLINE_CATMULLROM: u32 = 0x0004_0000;

/// The path repeats, and may carry a trailing point.
pub const SPLINE_CYCLIC: u32 = 0x0008_0000;

/// Every point of the path is written out.
pub const SPLINE_FLYING: u32 = 0x0000_2000;

/// The point `k` triples behind a cursor. It carries no orientation.
pub open spec fn point_at(c: Cursor, k: int) -> Position {
    Position { x: c.nth(3 * k), y: c.nth(3 * k + 1), z: c.nth(3 * k + 2), orientation: 0 }
}

/// The facing that a kind of move carries, and where it ends.
pub open spec fn move_facing(c: Cursor, kind: u8) -> (Option<MoveFacing>, Cursor) {
    if kind == MOVE_FACING_SPOT {
        (Some(MoveFacing::Spot { x: c.nth(0), y: c.nth(1), z: c.nth(2) }), c.words(3))
    } else if kind == MOVE_FACING_TARGET {
        (Some(MoveFacing::Target(c.long())), c.take(8))
    } else if kind == MOVE_FACING_ANGLE {
        (Some(MoveFacing::Angle(c.word())), c.take(4))
    } else {
        (None, c.check(kind == MOVE_NORMAL, Error::UnknownUpdateType { got: kind }))
    }
}

/// The route behind a point count: every point in full, or the destination in
/// full and a packed word for each of the others.
pub open spec fn route(c: Cursor, flags: u32, count: u32) -> (Seq<Position>, Option<Position>, Cursor) {
    if flags & (SPLINE_CATMULLROM | SPLINE_FLYING) != 0 {
        let path = Seq::new(count as nat, |k: int| point_at(c, k));
        (
            path,
            if count == 0 {
                None
            } else {
                Some(path.last())
            },
            c.words(3 * count),
        )
    } else {
        let packed = 4 * (count - 1);
        (
            seq![],
            Some(point_at(c, 0)),
            if count > 1 {
                c.words(3).check(
                    packed <= usize::MAX,
                    Error::Oversized { got: count as usize },
                ).take(packed)
            } else {
                c.words(3)
            },
        )
    }
}

/// The part of a move behind its facing: flags, duration and route.
#[verifier::opaque]
pub open spec fn journey(c: Cursor) -> (u32, Seq<Position>, Option<Position>, Cursor) {
    let flags = c.word();
    let timing = if flags & SPLINE_ANIMATION != 0 {
        c.take(4).take(5)
    } else {
        c.take(4)
    };
    let count = if flags & SPLINE_PARABOLIC != 0 {
        timing.take(4).take(8)
    } else {
        timing.take(4)
    };
    let (path, to, end) = route(count.take(4), flags, count.word());
    (
        timing.word(),
        path,
        to,
        if flags & SPLINE_CYCLIC != 0 {
            end
        } else {
            end.finish()
        },
    )
}

/// What [`parse_monster_move`] makes of a body.
pub open spec fn monster_move(body: Seq<u8>) -> Result<MonsterMoveView, Error> {
    let (guid, flag) = read_guid(Cursor::over(body, "SMSG_MONSTER_MOVE"));
    let start = flag.take(1);
    let kind = start.words(3).take(4);
    let from = point_at(start, 0);
    if kind.take(1).failed is None && kind.byte() == MOVE_STOP {
        kind.take(1).finish().outcome(
            MonsterMoveView {
                guid,
                from,
                to: None,
                path: seq![],
                duration: 0,
                stopped: true,
                facing: None,
            },
        )
    } else {
        let (facing, next) = move_facing(kind.take(1), kind.byte());
        let (duration, path, to, end) = journey(next);
        end.outcome(
            MonsterMoveView { guid, from, to, path, duration, stopped: false, facing },
        )
    }
}

proof fn lemma_journey_sticky(c: Cursor)
    requires
        c.failed is Some,
    ensures
        journey(c).3 == c,
{
    reveal(journey);
}

/// Whether a `SMSG_MONSTER_MOVE` body is about `guid`, without parsing it.
pub fn monster_move_is_about(body: &[u8], guid: u64) -> (r: bool)
    ensures
        r == packed_guid(guid).is_prefix_of(body@),
{
    let mut packed: Vec<u8> = Vec::new();
    write_packed_guid(guid, &mut packed);
    assert(packed@ =~= packed_guid(guid));
    if body.len() < packed.len() {
        return false;
    }
    same_bytes(&body[0..packed.len()], packed.as_slice())
}

/// A body that is about a guid parses as that guid's move, where it parses.
pub proof fn lemma_a_move_is_about_its_guid(body: Seq<u8>, guid: u64)
    requires
        packed_guid(guid).is_prefix_of(body),
        monster_move(body) is Ok,
    ensures
        monster_move(body)->Ok_0.guid == guid,
{
    let c = Cursor::over(body, "SMSG_MONSTER_MOVE");
    assert(holds(body, 0, packed_guid(guid))) by {
        reveal(holds);
    }
    lemma_guid_round_trip(c, guid);
}

/// A body that starts with a packed guid is about that guid and about no
/// other.
pub proof fn lemma_a_move_is_about_one_guid(guid: u64, rest: Seq<u8>, other: u64)
    ensures
        packed_guid(other).is_prefix_of(packed_guid(guid) + rest) <==> other == guid,
{
    let body = packed_guid(guid) + rest;
    let c = Cursor::over(body, "SMSG_MONSTER_MOVE");
    assert(holds(body, 0, packed_guid(guid))) by {
        reveal(holds);
        assert(body.subrange(0, packed_guid(guid).len() as int) =~= packed_guid(guid));
    }
    lemma_guid_round_trip(c, guid);
    if packed_guid(other).is_prefix_of(body) {
        assert(holds(body, 0, packed_guid(other))) by {
            reveal(holds);
        }
        lemma_guid_round_trip(c, other);
    } else if other == guid {
        assert(body.subrange(0, packed_guid(guid).len() as int) =~= packed_guid(guid));
    }
}

fn read_facing(reader: &mut Reader<'_>, kind: u8) -> (r: Result<Option<MoveFacing>, Error>)
    requires
        old(reader)@.sound(),
    ensures
        ran(r, final(reader)@, move_facing(old(reader)@, kind).1),
        r matches Ok(v) ==> v == move_facing(old(reader)@, kind).0,
{
    if kind == MOVE_FACING_SPOT {
        let w = reader.words::<3>()?;
        Ok(Some(MoveFacing::Spot { x: w[0], y: w[1], z: w[2] }))
    } else if kind == MOVE_FACING_TARGET {
        Ok(Some(MoveFacing::Target(reader.u64()?)))
    } else if kind == MOVE_FACING_ANGLE {
        Ok(Some(MoveFacing::Angle(reader.u32()?)))
    } else if kind == MOVE_NORMAL {
        Ok(None)
    } else {
        Err(Error::UnknownUpdateType { got: kind })
    }
}

fn read_point(reader: &mut Reader<'_>) -> (r: Result<Position, Error>)
    ensures
        ran(r, final(reader)@, old(reader)@.words(3)),
        r matches Ok(v) ==> v == point_at(old(reader)@, 0),
        old(reader)@.sound(),
        final(reader)@.sound(),
{
    let w = reader.words::<3>()?;
    Ok(Position { x: w[0], y: w[1], z: w[2], orientation: 0 })
}

fn read_points(reader: &mut Reader<'_>, count: u32) -> (r: Result<Vec<Position>, Error>)
    requires
        old(reader)@.sound(),
    ensures
        ran(r, final(reader)@, old(reader)@.words(3 * count)),
        r is Ok ==> final(reader)@.sound(),
        r matches Ok(v) ==> v@ == Seq::new(count as nat, |k: int| point_at(old(reader)@, k)),
{
    let mut path: Vec<Position> = Vec::new();
    for i in 0..count
        invariant
            reader@ == (Cursor { at: old(reader)@.at + 12 * i, ..old(reader)@ }),
            reader@.sound(),
            old(reader)@.sound(),
            path@.len() == i,
            forall|k: int| 0 <= k < i ==> #[trigger] path@[k] == point_at(old(reader)@, k),
    {
        let point = read_point(reader)?;
        assert(point == point_at(old(reader)@, i as int));
        path.push(point);
    }
    assert(path@ =~= Seq::new(count as nat, |k: int| point_at(old(reader)@, k)));
    Ok(path)
}

fn read_route(reader: &mut Reader<'_>, flags: u32, count: u32) -> (r: Result<
    (Vec<Position>, Option<Position>),
    Error,
>)
    requires
        old(reader)@.sound(),
    ensures
        ran(r, final(reader)@, route(old(reader)@, flags, count).2),
        r is Ok ==> final(reader)@.sound(),
        r matches Ok(v) ==> v.0@ == route(old(reader)@, flags, count).0 && v.1 == route(
            old(reader)@,
            flags,
            count,
        ).1,
{
    if flags & (SPLINE_CATMULLROM | SPLINE_FLYING) != 0 {
        let path = read_points(reader, count)?;
        let to = if path.len() == 0 {
            None
        } else {
            Some(path[path.len() - 1])
        };
        Ok((path, to))
    } else {
        let destination = read_point(reader)?;
        if count > 1 {
            match (count as usize - 1).checked_mul(4) {
                Some(bytes) => reader.skip(bytes)?,
                None => return Err(Error::Oversized { got: count as usize }),
            }
        }
        Ok((Vec::new(), Some(destination)))
    }
}

fn read_journey(reader: Reader<'_>) -> (r: Result<(u32, Vec<Position>, Option<Position>), Error>)
    ensures
        match r {
            Ok(v) => {
                let (duration, path, to, end) = journey(reader@);
                end.failed is None && v.0 == duration && v.1@ == path && v.2 == to
            },
            Err(error) => journey(reader@).3.failed == Some(error),
        },
{
    proof {
        reveal(journey);
    }
    let mut reader = reader;
    let flags: u32 = reader.u32()?;
    if flags & SPLINE_ANIMATION != 0 {
        reader.skip(5)?;  // animation id, effect start time
    }
    let duration: u32 = reader.u32()?;
    if flags & SPLINE_PARABOLIC != 0 {
        reader.skip(8)?;  // vertical acceleration, effect start time
    }
    let count: u32 = reader.u32()?;
    let (path, to) = read_route(&mut reader, flags, count)?;
    if flags & SPLINE_CYCLIC == 0 {
        reader.finish()?;
    }
    Ok((duration, path, to))
}

/// Parses `SMSG_MONSTER_MOVE`.
///
/// A stop ends behind its kind. A path that repeats may carry a trailing
/// point, so what is left over is not held against it.
pub fn parse_monster_move(body: &[u8]) -> (r: Result<MonsterMove, Error>)
    ensures
        agrees(r, monster_move(body@)),
{
    let mut reader = Reader::new(body, "SMSG_MONSTER_MOVE");
    proof {
        let kind = read_guid(reader@).1.take(1).words(3).take(4);
        if kind.take(1).failed is Some {
            lemma_journey_sticky(kind.take(1));
        }
        let next = move_facing(kind.take(1), kind.byte()).1;
        if next.failed is Some {
            lemma_journey_sticky(next);
        }
    }
    let guid: u64 = read_packed_guid(&mut reader)?;
    let _flag: u8 = reader.u8()?;
    let from = read_point(&mut reader)?;
    let _spline_id: u32 = reader.u32()?;
    let kind: u8 = reader.u8()?;
    if kind == MOVE_STOP {
        reader.finish()?;
        return Ok(
            MonsterMove {
                guid,
                from,
                to: None,
                path: Vec::new(),
                duration: 0,
                stopped: true,
                facing: None,
            },
        );
    }
    let facing = read_facing(&mut reader, kind)?;
    let (duration, path, to) = read_journey(reader)?;
    Ok(MonsterMove { guid, from, to, path, duration, stopped: false, facing })
}

} // verus!
