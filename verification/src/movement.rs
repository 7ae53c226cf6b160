//! The movement state that travels in both directions.
//!
//! The client reports its own movement and the server relays everybody
//! else's, in one structure whose layout depends on its own flags. Reading and
//! writing it stand side by side here, and [`lemma_info_round_trip`] ties the
//! two together.
use crate::cursor::{ran, Cursor};
use crate::protocol::{Error, Reader};
use crate::update::{
    lemma_guid_round_trip, lemma_read_guid_sticky, movement_flags, origin, packed_guid, read_guid,
    read_packed_guid, write_packed_guid, Position, MOVEMENT_FLAG2_ALWAYS_ALLOW_PITCHING,
    MOVEMENT_FLAG2_INTERPOLATED_MOVEMENT,
};
use crate::wire::{
    bytes16, bytes32, group_word_lengths, holds, lemma_byte_of, lemma_holds_both,
    lemma_le16_of_bytes, lemma_le32_of_bytes, push16, push32, push_all,
};
use vstd::prelude::*;

verus! {

broadcast use group_word_lengths;

/// Where a mover stands on the transport that carries it.
#[derive(Debug, Clone, Copy, PartialEq, Eq, Structural)]
pub struct Carriage {
    pub guid: u64,
    pub position: Position,
    pub time: u32,
    pub seat: u8,
    /// A second timestamp, present for interpolated movement only.
    pub interpolated: u32,
}

/// A fall or a jump in progress. Three of the four are floating-point bit
/// patterns of a direction and its speeds.
#[derive(Debug, Clone, Copy, PartialEq, Eq, Structural)]
pub struct Fall {
    pub vertical_speed: u32,
    pub sine: u32,
    pub cosine: u32,
    pub horizontal_speed: u32,
}

/// How something is moving. A part that the flags do not announce is not on
/// the wire, and reads as zero.
#[derive(Debug, Clone, Copy, PartialEq, Eq, Structural)]
pub struct MovementInfo {
    pub flags: u32,
    pub flags2: u16,
    pub time: u32,
    pub position: Position,
    pub transport: Carriage,
    pub pitch: u32,
    pub fall_time: u32,
    pub fall: Fall,
    pub spline_elevation: u32,
}

/// Nobody's carriage.
pub open spec fn no_carriage() -> Carriage {
    Carriage { guid: 0, position: origin(), time: 0, seat: 0, interpolated: 0 }
}

/// No fall.
pub open spec fn no_fall() -> Fall {
    Fall { vertical_speed: 0, sine: 0, cosine: 0, horizontal_speed: 0 }
}

/// Whether the flags announce a carriage.
pub open spec fn carried(flags: u32) -> bool {
    flags & movement_flags::ON_TRANSPORT != 0
}

/// Whether the flags announce a second timestamp on the carriage.
pub open spec fn interpolating(flags2: u16) -> bool {
    flags2 & MOVEMENT_FLAG2_INTERPOLATED_MOVEMENT != 0
}

/// Whether the flags announce a pitch.
pub open spec fn pitched(flags: u32, flags2: u16) -> bool {
    ||| flags & (movement_flags::SWIMMING | movement_flags::FLYING) != 0
    ||| flags2 & MOVEMENT_FLAG2_ALWAYS_ALLOW_PITCHING != 0
}

/// Whether the flags announce a fall.
pub open spec fn falling(flags: u32) -> bool {
    flags & movement_flags::FALLING != 0
}

/// Whether the flags announce an elevation.
pub open spec fn elevated(flags: u32) -> bool {
    flags & movement_flags::SPLINE_ELEVATION != 0
}

/// Four floating-point fields as a position.
pub open spec fn position_at(c: Cursor) -> Position {
    Position { x: c.nth(0), y: c.nth(1), z: c.nth(2), orientation: c.nth(3) }
}

/// A carriage and where it ends.
pub open spec fn read_carriage(c: Cursor, flags2: u16) -> (Carriage, Cursor) {
    let (guid, at) = read_guid(c);
    let seat = at.words(4).take(4);
    let last = seat.take(1);
    (
        Carriage {
            guid,
            position: position_at(at),
            time: at.words(4).word(),
            seat: seat.byte(),
            interpolated: if interpolating(flags2) {
                last.word()
            } else {
                0
            },
        },
        if interpolating(flags2) {
            last.take(4)
        } else {
            last
        },
    )
}

/// A movement state and where it ends.
#[verifier::opaque]
pub open spec fn read_info(c: Cursor) -> (MovementInfo, Cursor) {
    let flags = c.word();
    let flags2 = c.take(4).short();
    let time = c.take(4).take(2);
    let place = time.take(4);
    let base = place.words(4);
    let (transport, turn) = if carried(flags) {
        read_carriage(base, flags2)
    } else {
        (no_carriage(), base)
    };
    let drop = if pitched(flags, flags2) {
        turn.take(4)
    } else {
        turn
    };
    let jump = drop.take(4);
    let rise = if falling(flags) {
        jump.words(4)
    } else {
        jump
    };
    (
        MovementInfo {
            flags,
            flags2,
            time: time.word(),
            position: position_at(place),
            transport,
            pitch: if pitched(flags, flags2) {
                turn.word()
            } else {
                0
            },
            fall_time: drop.word(),
            fall: if falling(flags) {
                Fall {
                    vertical_speed: jump.nth(0),
                    sine: jump.nth(1),
                    cosine: jump.nth(2),
                    horizontal_speed: jump.nth(3),
                }
            } else {
                no_fall()
            },
            spline_elevation: if elevated(flags) {
                rise.word()
            } else {
                0
            },
        },
        if elevated(flags) {
            rise.take(4)
        } else {
            rise
        },
    )
}

/// The bytes of a position.
pub open spec fn position_bytes(p: Position) -> Seq<u8> {
    bytes32(p.x) + bytes32(p.y) + bytes32(p.z) + bytes32(p.orientation)
}

/// The bytes of a carriage.
pub open spec fn carriage_bytes(t: Carriage, flags2: u16) -> Seq<u8> {
    packed_guid(t.guid) + position_bytes(t.position) + bytes32(t.time) + seq![t.seat] + (
    if interpolating(flags2) {
        bytes32(t.interpolated)
    } else {
        seq![]
    })
}

/// The bytes of a fall.
pub open spec fn fall_bytes(f: Fall) -> Seq<u8> {
    bytes32(f.vertical_speed) + bytes32(f.sine) + bytes32(f.cosine) + bytes32(f.horizontal_speed)
}

/// The bytes of a movement state: what its flags announce, and nothing else.
pub open spec fn info_bytes(info: MovementInfo) -> Seq<u8> {
    bytes32(info.flags) + bytes16(info.flags2) + bytes32(info.time) + position_bytes(info.position)
        + (if carried(info.flags) {
        carriage_bytes(info.transport, info.flags2)
    } else {
        seq![]
    }) + (if pitched(info.flags, info.flags2) {
        bytes32(info.pitch)
    } else {
        seq![]
    }) + bytes32(info.fall_time) + (if falling(info.flags) {
        fall_bytes(info.fall)
    } else {
        seq![]
    }) + (if elevated(info.flags) {
        bytes32(info.spline_elevation)
    } else {
        seq![]
    })
}

/// A state that says nothing its flags do not announce.
pub open spec fn announced(info: MovementInfo) -> bool {
    &&& !carried(info.flags) ==> info.transport == no_carriage()
    &&& !interpolating(info.flags2) ==> info.transport.interpolated == 0
    &&& !pitched(info.flags, info.flags2) ==> info.pitch == 0
    &&& !falling(info.flags) ==> info.fall == no_fall()
    &&& !elevated(info.flags) ==> info.spline_elevation == 0
}

/// Standing still, in a place.
pub open spec fn standing_still(position: Position, time: u32) -> MovementInfo {
    MovementInfo {
        flags: 0,
        flags2: 0,
        time,
        position,
        transport: no_carriage(),
        pitch: 0,
        fall_time: 0,
        fall: no_fall(),
        spline_elevation: 0,
    }
}

/// A failed cursor gets no further by way of a movement state.
pub broadcast proof fn lemma_read_info_sticky(c: Cursor)
    requires
        c.failed is Some,
    ensures
        (#[trigger] read_info(c)).1 == c,
{
    broadcast use lemma_read_guid_sticky;

    reveal(read_info);
}

fn position_of(w: [u32; 4]) -> (r: Position)
    ensures
        r == (Position { x: w@[0], y: w@[1], z: w@[2], orientation: w@[3] }),
{
    Position { x: w[0], y: w[1], z: w[2], orientation: w[3] }
}

fn carriage_from(reader: &mut Reader<'_>, flags2: u16) -> (r: Result<Carriage, Error>)
    ensures
        ran(r, final(reader)@, read_carriage(old(reader)@, flags2).1),
        r matches Ok(v) ==> v == read_carriage(old(reader)@, flags2).0,
        final(reader)@.sound(),
{
    let guid: u64 = read_packed_guid(reader)?;
    let position = position_of(reader.words::<4>()?);
    let time: u32 = reader.u32()?;
    let seat: u8 = reader.u8()?;
    let interpolated: u32 = if flags2 & MOVEMENT_FLAG2_INTERPOLATED_MOVEMENT != 0 {
        reader.u32()?
    } else {
        0
    };
    Ok(Carriage { guid, position, time, seat, interpolated })
}

fn push_position(out: &mut Vec<u8>, p: Position)
    ensures
        final(out)@ == old(out)@ + position_bytes(p),
{
    push32(out, p.x);
    push32(out, p.y);
    push32(out, p.z);
    push32(out, p.orientation);
    assert(out@ =~= old(out)@ + position_bytes(p));
}

fn push_carriage(out: &mut Vec<u8>, t: Carriage, flags2: u16)
    ensures
        final(out)@ == old(out)@ + carriage_bytes(t, flags2),
{
    let mut part: Vec<u8> = Vec::new();
    write_packed_guid(t.guid, &mut part);
    assert(part@ =~= packed_guid(t.guid));
    push_position(&mut part, t.position);
    push32(&mut part, t.time);
    part.push(t.seat);
    if flags2 & MOVEMENT_FLAG2_INTERPOLATED_MOVEMENT != 0 {
        push32(&mut part, t.interpolated);
    }
    assert(part@ =~= carriage_bytes(t, flags2));
    push_all(out, part.as_slice());
}

fn push_fall(out: &mut Vec<u8>, f: Fall)
    ensures
        final(out)@ == old(out)@ + fall_bytes(f),
{
    push32(out, f.vertical_speed);
    push32(out, f.sine);
    push32(out, f.cosine);
    push32(out, f.horizontal_speed);
    assert(out@ =~= old(out)@ + fall_bytes(f));
}

impl Default for MovementInfo {
    fn default() -> (r: Self)
        ensures
            r == standing_still(origin(), 0),
    {
        MovementInfo::standing(Position::default(), 0)
    }
}

impl MovementInfo {
    /// Standing still, in a place.
    pub fn standing(position: Position, time: u32) -> (r: Self)
        ensures
            r == standing_still(position, time),
    {
        MovementInfo {
            flags: 0,
            flags2: 0,
            time,
            position,
            transport: Carriage {
                guid: 0,
                position: Position { x: 0, y: 0, z: 0, orientation: 0 },
                time: 0,
                seat: 0,
                interpolated: 0,
            },
            pitch: 0,
            fall_time: 0,
            fall: Fall { vertical_speed: 0, sine: 0, cosine: 0, horizontal_speed: 0 },
            spline_elevation: 0,
        }
    }

    /// Whether the flags put a pitch on the wire.
    pub fn has_pitch(&self) -> (r: bool)
        ensures
            r == pitched(self.flags, self.flags2),
    {
        self.flags & (movement_flags::SWIMMING | movement_flags::FLYING) != 0 || self.flags2
            & MOVEMENT_FLAG2_ALWAYS_ALLOW_PITCHING != 0
    }

    /// Reads a movement state.
    pub fn read(reader: &mut Reader<'_>) -> (r: Result<MovementInfo, Error>)
        ensures
            ran(r, final(reader)@, read_info(old(reader)@).1),
            r matches Ok(v) ==> v == read_info(old(reader)@).0,
            final(reader)@.sound(),
    {
        broadcast use lemma_read_guid_sticky;

        proof {
            reveal(read_info);
        }
        let flags: u32 = reader.u32()?;
        let flags2: u16 = reader.u16()?;
        let time: u32 = reader.u32()?;
        let position = position_of(reader.words::<4>()?);
        let mut info = MovementInfo::standing(position, time);
        info.flags = flags;
        info.flags2 = flags2;
        if flags & movement_flags::ON_TRANSPORT != 0 {
            info.transport = carriage_from(reader, flags2)?;
        }
        if info.has_pitch() {
            info.pitch = reader.u32()?;
        }
        info.fall_time = reader.u32()?;
        if flags & movement_flags::FALLING != 0 {
            let w = reader.words::<4>()?;
            info.fall = Fall {
                vertical_speed: w[0],
                sine: w[1],
                cosine: w[2],
                horizontal_speed: w[3],
            };
        }
        if flags & movement_flags::SPLINE_ELEVATION != 0 {
            info.spline_elevation = reader.u32()?;
        }
        Ok(info)
    }

    /// Writes the movement state.
    pub fn write(&self, out: &mut Vec<u8>)
        ensures
            final(out)@ == old(out)@ + info_bytes(*self),
    {
        let mut body: Vec<u8> = Vec::new();
        push32(&mut body, self.flags);
        assert(body@ =~= bytes32(self.flags));
        push16(&mut body, self.flags2);
        push32(&mut body, self.time);
        push_position(&mut body, self.position);
        assert(body@ + seq![] =~= body@);
        if self.flags & movement_flags::ON_TRANSPORT != 0 {
            push_carriage(&mut body, self.transport, self.flags2);
        }
        assert(body@ + seq![] =~= body@);
        if self.has_pitch() {
            push32(&mut body, self.pitch);
        }
        push32(&mut body, self.fall_time);
        assert(body@ + seq![] =~= body@);
        if self.flags & movement_flags::FALLING != 0 {
            push_fall(&mut body, self.fall);
        }
        assert(body@ + seq![] =~= body@);
        if self.flags & movement_flags::SPLINE_ELEVATION != 0 {
            push32(&mut body, self.spline_elevation);
        }
        assert(body@ == info_bytes(*self));
        push_all(out, body.as_slice());
    }
}

proof fn lemma_position_at(c: Cursor, p: Position)
    requires
        holds(c.data, c.at, position_bytes(p)),
    ensures
        position_at(c) == p,
{
    let (data, at) = (c.data, c.at);
    lemma_holds_both(data, at, bytes32(p.x) + bytes32(p.y) + bytes32(p.z), bytes32(p.orientation));
    lemma_holds_both(data, at, bytes32(p.x) + bytes32(p.y), bytes32(p.z));
    lemma_holds_both(data, at, bytes32(p.x), bytes32(p.y));
    lemma_le32_of_bytes(data, at, p.x);
    lemma_le32_of_bytes(data, at + 4, p.y);
    lemma_le32_of_bytes(data, at + 8, p.z);
    lemma_le32_of_bytes(data, at + 12, p.orientation);
}

proof fn lemma_fall_at(c: Cursor, f: Fall)
    requires
        holds(c.data, c.at, fall_bytes(f)),
    ensures
        c.nth(0) == f.vertical_speed,
        c.nth(1) == f.sine,
        c.nth(2) == f.cosine,
        c.nth(3) == f.horizontal_speed,
{
    let (data, at) = (c.data, c.at);
    let first = bytes32(f.vertical_speed) + bytes32(f.sine);
    lemma_holds_both(data, at, first + bytes32(f.cosine), bytes32(f.horizontal_speed));
    lemma_holds_both(data, at, first, bytes32(f.cosine));
    lemma_holds_both(data, at, bytes32(f.vertical_speed), bytes32(f.sine));
    lemma_le32_of_bytes(data, at, f.vertical_speed);
    lemma_le32_of_bytes(data, at + 4, f.sine);
    lemma_le32_of_bytes(data, at + 8, f.cosine);
    lemma_le32_of_bytes(data, at + 12, f.horizontal_speed);
}

proof fn lemma_carriage_round_trip(c: Cursor, t: Carriage, flags2: u16)
    requires
        c.sound(),
        !interpolating(flags2) ==> t.interpolated == 0,
        holds(c.data, c.at, carriage_bytes(t, flags2)),
    ensures
        read_carriage(c, flags2) == (
            t,
            (Cursor { at: c.at + carriage_bytes(t, flags2).len(), ..c }),
        ),
{
    let (data, at) = (c.data, c.at);
    let guid = packed_guid(t.guid);
    let place = guid + position_bytes(t.position);
    let time = place + bytes32(t.time);
    let seat = time + seq![t.seat];
    let last = if interpolating(flags2) {
        bytes32(t.interpolated)
    } else {
        seq![]
    };
    lemma_holds_both(data, at, seat, last);
    lemma_holds_both(data, at, time, seq![t.seat]);
    lemma_holds_both(data, at, place, bytes32(t.time));
    lemma_holds_both(data, at, guid, position_bytes(t.position));
    lemma_guid_round_trip(c, t.guid);
    let behind = Cursor { at: at + guid.len(), ..c };
    lemma_position_at(behind, t.position);
    lemma_le32_of_bytes(data, at + place.len(), t.time);
    lemma_byte_of(data, at + time.len(), t.seat);
    if interpolating(flags2) {
        lemma_le32_of_bytes(data, at + seat.len(), t.interpolated);
    }
}

/// A written movement state reads back as itself wherever it stands in a
/// body, and the reader ends right behind it.
#[verifier::rlimit(60)]
pub proof fn lemma_info_round_trip(c: Cursor, info: MovementInfo)
    requires
        c.sound(),
        announced(info),
        holds(c.data, c.at, info_bytes(info)),
    ensures
        read_info(c) == (info, (Cursor { at: c.at + info_bytes(info).len(), ..c })),
{
    let (data, at) = (c.data, c.at);
    let flags = bytes32(info.flags);
    let flags2 = flags + bytes16(info.flags2);
    let time = flags2 + bytes32(info.time);
    let place = time + position_bytes(info.position);
    let carriage: Seq<u8> = if carried(info.flags) {
        carriage_bytes(info.transport, info.flags2)
    } else {
        seq![]
    };
    let turn: Seq<u8> = if pitched(info.flags, info.flags2) {
        bytes32(info.pitch)
    } else {
        seq![]
    };
    let jump: Seq<u8> = if falling(info.flags) {
        fall_bytes(info.fall)
    } else {
        seq![]
    };
    let rise: Seq<u8> = if elevated(info.flags) {
        bytes32(info.spline_elevation)
    } else {
        seq![]
    };
    let to_carriage = place + carriage;
    let to_turn = to_carriage + turn;
    let to_drop = to_turn + bytes32(info.fall_time);
    let to_jump = to_drop + jump;
    assert(info_bytes(info) == to_jump + rise);
    lemma_holds_both(data, at, to_jump, rise);
    lemma_holds_both(data, at, to_drop, jump);
    lemma_holds_both(data, at, to_turn, bytes32(info.fall_time));
    lemma_holds_both(data, at, to_carriage, turn);
    lemma_holds_both(data, at, place, carriage);
    lemma_holds_both(data, at, time, position_bytes(info.position));
    lemma_holds_both(data, at, flags2, bytes32(info.time));
    lemma_holds_both(data, at, flags, bytes16(info.flags2));
    lemma_le32_of_bytes(data, at, info.flags);
    lemma_le16_of_bytes(data, at + 4, info.flags2);
    lemma_le32_of_bytes(data, at + 6, info.time);
    lemma_position_at(Cursor { at: at + 10, ..c }, info.position);
    let base = c.take(4).take(2).take(4).words(4);
    assert(base == (Cursor { at: at + place.len(), ..c }));
    let at_turn = Cursor { at: at + to_carriage.len(), ..c };
    if carried(info.flags) {
        lemma_carriage_round_trip(base, info.transport, info.flags2);
        assert(read_carriage(base, info.flags2) == (info.transport, at_turn));
    } else {
        assert(base == at_turn);
    }
    let at_drop = Cursor { at: at + to_turn.len(), ..c };
    if pitched(info.flags, info.flags2) {
        lemma_le32_of_bytes(data, at + to_carriage.len(), info.pitch);
        assert(at_turn.take(4) == at_drop);
    } else {
        assert(at_turn == at_drop);
    }
    lemma_le32_of_bytes(data, at + to_turn.len(), info.fall_time);
    let at_jump = Cursor { at: at + to_drop.len(), ..c };
    assert(at_drop.take(4) == at_jump);
    let at_rise = Cursor { at: at + to_jump.len(), ..c };
    if falling(info.flags) {
        lemma_fall_at(at_jump, info.fall);
        assert(at_jump.words(4) == at_rise);
    } else {
        assert(at_jump == at_rise);
    }
    let end = Cursor { at: at + info_bytes(info).len(), ..c };
    if elevated(info.flags) {
        lemma_le32_of_bytes(data, at + to_jump.len(), info.spline_elevation);
        assert(at_rise.take(4) == end);
    } else {
        assert(at_rise == end);
    }
    reveal(read_info);
}

/// What a reading yields announces every part it holds.
pub proof fn lemma_read_info_announced(c: Cursor)
    ensures
        announced(read_info(c).0),
{
    reveal(read_info);
}

} // verus!
