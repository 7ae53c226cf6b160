//! What the handshake and the character screen write reads back as written.
use crate::cursor::Cursor;
use crate::movement::{
    announced, carriage_bytes, carried, info_bytes, interpolating, lemma_info_round_trip,
    position_bytes, read_info, MovementInfo,
};
use crate::opcode::{client_code, ClientOpcode};
use crate::protocol::{
    addon_bytes, addon_manifest, auth_challenge, auth_message, auth_response, char_enum, character, client_packet_bytes,
    creation_bytes, equipment, equipment_slot, login_verify_world, movement_bytes, one_word,
    relayed, server_header, session_bytes, teleport, Appearance, AuthChallenge, AuthResponse,
    Character, CharacterView, Equipment, Error, ServerHeader, Teleport, WorldPosition,
};
use crate::text::{lossy_utf8, uppercased};
use crate::update::read_guid;
use crate::wire::{bytes16, bytes32, group_word_lengths, holds};
use crate::written::{
    behind, blank, group_written, in_a_row, lemma_last, lemma_next, lemma_row_reads_back,
    lemma_stands, lemma_whole, reads_back, written, zero_free, Piece,
};
use vstd::prelude::*;
use vstd::utf8::*;

verus! {

broadcast use group_word_lengths;

/// A challenge carries its seed behind one word, and noise behind the seed.
pub proof fn lemma_challenge_reads_back(one: u32, sent: AuthChallenge, noise: Seq<u8>)
    requires
        noise.len() == 32,
    ensures
        auth_challenge(
            written(
                seq![Piece::Word(one), Piece::Bytes(sent.server_seed@), Piece::Bytes(noise)],
            ),
        ) == Ok::<Seq<u8>, Error>(sent@),
{
    let pieces = seq![Piece::Word(one), Piece::Bytes(sent.server_seed@), Piece::Bytes(noise)];
    let body = written(pieces);
    let c = Cursor::over(body, "SMSG_AUTH_CHALLENGE");
    let end = body.len() as int;
    lemma_whole(pieces, "SMSG_AUTH_CHALLENGE");
    lemma_next(c, pieces, 0, end);
    lemma_next(c.take(4), pieces, 1, end);
    lemma_next(c.take(4).take(4), pieces, 2, end);
    lemma_last(c.take(4).take(4).take(32), pieces, end);
}

/// An acceptance names the expansion behind what is paid for.
pub proof fn lemma_acceptance_reads_back(time: u32, flags: u8, rested: u32, expansion: u8)
    ensures
        auth_response(
            written(
                seq![
                    Piece::Byte(0x0C),
                    Piece::Word(time),
                    Piece::Byte(flags),
                    Piece::Word(rested),
                    Piece::Byte(expansion),
                ],
            ),
        ) == Ok::<AuthResponse, Error>(AuthResponse::Accepted { expansion }),
{
    let pieces = seq![
        Piece::Byte(0x0C),
        Piece::Word(time),
        Piece::Byte(flags),
        Piece::Word(rested),
        Piece::Byte(expansion),
    ];
    let body = written(pieces);
    let c = Cursor::over(body, "SMSG_AUTH_RESPONSE");
    let end = body.len() as int;
    lemma_whole(pieces, "SMSG_AUTH_RESPONSE");
    lemma_next(c, pieces, 0, end);
    lemma_next(c.take(1), pieces, 1, end);
    lemma_next(c.take(1).take(4), pieces, 2, end);
    lemma_next(c.take(1).take(4).take(1), pieces, 3, end);
    let last = c.take(1).take(4).take(1).take(4);
    lemma_next(last, pieces, 4, end);
    lemma_last(last.take(1), pieces, end);
}

/// A place in the queue is the word behind its code.
pub proof fn lemma_queue_reads_back(position: u32, migration: u8)
    ensures
        auth_response(
            written(seq![Piece::Byte(0x1B), Piece::Word(position), Piece::Byte(migration)]),
        ) == Ok::<AuthResponse, Error>(AuthResponse::Queued { position }),
{
    let pieces = seq![Piece::Byte(0x1B), Piece::Word(position), Piece::Byte(migration)];
    let body = written(pieces);
    let c = Cursor::over(body, "SMSG_AUTH_RESPONSE");
    let end = body.len() as int;
    lemma_whole(pieces, "SMSG_AUTH_RESPONSE");
    lemma_next(c, pieces, 0, end);
    lemma_next(c.take(1), pieces, 1, end);
    lemma_next(c.take(1).take(4), pieces, 2, end);
    lemma_last(c.take(1).take(4).take(1), pieces, end);
}

/// Any other code is a refusal, and keeps its number whatever follows it.
pub proof fn lemma_refusal_reads_back(code: u8, rest: Seq<u8>)
    requires
        code != 0x0C,
        code != 0x1B,
    ensures
        auth_response(seq![code] + rest) == Ok::<AuthResponse, Error>(
            AuthResponse::Refused { code },
        ),
{
    assert((seq![code] + rest)[0] == code);
}

/// The world is entered where the server writes: map, place and direction.
pub proof fn lemma_world_position_reads_back(place: WorldPosition)
    ensures
        login_verify_world(
            written(
                seq![
                    Piece::Words(
                        seq![place.map, place.x, place.y, place.z, place.orientation],
                    ),
                ],
            ),
        ) == Ok::<WorldPosition, Error>(place),
{
    let words = seq![place.map, place.x, place.y, place.z, place.orientation];
    let pieces = seq![Piece::Words(words)];
    let body = written(pieces);
    let c = Cursor::over(body, "SMSG_LOGIN_VERIFY_WORLD");
    let end = body.len() as int;
    lemma_whole(pieces, "SMSG_LOGIN_VERIFY_WORLD");
    lemma_next(c, pieces, 0, end);
    lemma_last(c.words(5), pieces, end);
    assert(c.nth(0) == place.map);
    assert(c.nth(1) == place.x);
    assert(c.nth(2) == place.y);
    assert(c.nth(3) == place.z);
    assert(c.nth(4) == place.orientation);
}

/// A body of one word is that word.
pub proof fn lemma_one_word_reads_back(x: u32, what: &'static str)
    ensures
        one_word(bytes32(x), what) == Ok::<u32, Error>(x),
{
    broadcast use group_written;

    let pieces = seq![Piece::Word(x)];
    assert(written(pieces) =~= bytes32(x));
    let c = Cursor::over(bytes32(x), what);
    lemma_whole(pieces, what);
    lemma_next(c, pieces, 0, 4);
}

/// The parts of a movement state that go onto the wire, in their order: what
/// the flags announce, and nothing else.
pub open spec fn info_pieces(info: MovementInfo) -> Seq<Piece> {
    let (ride, here) = (info.transport, info.position);
    let place = blank().push(Piece::Word(info.flags)).push(Piece::Short(info.flags2)).push(
        Piece::Word(info.time),
    ).push(Piece::Word(here.x)).push(Piece::Word(here.y)).push(Piece::Word(here.z)).push(
        Piece::Word(here.orientation),
    );
    let carried = if info.flags & 0x200 != 0 {
        place.push(Piece::Guid(ride.guid)).push(Piece::Word(ride.position.x)).push(
            Piece::Word(ride.position.y),
        ).push(Piece::Word(ride.position.z)).push(Piece::Word(ride.position.orientation)).push(
            Piece::Word(ride.time),
        ).push(Piece::Byte(ride.seat))
    } else {
        place
    };
    let timed = if info.flags & 0x200 != 0 && info.flags2 & 0x400 != 0 {
        carried.push(Piece::Word(ride.interpolated))
    } else {
        carried
    };
    let turned = if info.flags & (0x20_0000u32 | 0x200_0000u32) != 0 || info.flags2 & 0x10 != 0 {
        timed.push(Piece::Word(info.pitch))
    } else {
        timed
    };
    let dropped = turned.push(Piece::Word(info.fall_time));
    let falling = if info.flags & 0x1000 != 0 {
        dropped.push(Piece::Word(info.fall.vertical_speed)).push(
            Piece::Word(info.fall.sine),
        ).push(Piece::Word(info.fall.cosine)).push(Piece::Word(info.fall.horizontal_speed))
    } else {
        dropped
    };
    if info.flags & 0x400_0000 != 0 {
        falling.push(Piece::Word(info.spline_elevation))
    } else {
        falling
    }
}

/// A movement state is written part by part: a pitch where it swims or flies,
/// a carriage where it is carried, a fall where it falls.
pub proof fn lemma_info_is_written_in_order(info: MovementInfo)
    ensures
        info_bytes(info) == written(info_pieces(info)),
{
    broadcast use group_written;

    let (ride, here) = (info.transport, info.position);
    let place = blank().push(Piece::Word(info.flags)).push(Piece::Short(info.flags2)).push(
        Piece::Word(info.time),
    ).push(Piece::Word(here.x)).push(Piece::Word(here.y)).push(Piece::Word(here.z)).push(
        Piece::Word(here.orientation),
    );
    let to_place = bytes32(info.flags) + bytes16(info.flags2) + bytes32(info.time)
        + position_bytes(here);
    assert(written(place) =~= to_place);
    let carriage: Seq<u8> = if carried(info.flags) {
        carriage_bytes(ride, info.flags2)
    } else {
        seq![]
    };
    let riding = if carried(info.flags) {
        place.push(Piece::Guid(ride.guid)).push(Piece::Word(ride.position.x)).push(
            Piece::Word(ride.position.y),
        ).push(Piece::Word(ride.position.z)).push(Piece::Word(ride.position.orientation)).push(
            Piece::Word(ride.time),
        ).push(Piece::Byte(ride.seat))
    } else {
        place
    };
    let timed = if carried(info.flags) && interpolating(info.flags2) {
        riding.push(Piece::Word(ride.interpolated))
    } else {
        riding
    };
    assert(written(timed) =~= to_place + carriage);
    assert(info_bytes(info) =~= written(info_pieces(info)));
}

/// Whether a movement state says nothing that its flags do not announce: no
/// carriage where it is not carried, no pitch where it neither swims nor flies,
/// no fall where it does not fall.
pub open spec fn says_only(info: MovementInfo) -> bool {
    let ride = info.transport;
    &&& info.flags & 0x200 == 0 ==> {
        &&& ride.guid == 0 && ride.time == 0 && ride.seat == 0 && ride.interpolated == 0
        &&& ride.position.x == 0 && ride.position.y == 0 && ride.position.z == 0
        &&& ride.position.orientation == 0
    }
    &&& info.flags2 & 0x400 == 0 ==> ride.interpolated == 0
    &&& info.flags & (0x20_0000u32 | 0x200_0000u32) == 0 && info.flags2 & 0x10 == 0
        ==> info.pitch == 0
    &&& info.flags & 0x1000 == 0 ==> {
        &&& info.fall.vertical_speed == 0 && info.fall.horizontal_speed == 0
        &&& info.fall.sine == 0 && info.fall.cosine == 0
    }
    &&& info.flags & 0x400_0000 == 0 ==> info.spline_elevation == 0
}

/// Such a state, and no other, can be sent and read back.
pub proof fn lemma_what_can_be_sent(info: MovementInfo)
    ensures
        announced(info) <==> says_only(info),
{
}

/// A relayed movement reads back: its mover, then its state.
pub proof fn lemma_relayed_movement_reads_back(mover: u64, info: MovementInfo)
    requires
        says_only(info),
    ensures
        relayed(written(seq![Piece::Guid(mover), Piece::Bytes(written(info_pieces(info)))]))
            == Ok::<(u64, MovementInfo), Error>((mover, info)),
        movement_bytes(mover, info) == written(
            seq![Piece::Guid(mover), Piece::Bytes(written(info_pieces(info)))],
        ),
{
    broadcast use group_written;

    lemma_info_is_written_in_order(info);
    let pieces = seq![Piece::Guid(mover), Piece::Bytes(info_bytes(info))];
    let body = written(pieces);
    let c = Cursor::over(body, "MSG_MOVE_*");
    let end = body.len() as int;
    lemma_whole(pieces, "MSG_MOVE_*");
    lemma_next(c, pieces, 0, end);
    lemma_next(read_guid(c).1, pieces, 1, end);
    lemma_info_round_trip(read_guid(c).1, info);
    lemma_last(read_info(read_guid(c).1).1, pieces, end);
    assert(movement_bytes(mover, info) =~= body);
}

/// A teleport reads back: who, the counter to echo, and where to.
pub proof fn lemma_teleport_reads_back(sent: Teleport)
    requires
        says_only(sent.info),
    ensures
        teleport(
            written(
                seq![
                    Piece::Guid(sent.mover),
                    Piece::Word(sent.counter),
                    Piece::Bytes(written(info_pieces(sent.info))),
                ],
            ),
        ) == Ok::<Teleport, Error>(sent),
{
    lemma_info_is_written_in_order(sent.info);
    let pieces = seq![
        Piece::Guid(sent.mover),
        Piece::Word(sent.counter),
        Piece::Bytes(info_bytes(sent.info)),
    ];
    let body = written(pieces);
    let c = Cursor::over(body, "MSG_MOVE_TELEPORT_ACK");
    let end = body.len() as int;
    lemma_whole(pieces, "MSG_MOVE_TELEPORT_ACK");
    lemma_next(c, pieces, 0, end);
    let counter = read_guid(c).1;
    lemma_next(counter, pieces, 1, end);
    lemma_next(counter.take(4), pieces, 2, end);
    lemma_info_round_trip(counter.take(4), sent.info);
    lemma_last(read_info(counter.take(4)).1, pieces, end);
}

/// An equipment slot, field by field.
pub open spec fn slot_pieces(slot: Equipment) -> Seq<Piece> {
    seq![
        Piece::Word(slot.display_id),
        Piece::Byte(slot.inventory_type),
        Piece::Word(slot.enchant_aura),
    ]
}

/// One line of the character list, field by field. The name is written as
/// bytes, and any byte but zero says that the character has not been played.
pub open spec fn line_pieces(name: Seq<u8>, login: u8, who: Character) -> Seq<Piece> {
    seq![
        Piece::Long(who.guid),
        Piece::Text(name),
        Piece::Bytes(
            seq![
                who.race,
                who.class,
                who.gender,
                who.skin,
                who.face,
                who.hair_style,
                who.hair_color,
                who.facial_hair,
                who.level,
            ],
        ),
        Piece::Words(
            seq![
                who.zone,
                who.map,
                who.position@[0],
                who.position@[1],
                who.position@[2],
                who.guild_id,
                who.flags,
                who.customize_flags,
            ],
        ),
        Piece::Byte(login),
        Piece::Words(seq![who.pet_display_id, who.pet_level, who.pet_family]),
        Piece::Bytes(in_a_row(who.equipment@, |slot: Equipment| written(slot_pieces(slot)))),
    ]
}

proof fn lemma_slot_reads_back(slot: Equipment)
    ensures
        reads_back(
            slot,
            |slot: Equipment| written(slot_pieces(slot)),
            |slot: Equipment| slot,
            |c: Cursor| equipment_slot(c),
        ),
{
    let bytes = |slot: Equipment| written(slot_pieces(slot));
    let record = |c: Cursor| equipment_slot(c);
    assert forall|c: Cursor| c.sound() && holds(c.data, c.at, bytes(slot)) implies
        #[trigger] record(c) == (slot, (Cursor { at: c.at + bytes(slot).len(), ..c })) by {
        let pieces = slot_pieces(slot);
        let end = c.at + written(pieces).len();
        lemma_stands(c, pieces);
        lemma_next(c, pieces, 0, end);
        lemma_next(c.take(4), pieces, 1, end);
        lemma_next(c.take(4).take(1), pieces, 2, end);
        lemma_last(c.take(4).take(1).take(4), pieces, end);
    }
}

/// A line of the character list reads back under the names it was written
/// under, and the reading ends right behind it.
pub proof fn lemma_character_reads_back(c: Cursor, name: Seq<u8>, login: u8, who: Character)
    requires
        c.sound(),
        zero_free(name),
        who.name@ == lossy_utf8(name),
        who.first_login == (login != 0),
        holds(c.data, c.at, written(line_pieces(name, login, who))),
    ensures
        character(c) == (
            who@,
            (Cursor { at: c.at + written(line_pieces(name, login, who)).len(), ..c }),
        ),
{
    let pieces = line_pieces(name, login, who);
    let end = c.at + written(pieces).len();
    lemma_stands(c, pieces);
    lemma_next(c, pieces, 0, end);
    let named = c.take(8);
    lemma_next(named, pieces, 1, end);
    let traits = named.cstring();
    lemma_next(traits, pieces, 2, end);
    let nine = seq![
        who.race,
        who.class,
        who.gender,
        who.skin,
        who.face,
        who.hair_style,
        who.hair_color,
        who.facial_hair,
        who.level,
    ];
    assert(Seq::new(9, |k: int| traits.data[traits.at + k]) =~= nine) by {
        assert forall|k: int| 0 <= k < 9 implies traits.data[traits.at + k] == nine[k] by {
            assert(traits.data.subrange(traits.at, traits.at + 9)[k] == nine[k]);
        }
    }
    let place = traits.octets(9);
    lemma_next(place, pieces, 3, end);
    assert(place.nth(0) == who.zone);
    assert(place.nth(1) == who.map);
    assert(seq![place.nth(2), place.nth(3), place.nth(4)] =~= who.position@);
    assert(place.nth(5) == who.guild_id);
    assert(place.nth(6) == who.flags);
    assert(place.nth(7) == who.customize_flags);
    let login_at = place.words(8);
    lemma_next(login_at, pieces, 4, end);
    let pet = login_at.take(1);
    lemma_next(pet, pieces, 5, end);
    assert(pet.nth(0) == who.pet_display_id);
    assert(pet.nth(1) == who.pet_level);
    assert(pet.nth(2) == who.pet_family);
    let worn = pet.words(3);
    lemma_next(worn, pieces, 6, end);
    assert forall|i: int| 0 <= i < who.equipment@.len() implies reads_back(
        #[trigger] who.equipment@[i],
        |slot: Equipment| written(slot_pieces(slot)),
        |slot: Equipment| slot,
        |c: Cursor| equipment_slot(c),
    ) by {
        lemma_slot_reads_back(who.equipment@[i]);
    }
    lemma_row_reads_back(
        worn,
        who.equipment@,
        |slot: Equipment| written(slot_pieces(slot)),
        |slot: Equipment| slot,
        |c: Cursor| equipment_slot(c),
    );
    assert(who.equipment@.map_values(|slot: Equipment| slot) =~= who.equipment@);
    lemma_last(equipment(worn).1, pieces, end);
}

/// A character list reads back line by line.
pub proof fn lemma_character_list_reads_back(lines: Seq<(Seq<u8>, u8, Character)>)
    requires
        lines.len() < 0x100,
        forall|i: int| 0 <= i < lines.len() ==> zero_free((#[trigger] lines[i]).0),
        forall|i: int|
            0 <= i < lines.len() ==> (#[trigger] lines[i]).2.name@ == lossy_utf8(lines[i].0),
        forall|i: int|
            0 <= i < lines.len() ==> (#[trigger] lines[i]).2.first_login == (lines[i].1 != 0),
    ensures
        char_enum(
            written(
                seq![
                    Piece::Byte(lines.len() as u8),
                    Piece::Bytes(
                        in_a_row(
                            lines,
                            |line: (Seq<u8>, u8, Character)|
                                written(line_pieces(line.0, line.1, line.2)),
                        ),
                    ),
                ],
            ),
        ) == Ok::<Seq<CharacterView>, Error>(
            lines.map_values(|line: (Seq<u8>, u8, Character)| line.2@),
        ),
{
    let bytes = |line: (Seq<u8>, u8, Character)| written(line_pieces(line.0, line.1, line.2));
    let value = |line: (Seq<u8>, u8, Character)| line.2@;
    let record = |c: Cursor| character(c);
    let pieces = seq![Piece::Byte(lines.len() as u8), Piece::Bytes(in_a_row(lines, bytes))];
    let body = written(pieces);
    let end = body.len() as int;
    let c = Cursor::over(body, "SMSG_CHAR_ENUM");
    lemma_whole(pieces, "SMSG_CHAR_ENUM");
    lemma_next(c, pieces, 0, end);
    lemma_next(c.take(1), pieces, 1, end);
    assert forall|i: int| 0 <= i < lines.len() implies reads_back(
        #[trigger] lines[i],
        bytes,
        value,
        record,
    ) by {
        let line = lines[i];
        assert forall|d: Cursor| d.sound() && holds(d.data, d.at, bytes(line)) implies
            #[trigger] record(d) == (
            value(line),
            (Cursor { at: d.at + bytes(line).len(), ..d }),
        ) by {
            lemma_character_reads_back(d, line.0, line.1, line.2);
        }
    }
    lemma_row_reads_back(c.take(1), lines, bytes, value, record);
    lemma_last(behind(c.take(1), pieces[1]), pieces, end);
}

/// A client packet is its size, high byte first, then its opcode, low byte
/// first, then its body. The size does not count itself.
pub proof fn lemma_client_packet_is_written_in_order(
    opcode: ClientOpcode,
    body: Seq<u8>,
    high: u8,
    low: u8,
)
    requires
        0x100 * high + low == 4 + body.len(),
    ensures
        client_packet_bytes(opcode, body) == written(
            blank().push(Piece::Byte(high)).push(Piece::Byte(low)).push(
                Piece::Word(client_code(opcode)),
            ).push(Piece::Bytes(body)),
        ),
{
    broadcast use group_written;

    assert(client_packet_bytes(opcode, body) =~= written(
        blank().push(Piece::Byte(high)).push(Piece::Byte(low)).push(
            Piece::Word(client_code(opcode)),
        ).push(Piece::Bytes(body)),
    ));
}

/// A short server header is two bytes of size, high byte first, and two of
/// opcode, low byte first. The size counts the opcode and the body.
pub proof fn lemma_short_header_reads_back(high: u8, low: u8, opcode: u16)
    requires
        high < 0x80,
        0x100 * high + low >= 2,
    ensures
        server_header(
            written(blank().push(Piece::Byte(high)).push(Piece::Byte(low)).push(
                Piece::Short(opcode),
            )),
        ) == Ok::<ServerHeader, Error>(
            ServerHeader { opcode, body_len: (0x100 * high + low - 2) as usize },
        ),
{
    let pieces = blank().push(Piece::Byte(high)).push(Piece::Byte(low)).push(
        Piece::Short(opcode),
    );
    let header = written(pieces);
    let c = Cursor::over(header, "server header");
    let end = header.len() as int;
    lemma_whole(pieces, "server header");
    lemma_next(c, pieces, 0, end);
    lemma_next(c.take(1), pieces, 1, end);
    lemma_next(c.take(1).take(1), pieces, 2, end);
    lemma_last(c.take(1).take(1).take(2), pieces, end);
}

/// A long one has three bytes of size, and the top bit of the first is no part
/// of it. A body past the limit is refused.
pub proof fn lemma_long_header_reads_back(top: u8, high: u8, low: u8, opcode: u16)
    requires
        top < 0x80,
        2 <= 0x1_0000 * top + 0x100 * high + low,
    ensures
        ({
            let size = 0x1_0000 * top + 0x100 * high + low;
            server_header(
                written(blank().push(Piece::Byte((0x80 + top) as u8)).push(
                    Piece::Byte(high),
                ).push(Piece::Byte(low)).push(Piece::Short(opcode))),
            ) == if size - 2 <= 0x10_0000 {
                Ok::<ServerHeader, Error>(ServerHeader { opcode, body_len: (size - 2) as usize })
            } else {
                Err(Error::Oversized { got: (size - 2) as usize })
            }
        }),
{
    let pieces = blank().push(Piece::Byte((0x80 + top) as u8)).push(Piece::Byte(high)).push(
        Piece::Byte(low),
    ).push(Piece::Short(opcode));
    let header = written(pieces);
    let c = Cursor::over(header, "server header");
    let end = header.len() as int;
    lemma_whole(pieces, "server header");
    lemma_next(c, pieces, 0, end);
    lemma_next(c.take(1), pieces, 1, end);
    lemma_next(c.take(1).take(1), pieces, 2, end);
    let code = c.take(1).take(1).take(1);
    lemma_next(code, pieces, 3, end);
    lemma_last(code.take(2), pieces, end);
}

/// The proof of a session is over the account in upper case, a zero word, the
/// client's seed, the server's seed and the key, in that order.
pub proof fn lemma_message_is_written_in_order(
    account: Seq<char>,
    client_seed: Seq<u8>,
    server_seed: Seq<u8>,
    session_key: Seq<u8>,
)
    ensures
        auth_message(account, client_seed, server_seed, session_key) == written(
            blank().push(Piece::Bytes(encode_utf8(uppercased(account)))).push(
                Piece::Word(0),
            ).push(Piece::Bytes(client_seed)).push(Piece::Bytes(server_seed)).push(
                Piece::Bytes(session_key),
            ),
        ),
{
    broadcast use group_written;

}

/// A session request names the build, the account and the realm, carries the
/// client's seed and the proof, and ends in the addon block.
pub proof fn lemma_session_is_written_in_order(
    account: Seq<char>,
    realm_id: u32,
    client_seed: Seq<u8>,
    digest: Seq<u8>,
    addons: Seq<u8>,
)
    ensures
        session_bytes(account, realm_id, client_seed, digest, addons) == written(
            blank().push(Piece::Word(12340)).push(Piece::Word(0)).push(
                Piece::Text(encode_utf8(account)),
            ).push(Piece::Word(0)).push(Piece::Bytes(client_seed)).push(Piece::Word(0)).push(
                Piece::Word(0),
            ).push(Piece::Word(realm_id)).push(Piece::Long(0)).push(Piece::Bytes(digest)).push(
                Piece::Bytes(addons),
            ),
        ),
{
    broadcast use group_written;

    let named = blank().push(Piece::Word(12340)).push(Piece::Word(0)).push(
        Piece::Text(encode_utf8(account)),
    );
    assert(written(named) =~= bytes32(12340) + bytes32(0) + encode_utf8(account) + seq![0u8]);
}

/// A creation request is the name, then the eight choices in their order, and
/// no outfit.
pub proof fn lemma_creation_is_written_in_order(name: Seq<char>, look: Appearance)
    ensures
        creation_bytes(name, look) == written(
            blank().push(Piece::Text(encode_utf8(name))).push(Piece::Byte(look.race)).push(
                Piece::Byte(look.class),
            ).push(Piece::Byte(look.gender)).push(Piece::Byte(look.skin)).push(
                Piece::Byte(look.face),
            ).push(Piece::Byte(look.hair_style)).push(Piece::Byte(look.hair_color)).push(
                Piece::Byte(look.facial_hair),
            ).push(Piece::Byte(0)),
        ),
{
    broadcast use group_written;

    let pieces = blank().push(Piece::Text(encode_utf8(name))).push(Piece::Byte(look.race)).push(
        Piece::Byte(look.class),
    ).push(Piece::Byte(look.gender)).push(Piece::Byte(look.skin)).push(
        Piece::Byte(look.face),
    ).push(Piece::Byte(look.hair_style)).push(Piece::Byte(look.hair_color)).push(
        Piece::Byte(look.facial_hair),
    ).push(Piece::Byte(0));
    assert(creation_bytes(name, look) =~= written(pieces));
}

/// A client without addons says so in two zero words, and the block before
/// them is the length that they expand to.
pub proof fn lemma_the_addon_block_is_written_in_order(length: u32, packed: Seq<u8>)
    ensures
        addon_manifest() == written(blank().push(Piece::Word(0)).push(Piece::Word(0))),
        addon_bytes(length, packed) == written(
            blank().push(Piece::Word(length)).push(Piece::Bytes(packed)),
        ),
{
    broadcast use group_written;

}

} // verus!
