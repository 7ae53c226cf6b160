//! What is refused, and what the refusal says.
use crate::combat::melee_swing;
use crate::cursor::{lemma_many_sticky, many, Cursor};
use crate::protocol::{server_header, Error};
use crate::spell::{lemma_target_tail_sticky, raw_guid, spell_go, spell_start};
use crate::trade::{slot_records, trade_offer};
use crate::trainer::{spell_record, trainer_list};
use crate::update::{
    block, decompressed, lemma_field_values_sticky, lemma_movement_section_sticky,
    lemma_read_guid_sticky, monster_move, read_guid,
};
use crate::vendor::vendor_list;
use crate::weather::weather_change;
use crate::wire::{bytes32, group_word_lengths, holds};
use crate::written::{lemma_last, lemma_next, lemma_stands, lemma_whole, written, Piece};
use vstd::prelude::*;

verus! {

broadcast use group_word_lengths;

/// A field that the body has no room for is refused with where it would have
/// stood, how long it is and how long the body is. What was refused before
/// stays refused, for the same reason.
pub proof fn lemma_running_out_is_reported(c: Cursor, need: int, error: Error)
    ensures
        c.sound() && need > c.data.len() - c.at ==> c.take(need).failed == Some(
            Error::Truncated {
                what: c.what,
                at: c.at as usize,
                need: need as usize,
                len: c.data.len() as usize,
            },
        ),
        c.failed == Some(error) ==> c.take(need).failed == Some(error) && c.words(need).failed
            == Some(error) && c.octets(need).failed == Some(error) && c.cstring().failed == Some(
            error,
        ) && c.finish().failed == Some(error),
{
}

/// A run of words that the body has no room for is refused at the first of
/// them that is not whole.
pub proof fn lemma_the_first_missing_word_is_reported(c: Cursor, n: int, whole: int)
    requires
        c.sound(),
        0 <= whole < n,
        4 * whole <= c.data.len() - c.at < 4 * whole + 4,
    ensures
        c.words(n).failed == Some(
            Error::Truncated {
                what: c.what,
                at: (c.at + 4 * whole) as usize,
                need: 4,
                len: c.data.len() as usize,
            },
        ),
{
}

/// Bytes that are left over are refused with their number, and a string that
/// nothing ends is refused as such.
pub proof fn lemma_what_is_left_over_is_reported(c: Cursor)
    requires
        c.sound(),
    ensures
        c.at < c.data.len() ==> c.finish().failed == Some(
            Error::Trailing { what: c.what, got: (c.data.len() - c.at) as usize },
        ),
        c.at == c.data.len() ==> c.finish() == c,
        (forall|i: int| c.at <= i < c.data.len() ==> #[trigger] c.data[i] != 0)
            ==> c.cstring().failed == Some(Error::UnterminatedString { what: c.what }),
{
    if forall|i: int| c.at <= i < c.data.len() ==> #[trigger] c.data[i] != 0 {
        lemma_no_end(c.data, c.at);
    }
}

proof fn lemma_no_end(data: Seq<u8>, at: int)
    requires
        0 <= at <= data.len(),
        forall|i: int| at <= i < data.len() ==> #[trigger] data[i] != 0,
    ensures
        crate::cursor::string_end(data, at) == data.len(),
    decreases data.len() - at,
{
    if at < data.len() {
        lemma_no_end(data, at + 1);
    }
}

/// A vendor's list whose rows do not fill the rest is refused with what the
/// rows would need and what there is.
pub proof fn lemma_a_vendor_list_must_fill_its_body(vendor: u64, count: u8, rest: Seq<u8>)
    requires
        rest.len() != 32 * count,
    ensures
        vendor_list(
            written(
                seq![
                    Piece::Long(vendor),
                    Piece::Byte(count),
                    Piece::Bytes(rest),
                ],
            ),
        ) == Err::<crate::vendor::VendorListView, Error>(
            Error::VendorRowCount {
                count,
                expected: (32 * count) as usize,
                got: rest.len() as usize,
            },
        ),
{
    let pieces = seq![
        Piece::Long(vendor),
        Piece::Byte(count),
        Piece::Bytes(rest),
    ];
    let body = written(pieces);
    let c = Cursor::over(body, "SMSG_LIST_INVENTORY");
    let end = body.len() as int;
    lemma_whole(pieces, "SMSG_LIST_INVENTORY");
    lemma_next(c, pieces, 0, end);
    let c1 = c.take(8);
    lemma_next(c1, pieces, 1, end);
    let c2 = c1.take(1);
    lemma_next(c2, pieces, 2, end);
    let c3 = c2.take(rest.len() as int);
    lemma_last(c3, pieces, end);
}

/// A trainer's list whose rows the body has no room for is refused with what
/// they would need and what there is.
pub proof fn lemma_a_trainer_list_must_fit_its_body(
    trainer: u64,
    kind: u32,
    count: u32,
    rest: Seq<u8>,
)
    requires
        rest.len() < 38 * count,
    ensures
        trainer_list(
            written(
                seq![
                    Piece::Long(trainer),
                    Piece::Words(seq![kind, count]),
                    Piece::Bytes(rest),
                ],
            ),
        ) == Err::<crate::trainer::TrainerListView, Error>(
            Error::TrainerRowCount {
                count,
                expected: (38 * count) as usize,
                got: rest.len() as usize,
            },
        ),
{
    let pieces = seq![
        Piece::Long(trainer),
        Piece::Words(seq![kind, count]),
        Piece::Bytes(rest),
    ];
    let body = written(pieces);
    let c = Cursor::over(body, "SMSG_TRAINER_LIST");
    let end = body.len() as int;
    lemma_whole(pieces, "SMSG_TRAINER_LIST");
    lemma_next(c, pieces, 0, end);
    let c1 = c.take(8);
    lemma_next(c1, pieces, 1, end);
    let c2 = c1.words(2);
    assert(c1.nth(0) == kind);
    assert(c1.nth(1) == count);
    lemma_next(c2, pieces, 2, end);
    let c3 = c2.take(rest.len() as int);
    lemma_last(c3, pieces, end);
    let error = Error::TrainerRowCount {
        count,
        expected: (38 * count) as usize,
        got: rest.len() as usize,
    };
    let refused = c2.check(c2.left() >= 38 * count, error);
    lemma_many_sticky(refused, count as nat, |c: Cursor| spell_record(c));
}

/// A cast at anything but a unit or a game object is refused with the mask
/// that it has.
pub proof fn lemma_a_strange_target_is_refused(
    item: u64,
    caster: u64,
    count: u8,
    spell: u32,
    cast_flags: u32,
    time: u32,
    flags: u32,
    rest: Seq<u8>,
)
    requires
        flags != 0x2,
        flags != 0x800,
    ensures
        spell_start(
            written(
                seq![
                    Piece::Guid(item),
                    Piece::Guid(caster),
                    Piece::Byte(count),
                    Piece::Word(spell),
                    Piece::Word(cast_flags),
                    Piece::Word(time),
                    Piece::Word(flags),
                    Piece::Bytes(rest),
                ],
            ),
        ) == Err::<crate::spell::SpellStart, Error>(
            Error::UnsupportedSpellTarget { what: "SMSG_SPELL_START", flags },
        ),
{
    broadcast use lemma_read_guid_sticky;

    let pieces = seq![
        Piece::Guid(item),
        Piece::Guid(caster),
        Piece::Byte(count),
        Piece::Word(spell),
        Piece::Word(cast_flags),
        Piece::Word(time),
        Piece::Word(flags),
        Piece::Bytes(rest),
    ];
    let body = written(pieces);
    let c = Cursor::over(body, "SMSG_SPELL_START");
    let end = body.len() as int;
    lemma_whole(pieces, "SMSG_SPELL_START");
    lemma_next(c, pieces, 0, end);
    let c1 = read_guid(c).1;
    lemma_next(c1, pieces, 1, end);
    let c2 = read_guid(c1).1;
    lemma_next(c2, pieces, 2, end);
    let c3 = c2.take(1);
    lemma_next(c3, pieces, 3, end);
    let c4 = c3.take(4);
    lemma_next(c4, pieces, 4, end);
    let c5 = c4.take(4);
    lemma_next(c5, pieces, 5, end);
    let c6 = c5.take(4);
    lemma_next(c6, pieces, 6, end);
    let c7 = c6.take(4);
    lemma_next(c7, pieces, 7, end);
    let c8 = c7.take(rest.len() as int);
}

/// A landing that lists misses is refused with their number.
pub proof fn lemma_misses_are_refused(
    item: u64,
    caster: u64,
    count: u8,
    spell: u32,
    cast_flags: u32,
    time: u32,
    misses: u8,
    rest: Seq<u8>,
)
    requires
        misses != 0,
    ensures
        spell_go(
            written(
                seq![
                    Piece::Guid(item),
                    Piece::Guid(caster),
                    Piece::Byte(count),
                    Piece::Word(spell),
                    Piece::Word(cast_flags),
                    Piece::Word(time),
                    Piece::Byte(0),
                    Piece::Byte(misses),
                    Piece::Bytes(rest),
                ],
            ),
        ) == Err::<crate::spell::SpellGoView, Error>(
            Error::UnconfirmedSpellMisses { count: misses },
        ),
{
    broadcast use lemma_read_guid_sticky;

    let pieces = seq![
        Piece::Guid(item),
        Piece::Guid(caster),
        Piece::Byte(count),
        Piece::Word(spell),
        Piece::Word(cast_flags),
        Piece::Word(time),
        Piece::Byte(0),
        Piece::Byte(misses),
        Piece::Bytes(rest),
    ];
    let body = written(pieces);
    let c = Cursor::over(body, "SMSG_SPELL_GO");
    let end = body.len() as int;
    lemma_whole(pieces, "SMSG_SPELL_GO");
    lemma_next(c, pieces, 0, end);
    let c1 = read_guid(c).1;
    lemma_next(c1, pieces, 1, end);
    let c2 = read_guid(c1).1;
    lemma_next(c2, pieces, 2, end);
    let c3 = c2.take(1);
    lemma_next(c3, pieces, 3, end);
    let c4 = c3.take(4);
    lemma_next(c4, pieces, 4, end);
    let c5 = c4.take(4);
    lemma_next(c5, pieces, 5, end);
    let c6 = c5.take(4);
    lemma_next(c6, pieces, 6, end);
    let c7 = c6.take(1);
    lemma_next(c7, pieces, 7, end);
    let c8 = c7.take(1);
    lemma_next(c8, pieces, 8, end);
    let c9 = c8.take(rest.len() as int);
    assert(many(c7, 0, |c: Cursor| raw_guid(c)).1 == c7);
    let refused = c8.fail(Error::UnconfirmedSpellMisses { count: misses });
    lemma_target_tail_sticky(refused, "SMSG_SPELL_GO");
}

/// A swing with other than one damage block is refused with their number.
pub proof fn lemma_other_damage_blocks_are_refused(
    hit: u32,
    attacker: u64,
    victim: u64,
    damage: u32,
    overkill: u32,
    count: u8,
    rest: Seq<u8>,
)
    requires
        count != 1,
    ensures
        melee_swing(
            written(
                seq![
                    Piece::Word(hit),
                    Piece::Guid(attacker),
                    Piece::Guid(victim),
                    Piece::Words(seq![damage, overkill]),
                    Piece::Byte(count),
                    Piece::Bytes(rest),
                ],
            ),
        ) == Err::<crate::combat::MeleeSwing, Error>(
            Error::UnconfirmedSwingDamageBlocks { count },
        ),
{
    let pieces = seq![
        Piece::Word(hit),
        Piece::Guid(attacker),
        Piece::Guid(victim),
        Piece::Words(seq![damage, overkill]),
        Piece::Byte(count),
        Piece::Bytes(rest),
    ];
    let body = written(pieces);
    let c = Cursor::over(body, "SMSG_ATTACKERSTATEUPDATE");
    let end = body.len() as int;
    lemma_whole(pieces, "SMSG_ATTACKERSTATEUPDATE");
    lemma_next(c, pieces, 0, end);
    let c1 = c.take(4);
    lemma_next(c1, pieces, 1, end);
    let c2 = read_guid(c1).1;
    lemma_next(c2, pieces, 2, end);
    let c3 = read_guid(c2).1;
    lemma_next(c3, pieces, 3, end);
    let c4 = c3.words(2);
    lemma_next(c4, pieces, 4, end);
    let c5 = c4.take(1);
    lemma_next(c5, pieces, 5, end);
    let c6 = c5.take(rest.len() as int);
}

/// An offer whose first slot does not come first is refused with the slot that
/// came.
pub proof fn lemma_a_slot_out_of_its_turn_is_refused(
    theirs: u8,
    head: Seq<u32>,
    index: u8,
    rest: Seq<u8>,
)
    requires
        head.len() == 5,
        index != 0,
    ensures
        trade_offer(
            written(
                seq![
                    Piece::Byte(theirs),
                    Piece::Words(head),
                    Piece::Byte(index),
                    Piece::Bytes(rest),
                ],
            ),
        ) == Err::<crate::trade::TradeOfferView, Error>(
            Error::TradeSlotOutOfOrder { expected: 0, got: index },
        ),
{
    let pieces = seq![
        Piece::Byte(theirs),
        Piece::Words(head),
        Piece::Byte(index),
        Piece::Bytes(rest),
    ];
    let body = written(pieces);
    let c = Cursor::over(body, "SMSG_TRADE_STATUS_EXTENDED");
    let end = body.len() as int;
    lemma_whole(pieces, "SMSG_TRADE_STATUS_EXTENDED");
    lemma_next(c, pieces, 0, end);
    let c1 = c.take(1);
    lemma_next(c1, pieces, 1, end);
    let c2 = c1.words(5);
    lemma_next(c2, pieces, 2, end);
    let c3 = c2.take(1);
    lemma_next(c3, pieces, 3, end);
    let c4 = c3.take(rest.len() as int);
    let refused = c3.fail(Error::TradeSlotOutOfOrder { expected: 0, got: index });
    reveal_with_fuel(slot_records, 8);
    assert(slot_records(seq![], c2, 0).1 == refused);
}

/// A move of a kind that there is not is refused with its number.
pub proof fn lemma_a_strange_move_is_refused(
    guid: u64,
    toggle: u8,
    from: Seq<u32>,
    spline: u32,
    kind: u8,
    rest: Seq<u8>,
)
    requires
        from.len() == 3,
        kind > 4,
    ensures
        monster_move(
            written(
                seq![
                    Piece::Guid(guid),
                    Piece::Byte(toggle),
                    Piece::Words(from),
                    Piece::Word(spline),
                    Piece::Byte(kind),
                    Piece::Bytes(rest),
                ],
            ),
        ) == Err::<crate::update::MonsterMoveView, Error>(
            Error::UnknownUpdateType { got: kind },
        ),
{
    reveal(crate::update::journey);
    let pieces = seq![
        Piece::Guid(guid),
        Piece::Byte(toggle),
        Piece::Words(from),
        Piece::Word(spline),
        Piece::Byte(kind),
        Piece::Bytes(rest),
    ];
    let body = written(pieces);
    let c = Cursor::over(body, "SMSG_MONSTER_MOVE");
    let end = body.len() as int;
    lemma_whole(pieces, "SMSG_MONSTER_MOVE");
    lemma_next(c, pieces, 0, end);
    let c1 = read_guid(c).1;
    lemma_next(c1, pieces, 1, end);
    let c2 = c1.take(1);
    lemma_next(c2, pieces, 2, end);
    let c3 = c2.words(3);
    lemma_next(c3, pieces, 3, end);
    let c4 = c3.take(4);
    lemma_next(c4, pieces, 4, end);
    let c5 = c4.take(1);
    lemma_next(c5, pieces, 5, end);
    let c6 = c5.take(rest.len() as int);
}

/// A block of a kind that there is not is refused with its number, and so is
/// the creation of an object of a kind that there is not.
pub proof fn lemma_strange_blocks_are_refused(c: Cursor, code: u8, guid: u64, kind: u8)
    requires
        c.sound(),
    ensures
        code > 5 && holds(c.data, c.at, written(seq![Piece::Byte(code)])) ==> block(c).1.failed
            == Some(Error::UnknownUpdateType { got: code }),
        (code == 2 || code == 3) && kind > 7 && holds(
            c.data,
            c.at,
            written(seq![Piece::Byte(code), Piece::Guid(guid), Piece::Byte(kind)]),
        ) ==> block(c).1.failed == Some(Error::UnknownObjectType { got: kind }),
{
    reveal(block);
    if code > 5 && holds(c.data, c.at, written(seq![Piece::Byte(code)])) {
        let pieces = seq![Piece::Byte(code)];
        lemma_stands(c, pieces);
        lemma_next(c, pieces, 0, c.at + written(pieces).len());
    }
    let created = seq![Piece::Byte(code), Piece::Guid(guid), Piece::Byte(kind)];
    if (code == 2 || code == 3) && kind > 7 && holds(c.data, c.at, written(created)) {
        let end = c.at + written(created).len();
        lemma_stands(c, created);
        lemma_next(c, created, 0, end);
        let c1 = c.take(1);
        lemma_next(c1, created, 1, end);
        let c2 = read_guid(c1).1;
        lemma_next(c2, created, 2, end);
        let refused = c2.take(1).fail(Error::UnknownObjectType { got: kind });
        lemma_movement_section_sticky(refused);
        lemma_field_values_sticky(refused);
    }
}

/// A payload is refused where it claims more than the limit, or expands to
/// another length than it claims.
pub proof fn lemma_a_payload_must_keep_its_word(declared: u32, packed: Seq<u8>, plain: Seq<u8>)
    ensures
        declared > 0x10_0000 ==> decompressed(bytes32(declared) + packed) == Err::<Seq<u8>, Error>(
            Error::Oversized { got: declared as usize },
        ),
        declared <= 0x10_0000 && crate::codec::inflated(packed) == Ok::<
            Seq<u8>,
            crate::codec::ZlibFault,
        >(plain) && plain.len() != declared ==> decompressed(bytes32(declared) + packed) == Err::<
            Seq<u8>,
            Error,
        >(Error::CompressedLength { declared: declared as usize, got: plain.len() as usize }),
{
    let body = bytes32(declared) + packed;
    crate::wire::lemma_holds_whole(body);
    crate::wire::lemma_holds_both(body, 0, bytes32(declared), packed);
    crate::wire::lemma_le32_of_bytes(body, 0, declared);
    assert(body.subrange(4, body.len() as int) =~= packed);
}

/// A header that counts less than its own opcode is refused with what it
/// counts, and one that is not whole with what it lacks.
pub proof fn lemma_a_header_must_count_itself(size: u8, rest: Seq<u8>, header: Seq<u8>)
    requires
        size < 2,
        rest.len() >= 2,
    ensures
        server_header(seq![0u8, size] + rest) == Err::<crate::protocol::ServerHeader, Error>(
            Error::Undersized { got: size as usize },
        ),
        header.len() < 4 && (header.len() == 0 || header[0] < 0x80) ==> server_header(header)
            == Err::<crate::protocol::ServerHeader, Error>(
            Error::Truncated {
                what: "server header",
                at: 0,
                need: 4,
                len: header.len() as usize,
            },
        ),
        0 < header.len() < 5 && header[0] >= 0x80 ==> server_header(header) == Err::<
            crate::protocol::ServerHeader,
            Error,
        >(
            Error::Truncated {
                what: "server header",
                at: 0,
                need: 5,
                len: header.len() as usize,
            },
        ),
{
    let whole = seq![0u8, size] + rest;
    assert(whole[0] == 0 && whole[1] == size);
}

/// Weather is nine bytes, and anything else is refused with its length.
pub proof fn lemma_weather_is_nine_bytes(body: Seq<u8>)
    ensures
        body.len() < 9 ==> weather_change(body) == Err::<crate::weather::WeatherChange, Error>(
            Error::Truncated { what: "SMSG_WEATHER", at: 0, need: 9, len: body.len() as usize },
        ),
        body.len() > 9 ==> weather_change(body) == Err::<crate::weather::WeatherChange, Error>(
            Error::Trailing { what: "SMSG_WEATHER", got: (body.len() - 9) as usize },
        ),
        body.len() == 9 ==> weather_change(body) is Ok,
{
}

} // verus!
