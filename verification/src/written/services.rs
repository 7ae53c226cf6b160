//! What vendors, trainers, flight masters and traders send reads back as
//! written, and so do the weather, fights, powers and the clock.
use crate::combat::{attack_start, attack_stop, melee_swing, Fight, MeleeSwing};
use crate::cursor::Cursor;
use crate::order::lemma_filter_members;
use crate::protocol::Error;
use crate::taxi::{activate_reply, node_known, taxi_menu, TaxiMenu, TaxiMenuView, TaxiReply};
use crate::text::lossy_utf8;
use crate::trade::{
    changing_hands, fresh_session, item_in, slot_record, slot_records, trade_offer, trade_status,
    TradeItem, TradeItemView, TradeOffer, TradeOfferView, TradeSession, TradeStatus,
};
use crate::trainer::{
    spell_record, trainer_list, TrainerList, TrainerListView, TrainerSpell, TrainerSpellState,
};
use crate::update::{
    calendar, login_set_time_speed, power_field, power_update, read_guid, GameTime, PowerUpdate,
};
use crate::vendor::{vendor_list, vendor_row, VendorItem, VendorList, VendorListView};
use crate::weather::{clamped, weather_change, weather_of, Weather, WeatherChange};
use crate::wire::{bytes32, group_word_lengths, holds, le32};
use crate::written::handshake::lemma_one_word_reads_back;
use crate::written::queries::{lemma_signs_survive, word_of};
use crate::written::{
    behind, blank, group_written, in_a_row, lemma_last, lemma_next, lemma_row_at, lemma_row_len,
    lemma_row_reads_back, lemma_stands, lemma_whole, reads_back, written, zero_free, Piece,
};
use vstd::prelude::*;

verus! {

broadcast use group_word_lengths;

/// The word for what something costs beside money.
pub open spec fn other_cost(one: VendorItem) -> u32 {
    match one.extended_cost {
        Some(row) => row,
        None => 0,
    }
}

/// A row of a vendor's list. An endless stock is written as any negative
/// number.
pub open spec fn row_pieces(one: VendorItem, stock: u32) -> Seq<Piece> {
    seq![
        Piece::Words(seq![
            one.slot,
            one.entry,
            one.display_id,
            stock,
            one.price,
            one.unknown,
            one.buy_count,
            other_cost(one),
        ]),
    ]
}

/// Whether a word stands for what is left in stock, and no cost is written as
/// the lack of one.
pub open spec fn sells(one: VendorItem, stock: u32) -> bool {
    &&& match one.remaining {
        Some(left) => stock == left && left < 0x8000_0000,
        None => stock >= 0x8000_0000,
    }
    &&& one.extended_cost != Some(0u32)
}

/// A vendor's list reads back row by row: slot, entry, display, stock, price,
/// and how many a purchase brings.
pub proof fn lemma_vendor_list_reads_back(vendor: u64, rows: Seq<(VendorItem, u32)>, list: VendorList)
    requires
        rows.len() < 0x100,
        forall|i: int| 0 <= i < rows.len() ==> sells((#[trigger] rows[i]).0, rows[i].1),
        list.vendor == vendor,
        list.items@ == rows.map_values(|row: (VendorItem, u32)| row.0),
    ensures
        vendor_list(
            written(
                seq![
                    Piece::Long(vendor),
                    Piece::Byte(rows.len() as u8),
                    Piece::Bytes(
                        in_a_row(
                            rows,
                            |row: (VendorItem, u32)| written(row_pieces(row.0, row.1)),
                        ),
                    ),
                ],
            ),
        ) == Ok::<VendorListView, Error>(list@),
{
    let bytes = |row: (VendorItem, u32)| written(row_pieces(row.0, row.1));
    let pieces = seq![
        Piece::Long(vendor),
        Piece::Byte(rows.len() as u8),
        Piece::Bytes(in_a_row(rows, bytes)),
    ];
    let body = written(pieces);
    let c = Cursor::over(body, "SMSG_LIST_INVENTORY");
    let end = body.len() as int;
    lemma_whole(pieces, "SMSG_LIST_INVENTORY");
    lemma_next(c, pieces, 0, end);
    lemma_next(c.take(8), pieces, 1, end);
    let c2 = c.take(8).take(1);
    lemma_next(c2, pieces, 2, end);
    lemma_last(behind(c2, pieces[2]), pieces, end);
    assert forall|i: int| 0 <= i < rows.len() implies (#[trigger] bytes(rows[i])).len() == 32 by {
        lemma_row_size(rows[i].0, rows[i].1);
    }
    lemma_row_len(rows, bytes, 32);
    let items = vendor_list(body)->Ok_0.items;
    assert(items =~= list.items@) by {
        assert forall|i: int| 0 <= i < rows.len() implies items[i] == rows[i].0 by {
            lemma_row_at(body, 9, rows, bytes, 32, i);
            lemma_vendor_row(body, 9 + 32 * i, rows[i].0, rows[i].1);
        }
    }
}

proof fn lemma_row_size(one: VendorItem, stock: u32)
    ensures
        written(row_pieces(one, stock)).len() == 32,
{
    broadcast use group_written;

}

proof fn lemma_vendor_row(body: Seq<u8>, at: int, one: VendorItem, stock: u32)
    requires
        sells(one, stock),
        0 <= at <= body.len(),
        holds(body, at, written(row_pieces(one, stock))),
    ensures
        vendor_row(body, at) == one,
{
    let c = Cursor { at, ..Cursor::over(body, "") };
    let pieces = row_pieces(one, stock);
    let end = at + written(pieces).len();
    lemma_stands(c, pieces);
    lemma_next(c, pieces, 0, end);
    let c1 = c.words(8);
    assert(c.nth(0) == one.slot);
    assert(c.nth(1) == one.entry);
    assert(c.nth(2) == one.display_id);
    assert(c.nth(3) == stock);
    assert(c.nth(4) == one.price);
    assert(c.nth(5) == one.unknown);
    assert(c.nth(6) == one.buy_count);
    assert(c.nth(7) == other_cost(one));
    lemma_last(c1, pieces, end);
}

/// The byte that stands for a state.
pub open spec fn state_byte(state: TrainerSpellState) -> u8 {
    match state {
        TrainerSpellState::Available => 0,
        TrainerSpellState::Unavailable => 1,
        TrainerSpellState::Known => 2,
        TrainerSpellState::Unknown(byte) => byte,
    }
}

/// The word for the skill that a spell wants.
pub open spec fn skill_word(one: TrainerSpell) -> u32 {
    match one.required_skill {
        Some(skill) => skill,
        None => 0,
    }
}

/// A row of a trainer's list. The spells that must be known take three words,
/// of which some may be zero.
pub open spec fn lesson_pieces(one: TrainerSpell, slots: Seq<u32>) -> Seq<Piece> {
    seq![
        Piece::Word(one.spell),
        Piece::Byte(state_byte(one.state)),
        Piece::Words(seq![one.cost, one.profession.0, one.profession.1]),
        Piece::Byte(one.required_level),
        Piece::Words(seq![skill_word(one), one.required_skill_value, slots[0], slots[1], slots[2]]),
    ]
}

/// Whether a row can be written: no name is given to a number, nor a number to
/// the lack of one, and the slots hold the spells that must be known.
pub open spec fn teaches(one: TrainerSpell, slots: Seq<u32>) -> bool {
    &&& one.state matches TrainerSpellState::Unknown(byte) ==> byte > 2
    &&& one.required_skill != Some(0u32)
    &&& slots.len() == 3
    &&& one.required_spells@ == slots.filter(|word: u32| word != 0)
}

/// A row of a trainer's list reads back.
pub proof fn lemma_lesson_reads_back(c: Cursor, one: TrainerSpell, slots: Seq<u32>)
    requires
        c.sound(),
        teaches(one, slots),
        holds(c.data, c.at, written(lesson_pieces(one, slots))),
    ensures
        spell_record(c) == (
            one@,
            (Cursor { at: c.at + written(lesson_pieces(one, slots)).len(), ..c }),
        ),
{
    let pieces = lesson_pieces(one, slots);
    let end = c.at + written(pieces).len();
    lemma_stands(c, pieces);
    lemma_next(c, pieces, 0, end);
    let c1 = c.take(4);
    lemma_next(c1, pieces, 1, end);
    let c2 = c1.take(1);
    lemma_next(c2, pieces, 2, end);
    let c3 = c2.words(3);
    assert(c2.nth(0) == one.cost);
    assert(c2.nth(1) == one.profession.0);
    assert(c2.nth(2) == one.profession.1);
    lemma_next(c3, pieces, 3, end);
    let c4 = c3.take(1);
    lemma_next(c4, pieces, 4, end);
    let c5 = c4.words(5);
    assert(c4.nth(0) == skill_word(one));
    assert(c4.nth(1) == one.required_skill_value);
    assert(c4.nth(2) == slots[0]);
    assert(c4.nth(3) == slots[1]);
    assert(c4.nth(4) == slots[2]);
    lemma_last(c5, pieces, end);
    assert(seq![c4.nth(2), c4.nth(3), c4.nth(4)] =~= slots);
}

proof fn lemma_lesson_size(one: TrainerSpell, slots: Seq<u32>)
    ensures
        written(lesson_pieces(one, slots)).len() == 38,
{
    broadcast use group_written;

    assert(lesson_pieces(one, slots) =~= blank().push(Piece::Word(one.spell)).push(
        Piece::Byte(state_byte(one.state)),
    ).push(Piece::Words(seq![one.cost, one.profession.0, one.profession.1])).push(
        Piece::Byte(one.required_level),
    ).push(
        Piece::Words(
            seq![skill_word(one), one.required_skill_value, slots[0], slots[1], slots[2]],
        ),
    ));
}

/// A trainer's list reads back: who teaches, every row in its place, and the
/// greeting behind the last.
pub proof fn lemma_trainer_list_reads_back(
    trainer: u64,
    kind: u32,
    rows: Seq<(TrainerSpell, Seq<u32>)>,
    greeting: Seq<u8>,
)
    requires
        rows.len() <= u32::MAX,
        zero_free(greeting),
        forall|i: int| 0 <= i < rows.len() ==> teaches((#[trigger] rows[i]).0, rows[i].1),
    ensures
        trainer_list(
            written(
                seq![
                    Piece::Long(trainer),
                    Piece::Words(seq![kind, rows.len() as u32]),
                    Piece::Bytes(
                        in_a_row(
                            rows,
                            |row: (TrainerSpell, Seq<u32>)| written(lesson_pieces(row.0, row.1)),
                        ),
                    ),
                    Piece::Text(greeting),
                ],
            ),
        ) == Ok::<TrainerListView, Error>(
            TrainerListView {
                trainer,
                kind,
                spells: rows.map_values(|row: (TrainerSpell, Seq<u32>)| row.0@),
                greeting: lossy_utf8(greeting),
            },
        ),
{
    let bytes = |row: (TrainerSpell, Seq<u32>)| written(lesson_pieces(row.0, row.1));
    let value = |row: (TrainerSpell, Seq<u32>)| row.0@;
    let record = |c: Cursor| spell_record(c);
    let pieces = seq![
        Piece::Long(trainer),
        Piece::Words(seq![kind, rows.len() as u32]),
        Piece::Bytes(in_a_row(rows, bytes)),
        Piece::Text(greeting),
    ];
    let body = written(pieces);
    let c = Cursor::over(body, "SMSG_TRAINER_LIST");
    let end = body.len() as int;
    lemma_whole(pieces, "SMSG_TRAINER_LIST");
    lemma_next(c, pieces, 0, end);
    let c1 = c.take(8);
    lemma_next(c1, pieces, 1, end);
    assert(c1.nth(0) == kind);
    assert(c1.nth(1) == rows.len());
    let c2 = c1.words(2);
    lemma_next(c2, pieces, 2, end);
    assert forall|i: int| 0 <= i < rows.len() implies (#[trigger] bytes(rows[i])).len() == 38 by {
        lemma_lesson_size(rows[i].0, rows[i].1);
    }
    lemma_row_len(rows, bytes, 38);
    assert forall|i: int| 0 <= i < rows.len() implies reads_back(
        #[trigger] rows[i],
        bytes,
        value,
        record,
    ) by {
        let row = rows[i];
        assert forall|d: Cursor| d.sound() && holds(d.data, d.at, bytes(row)) implies
            #[trigger] record(d) == (value(row), (Cursor { at: d.at + bytes(row).len(), ..d })) by {
            lemma_lesson_reads_back(d, row.0, row.1);
        }
    }
    lemma_row_reads_back(c2, rows, bytes, value, record);
    let c3 = behind(c2, pieces[2]);
    lemma_next(c3, pieces, 3, end);
    lemma_last(c3.cstring(), pieces, end);
}

/// A trainer's list is what it says of itself.
pub proof fn lemma_a_trainer_list_is_its_parts(list: TrainerList)
    ensures
        list@.trainer == list.trainer,
        list@.kind == list.kind,
        list@.greeting == list.greeting@,
        list@.spells.len() == list.spells@.len(),
        forall|i: int|
            0 <= i < list.spells@.len() ==> (#[trigger] list@.spells[i]) == list.spells@[i]@,
{
}

/// A flight master's offer reads back: who, where, and the mask of what is
/// known.
pub proof fn lemma_taxi_menu_reads_back(menu: TaxiMenu)
    ensures
        taxi_menu(
            written(
                seq![
                    Piece::Word(menu.unknown),
                    Piece::Long(menu.npc),
                    Piece::Word(menu.current_node),
                    Piece::Words(menu.known@),
                ],
            ),
        ) == Ok::<TaxiMenuView, Error>(menu@),
{
    let pieces = seq![
        Piece::Word(menu.unknown),
        Piece::Long(menu.npc),
        Piece::Word(menu.current_node),
        Piece::Words(menu.known@),
    ];
    let body = written(pieces);
    let c = Cursor::over(body, "SMSG_SHOWTAXINODES");
    let end = body.len() as int;
    lemma_whole(pieces, "SMSG_SHOWTAXINODES");
    lemma_next(c, pieces, 0, end);
    let c1 = c.take(4);
    lemma_next(c1, pieces, 1, end);
    let c2 = c1.take(8);
    lemma_next(c2, pieces, 2, end);
    let c3 = c2.take(4);
    lemma_next(c3, pieces, 3, end);
    let c4 = c3.words(14);
    lemma_last(c4, pieces, end);
    assert(Seq::new(14, |k: int| le32(body, 16 + 4 * k)) =~= menu.known@) by {
        assert forall|k: int| 0 <= k < 14 implies le32(body, 16 + 4 * k) == menu.known@[k] by {
            assert(c3.nth(k) == menu.known@[k]);
        }
    }
}

/// A node is known where its own bit is set, the low bit of the first word
/// being that of node zero, and no node past the mask is.
pub proof fn lemma_a_node_is_known_by_its_bit(known: Seq<u32>, word: int, bit: u32)
    requires
        0 <= word < 14,
        bit < 32,
    ensures
        node_known(known, 32 * word + bit) <==> (known[word] >> bit) & 1 == 1,
        forall|node: int| node >= 448 ==> !#[trigger] node_known(known, node),
{
    let mask = known[word];
    assert((32 * word + bit) / 32 == word && (32 * word + bit) % 32 == bit);
    assert((mask & (1u32 << bit) != 0) == ((mask >> bit) & 1 == 1)) by (bit_vector)
        requires
            bit < 32,
    ;
}

/// A flight is accepted by a zero, and any other code is a refusal that keeps
/// its number.
pub proof fn lemma_flight_reply_reads_back(code: u32)
    ensures
        activate_reply(bytes32(0)) == Ok::<TaxiReply, Error>(TaxiReply::Accepted),
        code != 0 ==> activate_reply(bytes32(code)) == Ok::<TaxiReply, Error>(
            TaxiReply::Refused(code),
        ),
{
    lemma_one_word_reads_back(0, "SMSG_ACTIVATETAXIREPLY");
    lemma_one_word_reads_back(code, "SMSG_ACTIVATETAXIREPLY");
}

/// A slot of an offer: its index, the item, who wrapped it, what was done to
/// it, who made it, and its state.
pub open spec fn slot_pieces(one: TradeItem, wrapped: u32) -> Seq<Piece> {
    seq![
        Piece::Byte(one.slot),
        Piece::Words(seq![one.entry, one.display_id, one.count, wrapped]),
        Piece::Long(one.gift_creator),
        Piece::Words(seq![one.enchant, one.gems@[0], one.gems@[1], one.gems@[2]]),
        Piece::Long(one.creator),
        Piece::Words(seq![
            one.charges,
            one.suffix_factor,
            word_of(one.random_property),
            one.lock_id,
            one.max_durability,
            one.durability,
        ]),
    ]
}

/// A slot of an offer reads back.
pub proof fn lemma_trade_slot_reads_back(c: Cursor, one: TradeItem, wrapped: u32)
    requires
        c.sound(),
        one.wrapped == (wrapped != 0),
        holds(c.data, c.at, written(slot_pieces(one, wrapped))),
    ensures
        slot_record(c, one.slot as int) == (
            one@,
            (Cursor { at: c.at + written(slot_pieces(one, wrapped)).len(), ..c }),
        ),
{
    let pieces = slot_pieces(one, wrapped);
    let end = c.at + written(pieces).len();
    lemma_stands(c, pieces);
    lemma_next(c, pieces, 0, end);
    let c1 = c.take(1);
    lemma_next(c1, pieces, 1, end);
    let c2 = c1.words(4);
    assert(c1.nth(0) == one.entry);
    assert(c1.nth(1) == one.display_id);
    assert(c1.nth(2) == one.count);
    assert(c1.nth(3) == wrapped);
    lemma_next(c2, pieces, 2, end);
    let c3 = c2.take(8);
    lemma_next(c3, pieces, 3, end);
    let c4 = c3.words(4);
    assert(c3.nth(0) == one.enchant);
    assert(c3.nth(1) == one.gems@[0]);
    assert(c3.nth(2) == one.gems@[1]);
    assert(c3.nth(3) == one.gems@[2]);
    lemma_next(c4, pieces, 4, end);
    let c5 = c4.take(8);
    lemma_next(c5, pieces, 5, end);
    let c6 = c5.words(6);
    assert(c5.nth(0) == one.charges);
    assert(c5.nth(1) == one.suffix_factor);
    assert(c5.nth(2) == word_of(one.random_property));
    assert(c5.nth(3) == one.lock_id);
    assert(c5.nth(4) == one.max_durability);
    assert(c5.nth(5) == one.durability);
    lemma_last(c6, pieces, end);
    lemma_signs_survive(one.random_property);
    assert(seq![c3.nth(1), c3.nth(2), c3.nth(3)] =~= one.gems@);
}

/// The items on the table, which are those of the slots that name one.
pub open spec fn on_the_table(slots: Seq<(TradeItem, u32)>) -> Seq<TradeItemView> {
    slots.filter(|one: (TradeItem, u32)| one.0.entry != 0).map_values(
        |one: (TradeItem, u32)| one.0@,
    )
}

proof fn lemma_slots_read_back(c: Cursor, slots: Seq<(TradeItem, u32)>, index: int)
    requires
        c.sound(),
        slots.len() == 7,
        0 <= index <= 7,
        forall|i: int| 0 <= i < 7 ==> (#[trigger] slots[i]).0.slot == i,
        forall|i: int| 0 <= i < 7 ==> (#[trigger] slots[i]).0.wrapped == (slots[i].1 != 0),
        holds(
            c.data,
            c.at,
            in_a_row(
                slots.skip(index),
                |one: (TradeItem, u32)| written(slot_pieces(one.0, one.1)),
            ),
        ),
    ensures
        slot_records(on_the_table(slots.take(index)), c, index) == (
            on_the_table(slots),
            (Cursor {
                at: c.at + in_a_row(
                    slots.skip(index),
                    |one: (TradeItem, u32)| written(slot_pieces(one.0, one.1)),
                ).len(),
                ..c
            }),
        ),
    decreases 7 - index,
{
    let bytes = |one: (TradeItem, u32)| written(slot_pieces(one.0, one.1));
    if index == 7 {
        assert(slots.take(7) =~= slots);
    } else {
        let rest = slots.skip(index);
        let one = slots[index];
        assert(rest[0] == one);
        assert(rest.skip(1) =~= slots.skip(index + 1));
        crate::wire::lemma_holds_both(c.data, c.at, bytes(one), in_a_row(rest.skip(1), bytes));
        lemma_trade_slot_reads_back(c, one.0, one.1);
        let next = slot_record(c, index).1;
        assert(slots.take(index + 1).drop_last() =~= slots.take(index));
        assert(slots.take(index + 1).last() == one);
        assert(on_the_table(slots.take(index + 1)) =~= if one.0.entry != 0 {
            on_the_table(slots.take(index)).push(one.0@)
        } else {
            on_the_table(slots.take(index))
        }) by {
            reveal(Seq::filter);
        }
        lemma_slots_read_back(next, slots, index + 1);
    }
}

/// An offer reads back: whose it is, its money and its spell, and the item of
/// every slot that has one.
pub proof fn lemma_trade_offer_reads_back(
    theirs: u8,
    token: u32,
    count: u32,
    again: u32,
    money: u32,
    spell: u32,
    slots: Seq<(TradeItem, u32)>,
)
    requires
        slots.len() == 7,
        forall|i: int| 0 <= i < 7 ==> (#[trigger] slots[i]).0.slot == i,
        forall|i: int| 0 <= i < 7 ==> (#[trigger] slots[i]).0.wrapped == (slots[i].1 != 0),
    ensures
        trade_offer(
            written(
                seq![
                    Piece::Byte(theirs),
                    Piece::Words(seq![token, count, again, money, spell]),
                    Piece::Bytes(
                        in_a_row(
                            slots,
                            |one: (TradeItem, u32)| written(slot_pieces(one.0, one.1)),
                        ),
                    ),
                ],
            ),
        ) == Ok::<TradeOfferView, Error>(
            TradeOfferView {
                theirs: theirs != 0,
                token,
                slot_count: count,
                slot_count_again: again,
                money,
                spell,
                items: on_the_table(slots),
            },
        ),
{
    let bytes = |one: (TradeItem, u32)| written(slot_pieces(one.0, one.1));
    let pieces = seq![
        Piece::Byte(theirs),
        Piece::Words(seq![token, count, again, money, spell]),
        Piece::Bytes(in_a_row(slots, bytes)),
    ];
    let body = written(pieces);
    let c = Cursor::over(body, "SMSG_TRADE_STATUS_EXTENDED");
    let end = body.len() as int;
    lemma_whole(pieces, "SMSG_TRADE_STATUS_EXTENDED");
    lemma_next(c, pieces, 0, end);
    let c1 = c.take(1);
    lemma_next(c1, pieces, 1, end);
    assert(c1.nth(0) == token);
    assert(c1.nth(1) == count);
    assert(c1.nth(2) == again);
    assert(c1.nth(3) == money);
    assert(c1.nth(4) == spell);
    let c2 = c1.words(5);
    lemma_next(c2, pieces, 2, end);
    lemma_last(behind(c2, pieces[2]), pieces, end);
    assert(slots.skip(0) =~= slots);
    assert(on_the_table(slots.take(0)) =~= seq![]) by {
        reveal(Seq::filter);
    }
    lemma_slots_read_back(c2, slots, 0);
}

/// An offer is its parts.
pub proof fn lemma_an_offer_is_its_parts(offer: TradeOffer)
    ensures
        offer@.theirs == offer.theirs,
        offer@.token == offer.token,
        offer@.slot_count == offer.slot_count,
        offer@.slot_count_again == offer.slot_count_again,
        offer@.money == offer.money,
        offer@.spell == offer.spell,
        offer@.items.len() == offer.items@.len(),
        forall|i: int|
            0 <= i < offer.items@.len() ==> (#[trigger] offer@.items[i]) == offer.items@[i]@,
{
}

/// A session is its parts.
pub proof fn lemma_a_session_is_its_parts(session: TradeSession)
    ensures
        session@.partner == session.partner,
        session@.token == session.token,
        session@.we_asked == session.we_asked,
        session@.open == session.open,
        session@.ours == session.ours@,
        session@.our_money == session.our_money,
        session@.partner_accepted == session.partner_accepted,
        session@.accepted == session.accepted,
        session.theirs is None <==> session@.theirs is None,
        session.theirs matches Some(offer) ==> session@.theirs == Some(offer@),
{
}

/// A fresh session has a partner and nothing on the table, and nobody has
/// accepted.
pub proof fn lemma_a_fresh_session_is_empty(partner: u64, we_asked: bool, slot: int)
    requires
        0 <= slot < 7,
    ensures
        ({
            let session = fresh_session(Some(partner), we_asked);
            &&& session.partner == Some(partner)
            &&& session.we_asked == we_asked
            &&& session.ours.len() == 7
            &&& session.ours[slot] is None
            &&& session.our_money == 0
            &&& session.token == 0
            &&& session.theirs is None
            &&& !session.open && !session.accepted && !session.partner_accepted
        }),
{
}

/// What is found in a slot lies in that slot and is the first that does, and
/// nothing is found only where nothing lies there.
pub proof fn lemma_what_lies_in_a_slot(items: Seq<TradeItemView>, slot: u8)
    ensures
        match item_in(items, slot) {
            Some(item) => exists|i: int|
                0 <= i < items.len() && #[trigger] items[i] == item && item.slot == slot && forall|
                    j: int,
                |
                    0 <= j < i ==> (#[trigger] items[j]).slot != slot,
            None => forall|i: int| 0 <= i < items.len() ==> (#[trigger] items[i]).slot != slot,
        },
    decreases items.len(),
{
    if items.len() > 0 && items[0].slot != slot {
        let rest = items.drop_first();
        lemma_what_lies_in_a_slot(rest, slot);
        match item_in(items, slot) {
            Some(item) => {
                let i = choose|i: int|
                    0 <= i < rest.len() && #[trigger] rest[i] == item && item.slot == slot
                        && forall|j: int| 0 <= j < i ==> (#[trigger] rest[j]).slot != slot;
                assert(items[i + 1] == item);
                assert forall|j: int| 0 <= j < i + 1 implies (#[trigger] items[j]).slot != slot by {
                    if j > 0 {
                        assert(rest[j - 1] == items[j]);
                    }
                }
            },
            None => {
                assert forall|i: int| 0 <= i < items.len() implies (#[trigger] items[i]).slot
                    != slot by {
                    if i > 0 {
                        assert(rest[i - 1] == items[i]);
                    }
                }
            },
        }
    } else if items.len() > 0 {
        assert(items[0] == item_in(items, slot)->0);
    }
}

/// What changes hands is what does not lie in the seventh slot, each once and
/// in its order.
pub proof fn lemma_the_last_slot_does_not_change_hands(items: Seq<TradeItemView>, item: TradeItemView)
    ensures
        changing_hands(items).contains(item) <==> items.contains(item) && item.slot != 6,
        changing_hands(items).len() <= items.len(),
{
    let keep = |item: TradeItemView| item.slot != 6;
    assert(changing_hands(items) == items.filter(keep)) by {
        assert(keep =~= (|item: TradeItemView| item.slot != crate::trade::NONTRADED_SLOT));
    }
    lemma_filter_members(items, keep, item);
}

/// The word that stands for a status.
pub open spec fn status_code(status: TradeStatus) -> u32 {
    match status {
        TradeStatus::Busy => 0,
        TradeStatus::Begin { partner } => 1,
        TradeStatus::OpenWindow { token } => 2,
        TradeStatus::Cancelled => 3,
        TradeStatus::Accepted => 4,
        TradeStatus::NoTarget => 6,
        TradeStatus::BackToTrade => 7,
        TradeStatus::Complete => 8,
        TradeStatus::TooFar => 10,
        TradeStatus::Other(code) => code,
    }
}

/// A status as it is written: its word, and what it carries.
pub open spec fn status_pieces(status: TradeStatus, tail: Seq<u8>) -> Seq<Piece> {
    let code = Piece::Word(status_code(status));
    match status {
        TradeStatus::Begin { partner } => seq![code, Piece::Long(partner)],
        TradeStatus::OpenWindow { token } => seq![code, Piece::Word(token)],
        TradeStatus::NoTarget => seq![code, Piece::Bytes(tail)],
        TradeStatus::Other(_) => seq![code, Piece::Bytes(tail)],
        _ => seq![code],
    }
}

/// A status reads back, with whom it names and the token it carries. A number
/// that has a name is not read as one that has none.
pub proof fn lemma_trade_status_reads_back(status: TradeStatus, tail: Seq<u8>)
    requires
        status matches TradeStatus::Other(code) ==> code == 5 || code == 9 || code > 10,
    ensures
        trade_status(written(status_pieces(status, tail))) == Ok::<TradeStatus, Error>(status),
{
    let pieces = status_pieces(status, tail);
    let body = written(pieces);
    let c = Cursor::over(body, "SMSG_TRADE_STATUS");
    let end = body.len() as int;
    lemma_whole(pieces, "SMSG_TRADE_STATUS");
    lemma_next(c, pieces, 0, end);
    let c1 = c.take(4);
    if pieces.len() == 2 {
        lemma_next(c1, pieces, 1, end);
        lemma_last(behind(c1, pieces[1]), pieces, end);
    } else {
        lemma_last(c1, pieces, end);
    }
}

/// The word that stands for a state of the sky.
pub open spec fn weather_code(weather: Weather) -> u32 {
    match weather {
        Weather::Fine => 0,
        Weather::Fog => 1,
        Weather::LightRain => 3,
        Weather::MediumRain => 4,
        Weather::HeavyRain => 5,
        Weather::LightSnow => 6,
        Weather::MediumSnow => 7,
        Weather::HeavySnow => 8,
        Weather::LightSandstorm => 22,
        Weather::MediumSandstorm => 41,
        Weather::HeavySandstorm => 42,
        Weather::Thunders => 86,
        Weather::BlackRain => 90,
        Weather::BlackSnow => 106,
        Weather::Unknown(raw) => raw,
    }
}

/// Weather reads back: its state, how hard it comes down, and how suddenly. An
/// intensity from zero to one, as the bits of a float, is kept as it is.
pub proof fn lemma_weather_reads_back(weather: Weather, intensity: u32, abrupt: u8)
    requires
        weather matches Weather::Unknown(raw) ==> weather_of(raw) is Unknown,
        intensity <= 0x3F80_0000,
    ensures
        weather_change(
            written(
                seq![
                    Piece::Word(weather_code(weather)),
                    Piece::Word(intensity),
                    Piece::Byte(abrupt),
                ],
            ),
        ) == Ok::<WeatherChange, Error>(
            WeatherChange { weather, intensity, abrupt: abrupt != 0 },
        ),
{
    let pieces = seq![
        Piece::Word(weather_code(weather)),
        Piece::Word(intensity),
        Piece::Byte(abrupt),
    ];
    let body = written(pieces);
    let c = Cursor::over(body, "SMSG_WEATHER");
    let end = body.len() as int;
    lemma_whole(pieces, "SMSG_WEATHER");
    lemma_next(c, pieces, 0, end);
    let c1 = c.take(4);
    lemma_next(c1, pieces, 1, end);
    let c2 = c1.take(4);
    lemma_next(c2, pieces, 2, end);
    let c3 = c2.take(1);
    lemma_last(c3, pieces, end);
}

/// An intensity above one counts as one, and one that is negative, or no
/// finite number, as none at all.
pub proof fn lemma_intensity_is_brought_into_range(bits: u32)
    ensures
        0x3F80_0000 < bits < 0x7F80_0000 ==> clamped(bits) == 0x3F80_0000,
        0x7F80_0000 <= bits < 0x8000_0000 ==> clamped(bits) == 0,
        bits > 0x8000_0000 ==> clamped(bits) == 0,
{
}

/// A swing reads back: who struck whom, how hard, and how much of it was too
/// much.
pub proof fn lemma_swing_reads_back(swing: MeleeSwing, share: u32, absorbed: u32, state: u8, first: u32, second: u32)
    ensures
        melee_swing(
            written(
                seq![
                    Piece::Word(swing.hit_info),
                    Piece::Guid(swing.attacker),
                    Piece::Guid(swing.victim),
                    Piece::Words(seq![swing.damage, swing.overkill]),
                    Piece::Byte(1),
                    Piece::Words(seq![swing.school, share, absorbed]),
                    Piece::Byte(state),
                    Piece::Words(seq![first, second]),
                ],
            ),
        ) == Ok::<MeleeSwing, Error>(swing),
{
    let pieces = seq![
        Piece::Word(swing.hit_info),
        Piece::Guid(swing.attacker),
        Piece::Guid(swing.victim),
        Piece::Words(seq![swing.damage, swing.overkill]),
        Piece::Byte(1),
        Piece::Words(seq![swing.school, share, absorbed]),
        Piece::Byte(state),
        Piece::Words(seq![first, second]),
    ];
    let body = written(pieces);
    let c = Cursor::over(body, "SMSG_ATTACKERSTATEUPDATE");
    let end = body.len() as int;
    lemma_whole(pieces, "SMSG_ATTACKERSTATEUPDATE");
    lemma_next(c, pieces, 0, end);
    let c1 = c.take(4);
    lemma_next(c1, pieces, 1, end);
    let c2 = read_guid(c1).1;
    lemma_next(c2, pieces, 2, end);
    let c3 = read_guid(c2).1;
    lemma_next(c3, pieces, 3, end);
    let c4 = c3.words(2);
    assert(c3.nth(0) == swing.damage);
    assert(c3.nth(1) == swing.overkill);
    lemma_next(c4, pieces, 4, end);
    let c5 = c4.take(1);
    lemma_next(c5, pieces, 5, end);
    let c6 = c5.words(3);
    assert(c5.nth(0) == swing.school);
    lemma_next(c6, pieces, 6, end);
    let c7 = c6.take(1);
    lemma_next(c7, pieces, 7, end);
    let c8 = c7.words(2);
    lemma_last(c8, pieces, end);
}

/// The start of a fight names the attacker before the victim, both unpacked.
pub proof fn lemma_fight_start_reads_back(fight: Fight)
    ensures
        attack_start(
            written(
                seq![
                    Piece::Long(fight.attacker),
                    Piece::Long(fight.victim),
                ],
            ),
        ) == Ok::<Fight, Error>(fight),
{
    let pieces = seq![
        Piece::Long(fight.attacker),
        Piece::Long(fight.victim),
    ];
    let body = written(pieces);
    let c = Cursor::over(body, "SMSG_ATTACKSTART");
    let end = body.len() as int;
    lemma_whole(pieces, "SMSG_ATTACKSTART");
    lemma_next(c, pieces, 0, end);
    let c1 = c.take(8);
    lemma_next(c1, pieces, 1, end);
    let c2 = c1.take(8);
    lemma_last(c2, pieces, end);
}

/// The end of a fight names them in the same order, both packed.
pub proof fn lemma_fight_stop_reads_back(fight: Fight, unknown: u32)
    ensures
        attack_stop(
            written(
                seq![
                    Piece::Guid(fight.attacker),
                    Piece::Guid(fight.victim),
                    Piece::Word(unknown),
                ],
            ),
        ) == Ok::<Fight, Error>(fight),
{
    let pieces = seq![
        Piece::Guid(fight.attacker),
        Piece::Guid(fight.victim),
        Piece::Word(unknown),
    ];
    let body = written(pieces);
    let c = Cursor::over(body, "SMSG_ATTACKSTOP");
    let end = body.len() as int;
    lemma_whole(pieces, "SMSG_ATTACKSTOP");
    lemma_next(c, pieces, 0, end);
    let c1 = read_guid(c).1;
    lemma_next(c1, pieces, 1, end);
    let c2 = read_guid(c1).1;
    lemma_next(c2, pieces, 2, end);
    let c3 = c2.take(4);
    lemma_last(c3, pieces, end);
}

/// A power that changed reads back: whose, which, and how much there is now.
pub proof fn lemma_power_reads_back(power: PowerUpdate)
    ensures
        power_update(
            written(
                seq![
                    Piece::Guid(power.guid),
                    Piece::Byte(power.power_type),
                    Piece::Word(power.value),
                ],
            ),
        ) == Ok::<PowerUpdate, Error>(power),
{
    let pieces = seq![
        Piece::Guid(power.guid),
        Piece::Byte(power.power_type),
        Piece::Word(power.value),
    ];
    let body = written(pieces);
    let c = Cursor::over(body, "SMSG_POWER_UPDATE");
    let end = body.len() as int;
    lemma_whole(pieces, "SMSG_POWER_UPDATE");
    lemma_next(c, pieces, 0, end);
    let c1 = read_guid(c).1;
    lemma_next(c1, pieces, 1, end);
    let c2 = c1.take(1);
    lemma_next(c2, pieces, 2, end);
    let c3 = c2.take(4);
    lemma_last(c3, pieces, end);
}

/// A power lies as many fields behind the first as its number says, and there
/// are seven.
pub proof fn lemma_powers_lie_in_a_row(power_type: u8)
    ensures
        power_type < 7 ==> power_field(power_type) == Some((0x19 + power_type) as u16),
        power_type >= 7 ==> power_field(power_type) is None,
{
}

/// A date and a time in one word, from the low bits up: minute, hour, weekday,
/// day, month and year.
pub open spec fn packed_date(time: GameTime) -> u32 {
    (time.minute + 0x40 * time.hour + 0x800 * time.weekday + 0x4000 * time.day + 0x10_0000
        * time.month + 0x100_0000 * time.year) as u32
}

/// The realm's clock reads back: every part of the date, and how fast it runs.
pub proof fn lemma_clock_reads_back(time: GameTime, unknown: u32)
    requires
        time.minute < 0x40,
        time.hour < 0x20,
        time.weekday < 0x8,
        time.day < 0x40,
        time.month < 0x10,
    ensures
        login_set_time_speed(
            written(
                seq![
                    Piece::Words(seq![packed_date(time), time.speed, unknown]),
                ],
            ),
        ) == Ok::<GameTime, Error>(time),
{
    let pieces = seq![
        Piece::Words(seq![packed_date(time), time.speed, unknown]),
    ];
    let body = written(pieces);
    let c = Cursor::over(body, "SMSG_LOGIN_SETTIMESPEED");
    let end = body.len() as int;
    lemma_whole(pieces, "SMSG_LOGIN_SETTIMESPEED");
    lemma_next(c, pieces, 0, end);
    let c1 = c.words(3);
    assert(c.nth(0) == packed_date(time));
    assert(c.nth(1) == time.speed);
    lemma_last(c1, pieces, end);
    lemma_date_unpacks(time);
}

proof fn lemma_date_unpacks(time: GameTime)
    requires
        time.minute < 0x40,
        time.hour < 0x20,
        time.weekday < 0x8,
        time.day < 0x40,
        time.month < 0x10,
    ensures
        calendar(packed_date(time), time.speed) == time,
{
    let year = time.year as int;
    let month = time.month + 0x10 * year;
    let day = time.day + 0x40 * month;
    let weekday = time.weekday + 0x8 * day;
    let hour = time.hour + 0x20 * weekday;
    let all = time.minute + 0x40 * hour;
    assert(packed_date(time) == all);
    assert(all / 0x40 == hour && all % 0x40 == time.minute);
    assert(hour / 0x20 == weekday && hour % 0x20 == time.hour);
    assert(weekday / 0x8 == day && weekday % 0x8 == time.weekday);
    assert(day / 0x40 == month && day % 0x40 == time.day);
    assert(month / 0x10 == year && month % 0x10 == time.month);
    assert(all / 0x800 == weekday);
    assert(all / 0x4000 == day);
    assert(all / 0x10_0000 == month);
    assert(all / 0x100_0000 == year);
}

} // verus!
