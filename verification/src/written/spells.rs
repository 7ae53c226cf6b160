//! What arrives about spells reads back as written, and what is cast is
//! written in the order that the server reads it.
use crate::cursor::{many, Cursor};
use crate::protocol::Error;
use crate::spell::{
    cast_failed, cast_head, cooldown_event, cooldown_record, hit_list, initial_spells,
    known_spell, raw_guid, spell_cooldown, spell_go, spell_start, target_bytes, time_left,
    use_bytes, CastFailed, InitialSpells, InitialSpellsView, KnownSpell, SpellCooldown,
    SpellCooldownEvent, SpellGo, SpellGoView, SpellStart,
};
use crate::update::read_guid;
use crate::wire::{group_word_lengths, holds};
use crate::written::{
    behind, blank, group_written, in_a_row, lemma_last, lemma_next, lemma_row_len,
    lemma_row_reads_back, lemma_stands, lemma_whole, reads_back, row_of_words, written, Piece,
};
use vstd::prelude::*;

verus! {

broadcast use group_word_lengths;

/// A known spell: its id, then its slot.
pub open spec fn known_pieces(one: KnownSpell) -> Seq<Piece> {
    seq![
        Piece::Word(one.id),
        Piece::Short(one.slot),
    ]
}

proof fn lemma_known_reads_back(one: KnownSpell)
    ensures
        reads_back(
            one,
            |one: KnownSpell| written(known_pieces(one)),
            |one: KnownSpell| one,
            |c: Cursor| known_spell(c),
        ),
{
    let bytes = |one: KnownSpell| written(known_pieces(one));
    let record = |c: Cursor| known_spell(c);
    assert forall|c: Cursor| c.sound() && holds(c.data, c.at, bytes(one)) implies
        #[trigger] record(c) == (one, (Cursor { at: c.at + bytes(one).len(), ..c })) by {
        let pieces = known_pieces(one);
        let end = c.at + written(pieces).len();
        lemma_stands(c, pieces);
        lemma_next(c, pieces, 0, end);
        let c1 = c.take(4);
        lemma_next(c1, pieces, 1, end);
        let c2 = c1.take(2);
        lemma_last(c2, pieces, end);
    }
}

/// Such records read back one after the other.
proof fn lemma_known_row(c: Cursor, row: Seq<KnownSpell>)
    requires
        c.sound(),
        holds(c.data, c.at, in_a_row(row, |one: KnownSpell| written(known_pieces(one)))),
    ensures
        many(c, row.len(), |c: Cursor| known_spell(c)) == (
            row,
            (Cursor {
                at: c.at + in_a_row(row, |one: KnownSpell| written(known_pieces(one))).len(),
                ..c
            }),
        ),
{
    assert forall|i: int| 0 <= i < row.len() implies reads_back(
        #[trigger] row[i],
        |one: KnownSpell| written(known_pieces(one)),
        |one: KnownSpell| one,
        |c: Cursor| known_spell(c),
    ) by {
        lemma_known_reads_back(row[i]);
    }
    lemma_row_reads_back(
        c,
        row,
        |one: KnownSpell| written(known_pieces(one)),
        |one: KnownSpell| one,
        |c: Cursor| known_spell(c),
    );
    assert(row.map_values(|one: KnownSpell| one) =~= row);
}

/// A cooldown: the spell, the item, the category, and then the spell's own time
/// before its category's.
pub open spec fn cooldown_pieces(one: SpellCooldown) -> Seq<Piece> {
    seq![
        Piece::Word(one.spell_id),
        Piece::Short(one.item_id),
        Piece::Short(one.category),
        Piece::Words(seq![one.cooldown_ms, one.category_cooldown_ms]),
    ]
}

proof fn lemma_cooldown_reads_back(one: SpellCooldown)
    ensures
        reads_back(
            one,
            |one: SpellCooldown| written(cooldown_pieces(one)),
            |one: SpellCooldown| one,
            |c: Cursor| cooldown_record(c),
        ),
{
    let bytes = |one: SpellCooldown| written(cooldown_pieces(one));
    let record = |c: Cursor| cooldown_record(c);
    assert forall|c: Cursor| c.sound() && holds(c.data, c.at, bytes(one)) implies
        #[trigger] record(c) == (one, (Cursor { at: c.at + bytes(one).len(), ..c })) by {
        let pieces = cooldown_pieces(one);
        let end = c.at + written(pieces).len();
        lemma_stands(c, pieces);
        lemma_next(c, pieces, 0, end);
        let c1 = c.take(4);
        lemma_next(c1, pieces, 1, end);
        let c2 = c1.take(2);
        lemma_next(c2, pieces, 2, end);
        let c3 = c2.take(2);
        lemma_next(c3, pieces, 3, end);
        let c4 = c3.words(2);
        assert(c3.nth(0) == one.cooldown_ms);
        assert(c3.nth(1) == one.category_cooldown_ms);
        lemma_last(c4, pieces, end);
    }
}

/// Such records read back one after the other.
proof fn lemma_cooldown_row(c: Cursor, row: Seq<SpellCooldown>)
    requires
        c.sound(),
        holds(c.data, c.at, in_a_row(row, |one: SpellCooldown| written(cooldown_pieces(one)))),
    ensures
        many(c, row.len(), |c: Cursor| cooldown_record(c)) == (
            row,
            (Cursor {
                at: c.at + in_a_row(row, |one: SpellCooldown| written(cooldown_pieces(one))).len(),
                ..c
            }),
        ),
{
    assert forall|i: int| 0 <= i < row.len() implies reads_back(
        #[trigger] row[i],
        |one: SpellCooldown| written(cooldown_pieces(one)),
        |one: SpellCooldown| one,
        |c: Cursor| cooldown_record(c),
    ) by {
        lemma_cooldown_reads_back(row[i]);
    }
    lemma_row_reads_back(
        c,
        row,
        |one: SpellCooldown| written(cooldown_pieces(one)),
        |one: SpellCooldown| one,
        |c: Cursor| cooldown_record(c),
    );
    assert(row.map_values(|one: SpellCooldown| one) =~= row);
}

/// A cooldown that a cast began: the spell, then its time.
pub open spec fn event_pieces(one: SpellCooldownEvent) -> Seq<Piece> {
    seq![
        Piece::Words(seq![one.spell_id, one.cooldown_ms]),
    ]
}

proof fn lemma_event_reads_back(one: SpellCooldownEvent)
    ensures
        reads_back(
            one,
            |one: SpellCooldownEvent| written(event_pieces(one)),
            |one: SpellCooldownEvent| one,
            |c: Cursor| cooldown_event(c),
        ),
{
    let bytes = |one: SpellCooldownEvent| written(event_pieces(one));
    let record = |c: Cursor| cooldown_event(c);
    assert forall|c: Cursor| c.sound() && holds(c.data, c.at, bytes(one)) implies
        #[trigger] record(c) == (one, (Cursor { at: c.at + bytes(one).len(), ..c })) by {
        let pieces = event_pieces(one);
        let end = c.at + written(pieces).len();
        lemma_stands(c, pieces);
        lemma_next(c, pieces, 0, end);
        let c1 = c.words(2);
        assert(c.nth(0) == one.spell_id);
        assert(c.nth(1) == one.cooldown_ms);
        lemma_last(c1, pieces, end);
    }
}

/// Such records read back one after the other.
proof fn lemma_event_row(c: Cursor, row: Seq<SpellCooldownEvent>)
    requires
        c.sound(),
        holds(c.data, c.at, in_a_row(row, |one: SpellCooldownEvent| written(event_pieces(one)))),
    ensures
        many(c, row.len(), |c: Cursor| cooldown_event(c)) == (
            row,
            (Cursor {
                at: c.at + in_a_row(row, |one: SpellCooldownEvent| written(event_pieces(one))).len(),
                ..c
            }),
        ),
{
    assert forall|i: int| 0 <= i < row.len() implies reads_back(
        #[trigger] row[i],
        |one: SpellCooldownEvent| written(event_pieces(one)),
        |one: SpellCooldownEvent| one,
        |c: Cursor| cooldown_event(c),
    ) by {
        lemma_event_reads_back(row[i]);
    }
    lemma_row_reads_back(
        c,
        row,
        |one: SpellCooldownEvent| written(event_pieces(one)),
        |one: SpellCooldownEvent| one,
        |c: Cursor| cooldown_event(c),
    );
    assert(row.map_values(|one: SpellCooldownEvent| one) =~= row);
}

/// A guid that was hit, unpacked.
pub open spec fn hit_pieces(one: u64) -> Seq<Piece> {
    seq![
        Piece::Long(one),
    ]
}

proof fn lemma_hit_reads_back(one: u64)
    ensures
        reads_back(
            one,
            |one: u64| written(hit_pieces(one)),
            |one: u64| one,
            |c: Cursor| raw_guid(c),
        ),
{
    let bytes = |one: u64| written(hit_pieces(one));
    let record = |c: Cursor| raw_guid(c);
    assert forall|c: Cursor| c.sound() && holds(c.data, c.at, bytes(one)) implies
        #[trigger] record(c) == (one, (Cursor { at: c.at + bytes(one).len(), ..c })) by {
        let pieces = hit_pieces(one);
        let end = c.at + written(pieces).len();
        lemma_stands(c, pieces);
        lemma_next(c, pieces, 0, end);
        let c1 = c.take(8);
        lemma_last(c1, pieces, end);
    }
}

/// Such records read back one after the other.
proof fn lemma_hit_row(c: Cursor, row: Seq<u64>)
    requires
        c.sound(),
        holds(c.data, c.at, in_a_row(row, |one: u64| written(hit_pieces(one)))),
    ensures
        many(c, row.len(), |c: Cursor| raw_guid(c)) == (
            row,
            (Cursor {
                at: c.at + in_a_row(row, |one: u64| written(hit_pieces(one))).len(),
                ..c
            }),
        ),
{
    assert forall|i: int| 0 <= i < row.len() implies reads_back(
        #[trigger] row[i],
        |one: u64| written(hit_pieces(one)),
        |one: u64| one,
        |c: Cursor| raw_guid(c),
    ) by {
        lemma_hit_reads_back(row[i]);
    }
    lemma_row_reads_back(
        c,
        row,
        |one: u64| written(hit_pieces(one)),
        |one: u64| one,
        |c: Cursor| raw_guid(c),
    );
    assert(row.map_values(|one: u64| one) =~= row);
}

/// A spellbook: the spells behind their number, then the cooldowns behind the
/// number that was announced.
pub open spec fn book_pieces(unknown: u8, book: InitialSpells) -> Seq<Piece> {
    seq![
        Piece::Byte(unknown),
        Piece::Short(book.spells@.len() as u16),
        Piece::Bytes(in_a_row(book.spells@, |one: KnownSpell| written(known_pieces(one)))),
        Piece::Short(book.cooldowns_announced),
        Piece::Bytes(in_a_row(book.cooldowns@, |one: SpellCooldown| written(cooldown_pieces(one)))),
    ]
}

/// A spellbook reads back, every spell and every cooldown in its place,
/// however many cooldowns were announced beyond those that are there.
pub proof fn lemma_spellbook_reads_back(unknown: u8, book: InitialSpells)
    requires
        book.spells@.len() <= u16::MAX,
        book.cooldowns@.len() <= book.cooldowns_announced,
    ensures
        initial_spells(written(book_pieces(unknown, book))) == Ok::<InitialSpellsView, Error>(
            book@,
        ),
{
    broadcast use group_written;

    let pieces = book_pieces(unknown, book);
    let body = written(pieces);
    let c = Cursor::over(body, "SMSG_INITIAL_SPELLS");
    let end = body.len() as int;
    lemma_whole(pieces, "SMSG_INITIAL_SPELLS");
    lemma_next(c, pieces, 0, end);
    lemma_next(c.take(1), pieces, 1, end);
    let c2 = c.take(1).take(2);
    lemma_next(c2, pieces, 2, end);
    lemma_known_row(c2, book.spells@);
    let c3 = behind(c2, pieces[2]);
    lemma_next(c3, pieces, 3, end);
    let c4 = c3.take(2);
    lemma_next(c4, pieces, 4, end);
    lemma_last(behind(c4, pieces[4]), pieces, end);
    assert forall|i: int| 0 <= i < book.cooldowns@.len() implies (#[trigger] written(
        cooldown_pieces(book.cooldowns@[i]),
    )).len() == 16 by {
        lemma_cooldown_len(book.cooldowns@[i]);
    }
    lemma_row_len(book.cooldowns@, |one: SpellCooldown| written(cooldown_pieces(one)), 16);
    assert(c4.left() == 16 * book.cooldowns@.len());
    lemma_cooldown_row(c4, book.cooldowns@);
}

proof fn lemma_cooldown_len(one: SpellCooldown)
    ensures
        written(cooldown_pieces(one)).len() == 16,
{
    broadcast use group_written;

    let times = seq![one.cooldown_ms, one.category_cooldown_ms];
    assert(row_of_words(times).len() == 8);
    assert(cooldown_pieces(one) =~= blank().push(Piece::Word(one.spell_id)).push(
        Piece::Short(one.item_id),
    ).push(Piece::Short(one.category)).push(Piece::Words(times)));
}

proof fn lemma_event_len(one: SpellCooldownEvent)
    ensures
        written(event_pieces(one)).len() == 8,
{
    broadcast use group_written;

    let words = seq![one.spell_id, one.cooldown_ms];
    assert(row_of_words(words).len() == 8);
    assert(event_pieces(one) =~= blank().push(Piece::Words(words)));
}

/// The cooldowns that casts began read back: whose they are, and each spell
/// with its own time.
pub proof fn lemma_cooldowns_read_back(caster: u64, flags: u8, events: Seq<SpellCooldownEvent>)
    ensures
        spell_cooldown(
            written(
                seq![
                    Piece::Long(caster),
                    Piece::Byte(flags),
                    Piece::Bytes(
                        in_a_row(events, |one: SpellCooldownEvent| written(event_pieces(one))),
                    ),
                ],
            ),
        ) == Ok::<(u64, Seq<SpellCooldownEvent>), Error>((caster, events)),
{
    let bytes = |one: SpellCooldownEvent| written(event_pieces(one));
    let pieces = seq![
        Piece::Long(caster),
        Piece::Byte(flags),
        Piece::Bytes(in_a_row(events, bytes)),
    ];
    let body = written(pieces);
    let c = Cursor::over(body, "SMSG_SPELL_COOLDOWN");
    let end = body.len() as int;
    lemma_whole(pieces, "SMSG_SPELL_COOLDOWN");
    lemma_next(c, pieces, 0, end);
    lemma_next(c.take(8), pieces, 1, end);
    let c2 = c.take(8).take(1);
    lemma_next(c2, pieces, 2, end);
    lemma_last(behind(c2, pieces[2]), pieces, end);
    assert forall|i: int| 0 <= i < events.len() implies (#[trigger] bytes(events[i])).len()
        == 8 by {
        lemma_event_len(events[i]);
    }
    lemma_row_len(events, bytes, 8);
    assert(c2.left() == 8 * events.len());
    lemma_event_row(c2, events);
}

/// A cast that begins, aimed at a unit or a game object.
pub open spec fn start_pieces(sent: SpellStart, flags: u32) -> Seq<Piece> {
    seq![
        Piece::Guid(sent.cast_item),
        Piece::Guid(sent.caster),
        Piece::Byte(sent.cast_count),
        Piece::Word(sent.spell_id),
        Piece::Word(sent.cast_flags),
        Piece::Word(sent.cast_time_ms),
        Piece::Word(flags),
        Piece::Guid(sent.target),
    ]
}

/// The start of a cast reads back: who casts what for how long, and at whom.
pub proof fn lemma_spell_start_reads_back(sent: SpellStart, flags: u32)
    requires
        flags == 0x2 || flags == 0x800,
        sent.trailing == None::<u32>,
    ensures
        spell_start(written(start_pieces(sent, flags))) == Ok::<SpellStart, Error>(sent),
{
    let pieces = start_pieces(sent, flags);
    let body = written(pieces);
    let c = Cursor::over(body, "SMSG_SPELL_START");
    let end = body.len() as int;
    lemma_whole(pieces, "SMSG_SPELL_START");
    lemma_next(c, pieces, 0, end);
    let c1 = read_guid(c).1;
    lemma_next(c1, pieces, 1, end);
    let c2 = read_guid(c1).1;
    lemma_next(c2, pieces, 2, end);
    let c3 = c2.take(1);
    lemma_next(c3, pieces, 3, end);
    let c4 = c3.take(4);
    lemma_next(c4, pieces, 4, end);
    let c5 = c4.take(4);
    lemma_next(c5, pieces, 5, end);
    let c6 = c5.take(4);
    lemma_next(c6, pieces, 6, end);
    let c7 = c6.take(4);
    lemma_next(c7, pieces, 7, end);
    let c8 = read_guid(c7).1;
    lemma_last(c8, pieces, end);
}

/// The same with a word behind the target.
pub open spec fn start_with_cost_pieces(sent: SpellStart, flags: u32, last: u32) -> Seq<Piece> {
    seq![
        Piece::Guid(sent.cast_item),
        Piece::Guid(sent.caster),
        Piece::Byte(sent.cast_count),
        Piece::Word(sent.spell_id),
        Piece::Word(sent.cast_flags),
        Piece::Word(sent.cast_time_ms),
        Piece::Word(flags),
        Piece::Guid(sent.target),
        Piece::Word(last),
    ]
}

/// The start of a cast with a word behind its target reads back: who casts what for how long, and at whom.
pub proof fn lemma_spell_start_with_cost_reads_back(sent: SpellStart, flags: u32, last: u32)
    requires
        flags == 0x2 || flags == 0x800,
        sent.trailing == Some(last),
    ensures
        spell_start(written(start_with_cost_pieces(sent, flags, last))) == Ok::<SpellStart, Error>(sent),
{
    let pieces = start_with_cost_pieces(sent, flags, last);
    let body = written(pieces);
    let c = Cursor::over(body, "SMSG_SPELL_START");
    let end = body.len() as int;
    lemma_whole(pieces, "SMSG_SPELL_START");
    lemma_next(c, pieces, 0, end);
    let c1 = read_guid(c).1;
    lemma_next(c1, pieces, 1, end);
    let c2 = read_guid(c1).1;
    lemma_next(c2, pieces, 2, end);
    let c3 = c2.take(1);
    lemma_next(c3, pieces, 3, end);
    let c4 = c3.take(4);
    lemma_next(c4, pieces, 4, end);
    let c5 = c4.take(4);
    lemma_next(c5, pieces, 5, end);
    let c6 = c5.take(4);
    lemma_next(c6, pieces, 6, end);
    let c7 = c6.take(4);
    lemma_next(c7, pieces, 7, end);
    let c8 = read_guid(c7).1;
    lemma_next(c8, pieces, 8, end);
    let c9 = c8.take(4);
    lemma_last(c9, pieces, end);
}

/// A cast that lands: its hits, no misses, and its target.
pub open spec fn landing_pieces(sent: SpellGo, flags: u32) -> Seq<Piece> {
    seq![
        Piece::Guid(sent.cast_item),
        Piece::Guid(sent.caster),
        Piece::Byte(sent.cast_count),
        Piece::Word(sent.spell_id),
        Piece::Word(sent.cast_flags),
        Piece::Word(sent.timestamp),
        Piece::Byte(sent.hits@.len() as u8),
        Piece::Bytes(in_a_row(sent.hits@, |one: u64| written(hit_pieces(one)))),
        Piece::Byte(0),
        Piece::Word(flags),
        Piece::Guid(sent.target),
    ]
}

/// The landing of a cast reads back: who cast what and when, whom it hit, and
/// at whom it was aimed.
pub proof fn lemma_spell_landing_reads_back(sent: SpellGo, flags: u32)
    requires
        flags == 0x2 || flags == 0x800,
        sent.hits@.len() < 0x100,
        sent.trailing == None::<u32>,
    ensures
        spell_go(written(landing_pieces(sent, flags))) == Ok::<SpellGoView, Error>(sent@),
{
    let pieces = landing_pieces(sent, flags);
    let body = written(pieces);
    let c = Cursor::over(body, "SMSG_SPELL_GO");
    let end = body.len() as int;
    lemma_whole(pieces, "SMSG_SPELL_GO");
    lemma_next(c, pieces, 0, end);
    let c1 = read_guid(c).1;
    lemma_next(c1, pieces, 1, end);
    let c2 = read_guid(c1).1;
    lemma_next(c2, pieces, 2, end);
    let c3 = c2.take(1);
    lemma_next(c3, pieces, 3, end);
    let c4 = c3.take(4);
    lemma_next(c4, pieces, 4, end);
    let c5 = c4.take(4);
    lemma_next(c5, pieces, 5, end);
    let c6 = c5.take(4);
    lemma_next(c6, pieces, 6, end);
    let c7 = c6.take(1);
    lemma_next(c7, pieces, 7, end);
    lemma_hit_row(c7, sent.hits@);
    let c8 = hit_list(c7, c6.byte()).1;
    lemma_next(c8, pieces, 8, end);
    let c9 = c8.take(1);
    lemma_next(c9, pieces, 9, end);
    let c10 = c9.take(4);
    lemma_next(c10, pieces, 10, end);
    let c11 = read_guid(c10).1;
    lemma_last(c11, pieces, end);
}

/// The same with a word behind the target.
pub open spec fn landing_with_cost_pieces(sent: SpellGo, flags: u32, last: u32) -> Seq<Piece> {
    seq![
        Piece::Guid(sent.cast_item),
        Piece::Guid(sent.caster),
        Piece::Byte(sent.cast_count),
        Piece::Word(sent.spell_id),
        Piece::Word(sent.cast_flags),
        Piece::Word(sent.timestamp),
        Piece::Byte(sent.hits@.len() as u8),
        Piece::Bytes(in_a_row(sent.hits@, |one: u64| written(hit_pieces(one)))),
        Piece::Byte(0),
        Piece::Word(flags),
        Piece::Guid(sent.target),
        Piece::Word(last),
    ]
}

/// The landing of a cast with a word behind its target reads back: who cast what and when, whom it hit, and
/// at whom it was aimed.
pub proof fn lemma_spell_landing_with_cost_reads_back(sent: SpellGo, flags: u32, last: u32)
    requires
        flags == 0x2 || flags == 0x800,
        sent.hits@.len() < 0x100,
        sent.trailing == Some(last),
    ensures
        spell_go(written(landing_with_cost_pieces(sent, flags, last))) == Ok::<SpellGoView, Error>(sent@),
{
    let pieces = landing_with_cost_pieces(sent, flags, last);
    let body = written(pieces);
    let c = Cursor::over(body, "SMSG_SPELL_GO");
    let end = body.len() as int;
    lemma_whole(pieces, "SMSG_SPELL_GO");
    lemma_next(c, pieces, 0, end);
    let c1 = read_guid(c).1;
    lemma_next(c1, pieces, 1, end);
    let c2 = read_guid(c1).1;
    lemma_next(c2, pieces, 2, end);
    let c3 = c2.take(1);
    lemma_next(c3, pieces, 3, end);
    let c4 = c3.take(4);
    lemma_next(c4, pieces, 4, end);
    let c5 = c4.take(4);
    lemma_next(c5, pieces, 5, end);
    let c6 = c5.take(4);
    lemma_next(c6, pieces, 6, end);
    let c7 = c6.take(1);
    lemma_next(c7, pieces, 7, end);
    lemma_hit_row(c7, sent.hits@);
    let c8 = hit_list(c7, c6.byte()).1;
    lemma_next(c8, pieces, 8, end);
    let c9 = c8.take(1);
    lemma_next(c9, pieces, 9, end);
    let c10 = c9.take(4);
    lemma_next(c10, pieces, 10, end);
    let c11 = read_guid(c10).1;
    lemma_next(c11, pieces, 11, end);
    let c12 = c11.take(4);
    lemma_last(c12, pieces, end);
}

/// A refused cast reads back: which cast, which spell and why, whatever stands
/// behind the reason.
pub proof fn lemma_cast_failure_reads_back(sent: CastFailed, rest: Seq<u8>)
    ensures
        cast_failed(
            written(
                seq![
                    Piece::Byte(sent.cast_count),
                    Piece::Word(sent.spell_id),
                    Piece::Byte(sent.reason),
                    Piece::Bytes(rest),
                ],
            ),
        ) == Ok::<CastFailed, Error>(sent),
{
    let pieces = seq![
        Piece::Byte(sent.cast_count),
        Piece::Word(sent.spell_id),
        Piece::Byte(sent.reason),
        Piece::Bytes(rest),
    ];
    let body = written(pieces);
    let c = Cursor::over(body, "SMSG_CAST_FAILED");
    let end = body.len() as int;
    lemma_whole(pieces, "SMSG_CAST_FAILED");
    lemma_next(c, pieces, 0, end);
    let c1 = c.take(1);
    lemma_next(c1, pieces, 1, end);
    let c2 = c1.take(4);
    lemma_next(c2, pieces, 2, end);
    let c3 = c2.take(1);
    lemma_next(c3, pieces, 3, end);
    let c4 = c3.take(rest.len() as int);
    lemma_last(c4, pieces, end);
}

/// The target of a cast: a mask, and a guid where the mask announces one.
pub open spec fn aim_pieces(target: Option<u64>) -> Seq<Piece> {
    match target {
        Some(guid) => blank().push(Piece::Word(2)).push(Piece::Guid(guid)),
        None => blank().push(Piece::Word(0)),
    }
}

/// A cast is its count, the spell, its flags, and then its target.
pub proof fn lemma_cast_is_written_in_order(spell_id: u32, target: Option<u64>)
    ensures
        cast_head(spell_id) + target_bytes(target) == written(
            blank().push(Piece::Byte(0)).push(Piece::Word(spell_id)).push(Piece::Byte(0)).push(
                Piece::Bytes(written(aim_pieces(target))),
            ),
        ),
{
    broadcast use group_written;

    assert(target_bytes(target) =~= written(aim_pieces(target)));
}

/// The use of an item is where it lies, its count, the spell, the item's own
/// guid, no glyph, its flags, and then its target.
pub proof fn lemma_use_is_written_in_order(
    bag: u8,
    slot: u8,
    item_guid: u64,
    spell_id: u32,
    target: Option<u64>,
)
    ensures
        use_bytes(bag, slot, item_guid, spell_id, target) == written(
            blank().push(Piece::Byte(bag)).push(Piece::Byte(slot)).push(Piece::Byte(0)).push(
                Piece::Word(spell_id),
            ).push(Piece::Long(item_guid)).push(Piece::Word(0)).push(Piece::Byte(0)).push(
                Piece::Bytes(written(aim_pieces(target))),
            ),
        ),
{
    broadcast use group_written;

    assert(target_bytes(target) =~= written(aim_pieces(target)));
    let place = blank().push(Piece::Byte(bag)).push(Piece::Byte(slot)).push(Piece::Byte(0));
    assert(written(place) =~= seq![bag, slot, 0u8]);
}

/// A cooldown lasts as long as its longer time, and the word that means no end
/// is no time.
pub proof fn lemma_time_left_covers_both(cooldown: SpellCooldown)
    ensures
        time_left(cooldown) is None <==> cooldown.category_cooldown_ms == 0x8000_0000,
        time_left(cooldown) matches Some(ms) ==> {
            &&& ms >= cooldown.cooldown_ms
            &&& ms >= cooldown.category_cooldown_ms
            &&& ms == cooldown.cooldown_ms || ms == cooldown.category_cooldown_ms
        },
{
}

} // verus!
