//! Of a layout whose fields settle where it ends, no accepted body is the
//! beginning of another.
//!
//! Such a layout must end where its body does. So cutting anything off an
//! accepted body leaves one that is refused, also where the cut falls between
//! two fields, and so does adding to it. Both are one law: of two bodies that a
//! parser accepts, neither is a proper beginning of the other.
//!
//! The law is not one of every layout. A refused session, a bare result code, a
//! failed cast, a trade status that has no target or no name, and a path that
//! repeats may all end in bytes that are not looked at. A spellbook and a list
//! of cooldowns end in as many records as there are. A cast may end in one word
//! that need not be there, and of casts the law says as much as holds.
use crate::combat::melee_swing;
use crate::cursor::{
    lemma_cstrings_sticky, lemma_many_fixed, lemma_many_sticky, lemma_string_end, many, sticky,
    string_end, Cursor,
};
use crate::movement::{
    carried, elevated, falling, interpolating, lemma_read_info_sticky, pitched, read_carriage,
    read_info,
};
use crate::protocol::{char_enum, character, equipment_slot, relayed, Error, EQUIPMENT_SLOTS};
use crate::quest::{marker, marker_set, quest_poi, quest_query};
use crate::query::{creature_query_response, item_query_response, name_query_response, NOT_FOUND};
use crate::spell::{
    cast_header, hit_list, lemma_target_tail_sticky, raw_guid, spell_go, spell_start, target_flags,
    target_tail,
};
use crate::trainer::{spell_record, trainer_list, SPELL_BYTES};
use crate::update::{
    before_target, behind_target, block, field_values, guid_bytes, guid_list,
    lemma_field_values_sticky, lemma_guid_bytes_sticky, lemma_guid_list_sticky,
    lemma_mask_fields_sticky, lemma_movement_section_sticky, lemma_read_guid_sticky, mask_fields,
    movement_flags, movement_section, object_type, placement, read_guid, spline, update_flags,
    update_object, update_type, word_fields, UpdateType, SPLINE_FINAL_ANGLE, SPLINE_FINAL_POINT, SPLINE_FINAL_TARGET,
};
use crate::wire::{le16, le32};
use vstd::prelude::*;

verus! {

/// Whether `d` is where a reading of the first `n` bytes stands when a reading
/// of all of them stands at `c`: at the same place, unless it ran out before.
#[verifier::opaque]
pub open spec fn lags(c: Cursor, d: Cursor, n: int) -> bool {
    &&& 0 <= n < c.data.len()
    &&& c.failed is None ==> {
        &&& 0 <= c.at <= c.data.len()
        &&& d.failed is None ==> d == (Cursor { data: c.data.take(n), ..c }) && c.at <= n
    }
}

/// The start of a body and of a beginning of it.
proof fn lemma_start(body: Seq<u8>, what: &'static str, n: int)
    requires
        0 <= n < body.len(),
    ensures
        lags(Cursor::over(body, what), Cursor::over(body.take(n), what), n),
{
    reveal(lags);
}

/// Behind the end of a whole body no beginning of it can stand.
proof fn lemma_finish(c: Cursor, d: Cursor, n: int)
    requires
        lags(c, d, n),
        c.finish().failed is None,
    ensures
        d.finish().failed is Some,
{
    reveal(lags);
}

/// What both readings come upon next is the same.
proof fn lemma_same_next(c: Cursor, d: Cursor, n: int)
    requires
        lags(c, d, n),
        c.failed is None,
    ensures
        d.take(1).failed is None ==> d.byte() == c.byte(),
        d.take(4).failed is None ==> d.word() == c.word(),
        d.take(2).failed is None ==> d.short() == c.short(),
{
    reveal(lags);
    reveal(le16);
    reveal(le32);
}

proof fn lemma_same_nth(c: Cursor, d: Cursor, n: int, k: int, count: int)
    requires
        lags(c, d, n),
        c.failed is None,
        0 <= k < count,
        d.words(count).failed is None,
    ensures
        d.nth(k) == c.nth(k),
{
    reveal(lags);
    reveal(le32);
}

/// A reading that has run out stays behind whatever the other one does.
proof fn lemma_out_of_step(c: Cursor, d: Cursor, other: Cursor, n: int)
    requires
        lags(c, d, n),
        other.failed is Some,
    ensures
        lags(c, other, n),
{
    reveal(lags);
}

proof fn lemma_check_lags(c: Cursor, d: Cursor, n: int, holds: bool, other: bool, a: Error, b: Error)
    requires
        lags(c, d, n),
        c.failed is None && d.failed is None && other ==> holds,
    ensures
        lags(c.check(holds, a), d.check(other, b), n),
{
    reveal(lags);
}

proof fn lemma_octets_lag(c: Cursor, d: Cursor, n: int, count: int)
    requires
        lags(c, d, n),
        count >= 0,
    ensures
        lags(c.octets(count), d.octets(count), n),
{
    reveal(lags);
}

/// Past a field that is there in one of two cases.
proof fn lemma_maybe_take_lags(c: Cursor, d: Cursor, n: int, size: int, present: bool, other: bool)
    requires
        lags(c, d, n),
        size >= 0,
        c.failed is None && d.failed is None ==> other == present,
    ensures
        lags(
            if present {
                c.take(size)
            } else {
                c
            },
            if other {
                d.take(size)
            } else {
                d
            },
            n,
        ),
{
    reveal(lags);
}

proof fn lemma_take_lags(c: Cursor, d: Cursor, n: int, size: int, other: int)
    requires
        lags(c, d, n),
        size >= 0,
        c.failed is None && d.failed is None ==> other == size,
    ensures
        lags(c.take(size), d.take(other), n),
{
    reveal(lags);
}

proof fn lemma_words_lag(c: Cursor, d: Cursor, n: int, count: int, other: int)
    requires
        lags(c, d, n),
        count >= 0,
        c.failed is None && d.failed is None ==> other == count,
    ensures
        lags(c.words(count), d.words(other), n),
{
    reveal(lags);
}

proof fn lemma_string_end_of_beginning(data: Seq<u8>, at: int, n: int)
    requires
        0 <= at <= n <= data.len(),
    ensures
        string_end(data.take(n), at) == if string_end(data, at) < n {
            string_end(data, at)
        } else {
            n
        },
        at <= string_end(data, at),
    decreases data.len() - at,
{
    if at < n && data[at] != 0 {
        lemma_string_end_of_beginning(data, at + 1, n);
    } else if at == n {
        lemma_string_end(data, at);
    }
}

proof fn lemma_cstring_lags(c: Cursor, d: Cursor, n: int)
    requires
        lags(c, d, n),
    ensures
        lags(c.cstring(), d.cstring(), n),
{
    reveal(lags);
    if c.failed is None && d.failed is None {
        lemma_string_end_of_beginning(c.data, c.at, n);
    } else if c.failed is None {
        lemma_string_end(c.data, c.at);
    }
}

proof fn lemma_cstrings_lag(c: Cursor, d: Cursor, n: int, count: nat)
    requires
        lags(c, d, n),
    ensures
        lags(c.cstrings(count), d.cstrings(count), n),
    decreases count,
{
    if count > 0 {
        lemma_cstring_lags(c, d, n);
        lemma_cstrings_lag(c.cstring(), d.cstring(), n, (count - 1) as nat);
    }
}

proof fn lemma_guid_bytes_lag(c: Cursor, d: Cursor, n: int, mask: int, count: nat)
    requires
        lags(c, d, n),
    ensures
        lags(guid_bytes(c, mask, count).1, guid_bytes(d, mask, count).1, n),
    decreases count,
{
    reveal(lags);
    if count > 0 {
        reveal_with_fuel(guid_bytes, 2);
        lemma_guid_bytes_lag(c, d, n, mask / 2, (count - 1) as nat);
        lemma_guid_bytes_lag(c.take(1), d.take(1), n, mask / 2, (count - 1) as nat);
    }
}

proof fn lemma_read_guid_lags(c: Cursor, d: Cursor, n: int)
    requires
        lags(c, d, n),
    ensures
        lags(read_guid(c).1, read_guid(d).1, n),
{
    reveal(lags);
    lemma_guid_bytes_lag(c.take(1), d.take(1), n, c.byte() as int, 8);
    if d.take(1).failed is Some {
        lemma_guid_bytes_sticky(d.take(1), d.byte() as int, 8);
    } else if c.take(1).failed is Some {
        lemma_guid_bytes_sticky(c.take(1), c.byte() as int, 8);
    }
}

/// A record that keeps two readings in step.
pub open spec fn keeps_step<T>(record: spec_fn(Cursor) -> (T, Cursor), n: int) -> bool {
    forall|c: Cursor, d: Cursor|
        lags(c, d, n) ==> #[trigger] lags(record(c).1, record(d).1, n)
}

proof fn lemma_many_lag<T>(
    c: Cursor,
    d: Cursor,
    n: int,
    count: nat,
    record: spec_fn(Cursor) -> (T, Cursor),
)
    requires
        lags(c, d, n),
        keeps_step(record, n),
    ensures
        lags(many(c, count, record).1, many(d, count, record).1, n),
    decreases count,
{
    reveal(lags);
    if count > 0 {
        assert(lags(record(c).1, record(d).1, n));
        lemma_many_lag(record(c).1, record(d).1, n, (count - 1) as nat, record);
    }
}

/// A run of records whose count was read just before.
proof fn lemma_counted_lag<T>(
    c: Cursor,
    d: Cursor,
    n: int,
    count: nat,
    other: nat,
    record: spec_fn(Cursor) -> (T, Cursor),
)
    requires
        lags(c, d, n),
        keeps_step(record, n),
        sticky(record),
        d.failed is None && c.failed is None ==> other == count,
    ensures
        lags(many(c, count, record).1, many(d, other, record).1, n),
{
    reveal(lags);
    lemma_many_lag(c, d, n, count, record);
    if d.failed is Some {
        lemma_many_sticky(d, other, record);
    } else if c.failed is Some {
        lemma_many_sticky(c, count, record);
    }
}

/// Of the answers about players, none is the beginning of another.
pub proof fn lemma_player_names_are_prefix_free(body: Seq<u8>, n: int)
    requires
        name_query_response(body) is Ok,
        0 <= n < body.len(),
    ensures
        name_query_response(body.take(n)) is Err,
{
    broadcast use lemma_cstrings_sticky;

    let c = Cursor::over(body, "SMSG_NAME_QUERY_RESPONSE");
    let d = Cursor::over(body.take(n), "SMSG_NAME_QUERY_RESPONSE");
    lemma_start(body, "SMSG_NAME_QUERY_RESPONSE", n);
    lemma_read_guid_lags(c, d, n);
    let (c, d) = (read_guid(c).1, read_guid(d).1);
    lemma_same_next(c, d, n);
    lemma_take_lags(c, d, n, 1, 1);
    let found = c.byte() == 0;
    let (c, d) = (c.take(1), d.take(1));
    if !found {
        lemma_finish(c, d, n);
    } else {
        lemma_cstring_lags(c, d, n);
        let (c, d) = (c.cstring(), d.cstring());
        lemma_cstring_lags(c, d, n);
        let (c, d) = (c.cstring(), d.cstring());
        lemma_take_lags(c, d, n, 1, 1);
        let (c, d) = (c.take(1), d.take(1));
        lemma_take_lags(c, d, n, 1, 1);
        let (c, d) = (c.take(1), d.take(1));
        lemma_take_lags(c, d, n, 1, 1);
        let (c, d) = (c.take(1), d.take(1));
        lemma_same_next(c, d, n);
        lemma_take_lags(c, d, n, 1, 1);
        let declined = c.byte() != 0;
        let (c, d) = (c.take(1), d.take(1));
        lemma_cstrings_lag(c, d, n, 5);
        if declined {
            lemma_finish(c.cstrings(5), d.cstrings(5), n);
        } else {
            lemma_finish(c, d, n);
        }
    }
}

/// Of the answers about creatures, none is the beginning of another.
pub proof fn lemma_creature_answers_are_prefix_free(body: Seq<u8>, n: int)
    requires
        creature_query_response(body) is Ok,
        0 <= n < body.len(),
    ensures
        creature_query_response(body.take(n)) is Err,
{
    broadcast use lemma_cstrings_sticky;

    let c = Cursor::over(body, "SMSG_CREATURE_QUERY_RESPONSE");
    let d = Cursor::over(body.take(n), "SMSG_CREATURE_QUERY_RESPONSE");
    lemma_start(body, "SMSG_CREATURE_QUERY_RESPONSE", n);
    lemma_same_next(c, d, n);
    lemma_take_lags(c, d, n, 4, 4);
    let found = c.word() < NOT_FOUND;
    let (c, d) = (c.take(4), d.take(4));
    if !found {
        lemma_finish(c, d, n);
    } else {
        lemma_cstrings_lag(c, d, n, 4);
        let (c, d) = (c.cstrings(4), d.cstrings(4));
        lemma_cstrings_lag(c, d, n, 2);
        let (c, d) = (c.cstrings(2), d.cstrings(2));
        lemma_words_lag(c, d, n, 12, 12);
        let (c, d) = (c.words(12), d.words(12));
        lemma_take_lags(c, d, n, 1, 1);
        let (c, d) = (c.take(1), d.take(1));
        lemma_words_lag(c, d, n, 7, 7);
        lemma_finish(c.words(7), d.words(7), n);
    }
}

/// Of the answers about items, none is the beginning of another.
pub proof fn lemma_item_answers_are_prefix_free(body: Seq<u8>, n: int)
    requires
        item_query_response(body) is Ok,
        0 <= n < body.len(),
    ensures
        item_query_response(body.take(n)) is Err,
{
    broadcast use lemma_cstrings_sticky;

    let c = Cursor::over(body, "SMSG_ITEM_QUERY_SINGLE_RESPONSE");
    let d = Cursor::over(body.take(n), "SMSG_ITEM_QUERY_SINGLE_RESPONSE");
    lemma_start(body, "SMSG_ITEM_QUERY_SINGLE_RESPONSE", n);
    lemma_same_next(c, d, n);
    lemma_take_lags(c, d, n, 4, 4);
    let found = c.word() < NOT_FOUND;
    let (c, d) = (c.take(4), d.take(4));
    if !found {
        lemma_finish(c, d, n);
    } else {
        lemma_words_lag(c, d, n, 3, 3);
        let (c, d) = (c.words(3), d.words(3));
        lemma_cstrings_lag(c, d, n, 4);
        let (c, d) = (c.cstrings(4), d.cstrings(4));
        lemma_words_lag(c, d, n, 21, 21);
        let (c, d) = (c.words(21), d.words(21));
        lemma_same_next(c, d, n);
        lemma_take_lags(c, d, n, 4, 4);
        let (stats, other) = (2 * c.word(), 2 * d.word());
        let (c, d) = (c.take(4), d.take(4));
        lemma_words_lag(c, d, n, stats, other);
        let (c, d) = (c.words(stats), d.words(other));
        lemma_words_lag(c, d, n, 18, 18);
        let (c, d) = (c.words(18), d.words(18));
        lemma_words_lag(c, d, n, 31, 31);
        let (c, d) = (c.words(31), d.words(31));
        lemma_cstring_lags(c, d, n);
        let (c, d) = (c.cstring(), d.cstring());
        lemma_words_lag(c, d, n, 29, 29);
        lemma_finish(c.words(29), d.words(29), n);
    }
}

proof fn lemma_marker_keeps_step(n: int)
    ensures
        keeps_step(|c: Cursor| marker(c), n),
        sticky(|c: Cursor| marker(c)),
{
    reveal(marker);
    let record = |c: Cursor| marker(c);
    assert forall|c: Cursor, d: Cursor| lags(c, d, n) implies #[trigger] lags(
        record(c).1,
        record(d).1,
        n,
    ) by {
        lemma_words_lag(c, d, n, 8, 8);
        if c.failed is None && d.words(8).failed is None {
            lemma_same_nth(c, d, n, 7, 8);
        }
        lemma_words_lag(c.words(8), d.words(8), n, 2 * c.nth(7), 2 * d.nth(7));
    }
}

proof fn lemma_marker_set_keeps_step(n: int)
    ensures
        keeps_step(|c: Cursor| marker_set(c), n),
        sticky(|c: Cursor| marker_set(c)),
{
    reveal(marker_set);
    lemma_marker_keeps_step(n);
    let record = |c: Cursor| marker_set(c);
    let inner = |c: Cursor| marker(c);
    assert forall|c: Cursor, d: Cursor| lags(c, d, n) implies #[trigger] lags(
        record(c).1,
        record(d).1,
        n,
    ) by {
        lemma_words_lag(c, d, n, 2, 2);
        if c.failed is None && d.words(2).failed is None {
            lemma_same_nth(c, d, n, 1, 2);
        }
        lemma_counted_lag(c.words(2), d.words(2), n, c.nth(1) as nat, d.nth(1) as nat, inner);
    }
    assert forall|c: Cursor| c.failed is Some implies #[trigger] record(c).1 == c by {
        lemma_many_sticky(c.words(2), c.nth(1) as nat, inner);
    }
}

/// Of the marker replies, none is the beginning of another.
pub proof fn lemma_quest_markers_are_prefix_free(body: Seq<u8>, n: int)
    requires
        quest_poi(body) is Ok,
        0 <= n < body.len(),
    ensures
        quest_poi(body.take(n)) is Err,
{
    let record = |c: Cursor| marker_set(c);
    let c = Cursor::over(body, "SMSG_QUEST_POI_QUERY_RESPONSE");
    let d = Cursor::over(body.take(n), "SMSG_QUEST_POI_QUERY_RESPONSE");
    lemma_start(body, "SMSG_QUEST_POI_QUERY_RESPONSE", n);
    lemma_same_next(c, d, n);
    lemma_take_lags(c, d, n, 4, 4);
    lemma_marker_set_keeps_step(n);
    let (count, other) = (c.word() as nat, d.word() as nat);
    let (c, d) = (c.take(4), d.take(4));
    lemma_counted_lag(c, d, n, count, other, record);
    lemma_finish(many(c, count, record).1, many(d, other, record).1, n);
}

/// Of the answers about quests, none is the beginning of another.
pub proof fn lemma_quest_answers_are_prefix_free(body: Seq<u8>, n: int)
    requires
        quest_query(body) is Ok,
        0 <= n < body.len(),
    ensures
        quest_query(body.take(n)) is Err,
{
    broadcast use lemma_cstrings_sticky;

    reveal(quest_query);
    let c = Cursor::over(body, "SMSG_QUEST_QUERY_RESPONSE");
    let d = Cursor::over(body.take(n), "SMSG_QUEST_QUERY_RESPONSE");
    lemma_start(body, "SMSG_QUEST_QUERY_RESPONSE", n);
    lemma_words_lag(c, d, n, 65, 65);
    let (c, d) = (c.words(65), d.words(65));
    lemma_cstrings_lag(c, d, n, 5);
    let (c, d) = (c.cstrings(5), d.cstrings(5));
    lemma_words_lag(c, d, n, 16, 16);
    let (c, d) = (c.words(16), d.words(16));
    lemma_words_lag(c, d, n, 12, 12);
    let (c, d) = (c.words(12), d.words(12));
    lemma_cstrings_lag(c, d, n, 4);
    lemma_finish(c.cstrings(4), d.cstrings(4), n);
}

proof fn lemma_equipment_keeps_step(n: int)
    ensures
        keeps_step(|c: Cursor| equipment_slot(c), n),
{
    let record = |c: Cursor| equipment_slot(c);
    assert forall|c: Cursor, d: Cursor| lags(c, d, n) implies #[trigger] lags(
        record(c).1,
        record(d).1,
        n,
    ) by {
        lemma_take_lags(c, d, n, 4, 4);
        lemma_take_lags(c.take(4), d.take(4), n, 1, 1);
        lemma_take_lags(c.take(4).take(1), d.take(4).take(1), n, 4, 4);
    }
}

proof fn lemma_character_keeps_step(n: int)
    ensures
        keeps_step(|c: Cursor| character(c), n),
        sticky(|c: Cursor| character(c)),
{
    let record = |c: Cursor| character(c);
    let slot = |c: Cursor| equipment_slot(c);
    lemma_equipment_keeps_step(n);
    assert forall|c: Cursor, d: Cursor| lags(c, d, n) implies #[trigger] lags(
        record(c).1,
        record(d).1,
        n,
    ) by {
        lemma_take_lags(c, d, n, 8, 8);
        let (c, d) = (c.take(8), d.take(8));
        lemma_cstring_lags(c, d, n);
        let (c, d) = (c.cstring(), d.cstring());
        lemma_octets_lag(c, d, n, 9);
        let (c, d) = (c.octets(9), d.octets(9));
        lemma_words_lag(c, d, n, 8, 8);
        let (c, d) = (c.words(8), d.words(8));
        lemma_take_lags(c, d, n, 1, 1);
        let (c, d) = (c.take(1), d.take(1));
        lemma_words_lag(c, d, n, 3, 3);
        lemma_many_lag(c.words(3), d.words(3), n, EQUIPMENT_SLOTS as nat, slot);
    }
    assert forall|c: Cursor| c.failed is Some implies #[trigger] record(c).1 == c by {
        lemma_many_sticky(c, EQUIPMENT_SLOTS as nat, slot);
    }
}

/// Of the character lists, none is the beginning of another.
pub proof fn lemma_character_lists_are_prefix_free(body: Seq<u8>, n: int)
    requires
        char_enum(body) is Ok,
        0 <= n < body.len(),
    ensures
        char_enum(body.take(n)) is Err,
{
    let record = |c: Cursor| character(c);
    let c = Cursor::over(body, "SMSG_CHAR_ENUM");
    let d = Cursor::over(body.take(n), "SMSG_CHAR_ENUM");
    lemma_start(body, "SMSG_CHAR_ENUM", n);
    lemma_same_next(c, d, n);
    lemma_take_lags(c, d, n, 1, 1);
    lemma_character_keeps_step(n);
    let (count, other) = (c.byte() as nat, d.byte() as nat);
    let (c, d) = (c.take(1), d.take(1));
    lemma_counted_lag(c, d, n, count, other, record);
    lemma_finish(many(c, count, record).1, many(d, other, record).1, n);
}

proof fn lemma_carriage_lags(c: Cursor, d: Cursor, n: int, flags2: u16)
    requires
        lags(c, d, n),
    ensures
        lags(read_carriage(c, flags2).1, read_carriage(d, flags2).1, n),
        d.failed is Some ==> read_carriage(d, flags2).1 == d,
{
    broadcast use lemma_read_guid_sticky;

    lemma_read_guid_lags(c, d, n);
    let (c, d) = (read_guid(c).1, read_guid(d).1);
    lemma_words_lag(c, d, n, 4, 4);
    let (c, d) = (c.words(4), d.words(4));
    lemma_take_lags(c, d, n, 4, 4);
    let (c, d) = (c.take(4), d.take(4));
    lemma_take_lags(c, d, n, 1, 1);
    let (c, d) = (c.take(1), d.take(1));
    lemma_maybe_take_lags(c, d, n, 4, interpolating(flags2), interpolating(flags2));
}

/// What follows the place in a movement state.
spec fn info_tail(base: Cursor, flags: u32, flags2: u16) -> Cursor {
    let turn = if carried(flags) {
        read_carriage(base, flags2).1
    } else {
        base
    };
    let drop = if pitched(flags, flags2) {
        turn.take(4)
    } else {
        turn
    };
    let jump = drop.take(4);
    let rise = if falling(flags) {
        jump.words(4)
    } else {
        jump
    };
    if elevated(flags) {
        rise.take(4)
    } else {
        rise
    }
}

proof fn lemma_info_tail_lags(c: Cursor, d: Cursor, n: int, flags: u32, flags2: u16)
    requires
        lags(c, d, n),
    ensures
        lags(info_tail(c, flags, flags2), info_tail(d, flags, flags2), n),
{
    lemma_carriage_lags(c, d, n, flags2);
    let (c, d) = if carried(flags) {
        (read_carriage(c, flags2).1, read_carriage(d, flags2).1)
    } else {
        (c, d)
    };
    lemma_maybe_take_lags(c, d, n, 4, pitched(flags, flags2), pitched(flags, flags2));
    let (c, d) = if pitched(flags, flags2) {
        (c.take(4), d.take(4))
    } else {
        (c, d)
    };
    lemma_take_lags(c, d, n, 4, 4);
    let (c, d) = (c.take(4), d.take(4));
    lemma_words_lag(c, d, n, 4, 4);
    let (c, d) = if falling(flags) {
        (c.words(4), d.words(4))
    } else {
        (c, d)
    };
    lemma_maybe_take_lags(c, d, n, 4, elevated(flags), elevated(flags));
}

proof fn lemma_info_tail_sticky(c: Cursor, flags: u32, flags2: u16)
    requires
        c.failed is Some,
    ensures
        info_tail(c, flags, flags2) == c,
{
    broadcast use lemma_read_guid_sticky;

}

proof fn lemma_read_info_lags(c: Cursor, d: Cursor, n: int)
    requires
        lags(c, d, n),
    ensures
        lags(read_info(c).1, read_info(d).1, n),
        c.failed is None && read_info(d).1.failed is None ==> read_info(d).0.flags == read_info(
            c,
        ).0.flags,
{
    reveal(read_info);
    let (flags, other) = (c.word(), d.word());
    let (flags2, other2) = (c.take(4).short(), d.take(4).short());
    let (c0, d0) = (c, d);
    lemma_take_lags(c, d, n, 4, 4);
    if c.failed is None {
        lemma_same_next(c, d, n);
    }
    let (c, d) = (c.take(4), d.take(4));
    lemma_take_lags(c, d, n, 2, 2);
    if c.failed is None {
        lemma_same_next(c, d, n);
    }
    let (c, d) = (c.take(2), d.take(2));
    lemma_take_lags(c, d, n, 4, 4);
    let (c, d) = (c.take(4), d.take(4));
    lemma_words_lag(c, d, n, 4, 4);
    let (c, d) = (c.words(4), d.words(4));
    assert(read_info(c0).1 == info_tail(c, flags, flags2));
    assert(read_info(d0).1 == info_tail(d, other, other2));
    lemma_info_tail_lags(c, d, n, flags, flags2);
    if d.failed is Some {
        lemma_info_tail_sticky(d, other, other2);
        lemma_out_of_step(info_tail(c, flags, flags2), info_tail(d, flags, flags2), d, n);
    } else if c.failed is Some {
        lemma_info_tail_sticky(c, flags, flags2);
        assert(lags(c, info_tail(d, other, other2), n)) by {
            reveal(lags);
        }
    }
}

/// Of the movements that are relayed, none is the beginning of another.
pub proof fn lemma_relayed_movements_are_prefix_free(body: Seq<u8>, n: int)
    requires
        relayed(body) is Ok,
        0 <= n < body.len(),
    ensures
        relayed(body.take(n)) is Err,
{
    let c = Cursor::over(body, "MSG_MOVE_*");
    let d = Cursor::over(body.take(n), "MSG_MOVE_*");
    lemma_start(body, "MSG_MOVE_*", n);
    lemma_read_guid_lags(c, d, n);
    let (c, d) = (read_guid(c).1, read_guid(d).1);
    lemma_read_info_lags(c, d, n);
    lemma_finish(read_info(c).1, read_info(d).1, n);
}

/// What a spline says of where it is to face.
#[verifier::opaque]
spec fn spline_facing(facing: Cursor, flags: u32) -> Cursor {
    if flags & SPLINE_FINAL_ANGLE != 0 {
        facing.take(4)
    } else if flags & SPLINE_FINAL_TARGET != 0 {
        facing.take(8)
    } else if flags & SPLINE_FINAL_POINT != 0 {
        facing.take(12)
    } else {
        facing
    }
}

/// What follows that.
#[verifier::opaque]
spec fn spline_points(timing: Cursor) -> Cursor {
    let count = timing.take(12).take(12).take(4);
    let points = count.word();
    count.take(4).check(
        12 * points <= usize::MAX,
        Error::Oversized { got: points as usize },
    ).take(12 * points).take(1).take(12)
}

proof fn lemma_spline_facing_lags(c: Cursor, d: Cursor, n: int, flags: u32, other: u32)
    requires
        lags(c, d, n),
        c.failed is None && d.failed is None ==> flags == other,
    ensures
        lags(spline_facing(c, flags), spline_facing(d, other), n),
{
    reveal(spline_facing);
    lemma_take_lags(c, d, n, 4, 4);
    lemma_take_lags(c, d, n, 8, 8);
    lemma_take_lags(c, d, n, 12, 12);
    if d.failed is Some {
        lemma_out_of_step(spline_facing(c, flags), spline_facing(d, flags), d, n);
    } else if c.failed is Some {
        assert(lags(c, spline_facing(d, other), n)) by {
            reveal(lags);
        }
    }
}

proof fn lemma_spline_points_lags(c: Cursor, d: Cursor, n: int)
    requires
        lags(c, d, n),
    ensures
        lags(spline_points(c), spline_points(d), n),
{
    reveal(spline_points);
    lemma_take_lags(c, d, n, 12, 12);
    let (c, d) = (c.take(12), d.take(12));
    lemma_take_lags(c, d, n, 12, 12);
    let (c, d) = (c.take(12), d.take(12));
    lemma_take_lags(c, d, n, 4, 4);
    let (c, d) = (c.take(4), d.take(4));
    let (points, others) = (c.word(), d.word());
    lemma_take_lags(c, d, n, 4, 4);
    if c.failed is None {
        lemma_same_next(c, d, n);
    }
    let (c, d) = (c.take(4), d.take(4));
    let (fits, other_fits) = (12 * points <= usize::MAX, 12 * others <= usize::MAX);
    let a = Error::Oversized { got: points as usize };
    let b = Error::Oversized { got: others as usize };
    lemma_check_lags(c, d, n, fits, other_fits, a, b);
    let (c, d) = (c.check(fits, a), d.check(other_fits, b));
    lemma_take_lags(c, d, n, 12 * points, 12 * others);
    let (c, d) = (c.take(12 * points), d.take(12 * others));
    lemma_take_lags(c, d, n, 1, 1);
    let (c, d) = (c.take(1), d.take(1));
    lemma_take_lags(c, d, n, 12, 12);
}

proof fn lemma_spline_parts(c: Cursor)
    ensures
        spline(c) == spline_points(spline_facing(c.take(4), c.word())),
        c.failed is Some ==> spline(c) == c,
{
    reveal(spline);
    reveal(spline_facing);
    reveal(spline_points);
}

proof fn lemma_spline_lags(c: Cursor, d: Cursor, n: int)
    requires
        lags(c, d, n),
    ensures
        lags(spline(c), spline(d), n),
        d.failed is Some ==> spline(d) == d,
{
    let (flags, other) = (c.word(), d.word());
    lemma_spline_parts(c);
    lemma_spline_parts(d);
    lemma_take_lags(c, d, n, 4, 4);
    if c.failed is None {
        lemma_same_next(c, d, n);
    }
    lemma_spline_facing_lags(c.take(4), d.take(4), n, flags, other);
    lemma_spline_points_lags(spline_facing(c.take(4), flags), spline_facing(d.take(4), other), n);
}

proof fn lemma_living_lags(c: Cursor, d: Cursor, n: int, flags: u16)
    requires
        lags(c, d, n),
        flags & update_flags::LIVING != 0,
    ensures
        lags(placement(c, flags).1, placement(d, flags).1, n),
{
    broadcast use lemma_read_info_sticky;

    reveal(placement);
    let (moving, other) = (
        read_info(c).0.flags & movement_flags::SPLINE_ENABLED != 0,
        read_info(d).0.flags & movement_flags::SPLINE_ENABLED != 0,
    );
    lemma_read_info_lags(c, d, n);
    if c.failed is Some {
        assert(lags(placement(c, flags).1, placement(d, flags).1, n)) by {
            reveal(lags);
            reveal(spline);
        }
    } else {
        let (c, d) = (read_info(c).1, read_info(d).1);
        lemma_words_lag(c, d, n, 9, 9);
        let failed = d.failed is Some;
        let (c, d) = (c.words(9), d.words(9));
        lemma_spline_lags(c, d, n);
        if failed {
            let end = if moving {
                spline(c)
            } else {
                c
            };
            let behind = if moving {
                spline(d)
            } else {
                d
            };
            lemma_out_of_step(end, behind, d, n);
        }
    }
}

proof fn lemma_placement_lags(c: Cursor, d: Cursor, n: int, flags: u16)
    requires
        lags(c, d, n),
    ensures
        lags(placement(c, flags).1, placement(d, flags).1, n),
{
    reveal(placement);
    if flags & update_flags::LIVING != 0 {
        lemma_living_lags(c, d, n, flags);
    } else if flags & update_flags::POSITION != 0 {
        lemma_read_guid_lags(c, d, n);
        let (c, d) = (read_guid(c).1, read_guid(d).1);
        lemma_words_lag(c, d, n, 3, 3);
        let (c, d) = (c.words(3), d.words(3));
        lemma_take_lags(c, d, n, 12, 12);
        let (c, d) = (c.take(12), d.take(12));
        lemma_take_lags(c, d, n, 4, 4);
        let (c, d) = (c.take(4), d.take(4));
        lemma_take_lags(c, d, n, 4, 4);
    } else {
        lemma_words_lag(c, d, n, 4, 4);
    }
}

/// What follows the flags of a movement section.
spec fn section_tail(c: Cursor, flags: u16) -> Cursor {
    let has_target = before_target(placement(c, flags).1, flags);
    if flags & update_flags::HAS_TARGET != 0 {
        behind_target(read_guid(has_target).1, flags)
    } else {
        behind_target(has_target, flags)
    }
}

proof fn lemma_section_tail_lags(c: Cursor, d: Cursor, n: int, flags: u16)
    requires
        lags(c, d, n),
    ensures
        lags(section_tail(c, flags), section_tail(d, flags), n),
{
    reveal(before_target);
    reveal(behind_target);
    lemma_placement_lags(c, d, n, flags);
    let (c, d) = (placement(c, flags).1, placement(d, flags).1);
    let present = flags & update_flags::UNKNOWN != 0;
    lemma_maybe_take_lags(c, d, n, 4, present, present);
    let (c1, d1) = if present {
        (c.take(4), d.take(4))
    } else {
        (c, d)
    };
    let low = flags & update_flags::LOW_GUID != 0;
    lemma_maybe_take_lags(c1, d1, n, 4, low, low);
    let (c, d) = (before_target(c, flags), before_target(d, flags));
    lemma_read_guid_lags(c, d, n);
    let (c, d) = if flags & update_flags::HAS_TARGET != 0 {
        (read_guid(c).1, read_guid(d).1)
    } else {
        (c, d)
    };
    let carried = flags & update_flags::TRANSPORT != 0;
    lemma_maybe_take_lags(c, d, n, 4, carried, carried);
    let (c, d) = if carried {
        (c.take(4), d.take(4))
    } else {
        (c, d)
    };
    let vehicle = flags & update_flags::VEHICLE != 0;
    lemma_take_lags(c, d, n, 4, 4);
    lemma_take_lags(c.take(4), d.take(4), n, 4, 4);
    let (c, d) = if vehicle {
        (c.take(4).take(4), d.take(4).take(4))
    } else {
        (c, d)
    };
    let turned = flags & update_flags::ROTATION != 0;
    lemma_maybe_take_lags(c, d, n, 8, turned, turned);
}

proof fn lemma_movement_section_lags(c: Cursor, d: Cursor, n: int)
    requires
        lags(c, d, n),
    ensures
        lags(movement_section(c).1, movement_section(d).1, n),
{
    let (flags, other) = (c.short(), d.short());
    assert(movement_section(c).1 == section_tail(c.take(2), flags));
    assert(movement_section(d).1 == section_tail(d.take(2), other));
    lemma_take_lags(c, d, n, 2, 2);
    lemma_section_tail_lags(c.take(2), d.take(2), n, flags);
    if d.take(2).failed is Some {
        lemma_section_tail_sticky(d.take(2), other);
        lemma_out_of_step(
            section_tail(c.take(2), flags),
            section_tail(d.take(2), flags),
            d.take(2),
            n,
        );
    } else if c.take(2).failed is Some {
        lemma_section_tail_sticky(c.take(2), flags);
        assert(lags(c.take(2), section_tail(d.take(2), other), n)) by {
            reveal(lags);
        }
    } else {
        lemma_same_next(c, d, n);
    }
}

proof fn lemma_section_tail_sticky(c: Cursor, flags: u16)
    requires
        c.failed is Some,
    ensures
        section_tail(c, flags) == c,
{
    broadcast use {lemma_read_guid_sticky, lemma_read_info_sticky};

    reveal(placement);
    reveal(before_target);
    reveal(behind_target);
    reveal(spline);
}

proof fn lemma_word_fields_lag(
    a: Map<u16, u32>,
    b: Map<u16, u32>,
    c: Cursor,
    d: Cursor,
    n: int,
    bits: int,
    index: int,
    count: nat,
)
    requires
        lags(c, d, n),
    ensures
        lags(
            word_fields(a, c, bits, index, count).1,
            word_fields(b, d, bits, index, count).1,
            n,
        ),
    decreases count,
{
    if count > 0 {
        if bits % 2 == 1 {
            lemma_take_lags(c, d, n, 4, 4);
            lemma_word_fields_lag(
                a.insert(index as u16, c.word()),
                b.insert(index as u16, d.word()),
                c.take(4),
                d.take(4),
                n,
                bits / 2,
                index + 1,
                (count - 1) as nat,
            );
        } else {
            lemma_word_fields_lag(a, b, c, d, n, bits / 2, index + 1, (count - 1) as nat);
        }
    }
}

proof fn lemma_mask_fields_lag(
    a: Map<u16, u32>,
    b: Map<u16, u32>,
    c: Cursor,
    d: Cursor,
    n: int,
    masks: Seq<u32>,
    word: int,
)
    requires
        lags(c, d, n),
    ensures
        lags(mask_fields(a, c, masks, word).1, mask_fields(b, d, masks, word).1, n),
    decreases masks.len() - word,
{
    if word < masks.len() {
        let bits = masks[word] as int;
        lemma_word_fields_lag(a, b, c, d, n, bits, 32 * word, 32);
        let (more, next) = word_fields(a, c, bits, 32 * word, 32);
        let (other, behind) = word_fields(b, d, bits, 32 * word, 32);
        lemma_mask_fields_lag(more, other, next, behind, n, masks, word + 1);
    }
}

proof fn lemma_field_values_lag(c: Cursor, d: Cursor, n: int)
    requires
        lags(c, d, n),
    ensures
        lags(field_values(c).1, field_values(d).1, n),
{
    let (count, other) = (c.byte() as int, d.byte() as int);
    lemma_take_lags(c, d, n, 1, 1);
    if c.failed is None {
        lemma_same_next(c, d, n);
    }
    let (c, d) = (c.take(1), d.take(1));
    lemma_words_lag(c, d, n, count, other);
    let masks = Seq::new(count as nat, |k: int| c.nth(k));
    let others = Seq::new(other as nat, |k: int| d.nth(k));
    let none = Map::<u16, u32>::empty();
    let (c1, d1) = (c.words(count), d.words(other));
    lemma_mask_fields_lag(none, none, c1, d1, n, masks, 0);
    if d1.failed is Some {
        lemma_mask_fields_sticky(none, d1, others, 0);
        lemma_mask_fields_sticky(none, d1, masks, 0);
    } else if c1.failed is Some {
        lemma_mask_fields_sticky(none, c1, masks, 0);
        assert(lags(c1, mask_fields(none, d1, others, 0).1, n)) by {
            reveal(lags);
        }
    } else {
        assert forall|k: int| 0 <= k < count implies masks[k] == others[k] by {
            lemma_same_nth(c, d, n, k, count);
        }
        assert(masks =~= others);
    }
}

proof fn lemma_guid_list_lags(c: Cursor, d: Cursor, n: int)
    requires
        lags(c, d, n),
    ensures
        lags(guid_list(c).1, guid_list(d).1, n),
{
    broadcast use lemma_read_guid_sticky;

    reveal(guid_list);
    let record = |c: Cursor| read_guid(c);
    assert forall|c: Cursor, d: Cursor| lags(c, d, n) implies #[trigger] lags(
        record(c).1,
        record(d).1,
        n,
    ) by {
        lemma_read_guid_lags(c, d, n);
    }
    assert forall|c: Cursor| c.failed is Some implies #[trigger] record(c).1 == c by {
        lemma_read_guid_sticky(c);
    }
    lemma_take_lags(c, d, n, 4, 4);
    if c.failed is None {
        lemma_same_next(c, d, n);
    }
    lemma_counted_lag(c.take(4), d.take(4), n, c.word() as nat, d.word() as nat, record);
}

/// What follows the kind of a block.
spec fn block_tail(body: Cursor, code: u8) -> Cursor {
    match update_type(code) {
        Some(UpdateType::Values) => field_values(read_guid(body).1).1,
        Some(UpdateType::Movement) => movement_section(read_guid(body).1).1,
        Some(UpdateType::OutOfRange) => guid_list(body).1,
        Some(UpdateType::NearObjects) => guid_list(body).1,
        Some(_) => {
            let kind = read_guid(body).1;
            let known = kind.take(1).check(
                object_type(kind.byte()) is Some,
                Error::UnknownObjectType { got: kind.byte() },
            );
            field_values(movement_section(known).1).1
        },
        None => body.fail(Error::UnknownUpdateType { got: code }),
    }
}

proof fn lemma_block_tail_sticky(c: Cursor, code: u8)
    requires
        c.failed is Some,
    ensures
        block_tail(c, code) == c,
{
    broadcast use {
        lemma_read_guid_sticky,
        lemma_field_values_sticky,
        lemma_movement_section_sticky,
        lemma_guid_list_sticky,
    };

}

proof fn lemma_block_tail_lags(c: Cursor, d: Cursor, n: int, code: u8)
    requires
        lags(c, d, n),
    ensures
        lags(block_tail(c, code), block_tail(d, code), n),
{
    lemma_read_guid_lags(c, d, n);
    let (c1, d1) = (read_guid(c).1, read_guid(d).1);
    match update_type(code) {
        Some(UpdateType::Values) => {
            lemma_field_values_lag(c1, d1, n);
        },
        Some(UpdateType::Movement) => {
            lemma_movement_section_lags(c1, d1, n);
        },
        Some(UpdateType::OutOfRange) => {
            lemma_guid_list_lags(c, d, n);
        },
        Some(UpdateType::NearObjects) => {
            lemma_guid_list_lags(c, d, n);
        },
        Some(_) => {
            lemma_take_lags(c1, d1, n, 1, 1);
            if c1.failed is None {
                lemma_same_next(c1, d1, n);
            }
            let (known, other) = (
                object_type(c1.byte()) is Some,
                object_type(d1.byte()) is Some,
            );
            let a = Error::UnknownObjectType { got: c1.byte() };
            let b = Error::UnknownObjectType { got: d1.byte() };
            lemma_check_lags(c1.take(1), d1.take(1), n, known, other, a, b);
            let (c2, d2) = (c1.take(1).check(known, a), d1.take(1).check(other, b));
            lemma_movement_section_lags(c2, d2, n);
            lemma_field_values_lag(movement_section(c2).1, movement_section(d2).1, n);
        },
        None => {
            reveal(lags);
        },
    }
}

proof fn lemma_block_keeps_step(n: int)
    ensures
        keeps_step(|c: Cursor| block(c), n),
        sticky(|c: Cursor| block(c)),
{
    let record = |c: Cursor| block(c);
    assert forall|c: Cursor| #[trigger] record(c).1 == block_tail(c.take(1), c.byte()) by {
        reveal(block);
    }
    assert forall|c: Cursor, d: Cursor| lags(c, d, n) implies #[trigger] lags(
        record(c).1,
        record(d).1,
        n,
    ) by {
        let (code, other) = (c.byte(), d.byte());
        lemma_take_lags(c, d, n, 1, 1);
        if c.failed is None {
            lemma_same_next(c, d, n);
        }
        let (c1, d1) = (c.take(1), d.take(1));
        lemma_block_tail_lags(c1, d1, n, code);
        if d1.failed is Some {
            lemma_block_tail_sticky(d1, other);
            lemma_block_tail_sticky(d1, code);
        } else if c1.failed is Some {
            lemma_block_tail_sticky(c1, code);
            assert(lags(c1, block_tail(d1, other), n)) by {
                reveal(lags);
            }
        }
    }
    assert forall|c: Cursor| c.failed is Some implies #[trigger] record(c).1 == c by {
        lemma_block_tail_sticky(c.take(1), c.byte());
    }
}

/// Of the object updates, none is the beginning of another.
pub proof fn lemma_object_updates_are_prefix_free(body: Seq<u8>, n: int)
    requires
        update_object(body) is Ok,
        0 <= n < body.len(),
    ensures
        update_object(body.take(n)) is Err,
{
    let record = |c: Cursor| block(c);
    let c = Cursor::over(body, "SMSG_UPDATE_OBJECT");
    let d = Cursor::over(body.take(n), "SMSG_UPDATE_OBJECT");
    lemma_start(body, "SMSG_UPDATE_OBJECT", n);
    lemma_same_next(c, d, n);
    lemma_take_lags(c, d, n, 4, 4);
    lemma_block_keeps_step(n);
    let (count, other) = (c.word() as nat, d.word() as nat);
    let (c, d) = (c.take(4), d.take(4));
    lemma_counted_lag(c, d, n, count, other, record);
    lemma_finish(many(c, count, record).1, many(d, other, record).1, n);
}

proof fn lemma_trainer_row_keeps_step(n: int)
    ensures
        keeps_step(|c: Cursor| spell_record(c), n),
        sticky(|c: Cursor| spell_record(c)),
{
    let record = |c: Cursor| spell_record(c);
    assert forall|c: Cursor, d: Cursor| lags(c, d, n) implies #[trigger] lags(
        record(c).1,
        record(d).1,
        n,
    ) by {
        lemma_take_lags(c, d, n, 4, 4);
        let (c, d) = (c.take(4), d.take(4));
        lemma_take_lags(c, d, n, 1, 1);
        let (c, d) = (c.take(1), d.take(1));
        lemma_words_lag(c, d, n, 3, 3);
        let (c, d) = (c.words(3), d.words(3));
        lemma_take_lags(c, d, n, 1, 1);
        let (c, d) = (c.take(1), d.take(1));
        lemma_words_lag(c, d, n, 5, 5);
    }
}

/// Of the trainers' lists, none is the beginning of another.
pub proof fn lemma_trainer_lists_are_prefix_free(body: Seq<u8>, n: int)
    requires
        trainer_list(body) is Ok,
        0 <= n < body.len(),
    ensures
        trainer_list(body.take(n)) is Err,
{
    let record = |c: Cursor| spell_record(c);
    let c = Cursor::over(body, "SMSG_TRAINER_LIST");
    let d = Cursor::over(body.take(n), "SMSG_TRAINER_LIST");
    lemma_start(body, "SMSG_TRAINER_LIST", n);
    lemma_take_lags(c, d, n, 8, 8);
    let (c, d) = (c.take(8), d.take(8));
    lemma_words_lag(c, d, n, 2, 2);
    if c.failed is None && d.words(2).failed is None {
        lemma_same_nth(c, d, n, 1, 2);
    }
    let (count, other) = (le32(body, 12), le32(body.take(n), 12));
    let (c, d) = (c.words(2), d.words(2));
    let (fits, other_fits) = (
        c.left() >= count * SPELL_BYTES,
        d.left() >= other * SPELL_BYTES,
    );
    let a = Error::TrainerRowCount {
        count,
        expected: (count * SPELL_BYTES) as usize,
        got: c.left() as usize,
    };
    let b = Error::TrainerRowCount {
        count: other,
        expected: (other * SPELL_BYTES) as usize,
        got: d.left() as usize,
    };
    assert(c.failed is None && d.failed is None ==> d.left() < c.left()) by {
        reveal(lags);
    }
    lemma_check_lags(c, d, n, fits, other_fits, a, b);
    let (c, d) = (c.check(fits, a), d.check(other_fits, b));
    lemma_trainer_row_keeps_step(n);
    lemma_counted_lag(c, d, n, count as nat, other as nat, record);
    let (c, d) = (many(c, count as nat, record).1, many(d, other as nat, record).1);
    lemma_cstring_lags(c, d, n);
    lemma_finish(c.cstring(), d.cstring(), n);
}

/// Of the swings, none is the beginning of another.
pub proof fn lemma_swings_are_prefix_free(body: Seq<u8>, n: int)
    requires
        melee_swing(body) is Ok,
        0 <= n < body.len(),
    ensures
        melee_swing(body.take(n)) is Err,
{
    let c = Cursor::over(body, "SMSG_ATTACKERSTATEUPDATE");
    let d = Cursor::over(body.take(n), "SMSG_ATTACKERSTATEUPDATE");
    lemma_start(body, "SMSG_ATTACKERSTATEUPDATE", n);
    lemma_take_lags(c, d, n, 4, 4);
    let (c, d) = (c.take(4), d.take(4));
    lemma_read_guid_lags(c, d, n);
    let (c, d) = (read_guid(c).1, read_guid(d).1);
    lemma_read_guid_lags(c, d, n);
    let (c, d) = (read_guid(c).1, read_guid(d).1);
    lemma_words_lag(c, d, n, 2, 2);
    let (c, d) = (c.words(2), d.words(2));
    lemma_take_lags(c, d, n, 1, 1);
    if c.failed is None {
        lemma_same_next(c, d, n);
    }
    let a = Error::UnconfirmedSwingDamageBlocks { count: c.byte() };
    let b = Error::UnconfirmedSwingDamageBlocks { count: d.byte() };
    let (one, other) = (c.byte() == 1, d.byte() == 1);
    lemma_check_lags(c.take(1), d.take(1), n, one, other, a, b);
    let (c, d) = (c.take(1).check(one, a), d.take(1).check(other, b));
    lemma_words_lag(c, d, n, 3, 3);
    let (c, d) = (c.words(3), d.words(3));
    lemma_take_lags(c, d, n, 1, 1);
    let (c, d) = (c.take(1), d.take(1));
    lemma_words_lag(c, d, n, 2, 2);
    lemma_finish(c.words(2), d.words(2), n);
}

proof fn lemma_cast_header_lags(c: Cursor, d: Cursor, n: int)
    requires
        lags(c, d, n),
    ensures
        lags(cast_header(c).1, cast_header(d).1, n),
{
    lemma_read_guid_lags(c, d, n);
    let (c, d) = (read_guid(c).1, read_guid(d).1);
    lemma_read_guid_lags(c, d, n);
    let (c, d) = (read_guid(c).1, read_guid(d).1);
    lemma_take_lags(c, d, n, 1, 1);
    let (c, d) = (c.take(1), d.take(1));
    lemma_take_lags(c, d, n, 4, 4);
}

/// Of two accepted targets one of which begins the other, the shorter lacks
/// the last word.
proof fn lemma_target_tails_differ_by_a_word(c: Cursor, d: Cursor, n: int, what: &'static str)
    requires
        lags(c, d, n),
        target_tail(c, what).2.finish().failed is None,
        target_tail(d, what).2.finish().failed is None,
    ensures
        n + 4 == c.data.len(),
        target_tail(c, what).1 is Some,
        target_tail(d, what).1 is None,
{
    broadcast use lemma_read_guid_sticky;

    let (flags, other) = (c.word(), d.word());
    if c.failed is None {
        lemma_same_next(c, d, n);
    }
    lemma_take_lags(c, d, n, 4, 4);
    let (known, other_known) = (
        flags == target_flags::UNIT || flags == target_flags::GAMEOBJECT,
        other == target_flags::UNIT || other == target_flags::GAMEOBJECT,
    );
    let a = Error::UnsupportedSpellTarget { what, flags };
    let b = Error::UnsupportedSpellTarget { what, flags: other };
    let (c, d) = (c.take(4), d.take(4));
    lemma_check_lags(c, d, n, known, other_known, a, b);
    let (c, d) = (c.check(known, a), d.check(other_known, b));
    lemma_read_guid_lags(c, d, n);
    lemma_guid_bytes_keep_data(c.take(1), c.byte() as int, 8);
    reveal(lags);
}

proof fn lemma_guid_bytes_keep_data(c: Cursor, mask: int, count: nat)
    ensures
        guid_bytes(c, mask, count).1.data == c.data,
    decreases count,
{
    if count > 0 {
        lemma_guid_bytes_keep_data(c, mask / 2, (count - 1) as nat);
        lemma_guid_bytes_keep_data(c.take(1), mask / 2, (count - 1) as nat);
    }
}

/// An announced cast has one optional word, at its end, and no other leeway:
/// where one accepted body begins another, it is that word that it lacks.
pub proof fn lemma_a_spell_start_has_one_optional_word(body: Seq<u8>, n: int)
    requires
        spell_start(body) is Ok,
        0 <= n < body.len(),
        spell_start(body.take(n)) is Ok,
    ensures
        n + 4 == body.len(),
        spell_start(body)->Ok_0.trailing is Some,
        spell_start(body.take(n))->Ok_0.trailing is None,
{
    let c = Cursor::over(body, "SMSG_SPELL_START");
    let d = Cursor::over(body.take(n), "SMSG_SPELL_START");
    lemma_start(body, "SMSG_SPELL_START", n);
    lemma_cast_header_lags(c, d, n);
    lemma_cast_header_keeps_data(c);
    let (c, d) = (cast_header(c).1, cast_header(d).1);
    lemma_take_lags(c, d, n, 4, 4);
    let (c, d) = (c.take(4), d.take(4));
    lemma_take_lags(c, d, n, 4, 4);
    lemma_target_tails_differ_by_a_word(c.take(4), d.take(4), n, "SMSG_SPELL_START");
}

proof fn lemma_cast_header_keeps_data(c: Cursor)
    ensures
        cast_header(c).1.data == c.data,
{
    lemma_guid_bytes_keep_data(c.take(1), c.byte() as int, 8);
    let next = read_guid(c).1;
    lemma_guid_bytes_keep_data(next.take(1), next.byte() as int, 8);
}

proof fn lemma_hit_list_lags(c: Cursor, d: Cursor, n: int, count: u8, other: u8)
    requires
        lags(c, d, n),
        c.failed is None && d.failed is None ==> other == count,
    ensures
        lags(hit_list(c, count).1, hit_list(d, other).1, n),
        c.failed is None && hit_list(c, count).1.failed is None ==> hit_list(c, count).1.data
            == c.data,
{
    let record = |c: Cursor| raw_guid(c);
    assert forall|c: Cursor, d: Cursor| lags(c, d, n) implies #[trigger] lags(
        record(c).1,
        record(d).1,
        n,
    ) by {
        lemma_take_lags(c, d, n, 8, 8);
    }
    lemma_counted_lag(c, d, n, count as nat, other as nat, record);
    if hit_list(c, count).1.failed is None {
        lemma_many_fixed(c, count as nat, record, 8);
    }
}

/// A landed cast has one optional word, at its end, and no other leeway.
pub proof fn lemma_a_spell_go_has_one_optional_word(body: Seq<u8>, n: int)
    requires
        spell_go(body) is Ok,
        0 <= n < body.len(),
        spell_go(body.take(n)) is Ok,
    ensures
        n + 4 == body.len(),
        spell_go(body)->Ok_0.trailing is Some,
        spell_go(body.take(n))->Ok_0.trailing is None,
{
    broadcast use lemma_target_tail_sticky;

    let c = Cursor::over(body, "SMSG_SPELL_GO");
    let d = Cursor::over(body.take(n), "SMSG_SPELL_GO");
    lemma_start(body, "SMSG_SPELL_GO", n);
    lemma_cast_header_lags(c, d, n);
    lemma_cast_header_keeps_data(c);
    let (c, d) = (cast_header(c).1, cast_header(d).1);
    lemma_take_lags(c, d, n, 4, 4);
    let (c, d) = (c.take(4), d.take(4));
    lemma_take_lags(c, d, n, 4, 4);
    let (c, d) = (c.take(4), d.take(4));
    if c.failed is None {
        lemma_same_next(c, d, n);
    }
    lemma_take_lags(c, d, n, 1, 1);
    let (count, other) = (c.byte(), d.byte());
    let (c, d) = (c.take(1), d.take(1));
    if c.failed is Some {
        lemma_many_sticky(c, count as nat, |c: Cursor| raw_guid(c));
    }
    lemma_hit_list_lags(c, d, n, count, other);
    let (c, d) = (hit_list(c, count).1, hit_list(d, other).1);
    if c.failed is None {
        lemma_same_next(c, d, n);
    }
    lemma_take_lags(c, d, n, 1, 1);
    let (none, other_none) = (c.byte() == 0, d.byte() == 0);
    let a = Error::UnconfirmedSpellMisses { count: c.byte() };
    let b = Error::UnconfirmedSpellMisses { count: d.byte() };
    lemma_check_lags(c.take(1), d.take(1), n, none, other_none, a, b);
    let (c, d) = (c.take(1).check(none, a), d.take(1).check(other_none, b));
    lemma_target_tails_differ_by_a_word(c, d, n, "SMSG_SPELL_GO");
}

} // verus!
