//! What the server says about quests reads back as written.
use crate::cursor::Cursor;
use crate::protocol::Error;
use crate::quest::{
    marker, marker_set, polygon, quest_poi, quest_query, wanted_items, ItemObjective,
    QuestInfoView, QuestPoi, QuestPoiSet, QuestPoiSetView,
};
use crate::wire::{group_word_lengths, holds};
use crate::written::queries::{lemma_signs_survive, word_of};
use crate::written::{
    behind, in_a_row, lemma_last, lemma_next, lemma_row_reads_back, lemma_stands, lemma_whole,
    reads_back, written, zero_free, Piece,
};
use vstd::prelude::*;

verus! {

broadcast use group_word_lengths;

/// The points of a marker: two words each, x before y.
pub open spec fn point_words(points: Seq<(i32, i32)>) -> Seq<u32> {
    Seq::new(
        2 * points.len(),
        |k: int|
            if k % 2 == 0 {
                word_of(points[k / 2].0)
            } else {
                word_of(points[k / 2].1)
            },
    )
}

/// One marker, field by field.
pub open spec fn marker_pieces(what: QuestPoi, objective: u32) -> Seq<Piece> {
    seq![
        Piece::Words(seq![
            what.id,
            objective,
            what.map_id,
            what.world_map_area_id,
            what.floor_id,
            what.unknown.0,
            what.unknown.1,
            what.points@.len() as u32,
        ]),
        Piece::Words(point_words(what.points@)),
    ]
}

/// Whether a word stands for a marker's objective: the objective's index, or
/// any negative number for the quest as a whole.
pub open spec fn marks(what: QuestPoi, objective: u32) -> bool {
    match what.objective_index {
        Some(index) => objective == index && index < 0x8000_0000,
        None => objective >= 0x8000_0000,
    }
}

/// A marker reads back: its objective, its map, area and floor, and its points
/// with their signs.
pub proof fn lemma_marker_reads_back(c: Cursor, what: QuestPoi, objective: u32)
    requires
        c.sound(),
        what.points@.len() <= u32::MAX,
        marks(what, objective),
        holds(c.data, c.at, written(marker_pieces(what, objective))),
    ensures
        marker(c) == (
            what@,
            (Cursor { at: c.at + written(marker_pieces(what, objective)).len(), ..c }),
        ),
{
    reveal(marker);
    let pieces = marker_pieces(what, objective);
    let end = c.at + written(pieces).len();
    lemma_stands(c, pieces);
    lemma_next(c, pieces, 0, end);
    let c1 = c.words(8);
    assert(c.nth(0) == what.id);
    assert(c.nth(1) == objective);
    assert(c.nth(2) == what.map_id);
    assert(c.nth(3) == what.world_map_area_id);
    assert(c.nth(4) == what.floor_id);
    assert(c.nth(5) == what.unknown.0);
    assert(c.nth(6) == what.unknown.1);
    assert(c.nth(7) == what.points@.len() as u32);
    lemma_next(c1, pieces, 1, end);
    let c2 = c1.words(2 * c.nth(7));
    lemma_last(c2, pieces, end);
    let words = point_words(what.points@);
    assert(polygon(c1, c.nth(7)) =~= what.points@) by {
        assert forall|i: int| 0 <= i < what.points@.len() implies polygon(c1, c.nth(7))[i]
            == what.points@[i] by {
            assert(c1.nth(2 * i) == words[2 * i]);
            assert(c1.nth(2 * i + 1) == words[2 * i + 1]);
            lemma_signs_survive(what.points@[i].0);
            lemma_signs_survive(what.points@[i].1);
        }
    }
}

/// The markers of one quest, behind its id and their number.
pub open spec fn set_pieces(quest_id: u32, markers: Seq<(QuestPoi, u32)>) -> Seq<Piece> {
    seq![
        Piece::Words(seq![quest_id, markers.len() as u32]),
        Piece::Bytes(in_a_row(markers, |one: (QuestPoi, u32)| written(marker_pieces(one.0, one.1)))),
    ]
}

/// The markers of one quest, each under its own name.
pub open spec fn set_of(quest_id: u32, markers: Seq<(QuestPoi, u32)>) -> QuestPoiSetView {
    QuestPoiSetView { quest_id, markers: markers.map_values(|one: (QuestPoi, u32)| one.0@) }
}

/// Whether every marker of a quest can be written.
pub open spec fn writable(markers: Seq<(QuestPoi, u32)>) -> bool {
    &&& markers.len() <= u32::MAX
    &&& forall|i: int|
        0 <= i < markers.len() ==> marks((#[trigger] markers[i]).0, markers[i].1)
            && markers[i].0.points@.len() <= u32::MAX
}

/// The markers of one quest read back in their order.
pub proof fn lemma_marker_set_reads_back(
    c: Cursor,
    quest_id: u32,
    markers: Seq<(QuestPoi, u32)>,
)
    requires
        c.sound(),
        writable(markers),
        holds(c.data, c.at, written(set_pieces(quest_id, markers))),
    ensures
        marker_set(c) == (
            set_of(quest_id, markers),
            (Cursor { at: c.at + written(set_pieces(quest_id, markers)).len(), ..c }),
        ),
{
    reveal(marker_set);
    let bytes = |one: (QuestPoi, u32)| written(marker_pieces(one.0, one.1));
    let value = |one: (QuestPoi, u32)| one.0@;
    let record = |c: Cursor| marker(c);
    let pieces = set_pieces(quest_id, markers);
    let end = c.at + written(pieces).len();
    lemma_stands(c, pieces);
    lemma_next(c, pieces, 0, end);
    assert(c.nth(0) == quest_id);
    assert(c.nth(1) == markers.len());
    let c1 = c.words(2);
    lemma_next(c1, pieces, 1, end);
    assert forall|i: int| 0 <= i < markers.len() implies reads_back(
        #[trigger] markers[i],
        bytes,
        value,
        record,
    ) by {
        let one = markers[i];
        assert forall|d: Cursor| d.sound() && holds(d.data, d.at, bytes(one)) implies
            #[trigger] record(d) == (value(one), (Cursor { at: d.at + bytes(one).len(), ..d })) by {
            lemma_marker_reads_back(d, one.0, one.1);
        }
    }
    lemma_row_reads_back(c1, markers, bytes, value, record);
    lemma_last(behind(c1, pieces[1]), pieces, end);
}

/// Every quest's markers read back, in the order of the answer.
pub proof fn lemma_quest_markers_read_back(sets: Seq<(u32, Seq<(QuestPoi, u32)>)>)
    requires
        sets.len() <= u32::MAX,
        forall|i: int| 0 <= i < sets.len() ==> writable((#[trigger] sets[i]).1),
    ensures
        quest_poi(
            written(
                seq![
                    Piece::Word(sets.len() as u32),
                    Piece::Bytes(
                        in_a_row(
                            sets,
                            |set: (u32, Seq<(QuestPoi, u32)>)| written(set_pieces(set.0, set.1)),
                        ),
                    ),
                ],
            ),
        ) == Ok::<Seq<QuestPoiSetView>, Error>(
            sets.map_values(|set: (u32, Seq<(QuestPoi, u32)>)| set_of(set.0, set.1)),
        ),
{
    let bytes = |set: (u32, Seq<(QuestPoi, u32)>)| written(set_pieces(set.0, set.1));
    let value = |set: (u32, Seq<(QuestPoi, u32)>)| set_of(set.0, set.1);
    let record = |c: Cursor| marker_set(c);
    let pieces = seq![Piece::Word(sets.len() as u32), Piece::Bytes(in_a_row(sets, bytes))];
    let body = written(pieces);
    let end = body.len() as int;
    let c = Cursor::over(body, "SMSG_QUEST_POI_QUERY_RESPONSE");
    lemma_whole(pieces, "SMSG_QUEST_POI_QUERY_RESPONSE");
    lemma_next(c, pieces, 0, end);
    let c1 = c.take(4);
    lemma_next(c1, pieces, 1, end);
    assert forall|i: int| 0 <= i < sets.len() implies reads_back(
        #[trigger] sets[i],
        bytes,
        value,
        record,
    ) by {
        let set = sets[i];
        assert forall|d: Cursor| d.sound() && holds(d.data, d.at, bytes(set)) implies
            #[trigger] record(d) == (value(set), (Cursor { at: d.at + bytes(set).len(), ..d })) by {
            lemma_marker_set_reads_back(d, set.0, set.1);
        }
    }
    lemma_row_reads_back(c1, sets, bytes, value, record);
    lemma_last(behind(c1, pieces[1]), pieces, end);
}

/// A set of markers is its quest and its markers.
pub proof fn lemma_a_set_is_its_quest_and_markers(set: QuestPoiSet)
    ensures
        set@.quest_id == set.quest_id,
        set@.markers.len() == set.markers@.len(),
        forall|i: int|
            0 <= i < set.markers@.len() ==> (#[trigger] set@.markers[i]) == set.markers@[i]@,
{
}

/// Six slots of what a quest asks to be found: the item, then how many.
pub open spec fn slot_words(slots: Seq<ItemObjective>) -> Seq<u32> {
    Seq::new(
        2 * slots.len(),
        |k: int|
            if k % 2 == 0 {
                slots[k / 2].item
            } else {
                slots[k / 2].count
            },
    )
}

/// An answer about a quest: its head, five texts, what is to be killed, what
/// is to be found, and four lines.
pub open spec fn quest_pieces(
    id: u32,
    head: Seq<u32>,
    texts: Seq<Seq<u8>>,
    creatures: Seq<u32>,
    slots: Seq<ItemObjective>,
    lines: Seq<Seq<u8>>,
) -> Seq<Piece> {
    seq![
        Piece::Words(seq![id] + head),
        Piece::Text(texts[0]),
        Piece::Text(texts[1]),
        Piece::Text(texts[2]),
        Piece::Text(texts[3]),
        Piece::Text(texts[4]),
        Piece::Words(creatures),
        Piece::Words(slot_words(slots)),
        Piece::Text(lines[0]),
        Piece::Text(lines[1]),
        Piece::Text(lines[2]),
        Piece::Text(lines[3]),
    ]
}

proof fn lemma_wanted_items(c: Cursor, slots: Seq<ItemObjective>, n: nat)
    requires
        n <= slots.len(),
        forall|k: int|
            0 <= k < 2 * slots.len() ==> #[trigger] c.nth(k) == slot_words(slots)[k],
    ensures
        wanted_items(c, n) == slots.take(n as int).filter(
            |slot: ItemObjective| slot.item != 0,
        ),
    decreases n,
{
    let wanted = |slot: ItemObjective| slot.item != 0;
    reveal(Seq::filter);
    if n > 0 {
        let slot = n - 1;
        lemma_wanted_items(c, slots, (n - 1) as nat);
        assert(slots.take(n as int).drop_last() =~= slots.take(slot));
        assert(c.nth(2 * slot) == slot_words(slots)[2 * slot]);
        assert(c.nth(2 * slot + 1) == slot_words(slots)[2 * slot + 1]);
    }
}

/// An answer about a quest reads back: its id, and every slot that names an
/// item, in their order.
pub proof fn lemma_quest_reads_back(
    id: u32,
    head: Seq<u32>,
    texts: Seq<Seq<u8>>,
    creatures: Seq<u32>,
    slots: Seq<ItemObjective>,
    lines: Seq<Seq<u8>>,
)
    requires
        head.len() == 64,
        texts.len() == 5,
        creatures.len() == 16,
        slots.len() == 6,
        lines.len() == 4,
        forall|i: int| 0 <= i < 5 ==> zero_free(#[trigger] texts[i]),
        forall|i: int| 0 <= i < 4 ==> zero_free(#[trigger] lines[i]),
    ensures
        quest_query(written(quest_pieces(id, head, texts, creatures, slots, lines))) == Ok::<
            QuestInfoView,
            Error,
        >(
            QuestInfoView {
                id,
                item_objectives: slots.filter(|slot: ItemObjective| slot.item != 0),
            },
        ),
{
    reveal(quest_query);
    let pieces = quest_pieces(id, head, texts, creatures, slots, lines);
    let body = written(pieces);
    let c = Cursor::over(body, "SMSG_QUEST_QUERY_RESPONSE");
    let end = body.len() as int;
    lemma_whole(pieces, "SMSG_QUEST_QUERY_RESPONSE");
    lemma_next(c, pieces, 0, end);
    let c1 = c.words(65);
    assert(c.nth(0) == id);
    lemma_next(c1, pieces, 1, end);
    let c2 = c1.cstring();
    lemma_next(c2, pieces, 2, end);
    let c3 = c2.cstring();
    lemma_next(c3, pieces, 3, end);
    let c4 = c3.cstring();
    lemma_next(c4, pieces, 4, end);
    let c5 = c4.cstring();
    lemma_next(c5, pieces, 5, end);
    let c6 = c5.cstring();
    lemma_next(c6, pieces, 6, end);
    let c7 = c6.words(16);
    lemma_next(c7, pieces, 7, end);
    let c8 = c7.words(12);
    lemma_next(c8, pieces, 8, end);
    let c9 = c8.cstring();
    lemma_next(c9, pieces, 9, end);
    let c10 = c9.cstring();
    lemma_next(c10, pieces, 10, end);
    let c11 = c10.cstring();
    lemma_next(c11, pieces, 11, end);
    let c12 = c11.cstring();
    lemma_last(c12, pieces, end);
    reveal_with_fuel(Cursor::cstrings, 6);
    assert(c1.cstrings(5) == c6);
    assert(c8.cstrings(4) == c12);
    lemma_wanted_items(c7, slots, 6);
    assert(slots.take(6) =~= slots);
}

} // verus!
