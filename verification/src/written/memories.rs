//! What is kept between sessions: the files as they are written, and what each
//! thing that happens does to what is remembered.
use crate::cursor::Cursor;
use crate::order::{lemma_arranged, lemma_filter_members, lemma_listing, listing};
use crate::quest::{drawn, mark_of, quest_query, status_of, QuestgiverMark};
use crate::quest_cache::{
    cache_bytes, described, entries_bytes, entry_bytes, read_entries, AnswerView, CacheError,
    QuestCacheView,
};
use crate::spawns::{
    fixed_bytes, joined, kept_record, mark_byte, record_bytes, records_bytes, sighting,
    spawns_bytes, words_bytes, QuestgiversView, Remembered, RememberedView, SpawnCacheError,
};
use crate::text::{alphanumeric, safe_name};
use crate::wire::{bytes32, bytes64, group_word_lengths, holds, lemma_holds_both};
use crate::written::{
    blank, group_written, in_a_row, lemma_last, lemma_next, lemma_stands, lemma_whole,
    row_of_words, written, Piece,
};
use vstd::prelude::*;

verus! {

broadcast use group_word_lengths;

/// One answer of a file: the quest, how long the body is, and the body.
pub open spec fn answer_pieces(id: u32, body: Seq<u8>) -> Seq<Piece> {
    blank().push(Piece::Word(id)).push(Piece::Word(body.len() as u32)).push(Piece::Bytes(body))
}

proof fn lemma_answers_in_a_row(known: Map<u32, Seq<u8>>, ids: Seq<u32>)
    requires
        forall|i: int| 0 <= i < ids.len() ==> known[#[trigger] ids[i]].len() <= u32::MAX,
    ensures
        entries_bytes(known, ids) == in_a_row(
            ids,
            |id: u32| written(answer_pieces(id, known[id])),
        ),
    decreases ids.len(),
{
    broadcast use group_written;

    if ids.len() > 0 {
        let rest = ids.skip(1);
        assert forall|i: int| 0 <= i < rest.len() implies known[#[trigger] rest[i]].len()
            <= u32::MAX by {
            assert(rest[i] == ids[i + 1]);
        }
        lemma_answers_in_a_row(known, rest);
        assert(known[ids[0]].len() <= u32::MAX);
        assert(entry_bytes(ids[0], known[ids[0]]) =~= written(
            answer_pieces(ids[0], known[ids[0]]),
        ));
    }
}

/// A file of quests is its mark, its version, the number of answers, and the
/// answers by ascending quest.
pub proof fn lemma_quest_file_is_written_in_order(known: Map<u32, Seq<u8>>)
    requires
        known.dom().finite(),
        known.len() <= u32::MAX,
        forall|id: u32| #[trigger] known.contains_key(id) ==> known[id].len() <= u32::MAX,
    ensures
        cache_bytes(known) == written(
            blank().push(Piece::Bytes(seq![0x4Fu8, 0x57u8, 0x51u8, 0x43u8])).push(
                Piece::Word(1),
            ).push(Piece::Word(known.len() as u32)).push(
                Piece::Bytes(
                    in_a_row(
                        listing(known.dom()),
                        |id: u32| written(answer_pieces(id, known[id])),
                    ),
                ),
            ),
        ),
{
    broadcast use group_written;

    let ids = listing(known.dom());
    lemma_listing(known.dom());
    assert forall|i: int| 0 <= i < ids.len() implies known[#[trigger] ids[i]].len()
        <= u32::MAX by {
        assert(ids.to_set().contains(ids[i]));
        assert(known.contains_key(ids[i]));
    }
    lemma_answers_in_a_row(known, ids);
    assert(crate::quest_cache::MAGIC@ =~= seq![0x4Fu8, 0x57u8, 0x51u8, 0x43u8]);
}

/// Whether the `i`-th of some bodies is the last that answers about a quest.
pub open spec fn last_answer(bodies: Seq<Seq<u8>>, quest: u32, i: int) -> bool {
    &&& 0 <= i < bodies.len()
    &&& answers_about(bodies[i], quest)
    &&& forall|j: int| i < j < bodies.len() ==> !answers_about(#[trigger] bodies[j], quest)
}

/// Whether a body is an answer about a quest.
pub open spec fn answers_about(body: Seq<u8>, quest: u32) -> bool {
    quest_query(body) matches Ok(info) && info.id == quest
}

/// Answers of a file, with the numbers they were filed under.
pub open spec fn filed_answers(ids: Seq<u32>, bodies: Seq<Seq<u8>>) -> Seq<u8>
    decreases bodies.len(),
{
    if bodies.len() == 0 {
        seq![]
    } else {
        written(answer_pieces(ids[0], bodies[0])) + filed_answers(ids.skip(1), bodies.skip(1))
    }
}

/// The answers of a file are those of its bodies that are answers, each under
/// the quest that it is about and the later in place of the earlier. A body
/// that is none is dropped, and takes nothing else with it.
pub proof fn lemma_answers_read_back(
    c: Cursor,
    ids: Seq<u32>,
    bodies: Seq<Seq<u8>>,
    known: Map<u32, Seq<u8>>,
    quest: u32,
    i: int,
)
    requires
        c.sound(),
        ids.len() == bodies.len(),
        forall|k: int| 0 <= k < bodies.len() ==> (#[trigger] bodies[k]).len() <= u32::MAX,
        holds(c.data, c.at, filed_answers(ids, bodies)),
    ensures
        ({
            let (read, end) = read_entries(c, bodies.len(), known);
            &&& end == (Cursor { at: c.at + filed_answers(ids, bodies).len(), ..c })
            &&& last_answer(bodies, quest, i) ==> read.get(quest) == Some(bodies[i])
            &&& (forall|k: int| 0 <= k < bodies.len() ==> !answers_about(
                #[trigger] bodies[k],
                quest,
            )) ==> read.get(quest) == known.get(quest)
        }),
    decreases bodies.len(),
{
    if bodies.len() > 0 {
        let (id, body) = (ids[0], bodies[0]);
        let pieces = answer_pieces(id, body);
        let (later_ids, later) = (ids.skip(1), bodies.skip(1));
        lemma_holds_both(c.data, c.at, written(pieces), filed_answers(later_ids, later));
        let end = c.at + written(pieces).len();
        lemma_stands(c, pieces);
        lemma_next(c, pieces, 0, end);
        lemma_next(c.take(4), pieces, 1, end);
        let start = c.take(4).take(4);
        lemma_next(start, pieces, 2, end);
        let next = start.take(body.len() as int);
        lemma_last(next, pieces, end);
        let with = if quest_query(body) is Ok {
            known.insert(described(body).id, body)
        } else {
            known
        };
        assert forall|k: int| 0 <= k < later.len() implies (#[trigger] later[k]).len()
            <= u32::MAX by {
            assert(later[k] == bodies[k + 1]);
        }
        lemma_answers_read_back(next, later_ids, later, with, quest, i - 1);
        assert(read_entries(c, bodies.len(), known) == read_entries(next, later.len(), with));
        if last_answer(bodies, quest, i) {
            if i > 0 {
                assert(later[i - 1] == bodies[i]);
                assert(last_answer(later, quest, i - 1)) by {
                    assert forall|j: int| i - 1 < j < later.len() implies !answers_about(
                        #[trigger] later[j],
                        quest,
                    ) by {
                        assert(!answers_about(bodies[j + 1], quest));
                    }
                }
            } else {
                assert forall|k: int| 0 <= k < later.len() implies !answers_about(
                    #[trigger] later[k],
                    quest,
                ) by {
                    assert(!answers_about(bodies[k + 1], quest));
                }
            }
        }
        if forall|k: int| 0 <= k < bodies.len() ==> !answers_about(#[trigger] bodies[k], quest) {
            assert(!answers_about(bodies[0], quest));
            assert forall|k: int| 0 <= k < later.len() implies !answers_about(
                #[trigger] later[k],
                quest,
            ) by {
                assert(!answers_about(bodies[k + 1], quest));
            }
        }
    }
}

/// A file that does not begin with its own mark is none of either kind, and
/// one of another version holds nothing.
pub proof fn lemma_strange_files_are_told_apart(file: Seq<u8>, version: u32, rest: Seq<u8>)
    ensures
        file.len() >= 4 && file.take(4) != seq![0x4Fu8, 0x57u8, 0x51u8, 0x43u8]
            ==> crate::quest_cache::decoded(file) == Err::<QuestCacheView, CacheError>(
            CacheError::NotACache,
        ),
        file.len() >= 4 && file.take(4) != seq![0x4Fu8, 0x57u8, 0x51u8, 0x47u8]
            ==> crate::spawns::decoded(file) == Err::<QuestgiversView, SpawnCacheError>(
            SpawnCacheError::NotACache,
        ),
        file.len() < 4 ==> crate::quest_cache::decoded(file) == Err::<QuestCacheView, CacheError>(
            CacheError::Truncated,
        ) && crate::spawns::decoded(file) == Err::<QuestgiversView, SpawnCacheError>(
            SpawnCacheError::Truncated,
        ),
        version != 1 ==> {
            let quests = crate::quest_cache::decoded(
                written(
                    seq![
                        Piece::Bytes(seq![0x4Fu8, 0x57u8, 0x51u8, 0x43u8]),
                        Piece::Word(version),
                        Piece::Bytes(rest),
                    ],
                ),
            );
            quests is Ok && quests->Ok_0.known == Map::<u32, Seq<u8>>::empty()
        },
        version != 1 ==> {
            let givers = crate::spawns::decoded(
                written(
                    seq![
                        Piece::Bytes(seq![0x4Fu8, 0x57u8, 0x51u8, 0x47u8]),
                        Piece::Word(version),
                        Piece::Bytes(rest),
                    ],
                ),
            );
            givers is Ok && givers->Ok_0.by_guid == Map::<u64, RememberedView>::empty()
        },
{
    assert(crate::quest_cache::MAGIC@ =~= seq![0x4Fu8, 0x57u8, 0x51u8, 0x43u8]);
    assert(crate::spawns::MAGIC@ =~= seq![0x4Fu8, 0x57u8, 0x51u8, 0x47u8]);
    let quests = seq![
        Piece::Bytes(seq![0x4Fu8, 0x57u8, 0x51u8, 0x43u8]),
        Piece::Word(version),
        Piece::Bytes(rest),
    ];
    let givers = seq![
        Piece::Bytes(seq![0x4Fu8, 0x57u8, 0x51u8, 0x47u8]),
        Piece::Word(version),
        Piece::Bytes(rest),
    ];
    let (q, g) = (written(quests), written(givers));
    let c = Cursor::over(q, "quest cache");
    lemma_whole(quests, "quest cache");
    lemma_next(c, quests, 0, q.len() as int);
    lemma_next(c.take(4), quests, 1, q.len() as int);
    assert(q.take(4) =~= q.subrange(0, 4));
    let d = Cursor::over(g, "questgiver cache");
    lemma_whole(givers, "questgiver cache");
    lemma_next(d, givers, 0, g.len() as int);
    lemma_next(d.take(4), givers, 1, g.len() as int);
    assert(g.take(4) =~= g.subrange(0, 4));
}

/// One questgiver of a file, field by field: the spawn, its kind, where it was,
/// its mark, when that was seen, and the quests it offers.
pub open spec fn giver_pieces(known: RememberedView, mark: u8) -> Seq<Piece> {
    seq![
        Piece::Long(known.guid),
        Piece::Words(seq![known.entry, known.map, known.x, known.y, known.z]),
        Piece::Byte(mark),
        Piece::Long(known.seen),
        Piece::Word(known.offers.len() as u32),
        Piece::Words(known.offers),
    ]
}

/// The byte that a file keeps for a mark: the server's own number, and one of
/// the file's own for a creature that nobody has asked about.
pub open spec fn mark_number(mark: Option<QuestgiverMark>) -> u8 {
    match mark {
        None => 0xFF,
        Some(QuestgiverMark::Nothing) => 0,
        Some(QuestgiverMark::Available) => 8,
        Some(QuestgiverMark::Complete) => 10,
        Some(QuestgiverMark::Unknown(status)) => status,
    }
}

/// A questgiver reads back out of a file under the names it was written under,
/// and never as live.
pub proof fn lemma_giver_reads_back(c: Cursor, known: Remembered)
    requires
        c.sound(),
        known.offers@.len() <= u32::MAX,
        known.mark matches Some(QuestgiverMark::Unknown(status)) ==> status != 0xFF && status != 0
            && status != 8 && status != 10,
        holds(c.data, c.at, written(giver_pieces(known@, mark_number(known.mark)))),
    ensures
        kept_record(c) == (
            RememberedView { live: false, ..known@ },
            (Cursor {
                at: c.at + written(giver_pieces(known@, mark_number(known.mark))).len(),
                ..c
            }),
        ),
{
    reveal(kept_record);
    let pieces = giver_pieces(known@, mark_number(known.mark));
    let end = c.at + written(pieces).len();
    lemma_stands(c, pieces);
    lemma_next(c, pieces, 0, end);
    let c1 = c.take(8);
    lemma_next(c1, pieces, 1, end);
    assert(c1.nth(0) == known.entry);
    assert(c1.nth(1) == known.map);
    assert(c1.nth(2) == known.x);
    assert(c1.nth(3) == known.y);
    assert(c1.nth(4) == known.z);
    let c2 = c1.words(5);
    lemma_next(c2, pieces, 2, end);
    let c3 = c2.take(1);
    lemma_next(c3, pieces, 3, end);
    let c4 = c3.take(8);
    lemma_next(c4, pieces, 4, end);
    let c5 = c4.take(4);
    lemma_next(c5, pieces, 5, end);
    assert(Seq::new(c4.word() as nat, |i: int| c5.nth(i)) =~= known.offers@);
    lemma_last(c5.words(known.offers@.len() as int), pieces, end);
}

/// A record is its parts.
pub proof fn lemma_a_record_is_its_parts(known: Remembered)
    ensures
        known@.guid == known.guid,
        known@.entry == known.entry,
        known@.map == known.map,
        known@.x == known.x,
        known@.y == known.y,
        known@.z == known.z,
        known@.mark == known.mark,
        known@.seen == known.seen,
        known@.live == known.live,
        known@.offers == known.offers@,
{
}

proof fn lemma_words_are_a_row(list: Seq<u32>)
    ensures
        words_bytes(list) == row_of_words(list),
    decreases list.len(),
{
    if list.len() == 0 {
        assert(words_bytes(list) =~= row_of_words(list));
    } else {
        let shorter = list.drop_last();
        lemma_words_are_a_row(shorter);
        let n = shorter.len() as int;
        assert(row_of_words(list) =~= row_of_words(shorter) + bytes32(list.last())) by {
            assert forall|i: int| 0 <= i < 4 * list.len() implies #[trigger] row_of_words(list)[i]
                == (row_of_words(shorter) + bytes32(list.last()))[i] by {
                if i < 4 * n {
                    assert(i / 4 < n);
                    assert(shorter[i / 4] == list[i / 4]);
                } else {
                    assert(i / 4 == n && i % 4 == i - 4 * n);
                }
            }
        }
    }
}

/// A questgiver is written field by field.
pub proof fn lemma_giver_is_written_in_order(known: RememberedView)
    requires
        known.offers.len() <= u32::MAX,
    ensures
        record_bytes(known) == written(
            blank().push(Piece::Long(known.guid)).push(Piece::Word(known.entry)).push(
                Piece::Word(known.map),
            ).push(Piece::Word(known.x)).push(Piece::Word(known.y)).push(
                Piece::Word(known.z),
            ).push(Piece::Byte(mark_number(known.mark))).push(Piece::Long(known.seen)).push(
                Piece::Word(known.offers.len() as u32),
            ).push(Piece::Words(known.offers)),
        ),
{
    broadcast use group_written;

    reveal(fixed_bytes);
    lemma_words_are_a_row(known.offers);
    let place = blank().push(Piece::Long(known.guid)).push(Piece::Word(known.entry)).push(
        Piece::Word(known.map),
    ).push(Piece::Word(known.x)).push(Piece::Word(known.y)).push(Piece::Word(known.z));
    assert(written(place) =~= bytes64(known.guid) + (bytes32(known.entry) + bytes32(known.map)
        + bytes32(known.x) + bytes32(known.y) + bytes32(known.z)));
    assert(mark_byte(known.mark) == mark_number(known.mark));
}

proof fn lemma_givers_in_a_row(by_guid: Map<u64, RememberedView>, guids: Seq<u64>)
    ensures
        records_bytes(by_guid, guids) == in_a_row(guids, |guid: u64| record_bytes(by_guid[guid])),
    decreases guids.len(),
{
    if guids.len() > 0 {
        lemma_givers_in_a_row(by_guid, guids.skip(1));
    }
}

/// A file of questgivers is its mark, its version, their number, and the
/// questgivers by ascending guid.
pub proof fn lemma_giver_file_is_written_in_order(by_guid: Map<u64, RememberedView>)
    requires
        by_guid.len() <= u32::MAX,
    ensures
        spawns_bytes(by_guid) == written(
            blank().push(Piece::Bytes(seq![0x4Fu8, 0x57u8, 0x51u8, 0x47u8])).push(
                Piece::Word(1),
            ).push(Piece::Word(by_guid.len() as u32)).push(
                Piece::Bytes(
                    in_a_row(
                        listing(by_guid.dom()),
                        |guid: u64| record_bytes(by_guid[guid]),
                    ),
                ),
            ),
        ),
{
    broadcast use group_written;

    lemma_givers_in_a_row(by_guid, listing(by_guid.dom()));
    assert(crate::spawns::MAGIC@ =~= seq![0x4Fu8, 0x57u8, 0x51u8, 0x47u8]);
}

/// The marks are those of the server's own numbers, and only a quest to take
/// or to hand in is drawn.
pub proof fn lemma_marks_have_their_numbers(status: u8)
    ensures
        mark_of(0) is Nothing,
        mark_of(8) is Available,
        mark_of(10) is Complete,
        status != 0 && status != 8 && status != 10 ==> mark_of(status) == QuestgiverMark::Unknown(
            status,
        ),
        drawn(mark_of(status)) <==> status == 8 || status == 10,
        status_of(mark_of(status)) == status,
{
}

/// A creature that is seen for the first time, or is not the one remembered
/// under its guid, is remembered where it was seen, with nothing else known of
/// it. That is news.
pub proof fn lemma_a_stranger_is_remembered(
    givers: QuestgiversView,
    guid: u64,
    entry: u32,
    map: u32,
    x: u32,
    y: u32,
    z: u32,
    moved: bool,
    other: u64,
)
    requires
        givers.by_guid.contains_key(guid) ==> givers.by_guid[guid].entry != entry
            || givers.by_guid[guid].map != map,
        other != guid,
    ensures
        ({
            let after = givers.with_sighting(sighting(guid, entry, map, x, y, z), moved);
            &&& after.by_guid.get(guid) == Some(
                RememberedView {
                    guid,
                    entry,
                    map,
                    x,
                    y,
                    z,
                    mark: None,
                    seen: 0,
                    live: false,
                    offers: seq![],
                },
            )
            &&& after.by_guid.get(other) == givers.by_guid.get(other)
            &&& after.dirty
        }),
{
}

/// A creature that is seen again is remembered where it now is, if it moved,
/// and that is news. Whatever else was known of it stays. If it did not move,
/// nothing changes.
pub proof fn lemma_a_known_creature_is_seen_again(
    givers: QuestgiversView,
    guid: u64,
    x: u32,
    y: u32,
    z: u32,
    other: u64,
)
    requires
        givers.by_guid.contains_key(guid),
        givers.by_guid[guid].guid == guid,
        other != guid,
    ensures
        ({
            let was = givers.by_guid[guid];
            let sight = sighting(guid, was.entry, was.map, x, y, z);
            let after = givers.with_sighting(sight, true);
            &&& after.by_guid.get(guid) == Some(RememberedView { x, y, z, ..was })
            &&& after.by_guid.get(other) == givers.by_guid.get(other)
            &&& after.dirty
            &&& givers.with_sighting(sight, false) == givers
        }),
{
}

/// An answer about a creature is its mark from then on, and it is live. When it
/// was seen counts from the first time that it was answered so. A creature that
/// was never seen has no place for a mark.
pub proof fn lemma_an_answer_is_the_mark(
    givers: QuestgiversView,
    guid: u64,
    mark: QuestgiverMark,
    now: u64,
    other: u64,
)
    requires
        other != guid,
    ensures
        ({
            let after = givers.with_mark(guid, mark, now);
            let was = givers.by_guid[guid];
            &&& !givers.by_guid.contains_key(guid) ==> after == givers
            &&& givers.by_guid.contains_key(guid) ==> after.by_guid.get(guid) == Some(
                RememberedView {
                    mark: Some(mark),
                    live: true,
                    seen: if was.mark == Some(mark) && was.seen != 0 {
                        was.seen
                    } else {
                        now
                    },
                    ..was
                },
            )
            &&& after.by_guid.get(other) == givers.by_guid.get(other)
            &&& givers.by_guid.contains_key(guid) ==> (after.dirty <==> givers.dirty || was.mark
                != Some(mark) || was.seen == 0)
        }),
{
}

proof fn lemma_joined(offers: Seq<u32>, quests: Seq<u32>, quest: u32)
    ensures
        joined(offers, quests).contains(quest) <==> offers.contains(quest) || quests.contains(
            quest,
        ),
        offers.no_duplicates() ==> joined(offers, quests).no_duplicates(),
    decreases quests.len(),
{
    if quests.len() > 0 {
        let shorter = quests.drop_last();
        let before = joined(offers, shorter);
        let after = joined(offers, quests);
        lemma_joined(offers, shorter, quest);
        assert(quests.contains(quest) <==> shorter.contains(quest) || quest == quests.last()) by {
            if shorter.contains(quest) {
                assert(quests[shorter.index_of(quest)] == quest);
            }
            if quest == quests.last() {
                assert(quests[quests.len() - 1] == quest);
            }
            if quests.contains(quest) && quest != quests.last() {
                assert(shorter[quests.index_of(quest)] == quest);
            }
        }
        if !before.contains(quests.last()) {
            assert(after == before.push(quests.last()));
            if before.contains(quest) {
                assert(after[before.index_of(quest)] == quest);
            }
            if quest == quests.last() {
                assert(after[after.len() - 1] == quest);
            }
            if after.contains(quest) && quest != quests.last() {
                assert(before[after.index_of(quest)] == quest);
            }
        }
    } else {
        assert(!quests.contains(quest));
    }
}

/// What a creature was seen to offer is added to what it was known to offer,
/// and nothing is lost. Nothing else of it changes, and no other creature does.
/// It is news where there is anything new in it.
pub proof fn lemma_offers_are_added(
    givers: QuestgiversView,
    guid: u64,
    quests: Seq<u32>,
    quest: u32,
    other: u64,
)
    requires
        givers.by_guid.contains_key(guid),
        other != guid,
    ensures
        ({
            let after = givers.with_offers(guid, quests);
            let (was, new) = (givers.by_guid[guid], after.by_guid[guid]);
            &&& after.by_guid.contains_key(guid)
            &&& new.offers.contains(quest) <==> was.offers.contains(quest) || quests.contains(
                quest,
            )
            &&& forall|i: int, j: int|
                0 <= i < j < new.offers.len() ==> #[trigger] new.offers[i]
                    <= #[trigger] new.offers[j]
            &&& new == (RememberedView { offers: new.offers, ..was })
            &&& after.by_guid.get(other) == givers.by_guid.get(other)
            &&& after.dirty <==> givers.dirty || new.offers != was.offers
        }),
        !givers.by_guid.contains_key(other) ==> givers.with_offers(other, quests) == givers,
{
    let offers = givers.by_guid[guid].offers;
    let all = joined(offers, quests);
    lemma_joined(offers, quests, quest);
    lemma_arranged(all, quest);
}

/// Listings ascend, of spawns as of quests.
pub proof fn lemma_listings_ascend(guids: Set<u64>, quests: Set<u32>, i: int, j: int)
    requires
        guids.finite(),
        quests.finite(),
        0 <= i < j,
    ensures
        j < listing(guids).len() ==> listing(guids)[i] < listing(guids)[j],
        j < listing(quests).len() ==> listing(quests)[i] < listing(quests)[j],
{
    lemma_listing(guids);
    lemma_listing(quests);
}

/// A creature whose every known offer is in the log goes back to not having
/// been asked, and is no longer live. Every other record stays as it is. It is
/// news where there is any such creature.
pub proof fn lemma_taken_offers_retire_a_mark(
    givers: QuestgiversView,
    log: Seq<u32>,
    guid: u64,
)
    requires
        givers.by_guid.contains_key(guid),
    ensures
        ({
            let after = givers.forgetting(log);
            let was = givers.by_guid[guid];
            let taken = was.mark is Some && was.offers.len() > 0 && forall|quest: u32|
                was.offers.contains(quest) ==> #[trigger] log.contains(quest);
            &&& after.by_guid.dom() == givers.by_guid.dom()
            &&& after.by_guid[guid] == if taken {
                RememberedView { mark: None, live: false, ..was }
            } else {
                was
            }
            &&& givers.exhausted(log).contains(guid) <==> taken
            &&& after.dirty <==> givers.dirty || givers.exhausted(log).len() > 0
        }),
{
    let was = givers.by_guid[guid];
    assert(givers.forgetting(log).by_guid.dom() =~= givers.by_guid.dom());
    if was.exhausted(log) {
        assert forall|quest: u32| was.offers.contains(quest) implies #[trigger] log.contains(
            quest,
        ) by {
            assert(log.contains(was.offers[was.offers.index_of(quest)]));
        }
    }
    if forall|quest: u32| was.offers.contains(quest) ==> #[trigger] log.contains(quest) {
        assert forall|i: int| 0 <= i < was.offers.len() implies log.contains(
            #[trigger] was.offers[i],
        ) by {
            assert(was.offers.contains(was.offers[i]));
        }
    }
}

/// What is shown on a map is every creature that was seen on it and has a
/// quest to give or to take back, and no other.
pub proof fn lemma_what_is_shown_on_a_map(givers: QuestgiversView, map: u32, guid: u64)
    requires
        givers.by_guid.dom().finite(),
    ensures
        givers.shown_on(map).contains(guid) <==> {
            &&& givers.by_guid.contains_key(guid)
            &&& givers.by_guid[guid].map == map
            &&& givers.by_guid[guid].mark == Some(QuestgiverMark::Available)
                || givers.by_guid[guid].mark == Some(QuestgiverMark::Complete)
        },
{
    let keep = |guid: u64| givers.by_guid[guid].map == map && givers.by_guid[guid].drawn();
    lemma_listing(givers.by_guid.dom());
    lemma_filter_members(listing(givers.by_guid.dom()), keep, guid);
    assert(listing(givers.by_guid.dom()).to_set().contains(guid) <==> listing(
        givers.by_guid.dom(),
    ).contains(guid));
}

/// What is asked about is everything worth asking about, in the order of the
/// list, as far as the limit goes.
pub proof fn lemma_everything_unknown_is_asked(
    cache: QuestCacheView,
    wanted: Seq<u32>,
    limit: nat,
    quest: u32,
    n: int,
)
    requires
        0 <= n <= wanted.len(),
    ensures
        cache.to_ask(wanted, limit).len() < limit && wanted.contains(quest) && quest != 0
            && cache.answer(quest) is Unknown ==> cache.to_ask(wanted, limit).contains(quest),
        cache.to_ask(wanted.take(n), limit).is_prefix_of(cache.to_ask(wanted, limit)),
    decreases wanted.len(),
{
    if wanted.len() > 0 {
        let shorter = wanted.drop_last();
        let before = cache.to_ask(shorter, limit);
        let all = cache.to_ask(wanted, limit);
        if n < wanted.len() {
            lemma_everything_unknown_is_asked(cache, shorter, limit, quest, n);
            assert(shorter.take(n) =~= wanted.take(n));
        } else {
            lemma_everything_unknown_is_asked(cache, shorter, limit, quest, 0);
            assert(wanted.take(n) =~= wanted);
        }
        if all.len() < limit && wanted.contains(quest) && quest != 0 && cache.answer(quest)
            is Unknown {
            if shorter.contains(quest) {
                let k = before.index_of(quest);
                assert(before[k] == quest);
                assert(all[k] == quest);
            } else {
                assert(wanted.last() == quest) by {
                    let i = wanted.index_of(quest);
                    if i < shorter.len() {
                        assert(shorter[i] == quest);
                    }
                }
                if before.contains(quest) {
                    assert(all[before.index_of(quest)] == quest);
                } else {
                    assert(all[all.len() - 1] == quest);
                }
            }
        }
    } else {
        assert(!wanted.contains(quest));
        assert(wanted.take(n) =~= wanted);
    }
}

/// A quest that is asked about is waited for, and nothing that was known of
/// any other quest changes.
pub proof fn lemma_asking_is_waiting(cache: QuestCacheView, quests: Seq<u32>, quest: u32)
    ensures
        ({
            let after = cache.asking(quests);
            &&& after.pending.contains(quest) <==> cache.pending.contains(quest)
                || quests.contains(quest)
            &&& after.known == cache.known
            &&& after.unanswered == cache.unanswered
            &&& after.dirty == cache.dirty
            &&& !quests.contains(quest) ==> after.answer(quest) == cache.answer(quest)
        }),
{
}

/// A quest reads as what is known of it: an answer before everything else, then
/// that it is waited for, then that nothing came.
pub proof fn lemma_a_quest_reads_as_it_stands(cache: QuestCacheView, quest: u32)
    requires
        cache.valid(),
    ensures
        match cache.answer(quest) {
            AnswerView::Known(info) => cache.known.contains_key(quest) && quest_query(
                cache.known[quest],
            ) == Ok::<crate::quest::QuestInfoView, crate::protocol::Error>(info),
            AnswerView::Pending => cache.pending.contains(quest) && !cache.known.contains_key(
                quest,
            ),
            AnswerView::Unanswered => cache.unanswered.contains(quest)
                && !cache.known.contains_key(quest) && !cache.pending.contains(quest),
            AnswerView::Unknown => !cache.unanswered.contains(quest)
                && !cache.known.contains_key(quest) && !cache.pending.contains(quest),
        },
{
}

/// An answer is filed as it arrived, under the quest that it is about, and that
/// quest is no longer waited for or given up on. It is news.
pub proof fn lemma_an_answer_is_filed(cache: QuestCacheView, body: Seq<u8>, other: u32)
    requires
        quest_query(body) is Ok,
        other != quest_query(body)->Ok_0.id,
    ensures
        ({
            let after = cache.filed(body);
            let id = quest_query(body)->Ok_0.id;
            &&& after.known.get(id) == Some(body)
            &&& !after.pending.contains(id) && !after.unanswered.contains(id)
            &&& after.known.get(other) == cache.known.get(other)
            &&& after.pending.contains(other) == cache.pending.contains(other)
            &&& after.unanswered.contains(other) == cache.unanswered.contains(other)
            &&& after.dirty
        }),
{
}

/// What a log wants to be found is what each of its quests does, one after the
/// other: of a quest that was answered every item that its objectives name, in
/// their order, and of any other nothing.
pub proof fn lemma_what_a_log_wants(
    cache: QuestCacheView,
    first: Seq<u32>,
    second: Seq<u32>,
    quest: u32,
    i: int,
)
    ensures
        cache.wanted_entries(first + second) == cache.wanted_entries(first)
            + cache.wanted_entries(second),
        !cache.known.contains_key(quest) ==> cache.wanted_entries(seq![quest]).len() == 0,
        cache.known.contains_key(quest) ==> {
            let items = described(cache.known[quest]).item_objectives;
            &&& cache.wanted_entries(seq![quest]).len() == items.len()
            &&& 0 <= i < items.len() ==> cache.wanted_entries(seq![quest])[i] == items[i].item
        },
    decreases second.len(),
{
    let one = seq![quest];
    assert(one.drop_last() =~= seq![]);
    assert(cache.wanted_entries(one.drop_last()) == Seq::<u32>::empty());
    if second.len() == 0 {
        assert(first + second =~= first);
        assert(cache.wanted_entries(first) + cache.wanted_entries(second)
            =~= cache.wanted_entries(first));
    } else {
        assert((first + second).drop_last() =~= first + second.drop_last());
        lemma_what_a_log_wants(cache, first, second.drop_last(), quest, i);
        assert(cache.wanted_entries(first + second) =~= cache.wanted_entries(first)
            + cache.wanted_entries(second));
    }
}

/// A name is made safe letter by letter: a letter or a digit stays, and
/// anything else becomes the same harmless sign.
pub proof fn lemma_a_name_is_made_safe(name: Seq<char>, i: int)
    requires
        0 <= i < name.len(),
    ensures
        safe_name(name).len() == name.len(),
        safe_name(name)[i] == if alphanumeric(name[i]) {
            name[i]
        } else {
            '_'
        },
        alphanumeric(name[i]) <==> {
            ||| '0' <= name[i] <= '9'
            ||| 'A' <= name[i] <= 'Z'
            ||| 'a' <= name[i] <= 'z'
        },
{
}

} // verus!
