//! Quests: where their objectives are on the map, what they ask for, and what
//! stands over a questgiver's head.
//!
//! The marker reply nests three levels of counted list, so one miscount puts
//! everything behind it out of step. The end of the body is what notices.
use crate::cursor::{
    agrees, lemma_cstrings_sticky, lemma_many_step, lemma_many_sticky, lemma_views_push, many, ran,
    sticky, views, Cursor,
};
use crate::protocol::{Error, Reader};
use crate::vendor::unless_negative;
use crate::wire::{signed, to_signed};
use vstd::prelude::*;

verus! {

/// One marker area for a quest objective: a polygon on the world map.
#[derive(Debug, PartialEq, Eq)]
pub struct QuestPoi {
    /// The marker's index within this quest's own set.
    pub id: u32,
    /// Which objective this marks, or `None` for a marker that belongs to the
    /// quest as a whole. Signed on the wire, where it is mostly -1.
    pub objective_index: Option<u32>,
    pub map_id: u32,
    /// A row in `WorldMapArea.dbc`, which is not `AreaTable.dbc`.
    pub world_map_area_id: u32,
    pub floor_id: u32,
    /// The polygon, in signed world coordinates. One point is a pin.
    pub points: Vec<(i32, i32)>,
    /// Two fields that nothing has explained.
    pub unknown: (u32, u32),
}

/// A [`QuestPoi`] as a mathematical value.
pub struct QuestPoiView {
    pub id: u32,
    pub objective_index: Option<u32>,
    pub map_id: u32,
    pub world_map_area_id: u32,
    pub floor_id: u32,
    pub points: Seq<(i32, i32)>,
    pub unknown: (u32, u32),
}

impl View for QuestPoi {
    type V = QuestPoiView;

    open spec fn view(&self) -> QuestPoiView {
        QuestPoiView {
            id: self.id,
            objective_index: self.objective_index,
            map_id: self.map_id,
            world_map_area_id: self.world_map_area_id,
            floor_id: self.floor_id,
            points: self.points@,
            unknown: self.unknown,
        }
    }
}

fn copy_points(points: &Vec<(i32, i32)>) -> (r: Vec<(i32, i32)>)
    ensures
        r@ == points@,
{
    let mut out: Vec<(i32, i32)> = Vec::new();
    for i in 0..points.len()
        invariant
            out@ == points@.take(i as int),
    {
        out.push((points[i].0, points[i].1));
        assert(out@ =~= points@.take(i + 1));
    }
    assert(points@.take(points@.len() as int) =~= points@);
    out
}

impl Clone for QuestPoi {
    fn clone(&self) -> (r: Self)
        ensures
            r@ == self@,
    {
        QuestPoi {
            id: self.id,
            objective_index: self.objective_index,
            map_id: self.map_id,
            world_map_area_id: self.world_map_area_id,
            floor_id: self.floor_id,
            points: copy_points(&self.points),
            unknown: (self.unknown.0, self.unknown.1),
        }
    }
}

/// Every marker that the server returned for one quest.
#[derive(Debug, Clone, PartialEq, Eq)]
pub struct QuestPoiSet {
    pub quest_id: u32,
    /// Empty both for a quest without markers and for one that is not in the
    /// player's log. The reply does not tell the two apart.
    pub markers: Vec<QuestPoi>,
}

/// A [`QuestPoiSet`] as a mathematical value.
pub struct QuestPoiSetView {
    pub quest_id: u32,
    pub markers: Seq<QuestPoiView>,
}

impl View for QuestPoiSet {
    type V = QuestPoiSetView;

    open spec fn view(&self) -> QuestPoiSetView {
        QuestPoiSetView { quest_id: self.quest_id, markers: views(self.markers@) }
    }
}

/// The points of a polygon, which start at a cursor.
pub open spec fn polygon(c: Cursor, count: u32) -> Seq<(i32, i32)> {
    Seq::new(count as nat, |i: int| (signed(c.nth(2 * i)), signed(c.nth(2 * i + 1))))
}

/// One marker, and where its record ends.
#[verifier::opaque]
pub open spec fn marker(c: Cursor) -> (QuestPoiView, Cursor) {
    let points = c.words(8);
    let count = c.nth(7);
    (
        QuestPoiView {
            id: c.nth(0),
            objective_index: unless_negative(c.nth(1)),
            map_id: c.nth(2),
            world_map_area_id: c.nth(3),
            floor_id: c.nth(4),
            points: polygon(points, count),
            unknown: (c.nth(5), c.nth(6)),
        },
        points.words(2 * count),
    )
}

/// One quest's markers, and where they end.
#[verifier::opaque]
pub open spec fn marker_set(c: Cursor) -> (QuestPoiSetView, Cursor) {
    let (markers, end) = many(c.words(2), c.nth(1) as nat, |c: Cursor| marker(c));
    (QuestPoiSetView { quest_id: c.nth(0), markers }, end)
}

/// What [`parse_quest_poi`] makes of a body.
pub open spec fn quest_poi(body: Seq<u8>) -> Result<Seq<QuestPoiSetView>, Error> {
    let c = Cursor::over(body, "SMSG_QUEST_POI_QUERY_RESPONSE");
    let (sets, end) = many(c.take(4), c.word() as nat, |c: Cursor| marker_set(c));
    end.finish().outcome(sets)
}

proof fn lemma_marker_sticky()
    ensures
        sticky(|c: Cursor| marker(c)),
{
    reveal(marker);
}

proof fn lemma_marker_set_sticky()
    ensures
        sticky(|c: Cursor| marker_set(c)),
{
    reveal(marker_set);
    lemma_marker_sticky();
    let record = |c: Cursor| marker_set(c);
    assert forall|c: Cursor| c.failed is Some implies #[trigger] record(c).1 == c by {
        lemma_many_sticky(c.words(2), c.nth(1) as nat, |c: Cursor| marker(c));
    }
}

fn read_points(r: &mut Reader<'_>, count: u32) -> (res: Result<Vec<(i32, i32)>, Error>)
    requires
        old(r)@.sound(),
    ensures
        ran(res, final(r)@, old(r)@.words(2 * count)),
        res matches Ok(v) ==> v@ == polygon(old(r)@, count),
{
    let mut points: Vec<(i32, i32)> = Vec::new();
    for i in 0..count
        invariant
            old(r)@.sound(),
            r@ == (Cursor { at: old(r)@.at + 8 * i, ..old(r)@ }),
            r@.sound(),
            points@.len() == i,
            forall|k: int| 0 <= k < i ==> #[trigger] points@[k] == polygon(old(r)@, count)[k],
    {
        let ghost here = r@;
        let w = r.words::<2>()?;
        assert(w@[0] == here.nth(0) && w@[1] == here.nth(1));
        points.push((to_signed(w[0]), to_signed(w[1])));
    }
    assert(points@ =~= polygon(old(r)@, count));
    Ok(points)
}

fn read_marker(r: &mut Reader<'_>) -> (res: Result<QuestPoi, Error>)
    ensures
        ran(res, final(r)@, marker(old(r)@).1),
        res matches Ok(v) ==> v@ == marker(old(r)@).0,
{
    reveal(marker);
    let w = r.words::<8>()?;
    let points = read_points(r, w[7])?;
    let objective_index = if to_signed(w[1]) < 0 {
        None
    } else {
        Some(w[1])
    };
    Ok(
        QuestPoi {
            id: w[0],
            objective_index,
            map_id: w[2],
            world_map_area_id: w[3],
            floor_id: w[4],
            points,
            unknown: (w[5], w[6]),
        },
    )
}

fn read_marker_set(r: &mut Reader<'_>) -> (res: Result<QuestPoiSet, Error>)
    ensures
        ran(res, final(r)@, marker_set(old(r)@).1),
        res matches Ok(v) ==> v@ == marker_set(old(r)@).0,
{
    let ghost record = |c: Cursor| marker(c);
    let ghost start = r@.words(2);
    let ghost all = many(start, r@.nth(1) as nat, record);
    proof {
        reveal(marker_set);
        lemma_marker_sticky();
        if start.failed is Some {
            lemma_many_sticky(start, r@.nth(1) as nat, record);
        }
    }
    let w = r.words::<2>()?;
    let count: u32 = w[1];
    let mut markers: Vec<QuestPoi> = Vec::new();
    assert(views(markers@) + all.0 =~= all.0);
    for i in 0..count
        invariant
            all.0 == views(markers@) + many(r@, (count - i) as nat, record).0,
            all.1 == many(r@, (count - i) as nat, record).1,
            all.1 == marker_set(old(r)@).1,
            record == (|c: Cursor| marker(c)),
            sticky(record),
    {
        let ghost left = (count - i) as nat;
        proof {
            lemma_many_step(views(markers@), r@, left, record);
            if marker(r@).1.failed is Some {
                lemma_many_sticky(marker(r@).1, (left - 1) as nat, record);
            }
        }
        let one = read_marker(r)?;
        proof {
            lemma_views_push(markers@, one);
        }
        markers.push(one);
    }
    assert(views(markers@) + seq![] =~= views(markers@));
    Ok(QuestPoiSet { quest_id: w[0], markers })
}

/// Parses `SMSG_QUEST_POI_QUERY_RESPONSE`.
pub fn parse_quest_poi(body: &[u8]) -> (r: Result<Vec<QuestPoiSet>, Error>)
    ensures
        match r {
            Ok(sets) => quest_poi(body@) == Ok::<Seq<QuestPoiSetView>, Error>(views(sets@)),
            Err(error) => quest_poi(body@) == Err::<Seq<QuestPoiSetView>, Error>(error),
        },
{
    let mut r = Reader::new(body, "SMSG_QUEST_POI_QUERY_RESPONSE");
    let ghost record = |c: Cursor| marker_set(c);
    let ghost start = r@.take(4);
    let ghost all = many(start, r@.word() as nat, record);
    proof {
        lemma_marker_set_sticky();
        if start.failed is Some {
            lemma_many_sticky(start, r@.word() as nat, record);
        }
    }
    let quests: u32 = r.u32()?;
    let mut sets: Vec<QuestPoiSet> = Vec::new();
    assert(views(sets@) + all.0 =~= all.0);
    for i in 0..quests
        invariant
            all.0 == views(sets@) + many(r@, (quests - i) as nat, record).0,
            all.1 == many(r@, (quests - i) as nat, record).1,
            quest_poi(body@) == all.1.finish().outcome(all.0),
            record == (|c: Cursor| marker_set(c)),
            sticky(record),
    {
        let ghost left = (quests - i) as nat;
        proof {
            lemma_many_step(views(sets@), r@, left, record);
            if marker_set(r@).1.failed is Some {
                lemma_many_sticky(marker_set(r@).1, (left - 1) as nat, record);
            }
        }
        let one = read_marker_set(&mut r)?;
        proof {
            lemma_views_push(sets@, one);
        }
        sets.push(one);
    }
    assert(views(sets@) + seq![] =~= views(sets@));
    r.finish()?;
    Ok(sets)
}

/// One thing that a quest asks the player to find.
#[derive(Debug, Clone, Copy, PartialEq, Eq, Structural)]
pub struct ItemObjective {
    /// The item's entry.
    pub item: u32,
    pub count: u32,
}

/// What the server said about one quest.
#[derive(Debug, Clone, PartialEq, Eq)]
pub struct QuestInfo {
    pub id: u32,
    /// What the quest asks to be found. Empty slots are left out.
    pub item_objectives: Vec<ItemObjective>,
}

/// A [`QuestInfo`] as a mathematical value.
pub struct QuestInfoView {
    pub id: u32,
    pub item_objectives: Seq<ItemObjective>,
}

impl View for QuestInfo {
    type V = QuestInfoView;

    open spec fn view(&self) -> QuestInfoView {
        QuestInfoView { id: self.id, item_objectives: self.item_objectives@ }
    }
}

/// Words of a quest's head, its id first.
pub const QUEST_HEAD_WORDS: usize = 65;

/// Item objectives that a quest has room for.
pub const QUEST_ITEMS: usize = 6;

/// The item objectives among the first `n` slots, the empty ones left out.
pub open spec fn wanted_items(c: Cursor, n: nat) -> Seq<ItemObjective>
    decreases n,
{
    if n == 0 {
        seq![]
    } else {
        let slot = n - 1;
        let others = wanted_items(c, (n - 1) as nat);
        if c.nth(2 * slot) == 0 {
            others
        } else {
            others.push(ItemObjective { item: c.nth(2 * slot), count: c.nth(2 * slot + 1) })
        }
    }
}

/// What [`parse_quest_query`] makes of a body: a head of words, five strings,
/// four objectives of four words each, the item objectives and four strings.
#[verifier::opaque]
pub open spec fn quest_query(body: Seq<u8>) -> Result<QuestInfoView, Error> {
    let head = Cursor::over(body, "SMSG_QUEST_QUERY_RESPONSE");
    let items = head.words(QUEST_HEAD_WORDS as int).cstrings(5).words(16);
    let end = items.words(2 * QUEST_ITEMS).cstrings(4);
    end.finish().outcome(
        QuestInfoView {
            id: head.nth(0),
            item_objectives: wanted_items(items, QUEST_ITEMS as nat),
        },
    )
}

/// Parses `SMSG_QUEST_QUERY_RESPONSE`.
pub fn parse_quest_query(body: &[u8]) -> (r: Result<QuestInfo, Error>)
    ensures
        agrees(r, quest_query(body@)),
{
    broadcast use lemma_cstrings_sticky;

    reveal(quest_query);
    let mut r = Reader::new(body, "SMSG_QUEST_QUERY_RESPONSE");
    let head = r.words::<65>()?;
    r.skip_strings(5)?;
    r.skip_words(16)?;
    let ghost items = r@;
    let w = r.words::<12>()?;
    let mut item_objectives: Vec<ItemObjective> = Vec::new();
    for i in 0..QUEST_ITEMS
        invariant
            item_objectives@ == wanted_items(items, i as nat),
            forall|k: int| 0 <= k < 12 ==> #[trigger] w@[k] == items.nth(k),
    {
        if w[2 * i] != 0 {
            item_objectives.push(ItemObjective { item: w[2 * i], count: w[2 * i + 1] });
        }
    }
    r.skip_strings(4)?;
    r.finish()?;
    Ok(QuestInfo { id: head[0], item_objectives })
}

/// What stands over a questgiver's head.
#[derive(Debug, Clone, Copy, PartialEq, Eq, Structural)]
pub enum QuestgiverMark {
    /// The server said that there is nothing.
    Nothing,
    /// A quest can be taken here.
    Available,
    /// A finished quest can be handed in here.
    Complete,
    /// A status without a name here. It keeps its number and draws nothing.
    Unknown(u8),
}

/// The mark that a status byte stands for.
pub open spec fn mark_of(status: u8) -> QuestgiverMark {
    if status == 0 {
        QuestgiverMark::Nothing
    } else if status == 8 {
        QuestgiverMark::Available
    } else if status == 10 {
        QuestgiverMark::Complete
    } else {
        QuestgiverMark::Unknown(status)
    }
}

/// The status byte that stands for a mark.
pub open spec fn status_of(mark: QuestgiverMark) -> u8 {
    match mark {
        QuestgiverMark::Nothing => 0,
        QuestgiverMark::Available => 8,
        QuestgiverMark::Complete => 10,
        QuestgiverMark::Unknown(status) => status,
    }
}

/// Whether a mark is drawn.
pub open spec fn drawn(mark: QuestgiverMark) -> bool {
    mark is Available || mark is Complete
}

impl QuestgiverMark {
    /// The mark that a status byte stands for.
    pub fn from_status(status: u8) -> (r: Self)
        ensures
            r == mark_of(status),
    {
        match status {
            0 => QuestgiverMark::Nothing,
            8 => QuestgiverMark::Available,
            10 => QuestgiverMark::Complete,
            other => QuestgiverMark::Unknown(other),
        }
    }

    /// The status byte that stands for this mark.
    pub fn to_status(self) -> (r: u8)
        ensures
            r == status_of(self),
    {
        match self {
            QuestgiverMark::Nothing => 0,
            QuestgiverMark::Available => 8,
            QuestgiverMark::Complete => 10,
            QuestgiverMark::Unknown(status) => status,
        }
    }

    /// Whether anything is drawn for this mark.
    pub fn is_drawn(self) -> (r: bool)
        ensures
            r == drawn(self),
    {
        match self {
            QuestgiverMark::Available => true,
            QuestgiverMark::Complete => true,
            _ => false,
        }
    }
}

/// A status survives being read as a mark, also where it has no name.
pub proof fn lemma_status_survives(status: u8)
    ensures
        status_of(mark_of(status)) == status,
        mark_of(status) is Unknown ==> !drawn(mark_of(status)),
{
}

} // verus!
