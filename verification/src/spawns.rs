//! Where the questgivers that this character has stood in front of were, and
//! what was over their heads at the time.
//!
//! No question to the server answers where an undiscovered quest is, so what
//! was seen is remembered. A remembered mark is a fact about the past, which
//! is why [`Remembered::live`] is never part of a file.
//!
//! The key is a guid and not an entry: an entry names a kind of creature, a
//! guid names one spawn, and a pin is a claim about a place.
use crate::cursor::Cursor;
use crate::order::{arrange, arranged, keys_of, lemma_listing, listing};
use crate::protocol::Reader;
use crate::quest::{drawn, mark_of, status_of, QuestgiverMark};
use crate::quest_cache::{length_word, low_word};
use crate::text::{alphanumeric, file_safe, safe_name};
use crate::wire::{
    bytes32, bytes64, group_word_lengths, holds, le32, le64, lemma_byte_of, lemma_holds_both,
    lemma_holds_whole, lemma_le32_of_bytes, lemma_le64_of_bytes, push32, push64, push_all,
    same_bytes,
};
use std::collections::HashMap;
use vstd::prelude::*;
use vstd::string::*;

verus! {

broadcast use group_word_lengths;

/// One questgiver, where it was, and what it was wearing over its head.
#[derive(Debug, Clone, PartialEq, Eq)]
pub struct Remembered {
    /// The spawn.
    pub guid: u64,
    /// The creature's kind, by which a reused guid is spotted.
    pub entry: u32,
    pub map: u32,
    /// The place, as the bits of three floats.
    pub x: u32,
    pub y: u32,
    pub z: u32,
    /// What the server last said belongs over the head, or `None` for a
    /// creature that was seen and never asked about.
    pub mark: Option<QuestgiverMark>,
    /// Seconds since the Unix epoch when the mark was observed, or zero.
    pub seen: u64,
    /// Whether this was refreshed in this session.
    pub live: bool,
    /// Quest ids that this creature was seen to offer.
    pub offers: Vec<u32>,
}

/// A [`Remembered`] as a mathematical value.
pub struct RememberedView {
    pub guid: u64,
    pub entry: u32,
    pub map: u32,
    pub x: u32,
    pub y: u32,
    pub z: u32,
    pub mark: Option<QuestgiverMark>,
    pub seen: u64,
    pub live: bool,
    pub offers: Seq<u32>,
}

impl View for Remembered {
    type V = RememberedView;

    open spec fn view(&self) -> RememberedView {
        RememberedView {
            guid: self.guid,
            entry: self.entry,
            map: self.map,
            x: self.x,
            y: self.y,
            z: self.z,
            mark: self.mark,
            seen: self.seen,
            live: self.live,
            offers: self.offers@,
        }
    }
}

impl RememberedView {
    /// Whether this is worth drawing on a map.
    pub open spec fn drawn(self) -> bool {
        self.mark matches Some(mark) && drawn(mark)
    }

    /// Whether every quest that it is known to offer is in a log, so that it
    /// has nothing left to exclaim about.
    pub open spec fn exhausted(self, log: Seq<u32>) -> bool {
        &&& self.mark is Some
        &&& self.offers.len() > 0
        &&& forall|i: int| 0 <= i < self.offers.len() ==> log.contains(#[trigger] self.offers[i])
    }

    /// Back to not having been asked, where it is exhausted.
    pub open spec fn retired(self, log: Seq<u32>) -> RememberedView {
        if self.exhausted(log) {
            RememberedView { mark: None, live: false, ..self }
        } else {
            self
        }
    }
}

/// A creature as it is first seen.
pub open spec fn sighting(
    guid: u64,
    entry: u32,
    map: u32,
    x: u32,
    y: u32,
    z: u32,
) -> RememberedView {
    RememberedView {
        guid,
        entry,
        map,
        x,
        y,
        z,
        mark: None,
        seen: 0,
        live: false,
        offers: seq![],
    }
}

impl Remembered {
    /// Whether this is worth drawing on a map.
    pub fn is_drawn(&self) -> (r: bool)
        ensures
            r == self@.drawn(),
    {
        match self.mark {
            Some(mark) => mark.is_drawn(),
            None => false,
        }
    }
}

/// Every questgiver that this character has walked past on this realm.
pub struct Questgivers {
    by_guid: HashMap<u64, Remembered>,
    /// Whether anything was learned since the last save.
    dirty: bool,
}

/// A [`Questgivers`] as a mathematical value.
#[verifier::ext_equal]
pub struct QuestgiversView {
    pub by_guid: Map<u64, RememberedView>,
    pub dirty: bool,
}

/// An offer list with further quests added behind it, each once.
pub open spec fn joined(offers: Seq<u32>, quests: Seq<u32>) -> Seq<u32>
    decreases quests.len(),
{
    if quests.len() == 0 {
        offers
    } else {
        let before = joined(offers, quests.drop_last());
        if before.contains(quests.last()) {
            before
        } else {
            before.push(quests.last())
        }
    }
}

impl QuestgiversView {
    /// Every record is filed under its own guid.
    pub open spec fn valid(self) -> bool {
        &&& self.by_guid.dom().finite()
        &&& forall|guid: u64| #[trigger]
            self.by_guid.contains_key(guid) ==> self.by_guid[guid].guid == guid
    }

    /// Whether a creature is the one remembered under its guid. A guid that
    /// now names something else, or on another map, is a different creature.
    pub open spec fn recognises(self, guid: u64, entry: u32, map: u32) -> bool {
        &&& self.by_guid.contains_key(guid)
        &&& self.by_guid[guid].entry == entry
        &&& self.by_guid[guid].map == map
    }

    /// With a sighting. One of a known creature counts where it has moved.
    pub open spec fn with_sighting(self, sight: RememberedView, moved: bool) -> QuestgiversView {
        if !self.recognises(sight.guid, sight.entry, sight.map) {
            QuestgiversView { by_guid: self.by_guid.insert(sight.guid, sight), dirty: true }
        } else if moved {
            QuestgiversView {
                by_guid: self.by_guid.insert(
                    sight.guid,
                    RememberedView {
                        x: sight.x,
                        y: sight.y,
                        z: sight.z,
                        ..self.by_guid[sight.guid]
                    },
                ),
                dirty: true,
            }
        } else {
            self
        }
    }

    /// With an answer about what is over a creature's head. It counts only
    /// for a creature that was seen, because a pin needs a place.
    pub open spec fn with_mark(self, guid: u64, mark: QuestgiverMark, now: u64) -> QuestgiversView {
        if !self.by_guid.contains_key(guid) {
            self
        } else {
            let known = self.by_guid[guid];
            let news = known.mark != Some(mark) || known.seen == 0;
            QuestgiversView {
                by_guid: self.by_guid.insert(
                    guid,
                    RememberedView {
                        live: true,
                        mark: Some(mark),
                        seen: if news {
                            now
                        } else {
                            known.seen
                        },
                        ..known
                    },
                ),
                dirty: self.dirty || news,
            }
        }
    }

    /// With quests that a creature was seen to offer.
    pub open spec fn with_offers(self, guid: u64, quests: Seq<u32>) -> QuestgiversView {
        if !self.by_guid.contains_key(guid) {
            self
        } else {
            let known = self.by_guid[guid];
            let merged = arranged(joined(known.offers, quests));
            if merged == known.offers {
                self
            } else {
                QuestgiversView {
                    by_guid: self.by_guid.insert(guid, RememberedView { offers: merged, ..known }),
                    dirty: true,
                }
            }
        }
    }

    /// The creatures with nothing left to exclaim about.
    pub open spec fn exhausted(self, log: Seq<u32>) -> Set<u64> {
        self.by_guid.dom().filter(|guid: u64| self.by_guid[guid].exhausted(log))
    }

    /// With those retired.
    pub open spec fn forgetting(self, log: Seq<u32>) -> QuestgiversView {
        QuestgiversView {
            by_guid: self.by_guid.map_values(|known: RememberedView| known.retired(log)),
            dirty: self.dirty || self.exhausted(log).len() > 0,
        }
    }

    /// The creatures on a map that are worth drawing, by ascending guid.
    pub open spec fn shown_on(self, map: u32) -> Seq<u64> {
        listing(self.by_guid.dom()).filter(
            |guid: u64| self.by_guid[guid].map == map && self.by_guid[guid].drawn(),
        )
    }
}

/// Nobody met yet.
pub open spec fn nobody() -> QuestgiversView {
    QuestgiversView { by_guid: Map::empty(), dirty: false }
}

spec fn records(table: Map<u64, Remembered>) -> Map<u64, RememberedView> {
    table.map_values(|known: Remembered| known@)
}

proof fn lemma_records(table: Map<u64, Remembered>, guid: u64, known: Remembered)
    ensures
        records(Map::empty()) == Map::<u64, RememberedView>::empty(),
        records(table).dom() == table.dom(),
        records(table.insert(guid, known)) == records(table).insert(guid, known@),
        records(table.remove(guid)) == records(table).remove(guid),
{
    assert(records(Map::empty()) =~= Map::<u64, RememberedView>::empty());
    assert(records(table).dom() =~= table.dom());
    assert(records(table.insert(guid, known)) =~= records(table).insert(guid, known@));
    assert(records(table.remove(guid)) =~= records(table).remove(guid));
}

impl View for Questgivers {
    type V = QuestgiversView;

    closed spec fn view(&self) -> QuestgiversView {
        QuestgiversView { by_guid: records(self.by_guid@), dirty: self.dirty }
    }
}

/// Whether a slice holds a number.
fn includes(list: &[u32], x: u32) -> (r: bool)
    ensures
        r == list@.contains(x),
{
    for i in 0..list.len()
        invariant
            forall|k: int| 0 <= k < i ==> list@[k] != x,
    {
        if list[i] == x {
            return true;
        }
    }
    false
}

fn same_words(a: &[u32], b: &[u32]) -> (r: bool)
    ensures
        r == (a@ == b@),
{
    if a.len() != b.len() {
        return false;
    }
    for i in 0..a.len()
        invariant
            a@.len() == b@.len(),
            forall|k: int| 0 <= k < i ==> a@[k] == b@[k],
    {
        if a[i] != b[i] {
            return false;
        }
    }
    assert(a@ =~= b@);
    true
}

fn join(offers: &Vec<u32>, quests: &[u32]) -> (r: Vec<u32>)
    ensures
        r@ == joined(offers@, quests@),
{
    let mut merged: Vec<u32> = Vec::new();
    for i in 0..offers.len()
        invariant
            merged@ == offers@.take(i as int),
    {
        merged.push(offers[i]);
        assert(merged@ =~= offers@.take(i + 1));
    }
    assert(offers@.take(offers@.len() as int) =~= offers@);
    for i in 0..quests.len()
        invariant
            merged@ == joined(offers@, quests@.take(i as int)),
    {
        assert(quests@.take(i + 1).drop_last() =~= quests@.take(i as int));
        if !includes(&merged, quests[i]) {
            merged.push(quests[i]);
        }
    }
    assert(quests@.take(quests@.len() as int) =~= quests@);
    merged
}

fn all_in(offers: &Vec<u32>, log: &[u32]) -> (r: bool)
    ensures
        r == (forall|i: int| 0 <= i < offers@.len() ==> log@.contains(#[trigger] offers@[i])),
{
    for i in 0..offers.len()
        invariant
            forall|k: int| 0 <= k < i ==> log@.contains(#[trigger] offers@[k]),
    {
        if !includes(log, offers[i]) {
            assert(!log@.contains(offers@[i as int]));
            return false;
        }
    }
    true
}

impl Questgivers {
    #[verifier::type_invariant]
    closed spec fn coherent(self) -> bool {
        self@.valid()
    }

    /// Nobody met yet.
    pub fn new() -> (r: Self)
        ensures
            r@ == nobody(),
    {
        broadcast use vstd::std_specs::hash::group_hash_axioms;

        let by_guid: HashMap<u64, Remembered> = HashMap::new();
        assert(records(by_guid@) =~= Map::empty());
        Questgivers { by_guid, dirty: false }
    }

    /// How many questgivers are remembered.
    pub fn len(&self) -> (r: usize)
        ensures
            r == self@.by_guid.len(),
    {
        broadcast use vstd::std_specs::hash::group_hash_axioms;

        assert(self@.by_guid.dom() =~= self.by_guid@.dom());
        self.by_guid.len()
    }

    /// Whether nobody is remembered.
    pub fn is_empty(&self) -> (r: bool)
        ensures
            r == (self@.by_guid.len() == 0),
    {
        self.len() == 0
    }

    /// Whether anything was learned since the last save.
    pub fn is_dirty(&self) -> (r: bool)
        ensures
            r == self@.dirty,
    {
        self.dirty
    }

    /// Notes that everything learned so far was written down.
    pub fn saved(&mut self)
        ensures
            final(self)@ == (QuestgiversView { dirty: false, ..old(self)@ }),
    {
        proof {
            use_type_invariant(&*self);
        }
        self.dirty = false;
    }

    /// What is remembered about one spawn.
    pub fn get(&self, guid: u64) -> (r: Option<&Remembered>)
        ensures
            match r {
                Some(known) => self@.by_guid.contains_key(guid) && known@ == self@.by_guid[guid],
                None => !self@.by_guid.contains_key(guid),
            },
            self@.valid(),
    {
        broadcast use vstd::std_specs::hash::group_hash_axioms;

        proof {
            use_type_invariant(self);
        }
        self.by_guid.get(&guid)
    }

    /// Everything remembered, by ascending guid.
    pub fn iter(&self) -> (r: Vec<&Remembered>)
        ensures
            r@.len() == self@.by_guid.len(),
            forall|i: int|
                0 <= i < r@.len() ==> (#[trigger] r@[i])@ == self@.by_guid[listing(
                    self@.by_guid.dom(),
                )[i]],
    {
        broadcast use vstd::std_specs::hash::group_hash_axioms;

        proof {
            use_type_invariant(self);
            assert(self@.by_guid.dom() =~= self.by_guid@.dom());
            lemma_listing(self@.by_guid.dom());
        }
        let guids = keys_of(&self.by_guid);
        let mut out: Vec<&Remembered> = Vec::new();
        for i in 0..guids.len()
            invariant
                guids@ == listing(self.by_guid@.dom()),
                guids@.to_set() == self.by_guid@.dom(),
                out@.len() == i,
                forall|k: int| 0 <= k < i ==> (#[trigger] out@[k])@ == self@.by_guid[guids@[k]],
        {
            assert(guids@.to_set().contains(guids@[i as int]));
            if let Some(known) = self.by_guid.get(&guids[i]) {
                out.push(known);
            }
        }
        out
    }

    /// Everything remembered on one map that is worth drawing, by ascending
    /// guid.
    pub fn on_map(&self, map: u32) -> (r: Vec<&Remembered>)
        ensures
            r@.len() == self@.shown_on(map).len(),
            forall|i: int|
                0 <= i < r@.len() ==> (#[trigger] r@[i])@ == self@.by_guid[self@.shown_on(map)[i]],
    {
        broadcast use vstd::std_specs::hash::group_hash_axioms;

        proof {
            use_type_invariant(self);
            assert(self@.by_guid.dom() =~= self.by_guid@.dom());
            lemma_listing(self@.by_guid.dom());
        }
        let guids = keys_of(&self.by_guid);
        let ghost shown = |guid: u64|
            self@.by_guid[guid].map == map && self@.by_guid[guid].drawn();
        let mut out: Vec<&Remembered> = Vec::new();
        assert(guids@.take(0).filter(shown).len() == 0) by {
            reveal(Seq::filter);
        }
        for i in 0..guids.len()
            invariant
                guids@ == listing(self.by_guid@.dom()),
                guids@.to_set() == self.by_guid@.dom(),
                shown == (|guid: u64|
                    self@.by_guid[guid].map == map && self@.by_guid[guid].drawn()),
                out@.len() == guids@.take(i as int).filter(shown).len(),
                forall|k: int|
                    0 <= k < out@.len() ==> (#[trigger] out@[k])@ == self@.by_guid[guids@.take(
                        i as int,
                    ).filter(shown)[k]],
        {
            proof {
                reveal(Seq::filter);
                assert(guids@.to_set().contains(guids@[i as int]));
                assert(guids@.take(i + 1).drop_last() =~= guids@.take(i as int));
            }
            if let Some(known) = self.by_guid.get(&guids[i]) {
                if known.map == map && known.is_drawn() {
                    out.push(known);
                }
            }
        }
        assert(guids@.take(guids@.len() as int) =~= guids@);
        out
    }

    fn file(&mut self, guid: u64, known: Remembered, dirty: bool)
        requires
            known.guid == guid,
        ensures
            final(self)@ == (QuestgiversView {
                by_guid: old(self)@.by_guid.insert(guid, known@),
                dirty,
            }),
    {
        broadcast use vstd::std_specs::hash::group_hash_axioms;

        proof {
            use_type_invariant(&*self);
            lemma_records(self.by_guid@, guid, known);
        }
        let mut table: HashMap<u64, Remembered> = HashMap::new();
        core::mem::swap(&mut self.by_guid, &mut table);
        table.insert(guid, known);
        *self = Questgivers { by_guid: table, dirty };
    }

    fn draw(&mut self, guid: u64) -> (r: Option<Remembered>)
        ensures
            final(self)@ == (QuestgiversView {
                by_guid: old(self)@.by_guid.remove(guid),
                ..old(self)@
            }),
            match r {
                Some(known) => old(self)@.by_guid.contains_key(guid) && known@
                    == old(self)@.by_guid[guid] && known.guid == guid,
                None => !old(self)@.by_guid.contains_key(guid),
            },
    {
        broadcast use vstd::std_specs::hash::group_hash_axioms;

        let mut table: HashMap<u64, Remembered> = HashMap::new();
        proof {
            use_type_invariant(&*self);
            if self.by_guid@.contains_key(guid) {
                lemma_records(self.by_guid@, guid, self.by_guid@[guid]);
            } else {
                assert(records(self.by_guid@.remove(guid)) =~= records(self.by_guid@).remove(guid));
                assert(records(table@) =~= Map::empty());
            }
        }
        core::mem::swap(&mut self.by_guid, &mut table);
        let known = table.remove(&guid);
        let dirty: bool = self.dirty;
        *self = Questgivers { by_guid: table, dirty };
        known
    }

    /// Records where a creature was seen standing.
    ///
    /// `moved` says whether the place is further from the remembered one than
    /// an idle creature sways. It is of no account for a creature that is not
    /// the one remembered: that one replaces the record outright.
    pub fn see(&mut self, guid: u64, entry: u32, map: u32, x: u32, y: u32, z: u32, moved: bool)
        ensures
            final(self)@ == old(self)@.with_sighting(sighting(guid, entry, map, x, y, z), moved),
            final(self)@.valid(),
    {
        let ghost sight = sighting(guid, entry, map, x, y, z);
        proof {
            use_type_invariant(&*self);
        }
        let recognised: bool = match self.get(guid) {
            Some(known) => known.entry == entry && known.map == map,
            None => false,
        };
        if !recognised {
            let fresh = Remembered {
                guid,
                entry,
                map,
                x,
                y,
                z,
                mark: None,
                seen: 0,
                live: false,
                offers: Vec::new(),
            };
            assert(fresh@ == sight);
            self.file(guid, fresh, true);
        } else if moved {
            if let Some(mut known) = self.draw(guid) {
                known.x = x;
                known.y = y;
                known.z = z;
                self.file(guid, known, true);
            }
            assert(self@ =~= old(self)@.with_sighting(sight, moved));
        }
        proof {
            use_type_invariant(&*self);
        }
    }

    /// Records what the server said belongs over a creature's head. It does
    /// nothing for a creature that was never seen.
    pub fn mark(&mut self, guid: u64, mark: QuestgiverMark, now: u64)
        ensures
            final(self)@ == old(self)@.with_mark(guid, mark, now),
            final(self)@.valid(),
    {
        let dirty: bool = self.dirty;
        if let Some(mut known) = self.draw(guid) {
            known.live = true;
            let unchanged: bool = match known.mark {
                Some(before) => before == mark,
                None => false,
            };
            let news: bool = !unchanged || known.seen == 0;
            if news {
                known.mark = Some(mark);
                known.seen = now;
            }
            self.file(guid, known, dirty || news);
        }
        assert(self@ =~= old(self)@.with_mark(guid, mark, now));
        proof {
            use_type_invariant(&*self);
        }
    }

    /// Records which quests a creature was seen offering.
    pub fn offers(&mut self, guid: u64, quests: &[u32])
        ensures
            final(self)@ == old(self)@.with_offers(guid, quests@),
            final(self)@.valid(),
    {
        let dirty: bool = self.dirty;
        if let Some(mut known) = self.draw(guid) {
            let merged = arrange(&join(&known.offers, quests));
            if same_words(&merged, &known.offers) {
                self.file(guid, known, dirty);
            } else {
                known.offers = merged;
                self.file(guid, known, true);
            }
        }
        assert(self@ =~= old(self)@.with_offers(guid, quests@));
        proof {
            use_type_invariant(&*self);
        }
    }

    /// Retires the remembered mark of every creature whose known offers are
    /// all in the log, and says how many there were.
    ///
    /// A creature whose offers were never seen keeps its mark, or accepting
    /// any quest would empty the map.
    pub fn forget_offering(&mut self, log: &[u32]) -> (r: usize)
        ensures
            final(self)@ == old(self)@.forgetting(log@),
            r == old(self)@.exhausted(log@).len(),
            final(self)@.valid(),
    {
        broadcast use vstd::std_specs::hash::group_hash_axioms;

        proof {
            use_type_invariant(&*self);
            assert(self@.by_guid.dom() =~= self.by_guid@.dom());
            lemma_listing(self@.by_guid.dom());
        }
        let guids = keys_of(&self.by_guid);
        let ghost before = self@;
        let mut retired: usize = 0;
        proof {
            lemma_retiring_starts(before, log@, guids@);
        }
        for i in 0..guids.len()
            invariant
                before == old(self)@,
                before.valid(),
                guids@ == listing(before.by_guid.dom()),
                guids@.no_duplicates(),
                guids@.to_set() == before.by_guid.dom(),
                retired <= i,
                partly_retired(before, self@, log@, guids@, i as int, retired as nat),
        {
            let guid: u64 = guids[i];
            assert(guids@.to_set().contains(guid));
            let dirty: bool = self.dirty;
            let ghost here = self@;
            let ghost counted = retired as nat;
            assert(here.by_guid[guids@[i as int]] == before.by_guid[guid]);
            if let Some(mut known) = self.draw(guid) {
                let asked: bool = match known.mark {
                    Some(_) => true,
                    None => false,
                };
                if asked && known.offers.len() > 0 && all_in(&known.offers, log) {
                    known.mark = None;
                    known.live = false;
                    self.file(guid, known, true);
                    retired += 1;
                } else {
                    self.file(guid, known, dirty);
                }
            }
            assert(self@.by_guid =~= here.by_guid.insert(
                guid,
                before.by_guid[guid].retired(log@),
            ));
            proof {
                lemma_retiring_step(before, here, self@, log@, guids@, i as int, counted);
            }
        }
        proof {
            lemma_retiring_ends(before, self@, log@, guids@, retired as nat);
            use_type_invariant(&*self);
        }
        retired
    }
}

/// Whether the first `i` guids of a list have been gone through, `retired` of
/// which were exhausted.
spec fn partly_retired(
    before: QuestgiversView,
    now: QuestgiversView,
    log: Seq<u32>,
    guids: Seq<u64>,
    i: int,
    retired: nat,
) -> bool {
    &&& now.by_guid.dom() == before.by_guid.dom()
    &&& forall|k: int|
        0 <= k < guids.len() ==> now.by_guid[#[trigger] guids[k]] == if k < i {
            before.by_guid[guids[k]].retired(log)
        } else {
            before.by_guid[guids[k]]
        }
    &&& retired == before.exhausted(log).intersect(guids.take(i).to_set()).len()
    &&& now.dirty == (before.dirty || retired > 0)
}

proof fn lemma_retiring_starts(before: QuestgiversView, log: Seq<u32>, guids: Seq<u64>)
    ensures
        partly_retired(before, before, log, guids, 0, 0),
{
    assert(before.exhausted(log).intersect(guids.take(0).to_set()) =~= Set::empty());
}

proof fn lemma_retiring_step(
    before: QuestgiversView,
    now: QuestgiversView,
    after: QuestgiversView,
    log: Seq<u32>,
    guids: Seq<u64>,
    i: int,
    retired: nat,
)
    requires
        before.valid(),
        0 <= i < guids.len(),
        guids.no_duplicates(),
        guids.to_set() == before.by_guid.dom(),
        partly_retired(before, now, log, guids, i, retired),
        after.by_guid == now.by_guid.insert(guids[i], before.by_guid[guids[i]].retired(log)),
        after.dirty == (now.dirty || before.by_guid[guids[i]].exhausted(log)),
    ensures
        partly_retired(
            before,
            after,
            log,
            guids,
            i + 1,
            if before.by_guid[guids[i]].exhausted(log) {
                retired + 1
            } else {
                retired
            },
        ),
{
    let done = guids.take(i);
    let more = guids.take(i + 1);
    let guid = guids[i];
    assert(guids.to_set().contains(guid));
    assert(more =~= done.push(guid));
    assert(!done.contains(guid));
    assert forall|x: u64| more.contains(x) == (done.contains(x) || x == guid) by {
        if done.contains(x) {
            assert(more[done.index_of(x)] == x);
        }
        assert(more[i] == guid);
    }
    let gone = before.exhausted(log);
    let counted = gone.intersect(done.to_set());
    vstd::seq_lib::seq_to_set_is_finite(done);
    assert(after.by_guid.dom() =~= before.by_guid.dom());
    if before.by_guid[guid].exhausted(log) {
        assert(gone.intersect(more.to_set()) =~= counted.insert(guid));
        assert(!counted.contains(guid));
    } else {
        assert(gone.intersect(more.to_set()) =~= counted);
    }
}

proof fn lemma_retiring_ends(
    before: QuestgiversView,
    now: QuestgiversView,
    log: Seq<u32>,
    guids: Seq<u64>,
    retired: nat,
)
    requires
        before.valid(),
        guids.to_set() == before.by_guid.dom(),
        partly_retired(before, now, log, guids, guids.len() as int, retired),
    ensures
        now == before.forgetting(log),
        retired == before.exhausted(log).len(),
{
    assert(guids.take(guids.len() as int) =~= guids);
    assert(before.exhausted(log).intersect(guids.to_set()) =~= before.exhausted(log));
    assert forall|guid: u64| before.by_guid.contains_key(guid) implies now.by_guid[guid]
        == before.by_guid[guid].retired(log) by {
        assert(guids.to_set().contains(guid));
        assert(guids[guids.index_of(guid)] == guid);
    }
    assert(now.by_guid =~= before.forgetting(log).by_guid);
}

/// The first bytes of a questgiver file.
pub const MAGIC: [u8; 4] = [0x4F, 0x57, 0x51, 0x47];

/// The version of the file's layout.
pub const VERSION: u32 = 1;

/// The byte that a file uses for a creature that was never asked about. It is
/// the file's word and no status that the server sends.
pub const NOT_ASKED: u8 = 0xFF;

/// Why a file could not be read.
#[derive(Debug, Clone, Copy, PartialEq, Eq, Structural)]
pub enum SpawnCacheError {
    NotACache,
    Truncated,
}

/// What [`SpawnCacheError::message`] says.
pub open spec fn spawn_error_text(error: SpawnCacheError) -> Seq<char> {
    match error {
        SpawnCacheError::NotACache => "that file is not a questgiver cache"@,
        SpawnCacheError::Truncated => "the questgiver cache ends in the middle of a record"@,
    }
}

impl SpawnCacheError {
    /// The error in words.
    pub fn message(&self) -> (r: String)
        ensures
            r@ == spawn_error_text(*self),
    {
        match self {
            SpawnCacheError::NotACache => String::from_str("that file is not a questgiver cache"),
            SpawnCacheError::Truncated => String::from_str(
                "the questgiver cache ends in the middle of a record",
            ),
        }
    }
}

/// The byte that a file keeps for a mark.
pub open spec fn mark_byte(mark: Option<QuestgiverMark>) -> u8 {
    match mark {
        Some(mark) => status_of(mark),
        None => NOT_ASKED,
    }
}

/// The mark that a byte of a file stands for.
pub open spec fn kept_mark(byte: u8) -> Option<QuestgiverMark> {
    if byte == NOT_ASKED {
        None
    } else {
        Some(mark_of(byte))
    }
}

/// A list of words, one behind the other.
pub open spec fn words_bytes(list: Seq<u32>) -> Seq<u8>
    decreases list.len(),
{
    if list.len() == 0 {
        seq![]
    } else {
        words_bytes(list.drop_last()) + bytes32(list.last())
    }
}

/// The part of a record that does not vary in size.
#[verifier::opaque]
pub open spec fn fixed_bytes(known: RememberedView) -> Seq<u8> {
    bytes64(known.guid) + (bytes32(known.entry) + bytes32(known.map) + bytes32(known.x) + bytes32(
        known.y,
    ) + bytes32(known.z)) + seq![mark_byte(known.mark)] + bytes64(known.seen) + bytes32(
        length_word(known.offers.len()),
    )
}

/// One record of a file.
pub open spec fn record_bytes(known: RememberedView) -> Seq<u8> {
    fixed_bytes(known) + words_bytes(known.offers)
}

/// The records of a list of guids, one behind the other.
pub open spec fn records_bytes(by_guid: Map<u64, RememberedView>, guids: Seq<u64>) -> Seq<u8>
    decreases guids.len(),
{
    if guids.len() == 0 {
        seq![]
    } else {
        record_bytes(by_guid[guids[0]]) + records_bytes(by_guid, guids.skip(1))
    }
}

/// The file that keeps a number of records, by ascending guid.
pub open spec fn spawns_bytes(by_guid: Map<u64, RememberedView>) -> Seq<u8> {
    MAGIC@ + bytes32(VERSION) + bytes32(length_word(by_guid.len())) + records_bytes(
        by_guid,
        listing(by_guid.dom()),
    )
}

/// One record of a file, and where it ends. Nothing that is read is live.
#[verifier::opaque]
pub open spec fn kept_record(c: Cursor) -> (RememberedView, Cursor) {
    let place = c.take(8);
    let mark = place.words(5);
    let seen = mark.take(1);
    let count = seen.take(8);
    let offers = count.take(4);
    (
        RememberedView {
            guid: c.long(),
            entry: place.nth(0),
            map: place.nth(1),
            x: place.nth(2),
            y: place.nth(3),
            z: place.nth(4),
            mark: kept_mark(mark.byte()),
            seen: seen.long(),
            live: false,
            offers: Seq::new(count.word() as nat, |i: int| offers.nth(i)),
        },
        offers.words(count.word() as int),
    )
}

/// The records of a file, after those that were read before.
pub open spec fn read_records(c: Cursor, n: nat, done: Map<u64, RememberedView>) -> (
    Map<u64, RememberedView>,
    Cursor,
)
    decreases n,
{
    if n == 0 {
        (done, c)
    } else {
        let (known, next) = kept_record(c);
        read_records(next, (n - 1) as nat, done.insert(known.guid, known))
    }
}

/// What [`Questgivers::decode`] makes of a file. One of another version holds
/// nobody.
pub open spec fn decoded(file: Seq<u8>) -> Result<QuestgiversView, SpawnCacheError> {
    let version = Cursor::over(file, "questgiver cache").take(4);
    let count = version.take(4);
    let (by_guid, end) = read_records(count.take(4), count.word() as nat, Map::empty());
    if version.failed is Some {
        Err(SpawnCacheError::Truncated)
    } else if file.take(4) != MAGIC@ {
        Err(SpawnCacheError::NotACache)
    } else if count.failed is Some {
        Err(SpawnCacheError::Truncated)
    } else if version.word() != VERSION {
        Ok(nobody())
    } else if end.failed is Some {
        Err(SpawnCacheError::Truncated)
    } else {
        Ok(QuestgiversView { by_guid, dirty: false })
    }
}

/// The name of the file that a character's memory of a realm lives in.
pub open spec fn spawns_file_name(realm: Seq<char>, character: Seq<char>) -> Seq<char> {
    "questgivers-"@ + safe_name(realm) + "-"@ + safe_name(character) + ".cache"@
}

proof fn lemma_read_records_sticky(c: Cursor, n: nat, done: Map<u64, RememberedView>)
    requires
        c.failed is Some,
    ensures
        read_records(c, n, done).1 == c,
    decreases n,
{
    if n > 0 {
        reveal(kept_record);
        let known = kept_record(c).0;
        lemma_read_records_sticky(c, (n - 1) as nat, done.insert(known.guid, known));
    }
}

fn push_words(out: &mut Vec<u8>, list: &Vec<u32>)
    ensures
        final(out)@ == old(out)@ + words_bytes(list@),
{
    assert(out@ =~= old(out)@ + words_bytes(list@.take(0)));
    for i in 0..list.len()
        invariant
            out@ == old(out)@ + words_bytes(list@.take(i as int)),
    {
        let ghost before = words_bytes(list@.take(i as int));
        assert(list@.take(i + 1).drop_last() =~= list@.take(i as int));
        push32(out, list[i]);
        assert(out@ =~= old(out)@ + (before + bytes32(list@[i as int])));
    }
    assert(list@.take(list@.len() as int) =~= list@);
}

fn push_record(out: &mut Vec<u8>, known: &Remembered)
    ensures
        final(out)@ == old(out)@ + record_bytes(known@),
{
    let mark: u8 = match known.mark {
        Some(mark) => mark.to_status(),
        None => NOT_ASKED,
    };
    reveal(fixed_bytes);
    let mut fixed: Vec<u8> = Vec::new();
    push64(&mut fixed, known.guid);
    push32(&mut fixed, known.entry);
    push32(&mut fixed, known.map);
    push32(&mut fixed, known.x);
    push32(&mut fixed, known.y);
    push32(&mut fixed, known.z);
    assert(fixed@ =~= bytes64(known.guid) + (bytes32(known.entry) + bytes32(known.map) + bytes32(
        known.x,
    ) + bytes32(known.y) + bytes32(known.z)));
    let ghost before = fixed@;
    fixed.push(mark);
    assert(fixed@ =~= before + seq![mark_byte(known.mark)]);
    push64(&mut fixed, known.seen);
    push32(&mut fixed, low_word(known.offers.len()));
    assert(fixed@ == fixed_bytes(known@));
    push_all(out, &fixed);
    push_words(out, &known.offers);
    assert(out@ =~= old(out)@ + record_bytes(known@));
}

fn read_offers(r: &mut Reader<'_>, count: u32) -> (res: Option<Vec<u32>>)
    requires
        old(r)@.sound(),
    ensures
        match res {
            Some(offers) => {
                &&& final(r)@ == old(r)@.words(count as int)
                &&& final(r)@.sound()
                &&& offers@ == Seq::new(count as nat, |i: int| old(r)@.nth(i))
            },
            None => old(r)@.words(count as int).failed is Some,
        },
{
    let mut offers: Vec<u32> = Vec::new();
    for i in 0..count
        invariant
            old(r)@.sound(),
            r@.sound(),
            r@ == (Cursor { at: old(r)@.at + 4 * i, ..old(r)@ }),
            offers@.len() == i,
            forall|k: int| 0 <= k < i ==> #[trigger] offers@[k] == old(r)@.nth(k),
    {
        match r.u32() {
            Ok(quest) => offers.push(quest),
            Err(_) => return None,
        }
    }
    assert(offers@ =~= Seq::new(count as nat, |i: int| old(r)@.nth(i)));
    Some(offers)
}

fn read_record(r: &mut Reader<'_>) -> (res: Option<Remembered>)
    ensures
        match res {
            Some(known) => {
                &&& known@ == kept_record(old(r)@).0
                &&& final(r)@ == kept_record(old(r)@).1
                &&& final(r)@.sound()
            },
            None => kept_record(old(r)@).1.failed is Some,
        },
{
    reveal(kept_record);
    let guid: u64 = match r.u64() {
        Ok(guid) => guid,
        Err(_) => return None,
    };
    let place = match r.words::<5>() {
        Ok(place) => place,
        Err(_) => return None,
    };
    let raw: u8 = match r.u8() {
        Ok(raw) => raw,
        Err(_) => return None,
    };
    let seen: u64 = match r.u64() {
        Ok(seen) => seen,
        Err(_) => return None,
    };
    let count: u32 = match r.u32() {
        Ok(count) => count,
        Err(_) => return None,
    };
    let offers = match read_offers(r, count) {
        Some(offers) => offers,
        None => return None,
    };
    let mark = if raw == NOT_ASKED {
        None
    } else {
        Some(QuestgiverMark::from_status(raw))
    };
    Some(
        Remembered {
            guid,
            entry: place[0],
            map: place[1],
            x: place[2],
            y: place[3],
            z: place[4],
            mark,
            seen,
            live: false,
            offers,
        },
    )
}

impl Questgivers {
    /// What is remembered, as the bytes of a file.
    pub fn encode(&self) -> (r: Vec<u8>)
        ensures
            r@ == spawns_bytes(self@.by_guid),
    {
        broadcast use vstd::std_specs::hash::group_hash_axioms;

        proof {
            use_type_invariant(self);
            assert(self@.by_guid.dom() =~= self.by_guid@.dom());
            lemma_listing(self@.by_guid.dom());
        }
        let guids = keys_of(&self.by_guid);
        let mut out: Vec<u8> = Vec::new();
        push_all(&mut out, &MAGIC);
        push32(&mut out, VERSION);
        push32(&mut out, low_word(guids.len()));
        assert(guids@.skip(0) =~= guids@);
        assert(out@ =~= MAGIC@ + bytes32(VERSION) + bytes32(length_word(self@.by_guid.len())));
        for i in 0..guids.len()
            invariant
                guids@.to_set() == self.by_guid@.dom(),
                out@ + records_bytes(self@.by_guid, guids@.skip(i as int)) == spawns_bytes(
                    self@.by_guid,
                ),
        {
            let guid: u64 = guids[i];
            assert(guids@.to_set().contains(guid));
            assert(guids@.skip(i as int).skip(1) =~= guids@.skip(i + 1));
            let ghost before = out@;
            let ghost record = record_bytes(self@.by_guid[guid]);
            let ghost rest = records_bytes(self@.by_guid, guids@.skip(i + 1));
            if let Some(known) = self.by_guid.get(&guid) {
                push_record(&mut out, known);
            }
            assert(before + (record + rest) =~= out@ + rest);
        }
        assert(out@ + records_bytes(self@.by_guid, guids@.skip(guids@.len() as int)) =~= out@);
        out
    }

    /// Reads a memory out of the bytes of a file. What was read is not news.
    pub fn decode(file: &[u8]) -> (r: Result<Self, SpawnCacheError>)
        ensures
            match r {
                Ok(givers) => decoded(file@) == Ok::<QuestgiversView, SpawnCacheError>(givers@),
                Err(error) => decoded(file@) == Err::<QuestgiversView, SpawnCacheError>(error),
            },
    {
        let mut givers = Questgivers::new();
        let mut r = Reader::new(file, "questgiver cache");
        let magic = match r.bytes::<4>() {
            Ok(magic) => magic,
            Err(_) => return Err(SpawnCacheError::Truncated),
        };
        assert(file@.subrange(0, 4) =~= file@.take(4));
        if !same_bytes(&magic, &MAGIC) {
            return Err(SpawnCacheError::NotACache);
        }
        let version: u32 = match r.u32() {
            Ok(version) => version,
            Err(_) => return Err(SpawnCacheError::Truncated),
        };
        if version != VERSION {
            return Ok(givers);
        }
        proof {
            if r@.take(4).failed is Some {
                lemma_read_records_sticky(r@.take(4), r@.word() as nat, Map::empty());
            }
        }
        let count: u32 = match r.u32() {
            Ok(count) => count,
            Err(_) => return Err(SpawnCacheError::Truncated),
        };
        let ghost all = read_records(r@, count as nat, Map::empty());
        for i in 0..count
            invariant
                all == read_records(r@, (count - i) as nat, givers@.by_guid),
                r@.sound(),
                givers@.dirty == false,
                decoded(file@) == match all.1.failed {
                    Some(_) => Err::<QuestgiversView, SpawnCacheError>(SpawnCacheError::Truncated),
                    None => Ok(QuestgiversView { by_guid: all.0, dirty: false }),
                },
        {
            proof {
                let (known, next) = kept_record(r@);
                let with = givers@.by_guid.insert(known.guid, known);
                assert(all == read_records(next, (count - i - 1) as nat, with));
                if next.failed is Some {
                    lemma_read_records_sticky(next, (count - i - 1) as nat, with);
                }
            }
            let known = match read_record(&mut r) {
                Some(known) => known,
                None => return Err(SpawnCacheError::Truncated),
            };
            let guid: u64 = known.guid;
            givers.file(guid, known, false);
        }
        Ok(givers)
    }

    /// The name of the file that one character's memory of one realm lives
    /// in. What is over a head is a fact about one character's progress, so
    /// characters do not share one.
    pub fn path_for(realm: &str, character: &str) -> (r: String)
        ensures
            r@ == spawns_file_name(realm@, character@),
    {
        String::from_str("questgivers-").concat(file_safe(realm).as_str()).concat("-").concat(
            file_safe(character).as_str(),
        ).concat(".cache")
    }
}

impl Default for Questgivers {
    fn default() -> (r: Self)
        ensures
            r@ == nobody(),
    {
        Questgivers::new()
    }
}

/// Whether a memory fits the file's length words.
pub open spec fn fits_a_file(by_guid: Map<u64, RememberedView>) -> bool {
    &&& by_guid.len() < 0x1_0000_0000
    &&& forall|guid: u64| #[trigger]
        by_guid.contains_key(guid) ==> by_guid[guid].offers.len() < 0x1_0000_0000
}

/// A record as it comes out of a file that it was written to: never live, and
/// with the mark that its byte stands for.
pub open spec fn reloaded(known: RememberedView) -> RememberedView {
    RememberedView { live: false, mark: kept_mark(mark_byte(known.mark)), ..known }
}

proof fn lemma_words_len(list: Seq<u32>)
    ensures
        words_bytes(list).len() == 4 * list.len(),
    decreases list.len(),
{
    if list.len() > 0 {
        lemma_words_len(list.drop_last());
    }
}

proof fn lemma_words_read_back(c: Cursor, list: Seq<u32>)
    requires
        holds(c.data, c.at, words_bytes(list)),
    ensures
        forall|i: int| 0 <= i < list.len() ==> #[trigger] c.nth(i) == list[i],
    decreases list.len(),
{
    if list.len() > 0 {
        let others = list.drop_last();
        lemma_words_len(others);
        lemma_holds_both(c.data, c.at, words_bytes(others), bytes32(list.last()));
        lemma_words_read_back(c, others);
        lemma_le32_of_bytes(c.data, c.at + 4 * others.len(), list.last());
        assert forall|i: int| 0 <= i < list.len() implies #[trigger] c.nth(i) == list[i] by {
            if i < others.len() {
                assert(others[i] == list[i]);
            }
        }
    }
}

proof fn lemma_place_read_back(c: Cursor, known: RememberedView)
    requires
        holds(
            c.data,
            c.at,
            bytes32(known.entry) + bytes32(known.map) + bytes32(known.x) + bytes32(known.y)
                + bytes32(known.z),
        ),
    ensures
        c.nth(0) == known.entry,
        c.nth(1) == known.map,
        c.nth(2) == known.x,
        c.nth(3) == known.y,
        c.nth(4) == known.z,
{
    let one = bytes32(known.entry);
    let two = one + bytes32(known.map);
    let three = two + bytes32(known.x);
    let four = three + bytes32(known.y);
    lemma_holds_both(c.data, c.at, four, bytes32(known.z));
    lemma_holds_both(c.data, c.at, three, bytes32(known.y));
    lemma_holds_both(c.data, c.at, two, bytes32(known.x));
    lemma_holds_both(c.data, c.at, one, bytes32(known.map));
    lemma_le32_of_bytes(c.data, c.at, known.entry);
    lemma_le32_of_bytes(c.data, c.at + 4, known.map);
    lemma_le32_of_bytes(c.data, c.at + 8, known.x);
    lemma_le32_of_bytes(c.data, c.at + 12, known.y);
    lemma_le32_of_bytes(c.data, c.at + 16, known.z);
}

proof fn lemma_fixed_read_back(c: Cursor, known: RememberedView)
    requires
        holds(c.data, c.at, fixed_bytes(known)),
    ensures
        fixed_bytes(known).len() == 41,
        c.at + 41 <= c.data.len(),
        c.long() == known.guid,
        le32(c.data, c.at + 8) == known.entry,
        le32(c.data, c.at + 12) == known.map,
        le32(c.data, c.at + 16) == known.x,
        le32(c.data, c.at + 20) == known.y,
        le32(c.data, c.at + 24) == known.z,
        c.data[c.at + 28] == mark_byte(known.mark),
        le64(c.data, c.at + 29) == known.seen,
        le32(c.data, c.at + 37) == length_word(known.offers.len()),
{
    reveal(fixed_bytes);
    let guid = bytes64(known.guid);
    let place = bytes32(known.entry) + bytes32(known.map) + bytes32(known.x) + bytes32(known.y)
        + bytes32(known.z);
    let mark = seq![mark_byte(known.mark)];
    let seen = bytes64(known.seen);
    let count = bytes32(length_word(known.offers.len()));
    lemma_holds_both(c.data, c.at, guid + place + mark + seen, count);
    lemma_holds_both(c.data, c.at, guid + place + mark, seen);
    lemma_holds_both(c.data, c.at, guid + place, mark);
    lemma_holds_both(c.data, c.at, guid, place);
    lemma_le64_of_bytes(c.data, c.at, known.guid);
    let inner = Cursor { at: c.at + 8, ..c };
    lemma_place_read_back(inner, known);
    assert(inner.nth(1) == le32(c.data, c.at + 12));
    assert(inner.nth(2) == le32(c.data, c.at + 16));
    assert(inner.nth(3) == le32(c.data, c.at + 20));
    assert(inner.nth(4) == le32(c.data, c.at + 24));
    lemma_byte_of(c.data, c.at + 28, mark_byte(known.mark));
    lemma_le64_of_bytes(c.data, c.at + 29, known.seen);
    lemma_le32_of_bytes(c.data, c.at + 37, length_word(known.offers.len()));
}

proof fn lemma_record_read_back(c: Cursor, known: RememberedView)
    requires
        c.sound(),
        holds(c.data, c.at, record_bytes(known)),
        known.offers.len() < 0x1_0000_0000,
    ensures
        kept_record(c) == (
            reloaded(known),
            (Cursor { at: c.at + record_bytes(known).len(), ..c }),
        ),
{
    let offers = known.offers;
    lemma_holds_both(c.data, c.at, fixed_bytes(known), words_bytes(offers));
    lemma_fixed_read_back(c, known);
    lemma_words_len(offers);
    let place = Cursor { at: c.at + 8, ..c };
    let mark = Cursor { at: c.at + 28, ..c };
    let seen = Cursor { at: c.at + 29, ..c };
    let count = Cursor { at: c.at + 37, ..c };
    let at = Cursor { at: c.at + 41, ..c };
    lemma_words_read_back(at, offers);
    let list = Seq::new(count.word() as nat, |i: int| at.nth(i));
    assert(list =~= offers);
    assert(c.take(8) == place);
    assert(place.words(5) == mark);
    assert(mark.take(1) == seen);
    assert(seen.take(8) == count);
    assert(count.take(4) == at);
    assert(at.words(offers.len() as int) == Cursor { at: c.at + 41 + 4 * offers.len(), ..c });
    assert(place.nth(0) == le32(c.data, c.at + 8));
    assert(place.nth(1) == le32(c.data, c.at + 12));
    assert(place.nth(2) == le32(c.data, c.at + 16));
    assert(place.nth(3) == le32(c.data, c.at + 20));
    assert(place.nth(4) == le32(c.data, c.at + 24));
    reveal(kept_record);
}

proof fn lemma_records_read_back(
    c: Cursor,
    by_guid: Map<u64, RememberedView>,
    guids: Seq<u64>,
    done: Map<u64, RememberedView>,
)
    requires
        fits_a_file(by_guid),
        c.sound(),
        holds(c.data, c.at, records_bytes(by_guid, guids)),
        forall|i: int|
            0 <= i < guids.len() ==> by_guid.contains_key(#[trigger] guids[i])
                && by_guid[guids[i]].guid == guids[i],
    ensures
        read_records(c, guids.len(), done).0 == done.union_prefer_right(
            by_guid.restrict(guids.to_set()).map_values(|known: RememberedView| reloaded(known)),
        ),
        read_records(c, guids.len(), done).1.failed is None,
    decreases guids.len(),
{
    let f = |known: RememberedView| reloaded(known);
    if guids.len() > 0 {
        let guid = guids[0];
        let known = by_guid[guid];
        let others = guids.skip(1);
        assert(by_guid.contains_key(guid));
        lemma_holds_both(c.data, c.at, record_bytes(known), records_bytes(by_guid, others));
        lemma_record_read_back(c, known);
        let next = kept_record(c).1;
        let with = done.insert(guid, reloaded(known));
        lemma_records_read_back(next, by_guid, others, with);
        let read = read_records(next, others.len(), with);
        assert(read_records(c, guids.len(), done) == read);
        assert forall|other: u64| guids.contains(other) == (others.contains(other) || other
            == guid) by {
            if others.contains(other) {
                assert(guids[others.index_of(other) + 1] == other);
            }
            if guids.contains(other) && other != guid {
                assert(others[guids.index_of(other) - 1] == other);
            }
        }
        assert(read.0 =~= done.union_prefer_right(
            by_guid.restrict(guids.to_set()).map_values(f),
        ));
    } else {
        assert(done =~= done.union_prefer_right(by_guid.restrict(guids.to_set()).map_values(f)));
    }
}

/// A file gives back every record that was written to it, field by field but
/// for liveness, and no other. What was read is not news.
pub proof fn lemma_file_round_trip(givers: QuestgiversView)
    requires
        givers.valid(),
        fits_a_file(givers.by_guid),
    ensures
        decoded(spawns_bytes(givers.by_guid)) == Ok::<QuestgiversView, SpawnCacheError>(
            QuestgiversView {
                by_guid: givers.by_guid.map_values(|known: RememberedView| reloaded(known)),
                dirty: false,
            },
        ),
{
    let by_guid = givers.by_guid;
    let guids = listing(by_guid.dom());
    let file = spawns_bytes(by_guid);
    let count = bytes32(length_word(by_guid.len()));
    let c = Cursor::over(file, "questgiver cache");
    lemma_listing(by_guid.dom());
    assert forall|i: int| 0 <= i < guids.len() implies by_guid.contains_key(#[trigger] guids[i])
        && by_guid[guids[i]].guid == guids[i] by {
        assert(guids.to_set().contains(guids[i]));
    }
    lemma_holds_whole(file);
    lemma_holds_both(file, 0, MAGIC@ + bytes32(VERSION) + count, records_bytes(by_guid, guids));
    lemma_holds_both(file, 0, MAGIC@ + bytes32(VERSION), count);
    lemma_holds_both(file, 0, MAGIC@, bytes32(VERSION));
    lemma_le32_of_bytes(file, 4, VERSION);
    lemma_le32_of_bytes(file, 8, length_word(by_guid.len()));
    assert(file.take(4) =~= MAGIC@) by {
        reveal(holds);
    }
    lemma_records_read_back(c.take(4).take(4).take(4), by_guid, guids, Map::empty());
    let read = read_records(c.take(4).take(4).take(4), guids.len(), Map::empty()).0;
    assert(read =~= by_guid.map_values(|known: RememberedView| reloaded(known)));
}

/// A mark comes back as itself, also one without a name, and so does not
/// having asked. Only the status that doubles as the file's own word does not.
pub proof fn lemma_mark_survives(mark: Option<QuestgiverMark>, status: u8)
    requires
        mark is None || (mark == Some(mark_of(status)) && status != NOT_ASKED),
    ensures
        kept_mark(mark_byte(mark)) == mark,
{
}

proof fn lemma_read_records_never_live(c: Cursor, n: nat, done: Map<u64, RememberedView>)
    requires
        forall|guid: u64| #[trigger] done.contains_key(guid) ==> !done[guid].live,
    ensures
        forall|guid: u64| #[trigger]
            read_records(c, n, done).0.contains_key(guid) ==> !read_records(c, n, done).0[guid].live,
    decreases n,
{
    if n > 0 {
        reveal(kept_record);
        let (known, next) = kept_record(c);
        lemma_read_records_never_live(next, (n - 1) as nat, done.insert(known.guid, known));
    }
}

/// Nothing that is read out of any file is live.
pub proof fn lemma_loaded_is_never_live(file: Seq<u8>, guid: u64)
    requires
        decoded(file) is Ok,
        decoded(file)->Ok_0.by_guid.contains_key(guid),
    ensures
        !decoded(file)->Ok_0.by_guid[guid].live,
        !decoded(file)->Ok_0.dirty,
{
    let count = Cursor::over(file, "questgiver cache").take(4).take(4);
    lemma_read_records_never_live(count.take(4), count.word() as nat, Map::empty());
}

/// Forgetting twice retires nothing the second time.
pub proof fn lemma_forgetting_is_idempotent(givers: QuestgiversView, log: Seq<u32>)
    ensures
        givers.forgetting(log).exhausted(log) == Set::<u64>::empty(),
        givers.forgetting(log).forgetting(log) == givers.forgetting(log),
{
    let once = givers.forgetting(log);
    assert(once.exhausted(log) =~= Set::<u64>::empty());
    assert(once.forgetting(log).by_guid =~= once.by_guid);
}

/// A creature whose offers were never seen keeps its mark, and so does one
/// that offers a quest outside the log.
pub proof fn lemma_others_keep_their_marks(
    givers: QuestgiversView,
    log: Seq<u32>,
    guid: u64,
    quest: u32,
)
    requires
        givers.by_guid.contains_key(guid),
        givers.by_guid[guid].offers.len() == 0 || (givers.by_guid[guid].offers.contains(quest)
            && !log.contains(quest)),
    ensures
        givers.forgetting(log).by_guid[guid] == givers.by_guid[guid],
{
    let offers = givers.by_guid[guid].offers;
    if offers.len() > 0 {
        assert(offers[offers.index_of(quest)] == quest);
    }
}

/// A creature that is not the one remembered under its guid takes the record
/// over with nothing of the old one in it.
pub proof fn lemma_reused_guid_starts_over(
    givers: QuestgiversView,
    sight: RememberedView,
    moved: bool,
    other: u64,
)
    requires
        !givers.recognises(sight.guid, sight.entry, sight.map),
        sight == sighting(sight.guid, sight.entry, sight.map, sight.x, sight.y, sight.z),
    ensures
        givers.with_sighting(sight, moved).by_guid[sight.guid].mark is None,
        givers.with_sighting(sight, moved).by_guid[sight.guid].offers.len() == 0,
        other != sight.guid ==> givers.with_sighting(sight, moved).by_guid[other]
            == givers.by_guid[other],
{
}

/// Names that come off the wire cannot lead out of the directory.
pub proof fn lemma_file_name_is_no_path(realm: Seq<char>, character: Seq<char>, i: int)
    requires
        0 <= i < spawns_file_name(realm, character).len(),
    ensures
        spawns_file_name(realm, character)[i] != '/',
        spawns_file_name(realm, character)[i] != '\\',
{
    reveal_strlit("questgivers-");
    reveal_strlit("-");
    reveal_strlit(".cache");
}

/// Two characters of one realm, whose names are letters and digits, do not
/// share a file.
pub proof fn lemma_characters_do_not_share_a_file(realm: Seq<char>, a: Seq<char>, b: Seq<char>)
    requires
        a != b,
        forall|i: int| 0 <= i < a.len() ==> alphanumeric(#[trigger] a[i]),
        forall|i: int| 0 <= i < b.len() ==> alphanumeric(#[trigger] b[i]),
    ensures
        spawns_file_name(realm, a) != spawns_file_name(realm, b),
{
    if spawns_file_name(realm, a) == spawns_file_name(realm, b) {
        let one = spawns_file_name(realm, a);
        let head = "questgivers-"@ + safe_name(realm) + "-"@;
        assert(safe_name(a) =~= a);
        assert(safe_name(b) =~= b);
        assert(one.len() == head.len() + a.len() + ".cache"@.len());
        assert(one.len() == head.len() + b.len() + ".cache"@.len());
        assert forall|i: int| 0 <= i < a.len() implies a[i] == b[i] by {
            assert(one[head.len() + i] == a[i]);
            assert(spawns_file_name(realm, b)[head.len() + i] == b[i]);
        }
        assert(a =~= b);
    }
}

} // verus!
