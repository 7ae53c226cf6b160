//! What the server has said about which quests, kept between sessions.
//!
//! A missing answer is unknown, never nothing. A quest whose reply has not
//! arrived and a quest without objectives must not look alike, so [`Answer`]
//! has no variant that could be mistaken for data.
//!
//! Each entry is the packet's body as it arrived, and the parse of it. Only
//! the bodies are written down, and only of quests that were answered: that a
//! question met with silence is a fact about one session.
use crate::cursor::Cursor;
use crate::order::{keys_of, lemma_listing, listing, members_of};
use crate::protocol::{Error, Reader};
use crate::quest::{parse_quest_query, quest_query, ItemObjective, QuestInfo, QuestInfoView};
use crate::text::{alphanumeric, file_safe, safe_name};
use crate::wire::{
    bytes32, group_word_lengths, holds, lemma_holds_both, lemma_holds_whole, lemma_le32_of_bytes,
    push32, push_all, same_bytes,
};
use std::collections::{HashMap, HashSet};
use vstd::prelude::*;
use vstd::string::*;

verus! {

broadcast use group_word_lengths;

/// What is known about one quest id.
#[derive(Debug, Clone, Copy, PartialEq, Eq)]
pub enum Answer<'a> {
    /// Never asked. The caller should ask.
    Unknown,
    /// Asked, and the answer has not arrived.
    Pending,
    /// Asked, and nothing came back. It is asked again in a later session.
    Unanswered,
    /// The server described it.
    Known(&'a QuestInfo),
}

/// An [`Answer`] as a mathematical value.
pub enum AnswerView {
    Unknown,
    Pending,
    Unanswered,
    Known(QuestInfoView),
}

impl<'a> View for Answer<'a> {
    type V = AnswerView;

    open spec fn view(&self) -> AnswerView {
        match self {
            Answer::Unknown => AnswerView::Unknown,
            Answer::Pending => AnswerView::Pending,
            Answer::Unanswered => AnswerView::Unanswered,
            Answer::Known(info) => AnswerView::Known(info@),
        }
    }
}

/// Quests that the server has described, and which ids were asked about.
pub struct QuestCache {
    /// The answers: the bodies as they arrived, and what they say.
    known: HashMap<u32, (Vec<u8>, QuestInfo)>,
    /// Asked, still waiting.
    pending: HashSet<u32>,
    /// Asked, nothing came back.
    unanswered: HashSet<u32>,
    /// Whether anything was learned since the last save, so that a session
    /// which discovers nothing does not rewrite the file.
    dirty: bool,
}

/// A [`QuestCache`] as a mathematical value.
#[verifier::ext_equal]
pub struct QuestCacheView {
    /// The body of each answer, by quest id.
    pub known: Map<u32, Seq<u8>>,
    pub pending: Set<u32>,
    pub unanswered: Set<u32>,
    pub dirty: bool,
}

/// How many ids are worth asking about at once. The protocol has no limit of
/// its own, but a burst of answers holds up everything behind it.
pub const ASK_AT_ONCE: usize = 16;

/// The first bytes of a cache file.
pub const MAGIC: [u8; 4] = [0x4F, 0x57, 0x51, 0x43];

/// The version of the file's layout, which is not that of the bodies in it.
pub const VERSION: u32 = 1;

/// What a body says, where it is an answer.
pub open spec fn described(body: Seq<u8>) -> QuestInfoView {
    quest_query(body)->Ok_0
}

/// Whether each body is an answer about the quest that it is filed under.
pub open spec fn answers(known: Map<u32, Seq<u8>>) -> bool {
    &&& known.dom().finite()
    &&& forall|id: u32| #[trigger]
        known.contains_key(id) ==> quest_query(known[id]) is Ok && described(known[id]).id == id
}

impl QuestCacheView {
    /// A quest is in at most one of the three states, zero was never asked
    /// about, and every answer is filed under its own id.
    pub open spec fn valid(self) -> bool {
        &&& answers(self.known)
        &&& self.pending.finite()
        &&& !self.pending.contains(0)
        &&& forall|id: u32| #[trigger]
            self.known.contains_key(id) ==> !self.pending.contains(id)
                && !self.unanswered.contains(id)
        &&& forall|id: u32| #[trigger] self.pending.contains(id) ==> !self.unanswered.contains(id)
    }

    /// What is known about one quest.
    pub open spec fn answer(self, quest: u32) -> AnswerView {
        if self.known.contains_key(quest) {
            AnswerView::Known(described(self.known[quest]))
        } else if self.pending.contains(quest) {
            AnswerView::Pending
        } else if self.unanswered.contains(quest) {
            AnswerView::Unanswered
        } else {
            AnswerView::Unknown
        }
    }

    /// The ids worth asking about: those of a list, in its order, that are
    /// unknown and not zero, each once and at most `limit` of them.
    pub open spec fn to_ask(self, wanted: Seq<u32>, limit: nat) -> Seq<u32>
        decreases wanted.len(),
    {
        if wanted.len() == 0 {
            seq![]
        } else {
            let before = self.to_ask(wanted.drop_last(), limit);
            let quest = wanted.last();
            if before.len() < limit && quest != 0 && self.answer(quest) is Unknown
                && !before.contains(quest) {
                before.push(quest)
            } else {
                before
            }
        }
    }

    /// With a number of quests in flight.
    pub open spec fn asking(self, quests: Seq<u32>) -> QuestCacheView {
        QuestCacheView { pending: self.pending.union(quests.to_set()), ..self }
    }

    /// With an answer filed.
    pub open spec fn filed(self, body: Seq<u8>) -> QuestCacheView {
        let id = described(body).id;
        QuestCacheView {
            known: self.known.insert(id, body),
            pending: self.pending.remove(id),
            unanswered: self.unanswered.remove(id),
            dirty: true,
        }
    }

    /// With a question given up on.
    pub open spec fn given_up(self, quest: u32) -> QuestCacheView {
        if self.pending.contains(quest) {
            QuestCacheView {
                pending: self.pending.remove(quest),
                unanswered: self.unanswered.insert(quest),
                ..self
            }
        } else {
            self
        }
    }

    /// With everything learned so far written down.
    pub open spec fn written(self) -> QuestCacheView {
        QuestCacheView { dirty: false, ..self }
    }

    /// The item entries that the answered quests of a log name, in the log's
    /// order.
    pub open spec fn wanted_entries(self, log: Seq<u32>) -> Seq<u32>
        decreases log.len(),
    {
        if log.len() == 0 {
            seq![]
        } else {
            let before = self.wanted_entries(log.drop_last());
            if self.known.contains_key(log.last()) {
                before + entries_of(described(self.known[log.last()]).item_objectives)
            } else {
                before
            }
        }
    }
}

/// The entries that a list of objectives names.
pub open spec fn entries_of(objectives: Seq<ItemObjective>) -> Seq<u32> {
    Seq::new(objectives.len(), |i: int| objectives[i].item)
}

/// A cache that knows nothing.
pub open spec fn empty_cache() -> QuestCacheView {
    QuestCacheView {
        known: Map::empty(),
        pending: Set::empty(),
        unanswered: Set::empty(),
        dirty: false,
    }
}

/// The bodies of a table of answers.
spec fn bodies(table: Map<u32, (Vec<u8>, QuestInfo)>) -> Map<u32, Seq<u8>> {
    table.map_values(|entry: (Vec<u8>, QuestInfo)| entry.0@)
}

proof fn lemma_bodies(table: Map<u32, (Vec<u8>, QuestInfo)>, id: u32, entry: (Vec<u8>, QuestInfo))
    ensures
        bodies(Map::empty()) == Map::<u32, Seq<u8>>::empty(),
        bodies(table).dom() == table.dom(),
        bodies(table.insert(id, entry)) == bodies(table).insert(id, entry.0@),
{
    assert(bodies(Map::empty()) =~= Map::<u32, Seq<u8>>::empty());
    assert(bodies(table).dom() =~= table.dom());
    assert(bodies(table.insert(id, entry)) =~= bodies(table).insert(id, entry.0@));
}

impl View for QuestCache {
    type V = QuestCacheView;

    closed spec fn view(&self) -> QuestCacheView {
        QuestCacheView {
            known: bodies(self.known@),
            pending: self.pending@,
            unanswered: self.unanswered@,
            dirty: self.dirty,
        }
    }
}

/// Why a file could not be read as a cache.
#[derive(Debug, Clone, Copy, PartialEq, Eq, Structural)]
pub enum CacheError {
    NotACache,
    Truncated,
}

/// What [`CacheError::message`] says.
pub open spec fn cache_error_text(error: CacheError) -> Seq<char> {
    match error {
        CacheError::NotACache => "that file is not a quest cache"@,
        CacheError::Truncated => "the quest cache ends in the middle of an entry"@,
    }
}

impl CacheError {
    /// The error in words.
    pub fn message(&self) -> (r: String)
        ensures
            r@ == cache_error_text(*self),
    {
        match self {
            CacheError::NotACache => String::from_str("that file is not a quest cache"),
            CacheError::Truncated => String::from_str(
                "the quest cache ends in the middle of an entry",
            ),
        }
    }
}

/// How a length is written down.
pub open spec fn length_word(n: nat) -> u32 {
    (n % 0x1_0000_0000) as u32
}

/// One entry of a file: the id, the body's length, and the body.
pub open spec fn entry_bytes(id: u32, body: Seq<u8>) -> Seq<u8> {
    bytes32(id) + bytes32(length_word(body.len())) + body
}

/// The entries of a list of ids, one behind the other.
pub open spec fn entries_bytes(known: Map<u32, Seq<u8>>, ids: Seq<u32>) -> Seq<u8>
    decreases ids.len(),
{
    if ids.len() == 0 {
        seq![]
    } else {
        entry_bytes(ids[0], known[ids[0]]) + entries_bytes(known, ids.skip(1))
    }
}

/// The file that keeps a number of answers, by ascending id.
pub open spec fn cache_bytes(known: Map<u32, Seq<u8>>) -> Seq<u8> {
    MAGIC@ + bytes32(VERSION) + bytes32(length_word(known.len())) + entries_bytes(
        known,
        listing(known.dom()),
    )
}

/// The answers of a file, after those that were read before. A body that no
/// longer parses is dropped.
pub open spec fn read_entries(c: Cursor, n: nat, known: Map<u32, Seq<u8>>) -> (
    Map<u32, Seq<u8>>,
    Cursor,
)
    decreases n,
{
    if n == 0 {
        (known, c)
    } else {
        let length = c.take(4);
        let start = length.take(4);
        let next = start.take(length.word() as int);
        let body = start.data.subrange(start.at, start.at + length.word());
        let with = if quest_query(body) is Ok {
            known.insert(described(body).id, body)
        } else {
            known
        };
        read_entries(next, (n - 1) as nat, with)
    }
}

/// What [`QuestCache::decode`] makes of a file. One of another version is an
/// empty cache.
pub open spec fn decoded(file: Seq<u8>) -> Result<QuestCacheView, CacheError> {
    let version = Cursor::over(file, "quest cache").take(4);
    let count = version.take(4);
    let entries = count.take(4);
    let (known, end) = read_entries(entries, count.word() as nat, Map::empty());
    if version.failed is Some {
        Err(CacheError::Truncated)
    } else if file.take(4) != MAGIC@ {
        Err(CacheError::NotACache)
    } else if count.failed is Some {
        Err(CacheError::Truncated)
    } else if version.word() != VERSION {
        Ok(empty_cache())
    } else if end.failed is Some {
        Err(CacheError::Truncated)
    } else {
        Ok(QuestCacheView { known, ..empty_cache() })
    }
}

proof fn lemma_read_entries_sticky(c: Cursor, n: nat, known: Map<u32, Seq<u8>>)
    requires
        c.failed is Some,
    ensures
        read_entries(c, n, known).1 == c,
    decreases n,
{
    if n > 0 {
        let length = c.take(4);
        let start = length.take(4);
        let body = start.data.subrange(start.at, start.at + length.word());
        let with = if quest_query(body) is Ok {
            known.insert(described(body).id, body)
        } else {
            known
        };
        lemma_read_entries_sticky(c, (n - 1) as nat, with);
    }
}

pub(crate) fn low_word(n: usize) -> (r: u32)
    ensures
        r == length_word(n as nat),
{
    (n as u64 % 0x1_0000_0000) as u32
}

/// The name of the file that a realm's cache lives in.
pub open spec fn cache_file_name(realm: Seq<char>) -> Seq<char> {
    "quests-"@ + safe_name(realm) + ".cache"@
}

proof fn lemma_to_ask(cache: QuestCacheView, wanted: Seq<u32>, limit: nat)
    ensures
        forall|i: int|
            0 <= i < cache.to_ask(wanted, limit).len() ==> cache.answer(
                #[trigger] cache.to_ask(wanted, limit)[i],
            ) is Unknown && cache.to_ask(wanted, limit)[i] != 0,
        cache.to_ask(wanted, limit).len() <= limit,
    decreases wanted.len(),
{
    if wanted.len() > 0 {
        lemma_to_ask(cache, wanted.drop_last(), limit);
    }
}

proof fn lemma_to_ask_stops(cache: QuestCacheView, wanted: Seq<u32>, i: int, limit: nat)
    requires
        0 <= i <= wanted.len(),
        i == wanted.len() || cache.to_ask(wanted.take(i), limit).len() >= limit,
    ensures
        cache.to_ask(wanted, limit) == cache.to_ask(wanted.take(i), limit),
    decreases wanted.len(),
{
    if i < wanted.len() {
        let shorter = wanted.drop_last();
        assert(shorter.take(i) =~= wanted.take(i));
        lemma_to_ask_stops(cache, shorter, i, limit);
    } else {
        assert(wanted.take(i) =~= wanted);
    }
}

impl QuestCache {
    #[verifier::type_invariant]
    closed spec fn coherent(self) -> bool {
        &&& self@.valid()
        &&& forall|id: u32| #[trigger]
            self.known@.contains_key(id) ==> self.known@[id].1@ == described(self.known@[id].0@)
    }

    /// A cache that knows nothing.
    pub fn new() -> (r: Self)
        ensures
            r@ == empty_cache(),
    {
        broadcast use vstd::std_specs::hash::group_hash_axioms;

        let known: HashMap<u32, (Vec<u8>, QuestInfo)> = HashMap::new();
        assert(bodies(known@) =~= Map::empty());
        let r = QuestCache {
            known,
            pending: HashSet::new(),
            unanswered: HashSet::new(),
            dirty: false,
        };
        assert(r@ =~= empty_cache());
        r
    }

    /// What is known about one quest.
    pub fn answer(&self, quest: u32) -> (r: Answer<'_>)
        ensures
            r@ == self@.answer(quest),
            self@.valid(),
    {
        broadcast use vstd::std_specs::hash::group_hash_axioms;

        proof {
            use_type_invariant(self);
        }
        match self.known.get(&quest) {
            Some(entry) => Answer::Known(&entry.1),
            None => {
                if self.pending.contains(&quest) {
                    Answer::Pending
                } else if self.unanswered.contains(&quest) {
                    Answer::Unanswered
                } else {
                    Answer::Unknown
                }
            },
        }
    }

    /// Picks the next ids worth asking about and marks them in flight, so that
    /// they are not picked again. The caller sends what this returns.
    pub fn take_unknown(&mut self, wanted: &[u32], limit: usize) -> (r: Vec<u32>)
        ensures
            r@ == old(self)@.to_ask(wanted@, limit as nat),
            final(self)@ == old(self)@.asking(r@),
            final(self)@.valid(),
    {
        broadcast use vstd::std_specs::hash::group_hash_axioms;

        proof {
            use_type_invariant(&*self);
        }
        let mut asking: Vec<u32> = Vec::new();
        let mut i: usize = 0;
        assert(self@.asking(asking@) =~= self@);
        while i < wanted.len() && asking.len() < limit
            invariant
                i <= wanted@.len(),
                old(self)@.valid(),
                asking@ == old(self)@.to_ask(wanted@.take(i as int), limit as nat),
                self@ == old(self)@.asking(asking@),
            decreases wanted@.len() - i,
        {
            let quest: u32 = wanted[i];
            proof {
                assert(wanted@.take(i + 1).drop_last() =~= wanted@.take(i as int));
                lemma_to_ask(old(self)@, wanted@.take(i as int), limit as nat);
            }
            if quest != 0 {
                let unknown = match self.answer(quest) {
                    Answer::Unknown => true,
                    _ => false,
                };
                if unknown {
                    self.begin(quest);
                    let ghost before = asking@;
                    asking.push(quest);
                    assert forall|id: u32| asking@.contains(id) == (before.contains(id) || id
                        == quest) by {
                        if before.contains(id) {
                            assert(asking@[before.index_of(id)] == id);
                        }
                        assert(asking@[before.len() as int] == quest);
                    }
                    assert(asking@.to_set() =~= before.to_set().insert(quest));
                    assert(self@ =~= old(self)@.asking(asking@));
                }
            }
            i += 1;
        }
        proof {
            lemma_to_ask_stops(old(self)@, wanted@, i as int, limit as nat);
            use_type_invariant(&*self);
        }
        asking
    }

    fn begin(&mut self, quest: u32)
        requires
            quest != 0,
            old(self)@.answer(quest) is Unknown,
        ensures
            final(self)@ == (QuestCacheView {
                pending: old(self)@.pending.insert(quest),
                ..old(self)@
            }),
    {
        broadcast use vstd::std_specs::hash::group_hash_axioms;

        proof {
            use_type_invariant(&*self);
        }
        let mut pending: HashSet<u32> = HashSet::new();
        core::mem::swap(&mut self.pending, &mut pending);
        pending.insert(quest);
        self.pending = pending;
    }

    /// Files an answer, straight from the wire.
    pub fn insert(&mut self, body: &[u8]) -> (r: Result<u32, Error>)
        ensures
            match quest_query(body@) {
                Ok(info) => r == Ok::<u32, Error>(info.id) && final(self)@ == old(self)@.filed(
                    body@,
                ),
                Err(error) => r == Err::<u32, Error>(error) && final(self)@ == old(self)@,
            },
            final(self)@.valid(),
    {
        broadcast use vstd::std_specs::hash::group_hash_axioms;

        proof {
            use_type_invariant(&*self);
        }
        let info = parse_quest_query(body)?;
        let id: u32 = info.id;
        let mut bytes: Vec<u8> = Vec::new();
        push_all(&mut bytes, body);
        assert(bytes@ =~= body@);
        let mut pending: HashSet<u32> = HashSet::new();
        core::mem::swap(&mut self.pending, &mut pending);
        let mut unanswered: HashSet<u32> = HashSet::new();
        core::mem::swap(&mut self.unanswered, &mut unanswered);
        let mut known: HashMap<u32, (Vec<u8>, QuestInfo)> = HashMap::new();
        proof {
            lemma_bodies(self.known@, id, (bytes, info));
        }
        core::mem::swap(&mut self.known, &mut known);
        pending.remove(&id);
        unanswered.remove(&id);
        known.insert(id, (bytes, info));
        let made = QuestCache { known, pending, unanswered, dirty: true };
        assert(made@ =~= old(self)@.filed(body@));
        *self = made;
        Ok(id)
    }

    /// Records that an id was asked about and produced nothing. That is not
    /// knowledge, so the cache is as dirty as before.
    pub fn give_up(&mut self, quest: u32)
        ensures
            final(self)@ == old(self)@.given_up(quest),
            final(self)@.valid(),
    {
        broadcast use vstd::std_specs::hash::group_hash_axioms;

        proof {
            use_type_invariant(&*self);
        }
        if !self.pending.contains(&quest) {
            return;
        }
        let mut pending: HashSet<u32> = HashSet::new();
        core::mem::swap(&mut self.pending, &mut pending);
        pending.remove(&quest);
        let mut unanswered: HashSet<u32> = HashSet::new();
        core::mem::swap(&mut self.unanswered, &mut unanswered);
        unanswered.insert(quest);
        self.unanswered = unanswered;
        self.pending = pending;
        assert(self@ =~= old(self)@.given_up(quest));
    }

    /// Every id that is still waiting for a reply, in ascending order.
    pub fn pending(&self) -> (r: Vec<u32>)
        ensures
            r@ == listing(self@.pending),
    {
        broadcast use vstd::std_specs::hash::group_hash_axioms;

        members_of(&self.pending)
    }

    /// Every item entry that an objective names, for the quests of a log that
    /// the cache has an answer for.
    pub fn item_objective_entries(&self, log: &[u32]) -> (r: Vec<u32>)
        ensures
            r@ == self@.wanted_entries(log@),
    {
        let mut entries: Vec<u32> = Vec::new();
        for i in 0..log.len()
            invariant
                entries@ == self@.wanted_entries(log@.take(i as int)),
        {
            assert(log@.take(i + 1).drop_last() =~= log@.take(i as int));
            let ghost before = entries@;
            if let Answer::Known(info) = self.answer(log[i]) {
                let ghost named = entries_of(info@.item_objectives);
                for k in 0..info.item_objectives.len()
                    invariant
                        named == entries_of(info.item_objectives@),
                        entries@ == before + named.take(k as int),
                {
                    entries.push(info.item_objectives[k].item);
                    assert(entries@ =~= before + named.take(k + 1));
                }
                assert(named.take(named.len() as int) =~= named);
            }
        }
        assert(log@.take(log@.len() as int) =~= log@);
        entries
    }

    /// The cache as the bytes of a file. What is pending or unanswered is not
    /// part of it.
    pub fn encode(&self) -> (r: Vec<u8>)
        ensures
            r@ == cache_bytes(self@.known),
    {
        broadcast use vstd::std_specs::hash::group_hash_axioms;

        proof {
            use_type_invariant(self);
            assert(self@.known.dom() =~= self.known@.dom());
            lemma_listing(self@.known.dom());
        }
        let ids = keys_of(&self.known);
        let mut out: Vec<u8> = Vec::new();
        push_all(&mut out, &MAGIC);
        push32(&mut out, VERSION);
        push32(&mut out, low_word(ids.len()));
        let ghost head = out@;
        assert(ids@.skip(0) =~= ids@);
        assert(head =~= MAGIC@ + bytes32(VERSION) + bytes32(length_word(self@.known.len())));
        assert(out@ + entries_bytes(self@.known, ids@) =~= cache_bytes(self@.known));
        for i in 0..ids.len()
            invariant
                ids@ == listing(self.known@.dom()),
                ids@.to_set() == self.known@.dom(),
                out@ + entries_bytes(self@.known, ids@.skip(i as int)) == cache_bytes(self@.known),
        {
            let id: u32 = ids[i];
            assert(ids@.to_set().contains(id));
            assert(ids@.skip(i as int).skip(1) =~= ids@.skip(i + 1));
            let ghost before = out@;
            if let Some(entry) = self.known.get(&id) {
                push32(&mut out, id);
                push32(&mut out, low_word(entry.0.len()));
                push_all(&mut out, &entry.0);
                assert(entry.0@ == self@.known[id]);
            }
            let ghost rest = entries_bytes(self@.known, ids@.skip(i + 1));
            assert(out@ =~= before + entry_bytes(id, self@.known[id]));
            assert(before + (entry_bytes(id, self@.known[id]) + rest) =~= out@ + rest);
        }
        assert(out@ + entries_bytes(self@.known, ids@.skip(ids@.len() as int)) =~= out@);
        out
    }

    /// Reads a cache out of the bytes of a file. What was read is not news, so
    /// the cache is clean.
    pub fn decode(file: &[u8]) -> (r: Result<Self, CacheError>)
        ensures
            match r {
                Ok(cache) => decoded(file@) == Ok::<QuestCacheView, CacheError>(cache@),
                Err(error) => decoded(file@) == Err::<QuestCacheView, CacheError>(error),
            },
    {
        let mut cache = QuestCache::new();
        let mut r = Reader::new(file, "quest cache");
        let magic = match r.bytes::<4>() {
            Ok(magic) => magic,
            Err(_) => return Err(CacheError::Truncated),
        };
        assert(file@.subrange(0, 4) =~= file@.take(4));
        if !same_bytes(&magic, &MAGIC) {
            return Err(CacheError::NotACache);
        }
        let version: u32 = match r.u32() {
            Ok(version) => version,
            Err(_) => return Err(CacheError::Truncated),
        };
        if version != VERSION {
            return Ok(cache);
        }
        proof {
            let entries = r@.take(4);
            if entries.failed is Some {
                lemma_read_entries_sticky(entries, r@.word() as nat, Map::empty());
            }
        }
        let count: u32 = match r.u32() {
            Ok(count) => count,
            Err(_) => return Err(CacheError::Truncated),
        };
        let ghost all = read_entries(r@, count as nat, Map::empty());
        for i in 0..count
            invariant
                all == read_entries(r@, (count - i) as nat, cache@.known),
                cache@.pending == Set::<u32>::empty(),
                cache@.unanswered == Set::<u32>::empty(),
                r@.sound(),
                decoded(file@) == match all.1.failed {
                    Some(_) => Err::<QuestCacheView, CacheError>(CacheError::Truncated),
                    None => Ok(QuestCacheView { known: all.0, ..empty_cache() }),
                },
        {
            let ghost left = (count - i) as nat;
            let ghost here = r@;
            proof {
                let length = here.take(4);
                let start = length.take(4);
                let next = start.take(length.word() as int);
                let body = start.data.subrange(start.at, start.at + length.word());
                let with = if quest_query(body) is Ok {
                    cache@.known.insert(described(body).id, body)
                } else {
                    cache@.known
                };
                assert(all == read_entries(next, (left - 1) as nat, with));
                if next.failed is Some {
                    lemma_read_entries_sticky(next, (left - 1) as nat, with);
                }
            }
            let _id: u32 = match r.u32() {
                Ok(id) => id,
                Err(_) => return Err(CacheError::Truncated),
            };
            let length: u32 = match r.u32() {
                Ok(length) => length,
                Err(_) => return Err(CacheError::Truncated),
            };
            let body = match r.take(length as usize) {
                Ok(body) => body,
                Err(_) => return Err(CacheError::Truncated),
            };
            let _ = cache.insert(body);
            assert(cache@.pending =~= Set::<u32>::empty());
            assert(cache@.unanswered =~= Set::<u32>::empty());
        }
        proof {
            use_type_invariant(&cache);
        }
        cache.dirty = false;
        assert(cache@ =~= QuestCacheView { known: all.0, ..empty_cache() });
        Ok(cache)
    }

    /// The name of the file that one realm's cache lives in. Realms do not
    /// share one, because they need not agree on what a quest is.
    pub fn path_for(realm: &str) -> (r: String)
        ensures
            r@ == cache_file_name(realm@),
    {
        String::from_str("quests-").concat(file_safe(realm).as_str()).concat(".cache")
    }

    /// How many quests are cached.
    pub fn len(&self) -> (r: usize)
        ensures
            r == self@.known.len(),
    {
        broadcast use vstd::std_specs::hash::group_hash_axioms;

        assert(self@.known.dom() =~= self.known@.dom());
        self.known.len()
    }

    /// Whether no quest is cached.
    pub fn is_empty(&self) -> (r: bool)
        ensures
            r == (self@.known.len() == 0),
    {
        self.len() == 0
    }

    /// Whether anything was learned since the last save.
    pub fn is_dirty(&self) -> (r: bool)
        ensures
            r == self@.dirty,
    {
        self.dirty
    }

    /// Notes that everything learned so far was written down.
    pub fn saved(&mut self)
        ensures
            final(self)@ == old(self)@.written(),
    {
        proof {
            use_type_invariant(&*self);
        }
        self.dirty = false;
    }
}

impl Default for QuestCache {
    fn default() -> (r: Self)
        ensures
            r@ == empty_cache(),
    {
        QuestCache::new()
    }
}

/// Whether a number of answers fits the file's length words.
pub open spec fn fits_a_file(known: Map<u32, Seq<u8>>) -> bool {
    &&& known.len() < 0x1_0000_0000
    &&& forall|id: u32| #[trigger] known.contains_key(id) ==> known[id].len() < 0x1_0000_0000
}

proof fn lemma_entries_read_back(
    c: Cursor,
    known: Map<u32, Seq<u8>>,
    ids: Seq<u32>,
    done: Map<u32, Seq<u8>>,
)
    requires
        answers(known),
        fits_a_file(known),
        c.sound(),
        holds(c.data, c.at, entries_bytes(known, ids)),
        forall|i: int| 0 <= i < ids.len() ==> known.contains_key(#[trigger] ids[i]),
    ensures
        read_entries(c, ids.len(), done).0 == done.union_prefer_right(
            known.restrict(ids.to_set()),
        ),
        read_entries(c, ids.len(), done).1.failed is None,
    decreases ids.len(),
{
    if ids.len() > 0 {
        let id = ids[0];
        let body = known[id];
        let others = ids.skip(1);
        let head = bytes32(id) + bytes32(length_word(body.len()));
        assert(known.contains_key(id));
        lemma_holds_both(c.data, c.at, entry_bytes(id, body), entries_bytes(known, others));
        lemma_holds_both(c.data, c.at, head, body);
        lemma_holds_both(c.data, c.at, bytes32(id), bytes32(length_word(body.len())));
        lemma_le32_of_bytes(c.data, c.at + 4, length_word(body.len()));
        let start = c.take(4).take(4);
        assert(start.data.subrange(start.at, start.at + body.len()) == body) by {
            reveal(holds);
        }
        let next = start.take(body.len() as int);
        let with = done.insert(id, body);
        lemma_entries_read_back(next, known, others, with);
        let read = read_entries(next, others.len(), with);
        assert(read_entries(c, ids.len(), done) == read);
        assert forall|other: u32| ids.contains(other) == (others.contains(other) || other
            == id) by {
            if others.contains(other) {
                assert(ids[others.index_of(other) + 1] == other);
            }
            if ids.contains(other) && other != id {
                assert(others[ids.index_of(other) - 1] == other);
            }
        }
        assert(read.0 =~= done.union_prefer_right(known.restrict(ids.to_set())));
    } else {
        assert(done =~= done.union_prefer_right(known.restrict(ids.to_set())));
    }
}

/// A file gives back every answer that was written to it, and nothing else:
/// no quest is pending or unanswered in what was read, and nothing is news.
pub proof fn lemma_file_round_trip(cache: QuestCacheView)
    requires
        cache.valid(),
        fits_a_file(cache.known),
    ensures
        decoded(cache_bytes(cache.known)) == Ok::<QuestCacheView, CacheError>(
            QuestCacheView { known: cache.known, ..empty_cache() },
        ),
{
    let known = cache.known;
    let ids = listing(known.dom());
    let file = cache_bytes(known);
    let body = entries_bytes(known, ids);
    let count = bytes32(length_word(known.len()));
    let c = Cursor::over(file, "quest cache");
    lemma_listing(known.dom());
    assert forall|i: int| 0 <= i < ids.len() implies known.contains_key(#[trigger] ids[i]) by {
        assert(ids.to_set().contains(ids[i]));
    }
    lemma_holds_whole(file);
    lemma_holds_both(file, 0, MAGIC@ + bytes32(VERSION) + count, body);
    lemma_holds_both(file, 0, MAGIC@ + bytes32(VERSION), count);
    lemma_holds_both(file, 0, MAGIC@, bytes32(VERSION));
    lemma_le32_of_bytes(file, 4, VERSION);
    lemma_le32_of_bytes(file, 8, length_word(known.len()));
    assert(file.take(4) =~= MAGIC@) by {
        reveal(holds);
    }
    lemma_entries_read_back(c.take(4).take(4).take(4), known, ids, Map::empty());
    let read = read_entries(c.take(4).take(4).take(4), ids.len(), Map::empty()).0;
    assert(read =~= known);
}

/// What was asked about is not asked about again, whatever list it stands in,
/// until it is given up on in another session.
pub proof fn lemma_not_asked_twice(
    cache: QuestCacheView,
    wanted: Seq<u32>,
    limit: nat,
    later: Seq<u32>,
    later_limit: nat,
    quest: u32,
)
    requires
        cache.to_ask(wanted, limit).contains(quest),
    ensures
        !cache.asking(cache.to_ask(wanted, limit)).to_ask(later, later_limit).contains(quest),
        cache.asking(cache.to_ask(wanted, limit)).answer(quest) is Pending,
{
    let asked = cache.to_ask(wanted, limit);
    let after = cache.asking(asked);
    lemma_to_ask(cache, wanted, limit);
    assert(cache.answer(asked[asked.index_of(quest)]) is Unknown);
    assert(asked.to_set().contains(quest));
    lemma_to_ask(after, later, later_limit);
    if after.to_ask(later, later_limit).contains(quest) {
        let again = after.to_ask(later, later_limit);
        assert(after.answer(again[again.index_of(quest)]) is Unknown);
    }
}

/// Nor is a quest asked about that was answered, or given up on, or zero; and
/// no more are asked about than the limit.
pub proof fn lemma_asks_only_about_the_unknown(cache: QuestCacheView, wanted: Seq<u32>, limit: nat)
    ensures
        cache.to_ask(wanted, limit).len() <= limit,
        cache.to_ask(wanted, limit).no_duplicates(),
        forall|quest: u32| #[trigger]
            cache.to_ask(wanted, limit).contains(quest) ==> {
                &&& wanted.contains(quest)
                &&& quest != 0
                &&& cache.answer(quest) is Unknown
            },
    decreases wanted.len(),
{
    if wanted.len() > 0 {
        let shorter = wanted.drop_last();
        lemma_asks_only_about_the_unknown(cache, shorter, limit);
        let before = cache.to_ask(shorter, limit);
        let all = cache.to_ask(wanted, limit);
        assert forall|quest: u32| #[trigger] all.contains(quest) implies wanted.contains(quest)
            && quest != 0 && cache.answer(quest) is Unknown by {
            let i = all.index_of(quest);
            if i < before.len() {
                assert(before[i] == quest);
                assert(before.contains(quest));
                assert(wanted[shorter.index_of(quest)] == quest);
            } else {
                assert(wanted[wanted.len() - 1] == quest);
            }
        }
    }
}

/// Silence never reads as a description, and never takes one away.
pub proof fn lemma_giving_up_is_no_answer(cache: QuestCacheView, quest: u32, other: u32)
    requires
        cache.valid(),
    ensures
        cache.answer(quest) is Pending ==> cache.given_up(quest).answer(quest) is Unanswered,
        cache.answer(quest) !is Pending ==> cache.given_up(quest) == cache,
        other != quest ==> cache.given_up(quest).answer(other) == cache.answer(other),
        cache.given_up(quest).dirty == cache.dirty,
        cache.given_up(quest).known == cache.known,
{
}

/// A session that got no answer does not teach the next one to stop asking:
/// what was not answered reads as unknown out of the file.
pub proof fn lemma_silence_is_not_kept(cache: QuestCacheView, quest: u32)
    requires
        cache.valid(),
        fits_a_file(cache.known),
        cache.answer(quest) !is Known,
    ensures
        decoded(cache_bytes(cache.known))->Ok_0.answer(quest) is Unknown,
{
    lemma_file_round_trip(cache);
}

/// An answer is what the next question about its quest finds, and it changes
/// nothing for any other quest.
pub proof fn lemma_filed_answer_is_found(cache: QuestCacheView, body: Seq<u8>, other: u32)
    requires
        cache.valid(),
        quest_query(body) is Ok,
    ensures
        cache.filed(body).valid(),
        cache.filed(body).answer(described(body).id) == AnswerView::Known(described(body)),
        other != described(body).id ==> cache.filed(body).answer(other) == cache.answer(other),
{
}

/// A save is the end of the news and takes nothing away. After it, asking and
/// giving up are not news, and only an answer is, so a session which learns
/// nothing has nothing to write.
pub proof fn lemma_only_an_answer_is_news(
    cache: QuestCacheView,
    wanted: Seq<u32>,
    limit: nat,
    quest: u32,
    body: Seq<u8>,
)
    ensures
        ({
            let kept = cache.written();
            &&& !kept.dirty
            &&& kept.answer(quest) == cache.answer(quest)
            &&& cache_bytes(kept.known) == cache_bytes(cache.known)
            &&& !kept.asking(kept.to_ask(wanted, limit)).dirty
            &&& !kept.given_up(quest).dirty
            &&& kept.filed(body).dirty
            &&& !kept.filed(body).written().dirty
        }),
{
}

/// A realm's name cannot lead out of the directory: no part of the file's
/// name separates directories.
pub proof fn lemma_file_name_is_no_path(realm: Seq<char>, i: int)
    requires
        0 <= i < cache_file_name(realm).len(),
    ensures
        cache_file_name(realm)[i] != '/',
        cache_file_name(realm)[i] != '\\',
{
    reveal_strlit("quests-");
    reveal_strlit(".cache");
}

/// Two realms whose names are made of letters and digits do not share a file.
pub proof fn lemma_realms_do_not_share_a_file(a: Seq<char>, b: Seq<char>)
    requires
        a != b,
        forall|i: int| 0 <= i < a.len() ==> alphanumeric(#[trigger] a[i]),
        forall|i: int| 0 <= i < b.len() ==> alphanumeric(#[trigger] b[i]),
    ensures
        cache_file_name(a) != cache_file_name(b),
{
    if cache_file_name(a) == cache_file_name(b) {
        let one = cache_file_name(a);
        assert(safe_name(a) =~= a);
        assert(safe_name(b) =~= b);
        assert(one.len() == "quests-"@.len() + a.len() + ".cache"@.len());
        assert(one.len() == "quests-"@.len() + b.len() + ".cache"@.len());
        assert forall|i: int| 0 <= i < a.len() implies a[i] == b[i] by {
            assert(one["quests-"@.len() + i] == a[i]);
            assert(cache_file_name(b)["quests-"@.len() + i] == b[i]);
        }
        assert(a =~= b);
    }
}

} // verus!
