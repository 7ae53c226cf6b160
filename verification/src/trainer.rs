//! What a trainer will teach, and what it costs this character.
//!
//! A list is a header, a counted run of records of one size, and a greeting.
//! The greeting is what tells the record size: a wrong stride leaves the
//! reader in the middle of a number instead of at the start of a sentence.
//! [`measure_stride`] puts that question to a captured body.
use crate::cursor::{
    agrees, lemma_many_step, lemma_many_sticky, lemma_string_end, lemma_views_push, many, ran,
    string_end, views, Cursor,
};
use crate::protocol::{Error, Reader};
use crate::text::{decode_lossy, lossy_utf8};
use crate::vendor::unless_zero;
use crate::wire::{le32, le64, read32};
use vstd::prelude::*;

verus! {

/// Bytes in one spell record.
pub const SPELL_BYTES: usize = 38;

/// The record size of a layout without the two profession words.
pub const SHORT_SPELL_BYTES: usize = 30;

/// Bytes before the first record.
pub const HEADER_BYTES: usize = 16;

/// Whether this character can learn a spell right now.
#[derive(Debug, Clone, Copy, PartialEq, Eq, Structural)]
pub enum TrainerSpellState {
    /// Learnable now, if the money is there.
    Available,
    /// Not yet: the level, the skill rank or a prerequisite is missing.
    Unavailable,
    /// Already known.
    Known,
    /// Anything else, with its number.
    Unknown(u8),
}

/// The state a byte stands for.
pub open spec fn spell_state(byte: u8) -> TrainerSpellState {
    match byte {
        0 => TrainerSpellState::Available,
        1 => TrainerSpellState::Unavailable,
        2 => TrainerSpellState::Known,
        other => TrainerSpellState::Unknown(other),
    }
}

impl TrainerSpellState {
    /// Reads the state byte.
    pub fn from_byte(byte: u8) -> (r: Self)
        ensures
            r == spell_state(byte),
    {
        match byte {
            0 => Self::Available,
            1 => Self::Unavailable,
            2 => Self::Known,
            other => Self::Unknown(other),
        }
    }

    /// Whether a purchase is worth sending.
    pub fn is_learnable(self) -> (r: bool)
        ensures
            r == (self is Available),
    {
        match self {
            Self::Available => true,
            _ => false,
        }
    }
}

/// One thing a trainer will teach.
#[derive(Debug, PartialEq, Eq)]
pub struct TrainerSpell {
    /// The spell to ask for, and the only handle a purchase uses.
    pub spell: u32,
    pub state: TrainerSpellState,
    /// What it costs in copper, after the reader's reputation discount.
    pub cost: u32,
    pub required_level: u8,
    /// A skill the character must have, or `None`.
    pub required_skill: Option<u32>,
    /// How much of the skill is wanted, left as sent.
    pub required_skill_value: u32,
    /// Spells that must already be known. Zeroes are dropped.
    pub required_spells: Vec<u32>,
    /// Two words about professions that nothing has explained.
    pub profession: (u32, u32),
}

/// A [`TrainerSpell`] as a mathematical value.
pub struct TrainerSpellView {
    pub spell: u32,
    pub state: TrainerSpellState,
    pub cost: u32,
    pub required_level: u8,
    pub required_skill: Option<u32>,
    pub required_skill_value: u32,
    pub required_spells: Seq<u32>,
    pub profession: (u32, u32),
}

impl View for TrainerSpell {
    type V = TrainerSpellView;

    open spec fn view(&self) -> TrainerSpellView {
        TrainerSpellView {
            spell: self.spell,
            state: self.state,
            cost: self.cost,
            required_level: self.required_level,
            required_skill: self.required_skill,
            required_skill_value: self.required_skill_value,
            required_spells: self.required_spells@,
            profession: self.profession,
        }
    }
}

impl Clone for TrainerSpell {
    fn clone(&self) -> (r: Self)
        ensures
            r@ == self@,
    {
        let mut required_spells: Vec<u32> = Vec::new();
        for i in 0..self.required_spells.len()
            invariant
                required_spells@ == self.required_spells@.take(i as int),
        {
            required_spells.push(self.required_spells[i]);
            assert(required_spells@ =~= self.required_spells@.take(i + 1));
        }
        assert(required_spells@ =~= self.required_spells@);
        TrainerSpell {
            spell: self.spell,
            state: self.state,
            cost: self.cost,
            required_level: self.required_level,
            required_skill: self.required_skill,
            required_skill_value: self.required_skill_value,
            required_spells,
            profession: (self.profession.0, self.profession.1),
        }
    }
}

/// Everything a trainer offers, and what it says while offering it.
#[derive(Debug, Clone, PartialEq, Eq)]
pub struct TrainerList {
    /// Who is teaching.
    pub trainer: u64,
    /// What kind of trainer this is, left as a number.
    pub kind: u32,
    pub spells: Vec<TrainerSpell>,
    pub greeting: String,
}

/// A [`TrainerList`] as a mathematical value.
pub struct TrainerListView {
    pub trainer: u64,
    pub kind: u32,
    pub spells: Seq<TrainerSpellView>,
    pub greeting: Seq<char>,
}

impl View for TrainerList {
    type V = TrainerListView;

    open spec fn view(&self) -> TrainerListView {
        TrainerListView {
            trainer: self.trainer,
            kind: self.kind,
            spells: views(self.spells@),
            greeting: self.greeting@,
        }
    }
}

/// The rows a purchase may be sent for.
pub open spec fn learnable_rows(spells: Seq<TrainerSpellView>) -> Seq<TrainerSpellView> {
    spells.filter(|spell: TrainerSpellView| spell.state is Available)
}

impl TrainerList {
    /// Whether this trainer has nothing to teach this character.
    pub fn is_empty(&self) -> (r: bool)
        ensures
            r == (self@.spells.len() == 0),
    {
        self.spells.len() == 0
    }

    /// The rows a purchase may actually be sent for.
    pub fn learnable(&self) -> (r: Vec<&TrainerSpell>)
        ensures
            Seq::new(r@.len(), |i: int| r@[i]@) == learnable_rows(self@.spells),
    {
        let ghost all = self@.spells;
        let ghost keep = |spell: TrainerSpellView| spell.state is Available;
        let mut out: Vec<&TrainerSpell> = Vec::new();
        assert(all.take(0).filter(keep) =~= seq![]) by {
            reveal(Seq::filter);
        }
        for i in 0..self.spells.len()
            invariant
                all == views(self.spells@),
                keep == (|spell: TrainerSpellView| spell.state is Available),
                Seq::new(out@.len(), |k: int| out@[k]@) == all.take(i as int).filter(keep),
        {
            proof {
                reveal(Seq::filter);
                assert(all.take(i + 1).drop_last() =~= all.take(i as int));
                assert(all.take(i + 1).last() == self.spells@[i as int]@);
            }
            if self.spells[i].state.is_learnable() {
                out.push(&self.spells[i]);
            }
            assert(Seq::new(out@.len(), |k: int| out@[k]@) =~= all.take(i + 1).filter(keep));
        }
        assert(all.take(self.spells@.len() as int) =~= all);
        out
    }
}

/// A run of words without its zeroes.
pub open spec fn nonzero(words: Seq<u32>) -> Seq<u32> {
    words.filter(|word: u32| word != 0)
}

/// The record at a cursor, and where it ends.
pub open spec fn spell_record(c: Cursor) -> (TrainerSpellView, Cursor) {
    let state = c.take(4);
    let cost = state.take(1);
    let level = cost.words(3);
    let skill = level.take(1);
    (
        TrainerSpellView {
            spell: c.word(),
            state: spell_state(state.byte()),
            cost: cost.nth(0),
            profession: (cost.nth(1), cost.nth(2)),
            required_level: level.byte(),
            required_skill: unless_zero(skill.nth(0)),
            required_skill_value: skill.nth(1),
            required_spells: nonzero(seq![skill.nth(2), skill.nth(3), skill.nth(4)]),
        },
        skill.words(5),
    )
}

/// What [`parse_trainer_list`] makes of a body: a guid, a kind, a row count
/// that the body must have room for, the rows and a greeting.
pub open spec fn trainer_list(body: Seq<u8>) -> Result<TrainerListView, Error> {
    let head = Cursor::over(body, "SMSG_TRAINER_LIST").take(8).words(2);
    let count = le32(body, 12);
    let rows = head.check(
        head.left() >= count * SPELL_BYTES,
        Error::TrainerRowCount {
            count,
            expected: (count * SPELL_BYTES) as usize,
            got: head.left() as usize,
        },
    );
    let (spells, greeting) = many(rows, count as nat, |c: Cursor| spell_record(c));
    greeting.cstring().finish().outcome(
        TrainerListView {
            trainer: le64(body, 0),
            kind: le32(body, 8),
            spells,
            greeting: greeting.text(),
        },
    )
}

fn read_spell(r: &mut Reader<'_>) -> (res: Result<TrainerSpell, Error>)
    ensures
        ran(res, final(r)@, spell_record(old(r)@).1),
        res matches Ok(v) ==> v@ == spell_record(old(r)@).0,
        final(r)@.sound(),
{
    let spell: u32 = r.u32()?;
    let state = TrainerSpellState::from_byte(r.u8()?);
    let a = r.words::<3>()?;
    let required_level: u8 = r.u8()?;
    let b = r.words::<5>()?;
    let mut required_spells: Vec<u32> = Vec::new();
    if b[2] != 0 {
        required_spells.push(b[2]);
    }
    if b[3] != 0 {
        required_spells.push(b[3]);
    }
    if b[4] != 0 {
        required_spells.push(b[4]);
    }
    assert(required_spells@ =~= nonzero(seq![b@[2], b@[3], b@[4]])) by {
        reveal_with_fuel(Seq::filter, 4);
        let all = seq![b@[2], b@[3], b@[4]];
        assert(all.drop_last() =~= seq![b@[2], b@[3]]);
        assert(all.drop_last().drop_last() =~= seq![b@[2]]);
        assert(all.drop_last().drop_last().drop_last() =~= seq![]);
    }
    Ok(
        TrainerSpell {
            spell,
            state,
            cost: a[0],
            required_level,
            required_skill: if b[0] == 0 {
                None
            } else {
                Some(b[0])
            },
            required_skill_value: b[1],
            required_spells,
            profession: (a[1], a[2]),
        },
    )
}

/// Parses `SMSG_TRAINER_LIST`.
///
/// The row count is held against the body's length before any row is read, so
/// an impossible count asks for no memory.
pub fn parse_trainer_list(body: &[u8]) -> (r: Result<TrainerList, Error>)
    ensures
        agrees(r, trainer_list(body@)),
{
    let mut r = Reader::new(body, "SMSG_TRAINER_LIST");
    let ghost head = r@.take(8).words(2);
    let ghost count_word = le32(body@, 12);
    let ghost record = |c: Cursor| spell_record(c);
    let ghost rows = head.check(
        head.left() >= count_word * SPELL_BYTES,
        Error::TrainerRowCount {
            count: count_word,
            expected: (count_word * SPELL_BYTES) as usize,
            got: head.left() as usize,
        },
    );
    let ghost all = many(rows, count_word as nat, record);
    proof {
        if rows.failed is Some {
            lemma_many_sticky(rows, count_word as nat, record);
        }
    }
    let trainer: u64 = r.u64()?;
    let w = r.words::<2>()?;
    let count: u32 = w[1];
    let need: u64 = count as u64 * SPELL_BYTES as u64;
    if (r.remaining() as u64) < need {
        return Err(
            Error::TrainerRowCount { count, expected: need as usize, got: r.remaining() },
        );
    }
    let mut spells: Vec<TrainerSpell> = Vec::new();
    assert(views(spells@) + all.0 =~= all.0);
    for i in 0..count
        invariant
            all.0 == views(spells@) + many(r@, (count - i) as nat, record).0,
            all.1 == many(r@, (count - i) as nat, record).1,
            all == many(rows, count as nat, record),
            trainer_list(body@) == all.1.cstring().finish().outcome(
                TrainerListView {
                    trainer,
                    kind: w@[0],
                    spells: all.0,
                    greeting: all.1.text(),
                },
            ),
            record == (|c: Cursor| spell_record(c)),
    {
        let ghost left = (count - i) as nat;
        proof {
            lemma_many_step(views(spells@), r@, left, record);
            if spell_record(r@).1.failed is Some {
                lemma_many_sticky(spell_record(r@).1, (left - 1) as nat, record);
            }
        }
        let spell = read_spell(&mut r)?;
        proof {
            lemma_views_push(spells@, spell);
        }
        spells.push(spell);
    }
    assert(views(spells@) + seq![] =~= views(spells@));
    let greeting = r.cstring()?;
    r.finish()?;
    Ok(TrainerList { trainer, kind: w[0], spells, greeting })
}

/// How well one candidate record stride explains a captured body.
#[derive(Debug, Clone, PartialEq, Eq)]
pub struct StrideFit {
    pub stride: usize,
    /// Whether the header, the records and one string account for every byte.
    pub accounts_for_body: bool,
    /// What lands where the greeting should be, if anything did.
    pub greeting: Option<String>,
    /// Whether that is printable ASCII, and not empty.
    pub greeting_is_printable: bool,
}

/// A [`StrideFit`] as a mathematical value.
pub struct StrideFitView {
    pub stride: usize,
    pub accounts_for_body: bool,
    pub greeting: Option<Seq<char>>,
    pub greeting_is_printable: bool,
}

impl View for StrideFit {
    type V = StrideFitView;

    open spec fn view(&self) -> StrideFitView {
        StrideFitView {
            stride: self.stride,
            accounts_for_body: self.accounts_for_body,
            greeting: match self.greeting {
                Some(text) => Some(text@),
                None => None,
            },
            greeting_is_printable: self.greeting_is_printable,
        }
    }
}

/// Whether a text is printable ASCII, and not empty.
pub open spec fn printable(text: Seq<u8>) -> bool {
    text.len() > 0 && forall|i: int| 0 <= i < text.len() ==> 0x20 <= #[trigger] text[i] < 0x7F
}

/// How well a stride explains a body. Where the header is missing, the
/// records run past the end, or no string follows them, it explains nothing.
pub open spec fn stride_fit(body: Seq<u8>, stride: usize) -> StrideFitView {
    let start = HEADER_BYTES + le32(body, 12) * stride;
    let end = string_end(body, start);
    if body.len() < HEADER_BYTES || start > body.len() || end >= body.len() {
        StrideFitView {
            stride,
            accounts_for_body: false,
            greeting: None,
            greeting_is_printable: false,
        }
    } else {
        StrideFitView {
            stride,
            accounts_for_body: end + 1 == body.len(),
            greeting: Some(lossy_utf8(body.subrange(start, end))),
            greeting_is_printable: printable(body.subrange(start, end)),
        }
    }
}

fn is_printable(text: &[u8]) -> (r: bool)
    ensures
        r == printable(text@),
{
    if text.len() == 0 {
        return false;
    }
    for i in 0..text.len()
        invariant
            forall|k: int| 0 <= k < i ==> 0x20 <= #[trigger] text@[k] < 0x7F,
    {
        if text[i] < 0x20 || text[i] >= 0x7F {
            return false;
        }
    }
    true
}

fn fit_of(body: &[u8], stride: usize) -> (r: StrideFit)
    ensures
        r@ == stride_fit(body@, stride),
{
    let unfit = StrideFit {
        stride,
        accounts_for_body: false,
        greeting: None,
        greeting_is_printable: false,
    };
    if body.len() < HEADER_BYTES {
        return unfit;
    }
    let count: u32 = read32(body, 12);
    assert(count * stride <= 0xFFFF_FFFF * 0xFFFF_FFFF_FFFF_FFFF) by (nonlinear_arith)
        requires
            0 <= count <= 0xFFFF_FFFF,
            0 <= stride <= 0xFFFF_FFFF_FFFF_FFFF,
    ;
    let records: u128 = count as u128 * stride as u128;
    if records > (body.len() - HEADER_BYTES) as u128 {
        return unfit;
    }
    let start: usize = HEADER_BYTES + records as usize;
    let mut end: usize = start;
    while end < body.len() && body[end] != 0
        invariant
            start <= end <= body@.len(),
            string_end(body@, end as int) == string_end(body@, start as int),
        decreases body@.len() - end,
    {
        end += 1;
    }
    if end >= body.len() {
        return unfit;
    }
    let text = &body[start..end];
    StrideFit {
        stride,
        accounts_for_body: end + 1 == body.len(),
        greeting: Some(decode_lossy(text)),
        greeting_is_printable: is_printable(text),
    }
}

/// Scores candidate record strides against a captured `SMSG_TRAINER_LIST`.
///
/// It reads the bytes itself rather than through [`parse_trainer_list`], whose
/// stride is the very thing in question.
pub fn measure_stride(body: &[u8], candidates: &[usize]) -> (r: Vec<StrideFit>)
    ensures
        views(r@) == Seq::new(candidates@.len(), |i: int| stride_fit(body@, candidates@[i])),
{
    let mut fits: Vec<StrideFit> = Vec::new();
    for i in 0..candidates.len()
        invariant
            views(fits@) == Seq::new(i as nat, |k: int| stride_fit(body@, candidates@[k])),
    {
        let fit = fit_of(body, candidates[i]);
        proof {
            lemma_views_push(fits@, fit);
        }
        fits.push(fit);
        assert(views(fits@) =~= Seq::new(
            (i + 1) as nat,
            |k: int| stride_fit(body@, candidates@[k]),
        ));
    }
    fits
}

proof fn lemma_rows_advance(c: Cursor, n: nat)
    requires
        c.sound(),
        c.left() >= SPELL_BYTES * n,
    ensures
        many(c, n, |c: Cursor| spell_record(c)).1 == (Cursor { at: c.at + SPELL_BYTES * n, ..c }),
        many(c, n, |c: Cursor| spell_record(c)).0.len() == n,
    decreases n,
{
    if n > 0 {
        let next = spell_record(c).1;
        assert(next == (Cursor { at: c.at + SPELL_BYTES, ..c }));
        lemma_rows_advance(next, (n - 1) as nat);
    }
}

/// The stride of an accepted list is the one that [`measure_stride`] finds to
/// fit: it accounts for the whole body, and lands on the greeting.
pub proof fn lemma_accepted_list_fits(body: Seq<u8>)
    requires
        trainer_list(body) is Ok,
    ensures
        ({
            let list = trainer_list(body)->Ok_0;
            let fit = stride_fit(body, SPELL_BYTES);
            &&& fit.accounts_for_body
            &&& fit.greeting == Some(list.greeting)
            &&& list.spells.len() == le32(body, 12)
        }),
{
    let head = Cursor::over(body, "SMSG_TRAINER_LIST").take(8).words(2);
    let count = le32(body, 12);
    let rows = head.check(
        head.left() >= count * SPELL_BYTES,
        Error::TrainerRowCount {
            count,
            expected: (count * SPELL_BYTES) as usize,
            got: head.left() as usize,
        },
    );
    if rows.failed is Some {
        lemma_many_sticky(rows, count as nat, |c: Cursor| spell_record(c));
    } else {
        lemma_rows_advance(rows, count as nat);
        lemma_string_end(body, rows.at + SPELL_BYTES * count);
    }
}

} // verus!
