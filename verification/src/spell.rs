//! Spells: what this character knows, and asking to cast one.
//!
//! The spellbook is two lists back to back, so a wrong width in the first
//! would read the second from the middle of the first. Only the cursor at the
//! end of the body says so.
use crate::cursor::{
    agrees, lemma_many_fixed, lemma_many_step, lemma_many_sticky, many, ran, Cursor,
};
use crate::protocol::{Error, Reader};
use crate::text::{hex_padded, hex_padded_text};
use crate::update::{
    lemma_guid_round_trip, lemma_read_guid_sticky, packed_guid, read_guid, read_packed_guid,
    write_packed_guid,
};
use crate::wire::{
    bytes32, bytes64, group_word_lengths, le16, lemma_holds_both, lemma_holds_whole,
    lemma_le32_of_bytes, push32, push64,
};
use vstd::prelude::*;
use vstd::string::*;

pub mod target_flags;

verus! {

broadcast use group_word_lengths;

/// One spell the character knows.
#[derive(Debug, Clone, Copy, PartialEq, Eq, Structural)]
pub struct KnownSpell {
    pub id: u32,
    pub slot: u16,
}

/// A spell or category that is not ready yet. Sixteen bytes on the wire.
#[derive(Debug, Clone, Copy, PartialEq, Eq, Structural)]
pub struct SpellCooldown {
    pub spell_id: u32,
    /// The item that triggered it, or zero for a spell cast directly.
    pub item_id: u16,
    /// Which shared category the cooldown belongs to; zero for none.
    pub category: u16,
    /// Milliseconds left on this spell's own cooldown. The server puts the
    /// time in exactly one of this and the category's, by whether the spell
    /// has a category.
    pub cooldown_ms: u32,
    /// Milliseconds left on the shared category, under the same rule.
    pub category_cooldown_ms: u32,
}

/// What the server writes in the category word to mean "no end".
pub const INDEFINITE: u32 = 0x8000_0000;

/// How many bytes one cooldown entry occupies.
pub const COOLDOWN_RECORD: usize = 16;

/// How long until a spell can be used: the longer of its two times, and
/// nothing where there is no end to it.
pub open spec fn time_left(cooldown: SpellCooldown) -> Option<u32> {
    if cooldown.category_cooldown_ms == INDEFINITE {
        None
    } else if cooldown.cooldown_ms >= cooldown.category_cooldown_ms {
        Some(cooldown.cooldown_ms)
    } else {
        Some(cooldown.category_cooldown_ms)
    }
}

impl SpellCooldown {
    /// Whether this entry is the server's "no end" marker rather than a time.
    pub fn is_indefinite(&self) -> (r: bool)
        ensures
            r == (self.category_cooldown_ms == INDEFINITE),
    {
        self.category_cooldown_ms == INDEFINITE
    }

    /// How long until this spell can be used, in whichever field the server
    /// put it, and `None` when the entry is not a duration at all.
    pub fn remaining_ms(&self) -> (r: Option<u32>)
        ensures
            r == time_left(*self),
    {
        if self.is_indefinite() {
            return None;
        }
        if self.cooldown_ms >= self.category_cooldown_ms {
            Some(self.cooldown_ms)
        } else {
            Some(self.category_cooldown_ms)
        }
    }
}

/// The spellbook, as it arrives at login.
#[derive(Debug, Clone, PartialEq, Eq)]
pub struct InitialSpells {
    pub spells: Vec<KnownSpell>,
    pub cooldowns: Vec<SpellCooldown>,
    /// How many cooldown entries the packet said it held. The server counts
    /// before it skips, so this may exceed the entries that are there.
    pub cooldowns_announced: u16,
}

/// An [`InitialSpells`] as a mathematical value.
pub struct InitialSpellsView {
    pub spells: Seq<KnownSpell>,
    pub cooldowns: Seq<SpellCooldown>,
    pub cooldowns_announced: u16,
}

impl View for InitialSpells {
    type V = InitialSpellsView;

    open spec fn view(&self) -> InitialSpellsView {
        InitialSpellsView {
            spells: self.spells@,
            cooldowns: self.cooldowns@,
            cooldowns_announced: self.cooldowns_announced,
        }
    }
}

/// A character who knows nothing.
pub open spec fn no_spells() -> InitialSpellsView {
    InitialSpellsView { spells: seq![], cooldowns: seq![], cooldowns_announced: 0 }
}

impl Default for InitialSpells {
    fn default() -> (r: Self)
        ensures
            r@ == no_spells(),
    {
        InitialSpells { spells: Vec::new(), cooldowns: Vec::new(), cooldowns_announced: 0 }
    }
}

/// One known spell, and where its record ends.
pub open spec fn known_spell(c: Cursor) -> (KnownSpell, Cursor) {
    (KnownSpell { id: c.word(), slot: c.take(4).short() }, c.take(4).take(2))
}

/// One cooldown, and where its record ends.
pub open spec fn cooldown_record(c: Cursor) -> (SpellCooldown, Cursor) {
    let item = c.take(4);
    let times = item.take(2).take(2);
    (
        SpellCooldown {
            spell_id: c.word(),
            item_id: item.short(),
            category: item.take(2).short(),
            cooldown_ms: times.nth(0),
            category_cooldown_ms: times.nth(1),
        },
        times.words(2),
    )
}

/// What [`parse_initial_spells`] makes of a body.
///
/// The known spells are counted. The cooldowns are read by what is there,
/// which may fall short of the announced count and may not exceed it.
pub open spec fn initial_spells(body: Seq<u8>) -> Result<InitialSpellsView, Error> {
    let book = Cursor::over(body, "SMSG_INITIAL_SPELLS").take(1);
    let (spells, announced) = many(book.take(2), book.short() as nat, |c: Cursor| known_spell(c));
    let list = announced.take(2);
    let present = list.left() / COOLDOWN_RECORD as int;
    let (cooldowns, end) = many(
        list.check(
            present <= announced.short(),
            Error::Trailing { what: "SMSG_INITIAL_SPELLS cooldowns", got: list.left() as usize },
        ),
        present as nat,
        |c: Cursor| cooldown_record(c),
    );
    end.finish().outcome(
        InitialSpellsView { spells, cooldowns, cooldowns_announced: announced.short() },
    )
}

fn read_known(r: &mut Reader<'_>) -> (res: Result<KnownSpell, Error>)
    ensures
        ran(res, final(r)@, known_spell(old(r)@).1),
        res matches Ok(v) ==> v == known_spell(old(r)@).0,
{
    let id: u32 = r.u32()?;
    let slot: u16 = r.u16()?;
    Ok(KnownSpell { id, slot })
}

fn read_cooldown(r: &mut Reader<'_>) -> (res: Result<SpellCooldown, Error>)
    ensures
        ran(res, final(r)@, cooldown_record(old(r)@).1),
        res matches Ok(v) ==> v == cooldown_record(old(r)@).0,
{
    let spell_id: u32 = r.u32()?;
    let item_id: u16 = r.u16()?;
    let category: u16 = r.u16()?;
    let w = r.words::<2>()?;
    Ok(
        SpellCooldown {
            spell_id,
            item_id,
            category,
            cooldown_ms: w[0],
            category_cooldown_ms: w[1],
        },
    )
}

fn read_book(r: &mut Reader<'_>, count: u16) -> (res: Result<Vec<KnownSpell>, Error>)
    ensures
        ({
            let (spells, end) = many(old(r)@, count as nat, |c: Cursor| known_spell(c));
            &&& ran(res, final(r)@, end)
            &&& res matches Ok(v) ==> v@ == spells
        }),
{
    let ghost record = |c: Cursor| known_spell(c);
    let ghost all = many(r@, count as nat, record);
    let mut spells: Vec<KnownSpell> = Vec::new();
    assert(spells@ + all.0 =~= all.0);
    for i in 0..count
        invariant
            all.0 == spells@ + many(r@, (count - i) as nat, record).0,
            all.1 == many(r@, (count - i) as nat, record).1,
            all == many(old(r)@, count as nat, |c: Cursor| known_spell(c)),
            record == (|c: Cursor| known_spell(c)),
    {
        let ghost left = (count - i) as nat;
        proof {
            lemma_many_step(spells@, r@, left, record);
            if known_spell(r@).1.failed is Some {
                lemma_many_sticky(known_spell(r@).1, (left - 1) as nat, record);
            }
        }
        spells.push(read_known(r)?);
    }
    assert(spells@ + seq![] =~= spells@);
    Ok(spells)
}

fn read_cooldowns(r: &mut Reader<'_>, count: usize) -> (res: Result<Vec<SpellCooldown>, Error>)
    ensures
        ({
            let (cooldowns, end) = many(old(r)@, count as nat, |c: Cursor| cooldown_record(c));
            &&& ran(res, final(r)@, end)
            &&& res matches Ok(v) ==> v@ == cooldowns
        }),
{
    let ghost record = |c: Cursor| cooldown_record(c);
    let ghost all = many(r@, count as nat, record);
    let mut cooldowns: Vec<SpellCooldown> = Vec::new();
    assert(cooldowns@ + all.0 =~= all.0);
    for i in 0..count
        invariant
            all.0 == cooldowns@ + many(r@, (count - i) as nat, record).0,
            all.1 == many(r@, (count - i) as nat, record).1,
            all == many(old(r)@, count as nat, |c: Cursor| cooldown_record(c)),
            record == (|c: Cursor| cooldown_record(c)),
    {
        let ghost left = (count - i) as nat;
        proof {
            lemma_many_step(cooldowns@, r@, left, record);
            if cooldown_record(r@).1.failed is Some {
                lemma_many_sticky(cooldown_record(r@).1, (left - 1) as nat, record);
            }
        }
        cooldowns.push(read_cooldown(r)?);
    }
    assert(cooldowns@ + seq![] =~= cooldowns@);
    Ok(cooldowns)
}

/// Parses `SMSG_INITIAL_SPELLS`.
pub fn parse_initial_spells(body: &[u8]) -> (r: Result<InitialSpells, Error>)
    ensures
        agrees(r, initial_spells(body@)),
{
    let mut r = Reader::new(body, "SMSG_INITIAL_SPELLS");
    proof {
        let book = r@.take(1);
        let n = book.short() as nat;
        if book.take(2).failed is Some {
            lemma_many_sticky(book.take(2), n, |c: Cursor| known_spell(c));
        }
        let announced = many(book.take(2), n, |c: Cursor| known_spell(c)).1;
        let list = announced.take(2);
        let present = list.left() / COOLDOWN_RECORD as int;
        let checked = list.check(
            present <= announced.short(),
            Error::Trailing { what: "SMSG_INITIAL_SPELLS cooldowns", got: list.left() as usize },
        );
        if checked.failed is Some {
            lemma_many_sticky(checked, present as nat, |c: Cursor| cooldown_record(c));
        }
    }
    let _unknown: u8 = r.u8()?;
    let spell_count: u16 = r.u16()?;
    let spells = read_book(&mut r, spell_count)?;
    let cooldowns_announced: u16 = r.u16()?;
    let present: usize = r.remaining() / COOLDOWN_RECORD;
    if present > cooldowns_announced as usize {
        return Err(
            Error::Trailing { what: "SMSG_INITIAL_SPELLS cooldowns", got: r.remaining() },
        );
    }
    let cooldowns = read_cooldowns(&mut r, present)?;
    r.finish()?;
    Ok(InitialSpells { spells, cooldowns, cooldowns_announced })
}

/// The targets that end a cast: yourself, or a unit by its packed guid.
pub open spec fn target_bytes(target: Option<u64>) -> Seq<u8> {
    match target {
        Some(guid) => bytes32(target_flags::UNIT) + packed_guid(guid),
        None => bytes32(target_flags::SELF),
    }
}

/// What stands before the target of a cast: its count, the spell, its flags.
pub open spec fn cast_head(spell_id: u32) -> Seq<u8> {
    seq![0u8] + bytes32(spell_id) + seq![0u8]
}

/// `CMSG_CAST_SPELL`'s body, on yourself or at a unit.
pub fn cast_spell(spell_id: u32, target: Option<u64>) -> (r: Vec<u8>)
    ensures
        r@ == cast_head(spell_id) + target_bytes(target),
{
    let mut body: Vec<u8> = Vec::new();
    body.push(0u8);
    push32(&mut body, spell_id);
    body.push(0u8);
    assert(body@ =~= cast_head(spell_id));
    write_cast_targets(target, &mut body);
    body
}

/// The spell without a skill that opens an ordinary quest object.
pub const OPEN_LOCK_KNEELING: u32 = 6478;

/// `CMSG_CAST_SPELL`'s body, aimed at a game object.
pub fn cast_spell_at_gameobject(spell_id: u32, guid: u64) -> (r: Vec<u8>)
    ensures
        r@ == cast_head(spell_id) + bytes32(target_flags::GAMEOBJECT) + packed_guid(guid),
{
    let mut body: Vec<u8> = Vec::new();
    body.push(0u8);
    push32(&mut body, spell_id);
    body.push(0u8);
    assert(body@ =~= cast_head(spell_id));
    push32(&mut body, target_flags::GAMEOBJECT);
    write_packed_guid(guid, &mut body);
    body
}

/// The target block that ends both a cast and an item use.
pub fn write_cast_targets(target: Option<u64>, body: &mut Vec<u8>)
    ensures
        final(body)@ == old(body)@ + target_bytes(target),
{
    match target {
        Some(guid) => {
            push32(body, target_flags::UNIT);
            write_packed_guid(guid, body);
        },
        None => push32(body, target_flags::SELF),
    }
    assert(body@ =~= old(body)@ + target_bytes(target));
}

/// The use of an item: where it lies, which it is and what it casts, then the
/// target. The item's guid goes out unpacked.
pub open spec fn use_bytes(
    bag: u8,
    slot: u8,
    item_guid: u64,
    spell_id: u32,
    target: Option<u64>,
) -> Seq<u8> {
    seq![bag, slot, 0u8] + bytes32(spell_id) + bytes64(item_guid) + bytes32(0) + seq![0u8]
        + target_bytes(target)
}

/// `CMSG_USE_ITEM`'s body.
pub fn use_item(bag: u8, slot: u8, item_guid: u64, spell_id: u32, target: Option<u64>) -> (r: Vec<
    u8,
>)
    ensures
        r@ == use_bytes(bag, slot, item_guid, spell_id, target),
{
    let mut body: Vec<u8> = Vec::new();
    body.push(bag);
    body.push(slot);
    body.push(0u8);  // cast count
    assert(body@ =~= seq![bag, slot, 0u8]);
    push32(&mut body, spell_id);
    push64(&mut body, item_guid);
    push32(&mut body, 0);  // glyph index
    let ghost before = body@;
    body.push(0u8);  // cast flags
    assert(body@ =~= before + seq![0u8]);
    write_cast_targets(target, &mut body);
    body
}

/// One spell now on cooldown.
#[derive(Debug, Clone, Copy, PartialEq, Eq, Structural)]
pub struct SpellCooldownEvent {
    pub spell_id: u32,
    pub cooldown_ms: u32,
}

/// One cooldown event, and where it ends.
pub open spec fn cooldown_event(c: Cursor) -> (SpellCooldownEvent, Cursor) {
    (SpellCooldownEvent { spell_id: c.nth(0), cooldown_ms: c.nth(1) }, c.words(2))
}

/// What [`parse_spell_cooldown`] makes of a body: a guid, a flags byte, and
/// pairs of words to the end of the body.
pub open spec fn spell_cooldown(body: Seq<u8>) -> Result<(u64, Seq<SpellCooldownEvent>), Error> {
    let head = Cursor::over(body, "SMSG_SPELL_COOLDOWN").take(8).take(1);
    // A pair that is begun is owed whole, so the run is rounded up.
    let pairs = (head.left() + 7) / 8;
    let (events, end) = many(head, pairs as nat, |c: Cursor| cooldown_event(c));
    end.outcome((Cursor::over(body, "SMSG_SPELL_COOLDOWN").long(), events))
}

/// Parses `SMSG_SPELL_COOLDOWN`.
pub fn parse_spell_cooldown(body: &[u8]) -> (r: Result<(u64, Vec<SpellCooldownEvent>), Error>)
    ensures
        match r {
            Ok(v) => spell_cooldown(body@) == Ok::<(u64, Seq<SpellCooldownEvent>), Error>(
                (v.0, v.1@),
            ),
            Err(error) => spell_cooldown(body@) == Err::<(u64, Seq<SpellCooldownEvent>), Error>(
                error,
            ),
        },
{
    let mut r = Reader::new(body, "SMSG_SPELL_COOLDOWN");
    let ghost start = r@;
    let ghost head = r@.take(8).take(1);
    let ghost record = |c: Cursor| cooldown_event(c);
    let ghost all = many(head, ((head.left() + 7) / 8) as nat, record);
    proof {
        if head.failed is Some {
            lemma_many_sticky(head, ((head.left() + 7) / 8) as nat, record);
        }
    }
    let caster: u64 = r.u64()?;
    let _flags: u8 = r.u8()?;
    let mut cooldowns: Vec<SpellCooldownEvent> = Vec::new();
    assert(cooldowns@ + all.0 =~= all.0);
    while r.remaining() > 0
        invariant
            r@.sound(),
            all.0 == cooldowns@ + many(r@, ((r@.left() + 7) / 8) as nat, record).0,
            all.1 == many(r@, ((r@.left() + 7) / 8) as nat, record).1,
            spell_cooldown(body@) == all.1.outcome((caster, all.0)),
            record == (|c: Cursor| cooldown_event(c)),
        decreases r@.left(),
    {
        let ghost left = ((r@.left() + 7) / 8) as nat;
        proof {
            lemma_many_step(cooldowns@, r@, left, record);
            if cooldown_event(r@).1.failed is Some {
                lemma_many_sticky(cooldown_event(r@).1, (left - 1) as nat, record);
            }
        }
        let w = r.words::<2>()?;
        cooldowns.push(SpellCooldownEvent { spell_id: w[0], cooldown_ms: w[1] });
    }
    assert(cooldowns@ + seq![] =~= cooldowns@);
    r.finish()?;
    Ok((caster, cooldowns))
}

/// The head that the start and the landing of a cast share.
pub struct CastHead {
    pub cast_item: u64,
    pub caster: u64,
    pub cast_count: u8,
    pub spell_id: u32,
}

/// A cast's head, and where it ends.
pub open spec fn cast_header(c: Cursor) -> (CastHead, Cursor) {
    let (cast_item, next) = read_guid(c);
    let (caster, count) = read_guid(next);
    (
        CastHead {
            cast_item,
            caster,
            cast_count: count.byte(),
            spell_id: count.take(1).word(),
        },
        count.take(1).take(4),
    )
}

/// The target that ends a cast: flags, a packed guid, and a last word where
/// anything is left for it.
pub open spec fn target_tail(c: Cursor, what: &'static str) -> (u64, Option<u32>, Cursor) {
    let flags = c.word();
    let named = c.take(4).check(
        flags == target_flags::UNIT || flags == target_flags::GAMEOBJECT,
        Error::UnsupportedSpellTarget { what, flags },
    );
    let (target, last) = read_guid(named);
    if last.failed is None && last.left() > 0 {
        (target, Some(last.word()), last.take(4))
    } else {
        (target, None, last)
    }
}

/// A failed cursor gets no further by way of a cast's head.
pub broadcast proof fn lemma_cast_header_sticky(c: Cursor)
    requires
        c.failed is Some,
    ensures
        (#[trigger] cast_header(c)).1 == c,
{
    broadcast use lemma_read_guid_sticky;

}

/// A failed cursor gets no further by way of a cast's target.
pub broadcast proof fn lemma_target_tail_sticky(c: Cursor, what: &'static str)
    requires
        c.failed is Some,
    ensures
        (#[trigger] target_tail(c, what)).2 == c,
{
    broadcast use lemma_read_guid_sticky;

}

fn read_cast_header(r: &mut Reader<'_>) -> (res: Result<CastHead, Error>)
    ensures
        ran(res, final(r)@, cast_header(old(r)@).1),
        res matches Ok(v) ==> v == cast_header(old(r)@).0,
{
    broadcast use lemma_read_guid_sticky;

    let cast_item: u64 = read_packed_guid(r)?;
    let caster: u64 = read_packed_guid(r)?;
    let cast_count: u8 = r.u8()?;
    let spell_id: u32 = r.u32()?;
    Ok(CastHead { cast_item, caster, cast_count, spell_id })
}

fn read_unit_target_tail(r: &mut Reader<'_>, what: &'static str) -> (res: Result<
    (u64, Option<u32>),
    Error,
>)
    ensures
        ran(res, final(r)@, target_tail(old(r)@, what).2),
        res matches Ok(v) ==> v == (target_tail(old(r)@, what).0, target_tail(old(r)@, what).1),
{
    broadcast use lemma_read_guid_sticky;

    let flags: u32 = r.u32()?;
    if flags != target_flags::UNIT && flags != target_flags::GAMEOBJECT {
        return Err(Error::UnsupportedSpellTarget { what, flags });
    }
    let target: u64 = read_packed_guid(r)?;
    let trailing: Option<u32> = if r.remaining() > 0 {
        Some(r.u32()?)
    } else {
        None
    };
    Ok((target, trailing))
}

/// One cast beginning to wind up.
#[derive(Debug, Clone, Copy, PartialEq, Eq, Structural)]
pub struct SpellStart {
    pub cast_item: u64,
    pub caster: u64,
    pub cast_count: u8,
    pub spell_id: u32,
    pub cast_flags: u32,
    pub cast_time_ms: u32,
    /// Who the cast is aimed at.
    pub target: u64,
    /// A word behind the target, where there is one.
    pub trailing: Option<u32>,
}

/// What [`parse_spell_start`] makes of a body.
pub open spec fn spell_start(body: Seq<u8>) -> Result<SpellStart, Error> {
    let (head, flags) = cast_header(Cursor::over(body, "SMSG_SPELL_START"));
    let time = flags.take(4);
    let (target, trailing, end) = target_tail(time.take(4), "SMSG_SPELL_START");
    end.finish().outcome(
        SpellStart {
            cast_item: head.cast_item,
            caster: head.caster,
            cast_count: head.cast_count,
            spell_id: head.spell_id,
            cast_flags: flags.word(),
            cast_time_ms: time.word(),
            target,
            trailing,
        },
    )
}

/// Parses `SMSG_SPELL_START`.
pub fn parse_spell_start(body: &[u8]) -> (r: Result<SpellStart, Error>)
    ensures
        r == spell_start(body@),
{
    broadcast use lemma_target_tail_sticky;

    let mut r = Reader::new(body, "SMSG_SPELL_START");
    let head = read_cast_header(&mut r)?;
    let cast_flags: u32 = r.u32()?;
    let cast_time_ms: u32 = r.u32()?;
    let (target, trailing) = read_unit_target_tail(&mut r, "SMSG_SPELL_START")?;
    r.finish()?;
    Ok(
        SpellStart {
            cast_item: head.cast_item,
            caster: head.caster,
            cast_count: head.cast_count,
            spell_id: head.spell_id,
            cast_flags,
            cast_time_ms,
            target,
            trailing,
        },
    )
}

/// One cast landing.
#[derive(Debug, Clone, PartialEq, Eq)]
pub struct SpellGo {
    pub cast_item: u64,
    pub caster: u64,
    pub cast_count: u8,
    pub spell_id: u32,
    pub cast_flags: u32,
    /// The server's own millisecond clock.
    pub timestamp: u32,
    /// Guids the cast actually hit.
    pub hits: Vec<u64>,
    pub target: u64,
    pub trailing: Option<u32>,
}

/// A [`SpellGo`] as a mathematical value.
pub struct SpellGoView {
    pub cast_item: u64,
    pub caster: u64,
    pub cast_count: u8,
    pub spell_id: u32,
    pub cast_flags: u32,
    pub timestamp: u32,
    pub hits: Seq<u64>,
    pub target: u64,
    pub trailing: Option<u32>,
}

impl View for SpellGo {
    type V = SpellGoView;

    open spec fn view(&self) -> SpellGoView {
        SpellGoView {
            cast_item: self.cast_item,
            caster: self.caster,
            cast_count: self.cast_count,
            spell_id: self.spell_id,
            cast_flags: self.cast_flags,
            timestamp: self.timestamp,
            hits: self.hits@,
            target: self.target,
            trailing: self.trailing,
        }
    }
}

/// One unpacked guid, and where it ends.
pub open spec fn raw_guid(c: Cursor) -> (u64, Cursor) {
    (c.long(), c.take(8))
}

/// The unpacked guids of a hit list.
pub open spec fn hit_list(c: Cursor, count: u8) -> (Seq<u64>, Cursor) {
    many(c, count as nat, |c: Cursor| raw_guid(c))
}

/// What [`parse_spell_go`] makes of a body. A landing that lists misses is
/// refused.
pub open spec fn spell_go(body: Seq<u8>) -> Result<SpellGoView, Error> {
    let (head, flags) = cast_header(Cursor::over(body, "SMSG_SPELL_GO"));
    let time = flags.take(4);
    let count = time.take(4);
    let (hits, misses) = hit_list(count.take(1), count.byte());
    let aim = misses.take(1).check(
        misses.byte() == 0,
        Error::UnconfirmedSpellMisses { count: misses.byte() },
    );
    let (target, trailing, end) = target_tail(aim, "SMSG_SPELL_GO");
    end.finish().outcome(
        SpellGoView {
            cast_item: head.cast_item,
            caster: head.caster,
            cast_count: head.cast_count,
            spell_id: head.spell_id,
            cast_flags: flags.word(),
            timestamp: time.word(),
            hits,
            target,
            trailing,
        },
    )
}

proof fn lemma_hit_list_sticky(c: Cursor, count: u8)
    requires
        c.failed is Some,
    ensures
        hit_list(c, count).1 == c,
{
    lemma_many_sticky(c, count as nat, |c: Cursor| raw_guid(c));
}

fn read_hits(r: &mut Reader<'_>, count: u8) -> (res: Result<Vec<u64>, Error>)
    ensures
        ran(res, final(r)@, hit_list(old(r)@, count).1),
        res matches Ok(v) ==> v@ == hit_list(old(r)@, count).0,
{
    let ghost record = |c: Cursor| raw_guid(c);
    let ghost all = many(r@, count as nat, record);
    let mut hits: Vec<u64> = Vec::new();
    assert(hits@ + all.0 =~= all.0);
    for i in 0..count
        invariant
            all.0 == hits@ + many(r@, (count - i) as nat, record).0,
            all.1 == many(r@, (count - i) as nat, record).1,
            all == hit_list(old(r)@, count),
            record == (|c: Cursor| raw_guid(c)),
    {
        let ghost left = (count - i) as nat;
        proof {
            lemma_many_step(hits@, r@, left, record);
            if raw_guid(r@).1.failed is Some {
                lemma_many_sticky(raw_guid(r@).1, (left - 1) as nat, record);
            }
        }
        hits.push(r.u64()?);
    }
    assert(hits@ + seq![] =~= hits@);
    Ok(hits)
}

/// Parses `SMSG_SPELL_GO`.
pub fn parse_spell_go(body: &[u8]) -> (r: Result<SpellGo, Error>)
    ensures
        agrees(r, spell_go(body@)),
{
    broadcast use lemma_target_tail_sticky;

    let mut r = Reader::new(body, "SMSG_SPELL_GO");
    proof {
        let count = cast_header(r@).1.take(4).take(4);
        if count.take(1).failed is Some {
            lemma_hit_list_sticky(count.take(1), count.byte());
        }
    }
    let head = read_cast_header(&mut r)?;
    let cast_flags: u32 = r.u32()?;
    let timestamp: u32 = r.u32()?;
    let hit_count: u8 = r.u8()?;
    let hits = read_hits(&mut r, hit_count)?;
    let miss_count: u8 = r.u8()?;
    if miss_count != 0 {
        return Err(Error::UnconfirmedSpellMisses { count: miss_count });
    }
    let (target, trailing) = read_unit_target_tail(&mut r, "SMSG_SPELL_GO")?;
    r.finish()?;
    Ok(
        SpellGo {
            cast_item: head.cast_item,
            caster: head.caster,
            cast_count: head.cast_count,
            spell_id: head.spell_id,
            cast_flags,
            timestamp,
            hits,
            target,
            trailing,
        },
    )
}

/// What a refused cast was answered with.
#[derive(Debug, Clone, Copy, PartialEq, Eq, Structural)]
pub struct CastFailed {
    pub cast_count: u8,
    pub spell_id: u32,
    pub reason: u8,
}

/// What [`parse_cast_failed`] makes of a body. What follows the reason
/// depends on it and is not held against the body.
pub open spec fn cast_failed(body: Seq<u8>) -> Result<CastFailed, Error> {
    let c = Cursor::over(body, "SMSG_CAST_FAILED");
    let reason = c.take(1).take(4);
    reason.take(1).outcome(
        CastFailed {
            cast_count: c.byte(),
            spell_id: c.take(1).word(),
            reason: reason.byte(),
        },
    )
}

/// Parses `SMSG_CAST_FAILED`.
pub fn parse_cast_failed(body: &[u8]) -> (r: Result<CastFailed, Error>)
    ensures
        r == cast_failed(body@),
{
    let mut r = Reader::new(body, "SMSG_CAST_FAILED");
    let cast_count: u8 = r.u8()?;
    let spell_id: u32 = r.u32()?;
    let reason: u8 = r.u8()?;
    Ok(CastFailed { cast_count, spell_id, reason })
}

/// What [`describe_cast_failure`] says.
pub open spec fn cast_failure_text(reason: u8) -> Seq<char> {
    if reason == 0x0C {
        "the spell cannot be cast on that target"@
    } else {
        "reason 0x"@ + hex_padded(reason as int, 2)
    }
}

/// A description of a cast failure. A reason that was never observed keeps
/// its number, two hexadecimal digits wide.
pub fn describe_cast_failure(reason: u8) -> (r: String)
    ensures
        r@ == cast_failure_text(reason),
{
    if reason == 0x0C {
        String::from_str("the spell cannot be cast on that target")
    } else {
        String::from_str("reason 0x").concat(hex_padded_text(reason as u64, 2).as_str())
    }
}

/// What a targeted cast carries behind its head is the mask that announces a
/// unit and the guid itself, whoever is aimed at.
pub proof fn lemma_targeted_cast_names_its_target(spell_id: u32, guid: u64, what: &'static str)
    ensures
        ({
            let body = cast_head(spell_id) + target_bytes(Some(guid));
            let tail = Cursor { at: 6, ..Cursor::over(body, what) };
            &&& cast_head(spell_id).len() == 6
            &&& target_tail(tail, what) == (
                guid,
                None::<u32>,
                (Cursor { at: body.len() as int, ..tail }),
            )
        }),
{
    let head = cast_head(spell_id);
    let mask = bytes32(target_flags::UNIT);
    let body = head + target_bytes(Some(guid));
    let tail = Cursor { at: 6, ..Cursor::over(body, what) };
    lemma_holds_whole(body);
    lemma_holds_both(body, 0, head, target_bytes(Some(guid)));
    lemma_holds_both(body, 6, mask, packed_guid(guid));
    lemma_le32_of_bytes(body, 6, target_flags::UNIT);
    lemma_guid_round_trip(tail.take(4), guid);
}

/// An accepted spellbook is accounted for byte by byte: its head, six bytes
/// for each spell and sixteen for each cooldown, of which there are no more
/// than were announced.
pub proof fn lemma_a_spellbook_is_exact(body: Seq<u8>)
    requires
        initial_spells(body) is Ok,
    ensures
        ({
            let book = initial_spells(body)->Ok_0;
            &&& book.spells.len() == le16(body, 1)
            &&& book.cooldowns.len() <= book.cooldowns_announced
            &&& body.len() == 5 + 6 * book.spells.len() + COOLDOWN_RECORD * book.cooldowns.len()
        }),
{
    let spell = |c: Cursor| known_spell(c);
    let entry = |c: Cursor| cooldown_record(c);
    let book = Cursor::over(body, "SMSG_INITIAL_SPELLS").take(1);
    let (spells, announced) = many(book.take(2), book.short() as nat, spell);
    let list = announced.take(2);
    let present = list.left() / COOLDOWN_RECORD as int;
    let checked = list.check(
        present <= announced.short(),
        Error::Trailing { what: "SMSG_INITIAL_SPELLS cooldowns", got: list.left() as usize },
    );
    let (cooldowns, end) = many(checked, present as nat, entry);
    if book.take(2).failed is Some {
        lemma_many_sticky(book.take(2), book.short() as nat, spell);
    }
    if checked.failed is Some {
        lemma_many_sticky(checked, present as nat, entry);
    }
    lemma_many_fixed(book.take(2), book.short() as nat, spell, 6);
    lemma_many_fixed(checked, present as nat, entry, COOLDOWN_RECORD as int);
}

} // verus!
