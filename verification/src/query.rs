//! Asking the server what things are called.
//!
//! Nothing in an object update carries a name: it arrives only in answer to a
//! query. Every answer is read to its end though only a part of it is kept,
//! because a body that does not end where its fields do had an earlier field
//! of the wrong width, and then nothing read before it can be trusted.
use crate::cursor::{agrees, lemma_cstrings_sticky, ran, Cursor};
use crate::protocol::{Error, Reader};
use crate::update::{lemma_read_guid_sticky, read_guid, read_packed_guid};
use crate::wire::{bytes32, bytes64, group_word_lengths, push32, push64, signed, to_signed};
use vstd::prelude::*;
use vstd::string::*;

pub mod stats;

verus! {

broadcast use group_word_lengths;

/// Declined-name forms, where a locale supplies them.
pub const DECLINED_NAMES: usize = 5;

/// Spell slots on an item.
pub const ITEM_SPELLS: usize = 5;

/// Words written per spell slot: id, trigger, charges, cooldown, category and
/// category cooldown.
pub const ITEM_SPELL_FIELDS: usize = 6;

/// The bit of an entry that says the server has no such entry.
pub const NOT_FOUND: u32 = 0x8000_0000;

/// `CMSG_NAME_QUERY`'s body: who is this guid?
pub fn name_query(guid: u64) -> (r: Vec<u8>)
    ensures
        r@ == bytes64(guid),
{
    let mut body: Vec<u8> = Vec::new();
    push64(&mut body, guid);
    assert(body@ =~= bytes64(guid));
    body
}

/// `CMSG_CREATURE_QUERY`'s body: what is this creature entry?
///
/// The answer is keyed by the entry. The guid says which instance asked.
pub fn creature_query(entry: u32, guid: u64) -> (r: Vec<u8>)
    ensures
        r@ == bytes32(entry) + bytes64(guid),
{
    let mut body: Vec<u8> = Vec::new();
    push32(&mut body, entry);
    push64(&mut body, guid);
    assert(body@ =~= bytes32(entry) + bytes64(guid));
    body
}

/// `CMSG_ITEM_QUERY_SINGLE`'s body: what is this item entry?
///
/// The guid is zero when nothing in the world is holding the item.
pub fn item_query(entry: u32, guid: u64) -> (r: Vec<u8>)
    ensures
        r@ == bytes32(entry) + bytes64(guid),
{
    let mut body: Vec<u8> = Vec::new();
    push32(&mut body, entry);
    push64(&mut body, guid);
    assert(body@ =~= bytes32(entry) + bytes64(guid));
    body
}

/// The view of a name that may be absent.
pub open spec fn maybe_text(name: Option<String>) -> Option<Seq<char>> {
    match name {
        Some(text) => Some(text@),
        None => None,
    }
}

/// A name, unless it is empty.
pub open spec fn unless_empty(name: Seq<char>) -> Option<Seq<char>> {
    if name.len() == 0 {
        None
    } else {
        Some(name)
    }
}

fn drop_empty(name: String) -> (r: Option<String>)
    ensures
        maybe_text(r) == unless_empty(name@),
{
    if name.as_str().unicode_len() == 0 {
        None
    } else {
        Some(name)
    }
}

/// What the server said about one player.
#[derive(Debug, Clone, PartialEq, Eq)]
pub struct PlayerName {
    pub guid: u64,
    /// `None` when the server does not know the guid, which is an answer.
    pub name: Option<String>,
    /// Empty for a player on this realm.
    pub realm: String,
    pub race: u8,
    pub gender: u8,
    pub class: u8,
}

/// A [`PlayerName`] as a mathematical value.
pub struct PlayerNameView {
    pub guid: u64,
    pub name: Option<Seq<char>>,
    pub realm: Seq<char>,
    pub race: u8,
    pub gender: u8,
    pub class: u8,
}

impl View for PlayerName {
    type V = PlayerNameView;

    open spec fn view(&self) -> PlayerNameView {
        PlayerNameView {
            guid: self.guid,
            name: maybe_text(self.name),
            realm: self.realm@,
            race: self.race,
            gender: self.gender,
            class: self.class,
        }
    }
}

/// The answer for a guid that the server does not know.
pub open spec fn unknown_player(guid: u64) -> PlayerNameView {
    PlayerNameView { guid, name: None, realm: seq![], race: 0, gender: 0, class: 0 }
}

/// What [`parse_name_query_response`] makes of a body.
///
/// A flag other than zero behind the guid ends the answer there. A flag other
/// than zero at the end announces the declined forms of the name.
pub open spec fn name_query_response(body: Seq<u8>) -> Result<PlayerNameView, Error> {
    let (guid, flag) = read_guid(Cursor::over(body, "SMSG_NAME_QUERY_RESPONSE"));
    let name = flag.take(1);
    if name.failed is None && flag.byte() != 0 {
        name.finish().outcome(unknown_player(guid))
    } else {
        let realm = name.cstring();
        let race = realm.cstring();
        let gender = race.take(1);
        let class = gender.take(1);
        let declined = class.take(1);
        let end = if declined.byte() != 0 {
            declined.take(1).cstrings(DECLINED_NAMES as nat)
        } else {
            declined.take(1)
        };
        end.finish().outcome(
            PlayerNameView {
                guid,
                name: Some(name.text()),
                realm: realm.text(),
                race: race.byte(),
                gender: gender.byte(),
                class: class.byte(),
            },
        )
    }
}

/// Parses `SMSG_NAME_QUERY_RESPONSE`.
pub fn parse_name_query_response(body: &[u8]) -> (r: Result<PlayerName, Error>)
    ensures
        agrees(r, name_query_response(body@)),
{
    broadcast use {lemma_read_guid_sticky, lemma_cstrings_sticky};

    let mut r = Reader::new(body, "SMSG_NAME_QUERY_RESPONSE");
    let guid: u64 = read_packed_guid(&mut r)?;
    if r.u8()? != 0 {
        r.finish()?;
        return Ok(
            PlayerName { guid, name: None, realm: String::new(), race: 0, gender: 0, class: 0 },
        );
    }
    let name = r.cstring()?;
    let realm = r.cstring()?;
    let race: u8 = r.u8()?;
    let gender: u8 = r.u8()?;
    let class: u8 = r.u8()?;
    if r.u8()? != 0 {
        r.skip_strings(DECLINED_NAMES)?;
    }
    r.finish()?;
    Ok(PlayerName { guid, name: Some(name), realm, race, gender, class })
}

/// One of an item's spell slots.
#[derive(Debug, Clone, Copy, PartialEq, Eq, Structural)]
pub struct ItemSpell {
    /// Zero for an empty slot, which most are.
    pub id: u32,
    /// What makes it fire.
    pub trigger: u32,
}

/// The trigger that a "use this" click acts on.
pub const ITEM_SPELLTRIGGER_ON_USE: u32 = 0;

/// Whether a click fires the slot's spell.
pub open spec fn usable(spell: ItemSpell) -> bool {
    spell.id != 0 && spell.trigger == ITEM_SPELLTRIGGER_ON_USE
}

/// What the server said about one item entry.
#[derive(Debug, Clone, PartialEq, Eq)]
pub struct ItemInfo {
    pub entry: u32,
    /// `None` when the server has no such entry.
    pub name: Option<String>,
    /// The flavour line, empty for most items.
    pub description: String,
    pub display_id: u32,
    /// 0 poor to 6 artifact.
    pub quality: u32,
    pub item_class: u32,
    pub sub_class: u32,
    pub inventory_type: u32,
    pub item_level: u32,
    pub required_level: u32,
    /// How many fit in one square. Negative means no limit.
    pub stackable: i32,
    /// Squares that the item provides if it is a bag.
    pub container_slots: u32,
    pub buy_price: i32,
    pub sell_price: u32,
    pub max_durability: u32,
    /// The spells that the item carries, in wire order.
    pub spells: Vec<ItemSpell>,
}

/// An [`ItemInfo`] as a mathematical value.
pub struct ItemInfoView {
    pub entry: u32,
    pub name: Option<Seq<char>>,
    pub description: Seq<char>,
    pub display_id: u32,
    pub quality: u32,
    pub item_class: u32,
    pub sub_class: u32,
    pub inventory_type: u32,
    pub item_level: u32,
    pub required_level: u32,
    pub stackable: i32,
    pub container_slots: u32,
    pub buy_price: i32,
    pub sell_price: u32,
    pub max_durability: u32,
    pub spells: Seq<ItemSpell>,
}

impl View for ItemInfo {
    type V = ItemInfoView;

    open spec fn view(&self) -> ItemInfoView {
        ItemInfoView {
            entry: self.entry,
            name: maybe_text(self.name),
            description: self.description@,
            display_id: self.display_id,
            quality: self.quality,
            item_class: self.item_class,
            sub_class: self.sub_class,
            inventory_type: self.inventory_type,
            item_level: self.item_level,
            required_level: self.required_level,
            stackable: self.stackable,
            container_slots: self.container_slots,
            buy_price: self.buy_price,
            sell_price: self.sell_price,
            max_durability: self.max_durability,
            spells: self.spells@,
        }
    }
}

impl ItemInfo {
    /// The spell that a click on this item casts, if any: that of the first
    /// slot that a click fires.
    pub fn use_spell(&self) -> (r: Option<u32>)
        ensures
            match r {
                Some(id) => exists|i: int|
                    {
                        &&& 0 <= i < self@.spells.len()
                        &&& usable(#[trigger] self@.spells[i])
                        &&& self@.spells[i].id == id
                        &&& forall|j: int| 0 <= j < i ==> !usable(#[trigger] self@.spells[j])
                    },
                None => forall|i: int|
                    0 <= i < self@.spells.len() ==> !usable(#[trigger] self@.spells[i]),
            },
    {
        for i in 0..self.spells.len()
            invariant
                forall|j: int| 0 <= j < i ==> !usable(#[trigger] self@.spells[j]),
        {
            let spell = self.spells[i];
            if spell.id != 0 && spell.trigger == ITEM_SPELLTRIGGER_ON_USE {
                assert(usable(self@.spells[i as int]));
                return Some(spell.id);
            }
        }
        None
    }
}

/// The answer for an entry that the server does not have.
pub open spec fn unknown_item(entry: u32) -> ItemInfoView {
    ItemInfoView {
        entry,
        name: None,
        description: seq![],
        display_id: 0,
        quality: 0,
        item_class: 0,
        sub_class: 0,
        inventory_type: 0,
        item_level: 0,
        required_level: 0,
        stackable: 0,
        container_slots: 0,
        buy_price: 0,
        sell_price: 0,
        max_durability: 0,
        spells: seq![],
    }
}

/// The spell slots that start at a cursor.
pub open spec fn spell_slots(c: Cursor) -> Seq<ItemSpell> {
    Seq::new(
        ITEM_SPELLS as nat,
        |i: int|
            ItemSpell {
                id: c.nth(ITEM_SPELL_FIELDS * i),
                trigger: c.nth(ITEM_SPELL_FIELDS * i + 1),
            },
    )
}

/// What [`parse_item_query_response`] makes of a body.
///
/// The top bit of the entry says that there is no such item and that nothing
/// follows. Otherwise the stat block, two words per stat, is the one part
/// whose size varies.
pub open spec fn item_query_response(body: Seq<u8>) -> Result<ItemInfoView, Error> {
    let start = Cursor::over(body, "SMSG_ITEM_QUERY_SINGLE_RESPONSE");
    let kind = start.take(4);
    if kind.failed is None && start.word() >= NOT_FOUND {
        kind.finish().outcome(unknown_item((start.word() - NOT_FOUND) as u32))
    } else {
        let name = kind.words(3);
        // Display id to container slots.
        let traits = name.cstrings(4);
        let stats = traits.words(21);
        // Scaling, two damages, armor, six resistances, delay, ammo, range.
        let figures = stats.take(4).words(2 * stats.word());
        let slots = figures.words(18);
        // The slots, and then how the item binds.
        let description = slots.words(ITEM_SPELLS * ITEM_SPELL_FIELDS + 1);
        // Page text to holiday.
        let tail = description.cstring();
        tail.words(29).finish().outcome(
            ItemInfoView {
                entry: start.word(),
                name: unless_empty(name.text()),
                description: description.text(),
                display_id: traits.nth(0),
                quality: traits.nth(1),
                item_class: kind.nth(0),
                sub_class: kind.nth(1),
                inventory_type: traits.nth(6),
                item_level: traits.nth(9),
                required_level: traits.nth(10),
                stackable: signed(traits.nth(19)),
                container_slots: traits.nth(20),
                buy_price: signed(traits.nth(4)),
                sell_price: traits.nth(5),
                max_durability: tail.nth(11),
                spells: spell_slots(slots),
            },
        )
    }
}

fn read_slots(r: &mut Reader<'_>) -> (res: Result<Vec<ItemSpell>, Error>)
    ensures
        ran(res, final(r)@, old(r)@.words(ITEM_SPELLS * ITEM_SPELL_FIELDS)),
        res matches Ok(v) ==> v@ == spell_slots(old(r)@),
{
    let w = r.words::<30>()?;
    let mut slots: Vec<ItemSpell> = Vec::new();
    for i in 0..ITEM_SPELLS
        invariant
            slots@.len() == i,
            forall|k: int| 0 <= k < 30 ==> #[trigger] w@[k] == old(r)@.nth(k),
            forall|k: int| 0 <= k < i ==> #[trigger] slots@[k] == spell_slots(old(r)@)[k],
    {
        slots.push(
            ItemSpell { id: w[ITEM_SPELL_FIELDS * i], trigger: w[ITEM_SPELL_FIELDS * i + 1] },
        );
    }
    assert(slots@ =~= spell_slots(old(r)@));
    Ok(slots)
}

fn skip_stats(r: &mut Reader<'_>, count: u32) -> (res: Result<(), Error>)
    ensures
        ran(res, final(r)@, old(r)@.words(2 * count)),
{
    r.skip_words(count as usize)?;
    r.skip_words(count as usize)
}

/// Parses `SMSG_ITEM_QUERY_SINGLE_RESPONSE`.
pub fn parse_item_query_response(body: &[u8]) -> (r: Result<ItemInfo, Error>)
    ensures
        agrees(r, item_query_response(body@)),
{
    broadcast use lemma_cstrings_sticky;

    let mut r = Reader::new(body, "SMSG_ITEM_QUERY_SINGLE_RESPONSE");
    let entry: u32 = r.u32()?;
    if entry >= NOT_FOUND {
        r.finish()?;
        return Ok(
            ItemInfo {
                entry: entry - NOT_FOUND,
                name: None,
                description: String::new(),
                display_id: 0,
                quality: 0,
                item_class: 0,
                sub_class: 0,
                inventory_type: 0,
                item_level: 0,
                required_level: 0,
                stackable: 0,
                container_slots: 0,
                buy_price: 0,
                sell_price: 0,
                max_durability: 0,
                spells: Vec::new(),
            },
        );
    }
    let kind = r.words::<3>()?;
    let ghost names = r@;
    assert(names.cstrings(4) == names.cstring().cstrings(3));
    let name = r.cstring()?;
    r.skip_strings(3)?;
    let traits = r.words::<21>()?;
    let stats_count: u32 = r.u32()?;
    skip_stats(&mut r, stats_count)?;
    r.skip_words(18)?;
    let spells = read_slots(&mut r)?;
    let _bonding: u32 = r.u32()?;
    let description = r.cstring()?;
    let tail = r.words::<29>()?;
    r.finish()?;
    Ok(
        ItemInfo {
            entry,
            name: drop_empty(name),
            description,
            display_id: traits[0],
            quality: traits[1],
            item_class: kind[0],
            sub_class: kind[1],
            inventory_type: traits[6],
            item_level: traits[9],
            required_level: traits[10],
            stackable: to_signed(traits[19]),
            container_slots: traits[20],
            buy_price: to_signed(traits[4]),
            sell_price: traits[5],
            max_durability: tail[11],
            spells,
        },
    )
}

/// What the server said about one creature entry.
#[derive(Debug, Clone, PartialEq, Eq)]
pub struct CreatureInfo {
    pub entry: u32,
    /// `None` when the server has no such entry.
    pub name: Option<String>,
    /// The line under a name, such as `Gryphon Master`, where there is one.
    pub sub_name: String,
    pub type_flags: u32,
    pub creature_type: u32,
    pub family: u32,
    pub rank: u32,
}

/// A [`CreatureInfo`] as a mathematical value.
pub struct CreatureInfoView {
    pub entry: u32,
    pub name: Option<Seq<char>>,
    pub sub_name: Seq<char>,
    pub type_flags: u32,
    pub creature_type: u32,
    pub family: u32,
    pub rank: u32,
}

impl View for CreatureInfo {
    type V = CreatureInfoView;

    open spec fn view(&self) -> CreatureInfoView {
        CreatureInfoView {
            entry: self.entry,
            name: maybe_text(self.name),
            sub_name: self.sub_name@,
            type_flags: self.type_flags,
            creature_type: self.creature_type,
            family: self.family,
            rank: self.rank,
        }
    }
}

/// The answer for an entry that the server does not have.
pub open spec fn unknown_creature(entry: u32) -> CreatureInfoView {
    CreatureInfoView {
        entry,
        name: None,
        sub_name: seq![],
        type_flags: 0,
        creature_type: 0,
        family: 0,
        rank: 0,
    }
}

/// What [`parse_creature_query_response`] makes of a body.
///
/// The top bit of the entry says that there is no such creature and that
/// nothing follows.
pub open spec fn creature_query_response(body: Seq<u8>) -> Result<CreatureInfoView, Error> {
    let start = Cursor::over(body, "SMSG_CREATURE_QUERY_RESPONSE");
    let name = start.take(4);
    if name.failed is None && start.word() >= NOT_FOUND {
        name.finish().outcome(unknown_creature((start.word() - NOT_FOUND) as u32))
    } else {
        let sub_name = name.cstrings(4);
        // The line under the name, and the cursor's icon.
        let traits = sub_name.cstrings(2);
        // Type flags to modifiers, the leader flag, quest items and movement.
        let end = traits.words(12).take(1).words(7);
        end.finish().outcome(
            CreatureInfoView {
                entry: start.word(),
                name: unless_empty(name.text()),
                sub_name: sub_name.text(),
                type_flags: traits.nth(0),
                creature_type: traits.nth(1),
                family: traits.nth(2),
                rank: traits.nth(3),
            },
        )
    }
}

/// Parses `SMSG_CREATURE_QUERY_RESPONSE`.
pub fn parse_creature_query_response(body: &[u8]) -> (r: Result<CreatureInfo, Error>)
    ensures
        agrees(r, creature_query_response(body@)),
{
    broadcast use lemma_cstrings_sticky;

    let mut r = Reader::new(body, "SMSG_CREATURE_QUERY_RESPONSE");
    let entry: u32 = r.u32()?;
    if entry >= NOT_FOUND {
        r.finish()?;
        return Ok(
            CreatureInfo {
                entry: entry - NOT_FOUND,
                name: None,
                sub_name: String::new(),
                type_flags: 0,
                creature_type: 0,
                family: 0,
                rank: 0,
            },
        );
    }
    let ghost names = r@;
    assert(names.cstrings(4) == names.cstring().cstrings(3));
    let name = r.cstring()?;
    r.skip_strings(3)?;
    let ghost lines = r@;
    assert(lines.cstrings(2) == lines.cstring().cstrings(1));
    let sub_name = r.cstring()?;
    r.skip_strings(1)?;
    let traits = r.words::<12>()?;
    let _racial_leader: u8 = r.u8()?;
    r.skip_words(7)?;
    r.finish()?;
    Ok(
        CreatureInfo {
            entry,
            name: drop_empty(name),
            sub_name,
            type_flags: traits[0],
            creature_type: traits[1],
            family: traits[2],
            rank: traits[3],
        },
    )
}

} // verus!
