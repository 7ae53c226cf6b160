//! What the server answers about names and items reads back as written.
use crate::cursor::Cursor;
use crate::protocol::Error;
use crate::query::{
    creature_query_response, item_query_response, maybe_text, name_query_response, spell_slots,
    unless_empty, CreatureInfo, CreatureInfoView, ItemInfo, ItemInfoView, ItemSpell, PlayerName,
    PlayerNameView,
};
use crate::text::lossy_utf8;
use crate::update::read_guid;
use crate::wire::{group_word_lengths, signed};
use crate::written::{lemma_last, lemma_next, lemma_whole, stands, written, zero_free, Piece};
use vstd::prelude::*;

verus! {

broadcast use group_word_lengths;

/// A signed number as the word that stands for it.
pub open spec fn word_of(x: i32) -> u32 {
    if x < 0 {
        (x + 0x1_0000_0000) as u32
    } else {
        x as u32
    }
}

/// A word is read as the signed number that it was written for.
pub proof fn lemma_signs_survive(x: i32)
    ensures
        signed(word_of(x)) == x,
{
}

/// Whether a name was written as these bytes. A name that reads as empty is no
/// name.
pub open spec fn named(name: Option<String>, bytes: Seq<u8>) -> bool {
    match name {
        Some(text) => text@ == lossy_utf8(bytes) && text@.len() > 0,
        None => lossy_utf8(bytes).len() == 0,
    }
}

/// The answer about a player that the server knows, without declined names.
pub open spec fn player_pieces(who: PlayerName, name: Seq<u8>, realm: Seq<u8>) -> Seq<Piece> {
    seq![
        Piece::Guid(who.guid),
        Piece::Byte(0),
        Piece::Text(name),
        Piece::Text(realm),
        Piece::Byte(who.race),
        Piece::Byte(who.gender),
        Piece::Byte(who.class),
        Piece::Byte(0),
    ]
}

/// A player's answer reads back: name, realm, race, gender and class.
pub proof fn lemma_player_name_reads_back(who: PlayerName, name: Seq<u8>, realm: Seq<u8>)
    requires
        zero_free(name),
        zero_free(realm),
        maybe_text(who.name) == Some(lossy_utf8(name)),
        who.realm@ == lossy_utf8(realm),
    ensures
        name_query_response(written(player_pieces(who, name, realm))) == Ok::<
            PlayerNameView,
            Error,
        >(who@),
{
    let pieces = player_pieces(who, name, realm);
    let body = written(pieces);
    let c = Cursor::over(body, "SMSG_NAME_QUERY_RESPONSE");
    let end = body.len() as int;
    lemma_whole(pieces, "SMSG_NAME_QUERY_RESPONSE");
    lemma_next(c, pieces, 0, end);
    let c1 = read_guid(c).1;
    lemma_next(c1, pieces, 1, end);
    let c2 = c1.take(1);
    lemma_next(c2, pieces, 2, end);
    let c3 = c2.cstring();
    lemma_next(c3, pieces, 3, end);
    let c4 = c3.cstring();
    lemma_next(c4, pieces, 4, end);
    let c5 = c4.take(1);
    lemma_next(c5, pieces, 5, end);
    let c6 = c5.take(1);
    lemma_next(c6, pieces, 6, end);
    let c7 = c6.take(1);
    lemma_next(c7, pieces, 7, end);
    let c8 = c7.take(1);
    lemma_last(c8, pieces, end);
}

/// The same with the five declined forms of the name behind it.
pub open spec fn declined_pieces(
    who: PlayerName,
    name: Seq<u8>,
    realm: Seq<u8>,
    flag: u8,
    forms: Seq<Seq<u8>>,
) -> Seq<Piece> {
    seq![
        Piece::Guid(who.guid),
        Piece::Byte(0),
        Piece::Text(name),
        Piece::Text(realm),
        Piece::Byte(who.race),
        Piece::Byte(who.gender),
        Piece::Byte(who.class),
        Piece::Byte(flag),
        Piece::Text(forms[0]),
        Piece::Text(forms[1]),
        Piece::Text(forms[2]),
        Piece::Text(forms[3]),
        Piece::Text(forms[4]),
    ]
}

/// Declined names are read over, and change nothing in the answer.
pub proof fn lemma_declined_names_change_nothing(
    who: PlayerName,
    name: Seq<u8>,
    realm: Seq<u8>,
    flag: u8,
    forms: Seq<Seq<u8>>,
)
    requires
        zero_free(name),
        zero_free(realm),
        flag != 0,
        forms.len() == 5,
        forall|i: int| 0 <= i < 5 ==> zero_free(#[trigger] forms[i]),
        maybe_text(who.name) == Some(lossy_utf8(name)),
        who.realm@ == lossy_utf8(realm),
    ensures
        name_query_response(written(declined_pieces(who, name, realm, flag, forms))) == Ok::<
            PlayerNameView,
            Error,
        >(who@),
{
    let pieces = declined_pieces(who, name, realm, flag, forms);
    let body = written(pieces);
    let c = Cursor::over(body, "SMSG_NAME_QUERY_RESPONSE");
    let end = body.len() as int;
    lemma_whole(pieces, "SMSG_NAME_QUERY_RESPONSE");
    lemma_next(c, pieces, 0, end);
    let c1 = read_guid(c).1;
    lemma_next(c1, pieces, 1, end);
    let c2 = c1.take(1);
    lemma_next(c2, pieces, 2, end);
    let c3 = c2.cstring();
    lemma_next(c3, pieces, 3, end);
    let c4 = c3.cstring();
    lemma_next(c4, pieces, 4, end);
    let c5 = c4.take(1);
    lemma_next(c5, pieces, 5, end);
    let c6 = c5.take(1);
    lemma_next(c6, pieces, 6, end);
    let c7 = c6.take(1);
    lemma_next(c7, pieces, 7, end);
    let c8 = c7.take(1);
    lemma_next(c8, pieces, 8, end);
    let c9 = c8.cstring();
    lemma_next(c9, pieces, 9, end);
    let c10 = c9.cstring();
    lemma_next(c10, pieces, 10, end);
    let c11 = c10.cstring();
    lemma_next(c11, pieces, 11, end);
    let c12 = c11.cstring();
    lemma_next(c12, pieces, 12, end);
    let c13 = c12.cstring();
    lemma_last(c13, pieces, end);
    reveal_with_fuel(Cursor::cstrings, 6);
    assert(c8.cstrings(5) == c13);
}

/// A player that the server does not know has no name, and the answer ends
/// behind the flag that says so.
pub proof fn lemma_unknown_player_reads_back(guid: u64, flag: u8)
    requires
        flag != 0,
    ensures
        ({
            let answer = name_query_response(written(seq![Piece::Guid(guid), Piece::Byte(flag)]));
            answer == Ok::<PlayerNameView, Error>(
                PlayerNameView { guid, name: None, realm: seq![], race: 0, gender: 0, class: 0 },
            )
        }),
{
    let pieces = seq![
        Piece::Guid(guid),
        Piece::Byte(flag),
    ];
    let body = written(pieces);
    let c = Cursor::over(body, "SMSG_NAME_QUERY_RESPONSE");
    let end = body.len() as int;
    lemma_whole(pieces, "SMSG_NAME_QUERY_RESPONSE");
    lemma_next(c, pieces, 0, end);
    let c1 = read_guid(c).1;
    lemma_next(c1, pieces, 1, end);
    let c2 = c1.take(1);
    lemma_last(c2, pieces, end);
}

/// The answer about a creature that the server knows: four names, the line
/// under them, an icon, then its kind and what is not kept.
pub open spec fn creature_pieces(
    what: CreatureInfo,
    names: Seq<Seq<u8>>,
    line: Seq<u8>,
    icon: Seq<u8>,
    others: Seq<u32>,
    leader: u8,
    tail: Seq<u32>,
) -> Seq<Piece> {
    seq![
        Piece::Word(what.entry),
        Piece::Text(names[0]),
        Piece::Text(names[1]),
        Piece::Text(names[2]),
        Piece::Text(names[3]),
        Piece::Text(line),
        Piece::Text(icon),
        Piece::Words(seq![what.type_flags, what.creature_type, what.family, what.rank] + others),
        Piece::Byte(leader),
        Piece::Words(tail),
    ]
}

/// A creature's answer reads back: its first name, the line under it, its
/// flags, type, family and rank.
pub proof fn lemma_creature_reads_back(
    what: CreatureInfo,
    names: Seq<Seq<u8>>,
    line: Seq<u8>,
    icon: Seq<u8>,
    others: Seq<u32>,
    leader: u8,
    tail: Seq<u32>,
)
    requires
        what.entry < 0x8000_0000,
        names.len() == 4,
        forall|i: int| 0 <= i < 4 ==> zero_free(#[trigger] names[i]),
        zero_free(line),
        zero_free(icon),
        others.len() == 8,
        tail.len() == 7,
        named(what.name, names[0]),
        what.sub_name@ == lossy_utf8(line),
    ensures
        creature_query_response(
            written(creature_pieces(what, names, line, icon, others, leader, tail)),
        ) == Ok::<CreatureInfoView, Error>(what@),
{
    let pieces = creature_pieces(what, names, line, icon, others, leader, tail);
    let body = written(pieces);
    let c = Cursor::over(body, "SMSG_CREATURE_QUERY_RESPONSE");
    let end = body.len() as int;
    lemma_whole(pieces, "SMSG_CREATURE_QUERY_RESPONSE");
    lemma_next(c, pieces, 0, end);
    let c1 = c.take(4);
    lemma_next(c1, pieces, 1, end);
    let c2 = c1.cstring();
    lemma_next(c2, pieces, 2, end);
    let c3 = c2.cstring();
    lemma_next(c3, pieces, 3, end);
    let c4 = c3.cstring();
    lemma_next(c4, pieces, 4, end);
    let c5 = c4.cstring();
    lemma_next(c5, pieces, 5, end);
    let c6 = c5.cstring();
    lemma_next(c6, pieces, 6, end);
    let c7 = c6.cstring();
    lemma_next(c7, pieces, 7, end);
    let c8 = c7.words(12);
    assert(c7.nth(0) == what.type_flags);
    assert(c7.nth(1) == what.creature_type);
    assert(c7.nth(2) == what.family);
    assert(c7.nth(3) == what.rank);
    lemma_next(c8, pieces, 8, end);
    let c9 = c8.take(1);
    lemma_next(c9, pieces, 9, end);
    let c10 = c9.words(7);
    lemma_last(c10, pieces, end);
    reveal_with_fuel(Cursor::cstrings, 5);
    assert(c1.cstrings(4) == c5);
    assert(c5.cstrings(2) == c7);
    assert(unless_empty(lossy_utf8(names[0])) == maybe_text(what.name));
}

/// The top bit of an entry says that there is no such creature: the answer is the
/// entry without it, and no name.
pub proof fn lemma_unknown_creature_reads_back(entry: u32)
    requires
        entry < 0x8000_0000,
    ensures
        ({
            let answer = creature_query_response(
                written(seq![Piece::Word((entry + 0x8000_0000) as u32)]),
            );
            answer == Ok::<CreatureInfoView, Error>(
                CreatureInfoView {
                    entry,
                    name: None,
                    sub_name: seq![],
                    type_flags: 0,
                    creature_type: 0,
                    family: 0,
                    rank: 0,
                },
            )
        }),
{
    let word = (entry + 0x8000_0000) as u32;
    let pieces = seq![Piece::Word(word)];
    let body = written(pieces);
    let c = Cursor::over(body, "SMSG_CREATURE_QUERY_RESPONSE");
    let end = body.len() as int;
    lemma_whole(pieces, "SMSG_CREATURE_QUERY_RESPONSE");
    lemma_next(c, pieces, 0, end);
    let c1 = c.take(4);
    lemma_last(c1, pieces, end);
}

/// The top bit of an entry says that there is no such item: the answer is the
/// entry without it, and no name.
pub proof fn lemma_unknown_item_reads_back(entry: u32)
    requires
        entry < 0x8000_0000,
    ensures
        ({
            let answer = item_query_response(
                written(seq![Piece::Word((entry + 0x8000_0000) as u32)]),
            );
            answer == Ok::<ItemInfoView, Error>(
                ItemInfoView {
                    entry,
                    name: None,
                    description: seq![],
                    display_id: 0,
                    quality: 0,
                    item_class: 0,
                    sub_class: 0,
                    inventory_type: 0,
                    item_level: 0,
                    required_level: 0,
                    stackable: 0,
                    container_slots: 0,
                    buy_price: 0,
                    sell_price: 0,
                    max_durability: 0,
                    spells: seq![],
                },
            )
        }),
{
    let word = (entry + 0x8000_0000) as u32;
    let pieces = seq![Piece::Word(word)];
    let body = written(pieces);
    let c = Cursor::over(body, "SMSG_ITEM_QUERY_SINGLE_RESPONSE");
    let end = body.len() as int;
    lemma_whole(pieces, "SMSG_ITEM_QUERY_SINGLE_RESPONSE");
    lemma_next(c, pieces, 0, end);
    let c1 = c.take(4);
    lemma_last(c1, pieces, end);
}

/// What an answer about an item holds beside what is kept of it.
pub struct ItemRest {
    pub sound_class: u32,
    /// Four names, of which the first is the item's.
    pub names: Seq<Seq<u8>>,
    pub flags: u32,
    pub flags2: u32,
    pub allowable_class: u32,
    pub allowable_race: u32,
    pub required_skill: u32,
    pub required_skill_rank: u32,
    pub required_spell: u32,
    pub required_honor_rank: u32,
    pub required_city_rank: u32,
    pub reputation_faction: u32,
    pub reputation_rank: u32,
    pub max_count: u32,
    /// A kind and an amount for each stat.
    pub stats: Seq<u32>,
    /// Scaling, damages, armor, resistances, delay, ammunition and range.
    pub figures: Seq<u32>,
    /// Charges, cooldown, category and category cooldown of each spell slot.
    pub charges: Seq<u32>,
    pub bonding: u32,
    pub description: Seq<u8>,
    pub page_text: u32,
    pub language: u32,
    pub page_material: u32,
    pub start_quest: u32,
    pub lock_id: u32,
    pub material: u32,
    pub sheath: u32,
    pub random_property: u32,
    pub random_suffix: u32,
    pub block: u32,
    pub item_set: u32,
    /// Area to holiday.
    pub behind: Seq<u32>,
}

impl ItemRest {
    /// Whether everything has the size that the answer has room for.
    pub open spec fn fits(self) -> bool {
        &&& self.names.len() == 4
        &&& forall|i: int| 0 <= i < 4 ==> zero_free(#[trigger] self.names[i])
        &&& zero_free(self.description)
        &&& self.stats.len() % 2 == 0
        &&& self.stats.len() / 2 <= u32::MAX
        &&& self.figures.len() == 18
        &&& self.charges.len() == 20
        &&& self.behind.len() == 17
    }
}

/// Five spell slots of six words each, an id and a trigger first, and then how
/// the item binds.
pub open spec fn slot_words(spells: Seq<ItemSpell>, charges: Seq<u32>, bonding: u32) -> Seq<u32> {
    Seq::new(
        31,
        |k: int|
            if k == 30 {
                bonding
            } else if k % 6 == 0 {
                spells[k / 6].id
            } else if k % 6 == 1 {
                spells[k / 6].trigger
            } else {
                charges[4 * (k / 6) + k % 6 - 2]
            },
    )
}

/// The answer about an item that the server knows, in the server's order.
pub open spec fn item_pieces(what: ItemInfo, rest: ItemRest) -> Seq<Piece> {
    seq![
        Piece::Word(what.entry),
        Piece::Words(seq![what.item_class, what.sub_class, rest.sound_class]),
        Piece::Text(rest.names[0]),
        Piece::Text(rest.names[1]),
        Piece::Text(rest.names[2]),
        Piece::Text(rest.names[3]),
        Piece::Words(seq![
                what.display_id,
                what.quality,
                rest.flags,
                rest.flags2,
                word_of(what.buy_price),
                what.sell_price,
                what.inventory_type,
                rest.allowable_class,
                rest.allowable_race,
                what.item_level,
                what.required_level,
                rest.required_skill,
                rest.required_skill_rank,
                rest.required_spell,
                rest.required_honor_rank,
                rest.required_city_rank,
                rest.reputation_faction,
                rest.reputation_rank,
                rest.max_count,
                word_of(what.stackable),
                what.container_slots,
            ]),
        Piece::Word((rest.stats.len() / 2) as u32),
        Piece::Words(rest.stats),
        Piece::Words(rest.figures),
        Piece::Words(slot_words(what.spells@, rest.charges, rest.bonding)),
        Piece::Text(rest.description),
        Piece::Words(seq![
                rest.page_text,
                rest.language,
                rest.page_material,
                rest.start_quest,
                rest.lock_id,
                rest.material,
                rest.sheath,
                rest.random_property,
                rest.random_suffix,
                rest.block,
                rest.item_set,
                what.max_durability,
            ] + rest.behind),
    ]
}

/// What stands before the stats reads back.
proof fn lemma_item_front(what: ItemInfo, rest: ItemRest)
    requires
        rest.fits(),
    ensures
        ({
            let pieces = item_pieces(what, rest);
            let c = Cursor::over(written(pieces), "SMSG_ITEM_QUERY_SINGLE_RESPONSE");
            let kind = c.take(4);
            let name = kind.words(3);
            let traits = name.cstrings(4);
            &&& c.word() == what.entry
            &&& kind.failed is None
            &&& kind.nth(0) == what.item_class
            &&& kind.nth(1) == what.sub_class
            &&& name.text() == lossy_utf8(rest.names[0])
            &&& traits.nth(0) == what.display_id
            &&& traits.nth(1) == what.quality
            &&& traits.nth(4) == word_of(what.buy_price)
            &&& traits.nth(5) == what.sell_price
            &&& traits.nth(6) == what.inventory_type
            &&& traits.nth(9) == what.item_level
            &&& traits.nth(10) == what.required_level
            &&& traits.nth(19) == word_of(what.stackable)
            &&& traits.nth(20) == what.container_slots
            &&& traits.words(21).data == c.data
            &&& stands(traits.words(21), pieces, 7, written(pieces).len() as int)
        }),
{
    let pieces = item_pieces(what, rest);
    let body = written(pieces);
    let c = Cursor::over(body, "SMSG_ITEM_QUERY_SINGLE_RESPONSE");
    let end = body.len() as int;
    lemma_whole(pieces, "SMSG_ITEM_QUERY_SINGLE_RESPONSE");
    lemma_next(c, pieces, 0, end);
    let c1 = c.take(4);
    lemma_next(c1, pieces, 1, end);
    let c2 = c1.words(3);
    assert(c1.nth(0) == what.item_class);
    assert(c1.nth(1) == what.sub_class);
    lemma_next(c2, pieces, 2, end);
    let c3 = c2.cstring();
    lemma_next(c3, pieces, 3, end);
    let c4 = c3.cstring();
    lemma_next(c4, pieces, 4, end);
    let c5 = c4.cstring();
    lemma_next(c5, pieces, 5, end);
    let c6 = c5.cstring();
    lemma_next(c6, pieces, 6, end);
    let c7 = c6.words(21);
    assert(c6.nth(0) == what.display_id);
    assert(c6.nth(1) == what.quality);
    assert(c6.nth(4) == word_of(what.buy_price));
    assert(c6.nth(5) == what.sell_price);
    assert(c6.nth(6) == what.inventory_type);
    assert(c6.nth(9) == what.item_level);
    assert(c6.nth(10) == what.required_level);
    assert(c6.nth(19) == word_of(what.stackable));
    assert(c6.nth(20) == what.container_slots);
    reveal_with_fuel(Cursor::cstrings, 5);
    assert(c2.cstrings(4) == c6);
}

/// What stands from the stats on reads back, and ends where the body does.
proof fn lemma_item_back(c7: Cursor, what: ItemInfo, rest: ItemRest, end: int)
    requires
        rest.fits(),
        what.spells@.len() == 5,
        stands(c7, item_pieces(what, rest), 7, end),
        end == c7.data.len(),
    ensures
        ({
            let slots = c7.take(4).words(2 * c7.word()).words(18);
            let description = slots.words(31);
            let tail = description.cstring();
            &&& spell_slots(slots) == what.spells@
            &&& description.text() == lossy_utf8(rest.description)
            &&& tail.nth(11) == what.max_durability
            &&& tail.words(29).finish().failed is None
        }),
{
    let pieces = item_pieces(what, rest);
    lemma_next(c7, pieces, 7, end);
    let c8 = c7.take(4);
    lemma_next(c8, pieces, 8, end);
    let c9 = c8.words(2 * c7.word());
    lemma_next(c9, pieces, 9, end);
    let c10 = c9.words(18);
    lemma_next(c10, pieces, 10, end);
    let c11 = c10.words(31);
    lemma_next(c11, pieces, 11, end);
    let c12 = c11.cstring();
    lemma_next(c12, pieces, 12, end);
    let c13 = c12.words(29);
    assert(c12.nth(11) == what.max_durability);
    lemma_last(c13, pieces, end);
    let words = slot_words(what.spells@, rest.charges, rest.bonding);
    assert(spell_slots(c10) =~= what.spells@) by {
        assert forall|i: int| 0 <= i < 5 implies spell_slots(c10)[i] == what.spells@[i] by {
            assert(c10.nth(6 * i) == words[6 * i]);
            assert(c10.nth(6 * i + 1) == words[6 * i + 1]);
        }
    }
}

/// An item's answer reads back: every field that is kept holds the word that
/// was written under its name, whatever the others hold.
pub proof fn lemma_item_reads_back(what: ItemInfo, rest: ItemRest)
    requires
        what.entry < 0x8000_0000,
        rest.fits(),
        what.spells@.len() == 5,
        named(what.name, rest.names[0]),
        what.description@ == lossy_utf8(rest.description),
    ensures
        item_query_response(written(item_pieces(what, rest))) == Ok::<ItemInfoView, Error>(what@),
{
    let body = written(item_pieces(what, rest));
    let c = Cursor::over(body, "SMSG_ITEM_QUERY_SINGLE_RESPONSE");
    lemma_item_front(what, rest);
    lemma_item_back(
        c.take(4).words(3).cstrings(4).words(21),
        what,
        rest,
        body.len() as int,
    );
    lemma_signs_survive(what.buy_price);
    lemma_signs_survive(what.stackable);
    assert(unless_empty(lossy_utf8(rest.names[0])) == maybe_text(what.name));
}

} // verus!
