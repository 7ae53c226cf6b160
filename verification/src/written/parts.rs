//! Smaller things, part by part: packed guids, packed fields, headings, what a
//! stride leaves over, and that a value's view holds what the value does.
use crate::client::{Packet, PacketView};
use crate::cursor::{string_end, Cursor};
use crate::movement::standing_still;
use crate::names::Names;
use crate::order::lemma_filter_members;
use crate::query::{usable, ItemSpell};
use crate::quest::{QuestInfo, QuestgiverMark};
use crate::spawns::{reloaded, RememberedView};
use crate::state::entity::{bumped, heading_for, Entity, EntityView, Heading};
use crate::state::replication::{payload_view, quiet, Replication};
use crate::state::{empty_world, Stats};
use crate::taxi::{no_distance, FlightView};
use crate::text::lossy_utf8;
use crate::trainer::{learnable_rows, stride_fit, StrideFit, TrainerSpellState, TrainerSpellView};
use crate::update::field_set::guid_field;
use crate::update::{pack, packed_guid, MoveFacing, Position};
use crate::wire::{bytes16, bytes32, bytes64, group_word_lengths, signed};
use crate::written::{
    behind, lemma_last, lemma_next, lemma_whole, written, zero_free, Piece,
};
use vstd::prelude::*;

verus! {

broadcast use group_word_lengths;

/// Words are written with their low byte first.
pub proof fn lemma_the_low_byte_comes_first(a: u8, b: u8, c: u8, d: u8)
    ensures
        bytes16((a + 0x100 * b) as u16) == seq![a, b],
        bytes32((a + 0x100 * b + 0x1_0000 * c + 0x100_0000 * d) as u32) == seq![a, b, c, d],
{
    reveal(bytes16);
    reveal(bytes32);
    let x = (a + 0x100 * b + 0x1_0000 * c + 0x100_0000 * d) as u32;
    assert(x / 0x100 == b + 0x100 * c + 0x1_0000 * d);
    assert(x / 0x1_0000 == c + 0x100 * d);
    assert(bytes16((a + 0x100 * b) as u16) =~= seq![a, b]);
    assert(bytes32(x) =~= seq![a, b, c, d]);
}

/// A long word is its low half before its high half.
pub proof fn lemma_the_low_half_comes_first(low: u32, high: u32)
    ensures
        bytes64((low + 0x1_0000_0000 * high) as u64) == bytes32(low) + bytes32(high),
{
    reveal(bytes64);
    let x = (low + 0x1_0000_0000 * high) as u64;
    assert(x % 0x1_0000_0000 == low && x / 0x1_0000_0000 == high);
}

/// A word that stands for a signed number stands for itself, or for itself
/// less what a word can count.
pub proof fn lemma_a_sign_takes_the_upper_half(word: u32)
    ensures
        word < 0x8000_0000 ==> signed(word) == word,
        word >= 0x8000_0000 ==> signed(word) == word - 0x1_0000_0000,
{
}

/// A byte, where it is not zero.
pub open spec fn unless_zero(byte: int) -> Seq<u8> {
    if byte == 0 {
        seq![]
    } else {
        seq![byte as u8]
    }
}

/// One, where a byte is not zero.
pub open spec fn mark_of(byte: int) -> int {
    if byte == 0 {
        0
    } else {
        1
    }
}

/// The number that eight bytes make, the first being the lowest.
pub open spec fn of_bytes(b: Seq<u8>) -> int
    decreases b.len(),
{
    if b.len() == 0 {
        0
    } else {
        b[0] + 0x100 * of_bytes(b.skip(1))
    }
}

/// The bytes that are not zero, in their order.
pub open spec fn kept(b: Seq<u8>) -> Seq<u8>
    decreases b.len(),
{
    if b.len() == 0 {
        seq![]
    } else {
        unless_zero(b[0] as int) + kept(b.skip(1))
    }
}

/// One bit for each byte, from the lowest, set where the byte is not zero.
pub open spec fn mask_of(b: Seq<u8>) -> int
    decreases b.len(),
{
    if b.len() == 0 {
        0
    } else {
        mark_of(b[0] as int) + 2 * mask_of(b.skip(1))
    }
}

proof fn lemma_pack(b: Seq<u8>)
    ensures
        pack(of_bytes(b), b.len()) == (mask_of(b), kept(b)),
    decreases b.len(),
{
    if b.len() > 0 {
        lemma_pack(b.skip(1));
        let n = of_bytes(b);
        assert(n % 0x100 == b[0] && n / 0x100 == of_bytes(b.skip(1)));
        if b[0] == 0 {
            assert(kept(b) =~= kept(b.skip(1)));
        }
    }
}

/// A guid is packed into a byte that says which of its eight bytes are not
/// zero, the lowest bit for the lowest byte, and then those bytes from the
/// lowest up.
pub proof fn lemma_a_guid_is_packed(guid: u64, b: Seq<u8>)
    requires
        b.len() == 8,
        guid == of_bytes(b),
    ensures
        packed_guid(guid) == seq![mask_of(b) as u8] + kept(b),
{
    lemma_pack(b);
}

/// A pair of fields is one long word, the low half first. A half that is
/// missing counts as zero where it is the high one, and takes the pair with it
/// where it is the low one.
pub proof fn lemma_a_pair_of_fields_is_one_number(
    fields: Map<u16, u32>,
    index: u16,
    low: u32,
    high: u32,
)
    requires
        index < u16::MAX,
    ensures
        fields.get(index) is None ==> guid_field(fields, index) is None,
        fields.get(index) == Some(low) && fields.get((index + 1) as u16) == Some(high)
            ==> guid_field(fields, index) == Some((low + 0x1_0000_0000 * high) as u64),
        fields.get(index) == Some(low) && fields.get((index + 1) as u16) is None ==> guid_field(
            fields,
            index,
        ) == Some(low as u64),
{
}

/// Race, class, gender and the kind of power share one field, from its lowest
/// byte up. The power of that kind is read that many fields behind the first,
/// of which there are seven, and so is its maximum.
pub proof fn lemma_four_traits_share_a_field(
    unit: EntityView,
    race: u8,
    class: u8,
    gender: u8,
    power: u8,
)
    requires
        unit.fields.get(0x17) == Some(
            (race + 0x100 * class + 0x1_0000 * gender + 0x100_0000 * power) as u32,
        ),
    ensures
        unit.packed_byte(0) == Some(race),
        unit.packed_byte(1) == Some(class),
        unit.packed_byte(2) == Some(gender),
        unit.packed_byte(3) == Some(power),
        power < 7 ==> unit.power_field(0x19) == unit.fields.get((0x19 + power) as u16),
        power < 7 ==> unit.power_field(0x21) == unit.fields.get((0x21 + power) as u16),
        power >= 7 ==> unit.power_field(0x19) is None && unit.power_field(0x21) is None,
{
    lemma_the_low_byte_comes_first(race, class, gender, power);
}

/// A unit looks the way that its move asks: in a direction, at a point, or at
/// another unit.
pub proof fn lemma_a_unit_looks_as_it_is_asked(bits: u32, x: u32, y: u32, z: u32, guid: u64)
    ensures
        heading_for(MoveFacing::Angle(bits)) == Heading::Angle(bits),
        heading_for(MoveFacing::Spot { x, y, z }) == (Heading::Spot { x, y, z }),
        heading_for(MoveFacing::Target(guid)) == Heading::Target(guid),
{
}

/// A counter counts one more, as far as it can.
pub proof fn lemma_counters_count(n: usize)
    ensures
        n < usize::MAX ==> bumped(n) == n + 1,
        n == usize::MAX ==> bumped(n) == n,
{
}

/// A distance, as the bits of a float, is none where it is zero of either sign
/// or negative. Where it is no number it is not none.
pub proof fn lemma_what_is_no_distance(bits: u32)
    ensures
        no_distance(0),
        0 < bits < 0x8000_0000 ==> !no_distance(bits),
        0x8000_0000 <= bits <= 0xFF80_0000 ==> no_distance(bits),
        bits > 0xFF80_0000 ==> !no_distance(bits),
{
}

/// A stride that is the size of the rows explains a trainer's list: it leaves
/// the greeting and nothing behind it.
pub proof fn lemma_the_right_stride_leaves_the_greeting(
    trainer: u64,
    kind: u32,
    count: u32,
    stride: usize,
    rows: Seq<u8>,
    greeting: Seq<u8>,
)
    requires
        rows.len() == count * stride,
        zero_free(greeting),
    ensures
        ({
            let fit = stride_fit(
                written(
                    seq![
                        Piece::Long(trainer),
                        Piece::Words(seq![kind, count]),
                        Piece::Bytes(rows),
                        Piece::Text(greeting),
                    ],
                ),
                stride,
            );
            &&& fit.stride == stride
            &&& fit.accounts_for_body
            &&& fit.greeting == Some(lossy_utf8(greeting))
            &&& fit.greeting_is_printable <==> greeting.len() > 0 && forall|i: int|
                0 <= i < greeting.len() ==> 0x20 <= #[trigger] greeting[i] <= 0x7E
        }),
{
    let pieces = seq![
        Piece::Long(trainer),
        Piece::Words(seq![kind, count]),
        Piece::Bytes(rows),
        Piece::Text(greeting),
    ];
    let body = written(pieces);
    let end = body.len() as int;
    let c = Cursor::over(body, "SMSG_TRAINER_LIST");
    lemma_whole(pieces, "SMSG_TRAINER_LIST");
    lemma_next(c, pieces, 0, end);
    let c1 = c.take(8);
    lemma_next(c1, pieces, 1, end);
    assert(c1.nth(1) == count);
    let c2 = c1.words(2);
    lemma_next(c2, pieces, 2, end);
    let c3 = behind(c2, pieces[2]);
    lemma_greeting(c3, greeting, pieces, end);
}

proof fn lemma_greeting(c: Cursor, greeting: Seq<u8>, pieces: Seq<Piece>, end: int)
    requires
        pieces.len() == 4,
        pieces[3] == Piece::Text(greeting),
        crate::written::stands(c, pieces, 3, end),
        zero_free(greeting),
    ensures
        string_end(c.data, c.at) == c.at + greeting.len(),
        c.data.subrange(c.at, c.at + greeting.len()) == greeting,
        c.at + greeting.len() + 1 == end,
        c.sound(),
        end <= c.data.len(),
{
    lemma_next(c, pieces, 3, end);
    lemma_last(c.cstring(), pieces, end);
    reveal(crate::written::stands);
    reveal(crate::wire::holds);
    let rest = pieces.skip(3);
    assert(rest[0] == pieces[3]);
    let whole = greeting + seq![0u8];
    assert(written(rest) == whole + written(rest.skip(1)));
    let here = c.data.subrange(c.at, c.at + written(rest).len());
    assert(here == written(rest));
    assert(c.data.subrange(c.at, c.at + greeting.len()) =~= greeting) by {
        assert forall|i: int| 0 <= i < greeting.len() implies c.data[c.at + i] == greeting[i] by {
            assert(here[i] == greeting[i]);
        }
    }
}

/// What can be learned is what is marked as such, every row of it and in its
/// order.
pub proof fn lemma_what_can_be_learned(spells: Seq<TrainerSpellView>, one: TrainerSpellView)
    ensures
        learnable_rows(spells).contains(one) <==> spells.contains(one) && one.state
            == TrainerSpellState::Available,
        learnable_rows(spells.push(one)) == if one.state == TrainerSpellState::Available {
            learnable_rows(spells).push(one)
        } else {
            learnable_rows(spells)
        },
{
    reveal(Seq::filter);
    assert(spells.push(one).drop_last() =~= spells);
    lemma_filter_members(spells, |spell: TrainerSpellView| spell.state is Available, one);
}

/// An object is its parts.
pub proof fn lemma_an_object_is_its_parts(object: Entity)
    ensures
        object@.guid == object.guid,
        object@.object_type == object.object_type,
        object@.position == object.position,
        object@.fields == object.fields@,
        object@.movement == object.movement,
        object@.destination == object.destination,
        object@.move_duration == object.move_duration,
        object@.move_started == object.move_started,
        object@.arrival_facing == object.arrival_facing,
        object@.bearing == object.bearing,
        object@.updates == object.updates,
{
}

/// The names are those of players and those of creatures.
pub proof fn lemma_names_are_their_parts(names: Names, guid: u64, entry: u32)
    ensures
        names@.players.contains_key(guid) <==> names.players@.contains_key(guid),
        names.players@.contains_key(guid) ==> names@.players[guid] == names.players@[guid]@,
        names@.creatures.contains_key(entry) <==> names.creatures@.contains_key(entry),
        names.creatures@.contains_key(entry) ==> names@.creatures[entry]
            == names.creatures@[entry]@,
{
}

/// A report is its parts.
pub proof fn lemma_a_report_is_its_parts<C, T>(report: Replication<C, T>, i: int)
    ensures
        report@.object_updates == report.object_updates,
        report@.monster_moves == report.monster_moves,
        report@.relayed_moves == report.relayed_moves,
        report@.destroys == report.destroys,
        report@.names == report.names,
        report@.spells == report.spells,
        report@.casts_started == report.casts_started,
        report@.casts_landed == report.casts_landed,
        report@.cast_failures == report.cast_failures@,
        report@.chat == report.chat@,
        report@.swings == report.swings@,
        report@.power_updates == report.power_updates,
        report@.threat == report.threat@,
        report@.attacks_started == report.attacks_started,
        report@.attacks_stopped == report.attacks_stopped,
        report@.failures.len() == report.failures@.len(),
        0 <= i < report.failures@.len() ==> report@.failures[i] == (
            report.failures@[i].0,
            report.failures@[i].1,
            payload_view(report.failures@[i].2),
        ),
{
}

/// A packet is its number and its body, and what is known of a quest is its
/// number and what it asks for.
pub proof fn lemma_packets_and_quests_are_their_parts(packet: Packet, quest: QuestInfo)
    ensures
        packet@ == (PacketView { opcode: packet.opcode, body: packet.body@ }),
        quest@.id == quest.id,
        quest@.item_objectives == quest.item_objectives@,
{
}

/// What is said of a stride is its parts.
pub proof fn lemma_a_fit_is_its_parts(fit: StrideFit)
    ensures
        fit@.stride == fit.stride,
        fit@.accounts_for_body == fit.accounts_for_body,
        fit@.greeting_is_printable == fit.greeting_is_printable,
        fit.greeting matches Some(text) ==> fit@.greeting == Some(text@),
        fit.greeting is None ==> fit@.greeting is None,
{
}

/// Standing still is being in a place at a time, with nothing else to say.
pub proof fn lemma_standing_still_says_nothing_else(position: Position, time: u32)
    ensures
        standing_still(position, time).position == position,
        standing_still(position, time).time == time,
        standing_still(position, time).flags == 0,
        standing_still(position, time).flags2 == 0,
        standing_still(position, time).fall_time == 0,
        crate::movement::announced(standing_still(position, time)),
{
    assert(0u32 & 0x200 == 0 && 0u32 & (0x20_0000u32 | 0x200_0000u32) == 0 && 0u32 & 0x1000 == 0
        && 0u32 & 0x400_0000 == 0 && 0u16 & 0x400 == 0 && 0u16 & 0x10 == 0) by (bit_vector);
}

/// A click casts a spell that is there and that a click fires.
pub proof fn lemma_what_a_click_casts(spell: ItemSpell)
    ensures
        usable(spell) <==> spell.id != 0 && spell.trigger == 0,
{
}

/// A route can be flown where it has two points, takes time, and leads
/// somewhere.
pub proof fn lemma_what_can_be_flown(flight: FlightView)
    ensures
        flight.flyable() <==> flight.lengths.len() >= 2 && flight.duration_ms > 0 && !(
        flight.lengths.last() == 0 || 0x8000_0000 <= flight.lengths.last() <= 0xFF80_0000),
{
}

/// A record comes out of a file as it was, but for being live, and for the one
/// mark whose number is the file's own word.
pub proof fn lemma_a_record_is_reloaded(known: RememberedView)
    ensures
        reloaded(known) == (RememberedView {
            live: false,
            mark: match known.mark {
                Some(QuestgiverMark::Unknown(0xFF)) => None,
                Some(QuestgiverMark::Unknown(0)) => Some(QuestgiverMark::Nothing),
                Some(QuestgiverMark::Unknown(8)) => Some(QuestgiverMark::Available),
                Some(QuestgiverMark::Unknown(10)) => Some(QuestgiverMark::Complete),
                other => other,
            },
            ..known
        }),
{
}

/// Before anything was told there is nothing, and before anything happened
/// nothing is reported.
pub proof fn lemma_everything_begins_empty<C, T>(guid: u64, spell: u32)
    ensures
        !empty_world().entities.contains_key(guid),
        !empty_world().cooldowns.contains_key(spell),
        !empty_world().casts.contains_key(guid),
        !empty_world().attacking.contains_key(guid),
        !empty_world().names.players.contains_key(guid),
        !empty_world().names.creatures.contains_key(spell),
        empty_world().spells.spells.len() == 0,
        empty_world().spells.cooldowns.len() == 0,
        empty_world().stats == (Stats {
            created: 0,
            recreated: 0,
            value_updates: 0,
            movement_updates: 0,
            removed: 0,
            orphaned: 0,
        }),
        quiet::<C, T>().failures.len() == 0,
        quiet::<C, T>().chat.len() == 0,
        quiet::<C, T>().threat.len() == 0,
        quiet::<C, T>().swings.len() == 0,
        quiet::<C, T>().cast_failures.len() == 0,
        quiet::<C, T>().object_updates == 0 && quiet::<C, T>().monster_moves == 0,
        quiet::<C, T>().relayed_moves == 0 && quiet::<C, T>().destroys == 0,
        quiet::<C, T>().names == 0 && quiet::<C, T>().spells == 0,
        quiet::<C, T>().casts_started == 0 && quiet::<C, T>().casts_landed == 0,
        quiet::<C, T>().attacks_started == 0 && quiet::<C, T>().attacks_stopped == 0,
        quiet::<C, T>().power_updates == 0,
{
}

} // verus!
