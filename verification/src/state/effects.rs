//! What each packet does to the world, and to nothing else.
//!
//! Every law here is about one packet that decodes, by the number it arrives
//! under. It says what the world holds behind it in terms of what it held
//! before and of what the packet says, and that the rest is as it was.
use crate::client::PacketView;
use crate::combat::{attack_start, attack_stop, melee_swing, Fight, MeleeSwing};
use crate::cursor::Cursor;
use crate::movement::MovementInfo;
use crate::opcode::relayed_movement;
use crate::order::{lemma_filter_members, lemma_listing, listing};
use crate::protocol::{relayed, Error};
use crate::query::{
    creature_query_response, name_query_response, CreatureInfoView, PlayerNameView,
};
use crate::spell::{
    cast_failed, initial_spells, spell_cooldown, spell_go, spell_start, CastFailed,
    InitialSpellsView, SpellCooldown, SpellCooldownEvent, SpellGoView, SpellStart,
};
use crate::state::entity::{
    bumped, cast_done, millis_between, Cast, Cooldown, EntityView, Heading, Moment,
};
use crate::state::replication::{
    begun, blocks_in, blocks_of, seeded, Heard, Progress, ReplicationView,
};
use crate::state::{player_guids, WorldStateView};
use crate::update::{
    compressed_update_object, decompressed, monster_move, power_update, read_guid, update_object,
    BlockView, MonsterMoveView, MoveFacing, MovementView, ObjectType, PowerUpdate,
};
use crate::written::{lemma_next, lemma_whole, written, Piece};
use vstd::prelude::*;

verus! {

/// Whether the `i`-th of some pairs is the last that names a spell.
pub open spec fn last_named(pairs: Seq<SpellCooldownEvent>, spell: u32, i: int) -> bool {
    &&& 0 <= i < pairs.len()
    &&& pairs[i].spell_id == spell
    &&& forall|j: int| i < j < pairs.len() ==> (#[trigger] pairs[j]).spell_id != spell
}

/// Whether none of some pairs names a spell.
pub open spec fn not_named(pairs: Seq<SpellCooldownEvent>, spell: u32) -> bool {
    forall|j: int| 0 <= j < pairs.len() ==> (#[trigger] pairs[j]).spell_id != spell
}

proof fn lemma_begun(
    cooldowns: Map<u32, Cooldown>,
    pairs: Seq<SpellCooldownEvent>,
    now: Moment,
    spell: u32,
    i: int,
)
    ensures
        last_named(pairs, spell, i) ==> {
            let after = begun(cooldowns, pairs, now);
            &&& after.contains_key(spell)
            &&& after[spell] == (Cooldown { started: now, duration_ms: pairs[i].cooldown_ms })
        },
        not_named(pairs, spell) ==> begun(cooldowns, pairs, now).get(spell) == cooldowns.get(spell),
    decreases pairs.len(),
{
    if pairs.len() > 0 {
        let before = pairs.drop_last();
        lemma_begun(cooldowns, before, now, spell, i);
        if last_named(pairs, spell, i) && i < before.len() {
            assert(pairs[pairs.len() - 1].spell_id != spell);
            assert(last_named(before, spell, i)) by {
                assert forall|j: int| i < j < before.len() implies (#[trigger] before[j]).spell_id
                    != spell by {
                    assert(pairs[j].spell_id != spell);
                }
            }
        }
        if not_named(pairs, spell) {
            assert(pairs[pairs.len() - 1].spell_id != spell);
            assert forall|j: int| 0 <= j < before.len() implies (#[trigger] before[j]).spell_id
                != spell by {
                assert(pairs[j].spell_id != spell);
            }
        }
    }
}

/// A spell that is used goes on cooldown from now on, for the time that the
/// last pair about it says, whatever cooldown it had before. A spell that the
/// packet does not name keeps what it had, and nothing but cooldowns changes.
pub proof fn lemma_used_spells_go_on_cooldown<C, T>(
    before: Progress<C, T>,
    packet: PacketView,
    heard: Heard<C, T>,
    now: Moment,
    caster: u64,
    pairs: Seq<SpellCooldownEvent>,
    spell: u32,
    i: int,
)
    requires
        packet.opcode == 0x0134,
        spell_cooldown(packet.body) == Ok::<(u64, Seq<SpellCooldownEvent>), Error>(
            (caster, pairs),
        ),
    ensures
        ({
            let after = before.after(packet, heard, now);
            let (was, new) = (before.world.cooldowns, after.world.cooldowns);
            &&& last_named(pairs, spell, i) ==> new.contains_key(spell) && new[spell].started == now
                && new[spell].duration_ms == pairs[i].cooldown_ms
            &&& not_named(pairs, spell) ==> new.get(spell) == was.get(spell)
            &&& after.world == (WorldStateView { cooldowns: new, ..before.world })
            &&& after.report == before.report
        }),
{
    lemma_begun(before.world.cooldowns, pairs, now, spell, i);
}

/// Whether the `i`-th of some entries is the last that gives a spell a time.
/// The word that means no end is no time.
pub open spec fn last_timed(list: Seq<SpellCooldown>, spell: u32, i: int) -> bool {
    &&& 0 <= i < list.len()
    &&& times(list[i], spell)
    &&& forall|j: int| i < j < list.len() ==> !times(#[trigger] list[j], spell)
}

/// Whether an entry gives a spell a time.
pub open spec fn times(entry: SpellCooldown, spell: u32) -> bool {
    entry.spell_id == spell && entry.category_cooldown_ms != 0x8000_0000
}

proof fn lemma_seeded(
    cooldowns: Map<u32, Cooldown>,
    list: Seq<SpellCooldown>,
    now: Moment,
    spell: u32,
    i: int,
)
    ensures
        last_timed(list, spell, i) ==> {
            let after = seeded(cooldowns, list, now);
            &&& after.contains_key(spell)
            &&& after[spell].started == now
            &&& after[spell].duration_ms >= list[i].cooldown_ms
            &&& after[spell].duration_ms >= list[i].category_cooldown_ms
            &&& after[spell].duration_ms == list[i].cooldown_ms || after[spell].duration_ms
                == list[i].category_cooldown_ms
        },
        (forall|j: int| 0 <= j < list.len() ==> !times(#[trigger] list[j], spell)) ==> seeded(
            cooldowns,
            list,
            now,
        ).get(spell) == cooldowns.get(spell),
    decreases list.len(),
{
    if list.len() > 0 {
        let before = list.drop_last();
        lemma_seeded(cooldowns, before, now, spell, i);
        let last = list[list.len() - 1];
        if last_timed(list, spell, i) && i < before.len() {
            assert(!times(last, spell));
            assert(last_timed(before, spell, i)) by {
                assert forall|j: int| i < j < before.len() implies !times(
                    #[trigger] before[j],
                    spell,
                ) by {
                    assert(!times(list[j], spell));
                }
            }
        }
        if forall|j: int| 0 <= j < list.len() ==> !times(#[trigger] list[j], spell) {
            assert(!times(last, spell));
            assert forall|j: int| 0 <= j < before.len() implies !times(
                #[trigger] before[j],
                spell,
            ) by {
                assert(!times(list[j], spell));
            }
        }
    }
}

/// The spellbook is what the login says, and every spell that it gives a time
/// is on cooldown from now on, for the longer of its two times. One without an
/// end, and one that is not named, keeps what it had.
pub proof fn lemma_a_login_fills_the_spellbook<C, T>(
    before: Progress<C, T>,
    packet: PacketView,
    heard: Heard<C, T>,
    now: Moment,
    book: InitialSpellsView,
    spell: u32,
    i: int,
)
    requires
        packet.opcode == 0x012A,
        initial_spells(packet.body) == Ok::<InitialSpellsView, Error>(book),
    ensures
        ({
            let after = before.after(packet, heard, now);
            let (was, new) = (before.world.cooldowns, after.world.cooldowns);
            let list = book.cooldowns;
            &&& last_timed(list, spell, i) ==> {
                &&& new.contains_key(spell)
                &&& new[spell].started == now
                &&& new[spell].duration_ms >= list[i].cooldown_ms
                &&& new[spell].duration_ms >= list[i].category_cooldown_ms
                &&& new[spell].duration_ms == list[i].cooldown_ms || new[spell].duration_ms
                    == list[i].category_cooldown_ms
            }
            &&& (forall|j: int| 0 <= j < list.len() ==> !times(#[trigger] list[j], spell))
                ==> new.get(spell) == was.get(spell)
            &&& after.world == (WorldStateView { cooldowns: new, spells: book, ..before.world })
            &&& after.report == (ReplicationView {
                spells: book.spells.len() as usize,
                ..before.report
            })
        }),
{
    lemma_seeded(before.world.cooldowns, book.cooldowns, now, spell, i);
}

/// A cast that begins is under way from now on, for its own time, in place of
/// whatever its caster was casting. Nobody else's cast changes.
pub proof fn lemma_a_cast_begins<C, T>(
    before: Progress<C, T>,
    packet: PacketView,
    heard: Heard<C, T>,
    now: Moment,
    start: SpellStart,
    other: u64,
)
    requires
        packet.opcode == 0x0131,
        spell_start(packet.body) == Ok::<SpellStart, Error>(start),
        other != start.caster,
    ensures
        ({
            let after = before.after(packet, heard, now);
            let (was, new) = (before.world.casts, after.world.casts);
            &&& new.contains_key(start.caster)
            &&& new[start.caster].spell_id == start.spell_id
            &&& new[start.caster].started == now
            &&& new[start.caster].duration_ms == start.cast_time_ms
            &&& new.get(other) == was.get(other)
            &&& after.world == (WorldStateView { casts: new, ..before.world })
            &&& after.report == (ReplicationView {
                casts_started: bumped(before.report.casts_started),
                ..before.report
            })
        }),
{
}

/// A cast that lands is over, and is counted where it was known of. Nobody
/// else's cast changes.
pub proof fn lemma_a_cast_lands<C, T>(
    before: Progress<C, T>,
    packet: PacketView,
    heard: Heard<C, T>,
    now: Moment,
    landed: SpellGoView,
    other: u64,
)
    requires
        packet.opcode == 0x0132,
        spell_go(packet.body) == Ok::<SpellGoView, Error>(landed),
        other != landed.caster,
    ensures
        ({
            let after = before.after(packet, heard, now);
            let (was, new) = (before.world.casts, after.world.casts);
            &&& !new.contains_key(landed.caster)
            &&& new.get(other) == was.get(other)
            &&& after.world == (WorldStateView { casts: new, ..before.world })
            &&& after.report == (ReplicationView {
                casts_landed: if was.contains_key(landed.caster) {
                    bumped(before.report.casts_landed)
                } else {
                    before.report.casts_landed
                },
                ..before.report
            })
        }),
{
}

/// A cast that is refused is handed to the caller, behind those before it, and
/// the world is as it was.
pub proof fn lemma_a_refused_cast_is_handed_back<C, T>(
    before: Progress<C, T>,
    packet: PacketView,
    heard: Heard<C, T>,
    now: Moment,
    refused: CastFailed,
)
    requires
        packet.opcode == 0x0130,
        cast_failed(packet.body) == Ok::<CastFailed, Error>(refused),
    ensures
        ({
            let after = before.after(packet, heard, now);
            &&& after.world == before.world
            &&& after.report == (ReplicationView {
                cast_failures: before.report.cast_failures + seq![refused],
                ..before.report
            })
        }),
{
    assert(before.report.cast_failures.push(refused) =~= before.report.cast_failures
        + seq![refused]);
}

/// A swing is handed to the caller, behind those before it, and the world is
/// as it was: what it did to anybody's health arrives separately.
pub proof fn lemma_a_swing_is_handed_back<C, T>(
    before: Progress<C, T>,
    packet: PacketView,
    heard: Heard<C, T>,
    now: Moment,
    swing: MeleeSwing,
)
    requires
        packet.opcode == 0x014A,
        melee_swing(packet.body) == Ok::<MeleeSwing, Error>(swing),
    ensures
        ({
            let after = before.after(packet, heard, now);
            &&& after.world == before.world
            &&& after.report == (ReplicationView {
                swings: before.report.swings + seq![swing],
                ..before.report
            })
        }),
{
    assert(before.report.swings.push(swing) =~= before.report.swings + seq![swing]);
}

/// A fight that begins is one of the attacker against the victim, in place of
/// the one it was in. Nobody else's fight changes.
pub proof fn lemma_a_fight_begins<C, T>(
    before: Progress<C, T>,
    packet: PacketView,
    heard: Heard<C, T>,
    now: Moment,
    fight: Fight,
    other: u64,
)
    requires
        packet.opcode == 0x0143,
        attack_start(packet.body) == Ok::<Fight, Error>(fight),
        other != fight.attacker,
    ensures
        ({
            let after = before.after(packet, heard, now);
            let (was, new) = (before.world.attacking, after.world.attacking);
            &&& new.get(fight.attacker) == Some(fight.victim)
            &&& new.get(other) == was.get(other)
            &&& after.world == (WorldStateView { attacking: new, ..before.world })
            &&& after.report == (ReplicationView {
                attacks_started: bumped(before.report.attacks_started),
                ..before.report
            })
        }),
{
}

/// A fight that ends is over, and is counted where it was known of. Nobody
/// else's fight changes, the victim's neither.
pub proof fn lemma_a_fight_ends<C, T>(
    before: Progress<C, T>,
    packet: PacketView,
    heard: Heard<C, T>,
    now: Moment,
    fight: Fight,
    other: u64,
)
    requires
        packet.opcode == 0x0144,
        attack_stop(packet.body) == Ok::<Fight, Error>(fight),
        other != fight.attacker,
    ensures
        ({
            let after = before.after(packet, heard, now);
            let (was, new) = (before.world.attacking, after.world.attacking);
            &&& new.get(fight.attacker) is None
            &&& new.get(other) == was.get(other)
            &&& after.world == (WorldStateView { attacking: new, ..before.world })
            &&& after.report == (ReplicationView {
                attacks_stopped: if was.contains_key(fight.attacker) {
                    bumped(before.report.attacks_stopped)
                } else {
                    before.report.attacks_stopped
                },
                ..before.report
            })
        }),
{
}

/// A power that changes on its own is its unit's from then on, in the field of
/// its own kind. Every other field, and every other object, is as it was.
pub proof fn lemma_a_power_changes<C, T>(
    before: Progress<C, T>,
    packet: PacketView,
    heard: Heard<C, T>,
    now: Moment,
    power: PowerUpdate,
    index: u16,
    other: u64,
)
    requires
        packet.opcode == 0x0480,
        power_update(packet.body) == Ok::<PowerUpdate, Error>(power),
        before.world.entities.contains_key(power.guid),
        power.power_type < 7,
        index != 0x19 + power.power_type,
        other != power.guid,
    ensures
        ({
            let after = before.after(packet, heard, now);
            let (was, new) = (before.world.entities[power.guid], after.world.entities[power.guid]);
            &&& new.fields.get((0x19 + power.power_type) as u16) == Some(power.value)
            &&& new.fields.get(index) == was.fields.get(index)
            &&& new == (EntityView { fields: new.fields, updates: bumped(was.updates), ..was })
            &&& after.world.entities.contains_key(power.guid)
            &&& after.world.entities.get(other) == before.world.entities.get(other)
            &&& after.world == (WorldStateView { entities: after.world.entities, ..before.world })
            &&& after.report == (ReplicationView {
                power_updates: bumped(before.report.power_updates),
                ..before.report
            })
        }),
{
}

/// A power of a kind that there is no field for is a failure, and one of a
/// unit that is not in view is counted: neither changes an object.
pub proof fn lemma_a_power_without_a_place<C, T>(
    before: Progress<C, T>,
    packet: PacketView,
    heard: Heard<C, T>,
    now: Moment,
    power: PowerUpdate,
)
    requires
        packet.opcode == 0x0480,
        power_update(packet.body) == Ok::<PowerUpdate, Error>(power),
        !before.world.entities.contains_key(power.guid) || power.power_type >= 7,
    ensures
        ({
            let after = before.after(packet, heard, now);
            &&& after.world.entities == before.world.entities
            &&& !before.world.entities.contains_key(power.guid) ==> {
                &&& after.world.stats.orphaned == bumped(before.world.stats.orphaned)
                &&& after.report == before.report
            }
            &&& before.world.entities.contains_key(power.guid) ==> {
                &&& after.world == before.world
                &&& after.report.failures == before.report.failures + seq![
                    (
                        packet.opcode,
                        Error::UnknownPowerType { got: power.power_type },
                        Ok::<Seq<u8>, Error>(packet.body),
                    ),
                ]
            }
        }),
{
    let failure = (
        packet.opcode,
        Error::UnknownPowerType { got: power.power_type },
        Ok::<Seq<u8>, Error>(packet.body),
    );
    assert(before.report.failures.push(failure) =~= before.report.failures + seq![failure]);
}

/// A player is called what was last said about it, and so is nobody else on
/// that account.
pub proof fn lemma_a_player_is_named<C, T>(
    before: Progress<C, T>,
    packet: PacketView,
    heard: Heard<C, T>,
    now: Moment,
    answer: PlayerNameView,
    other: u64,
)
    requires
        packet.opcode == 0x0051,
        name_query_response(packet.body) == Ok::<PlayerNameView, Error>(answer),
        other != answer.guid,
    ensures
        ({
            let after = before.after(packet, heard, now);
            let (was, new) = (before.world.names, after.world.names);
            &&& new.players.get(answer.guid) == Some(answer)
            &&& new.players.get(other) == was.players.get(other)
            &&& new.creatures == was.creatures
            &&& after.world == (WorldStateView { names: new, ..before.world })
            &&& after.report == (ReplicationView {
                names: bumped(before.report.names),
                ..before.report
            })
        }),
{
}

/// A kind of creature is called what was last said about it, and no other
/// kind is on that account.
pub proof fn lemma_a_creature_is_named<C, T>(
    before: Progress<C, T>,
    packet: PacketView,
    heard: Heard<C, T>,
    now: Moment,
    answer: CreatureInfoView,
    other: u32,
)
    requires
        packet.opcode == 0x0061,
        creature_query_response(packet.body) == Ok::<CreatureInfoView, Error>(answer),
        other != answer.entry,
    ensures
        ({
            let after = before.after(packet, heard, now);
            let (was, new) = (before.world.names, after.world.names);
            &&& new.creatures.get(answer.entry) == Some(answer)
            &&& new.creatures.get(other) == was.creatures.get(other)
            &&& new.players == was.players
            &&& after.world == (WorldStateView { names: new, ..before.world })
            &&& after.report == (ReplicationView {
                names: bumped(before.report.names),
                ..before.report
            })
        }),
{
}

/// A creature that is sent somewhere stands at the start of its path and is
/// bound for the end of it, for as long as the move says and from now on. What
/// it should look at waits for its arrival. Nothing else of it changes, and no
/// other object does.
pub proof fn lemma_a_creature_sets_out<C, T>(
    before: Progress<C, T>,
    packet: PacketView,
    heard: Heard<C, T>,
    now: Moment,
    moved: MonsterMoveView,
    other: u64,
)
    requires
        packet.opcode == 0x00DD,
        monster_move(packet.body) == Ok::<MonsterMoveView, Error>(moved),
        before.world.entities.contains_key(moved.guid),
        other != moved.guid,
    ensures
        ({
            let after = before.after(packet, heard, now);
            let (was, new) = (before.world.entities[moved.guid], after.world.entities[moved.guid]);
            &&& new.position matches Some(at) && at.x == moved.from.x && at.y == moved.from.y
                && at.z == moved.from.z
            &&& new.destination == moved.to
            &&& moved.to is Some ==> new.move_duration == Some(moved.duration) && new.move_started
                == Some(now) && new.arrival_facing == moved.facing
            &&& moved.to is None ==> new.move_duration is None && new.move_started is None
                && new.arrival_facing is None
            &&& new.guid == was.guid
            &&& new.object_type == was.object_type
            &&& new.fields == was.fields
            &&& new.movement == was.movement
            &&& new.updates == bumped(was.updates)
            &&& after.world.entities.contains_key(moved.guid)
            &&& after.world.entities.get(other) == before.world.entities.get(other)
            &&& after.world == (WorldStateView {
                entities: after.world.entities,
                stats: after.world.stats,
                ..before.world
            })
            &&& after.world.stats.movement_updates == bumped(before.world.stats.movement_updates)
            &&& after.report == (ReplicationView {
                monster_moves: bumped(before.report.monster_moves),
                ..before.report
            })
        }),
{
}

/// The numbers under which movement is relayed.
pub proof fn lemma_what_relays_movement(opcode: u16)
    ensures
        relayed_movement(opcode) <==> {
            ||| 0x00B5 <= opcode <= 0x00C3
            ||| 0x00C9 <= opcode <= 0x00CB
            ||| opcode == 0x00DA
            ||| opcode == 0x00DB
            ||| opcode == 0x00EE
            ||| opcode == 0x0359
            ||| opcode == 0x035A
            ||| opcode == 0x03A7
        },
{
}

/// Somebody who moves on their own is where they say, moves as they say, and
/// no longer follows a path that was predicted. Nothing else of them changes,
/// and no other object does.
pub proof fn lemma_a_mover_is_where_it_says<C, T>(
    before: Progress<C, T>,
    packet: PacketView,
    heard: Heard<C, T>,
    now: Moment,
    mover: u64,
    info: MovementInfo,
    other: u64,
)
    requires
        relayed_movement(packet.opcode),
        relayed(packet.body) == Ok::<(u64, MovementInfo), Error>((mover, info)),
        before.world.entities.contains_key(mover),
        other != mover,
    ensures
        ({
            let after = before.after(packet, heard, now);
            let (was, new) = (before.world.entities[mover], after.world.entities[mover]);
            &&& new == (EntityView {
                position: Some(info.position),
                movement: Some(info),
                destination: None,
                move_duration: None,
                move_started: None,
                arrival_facing: None,
                bearing: None,
                updates: bumped(was.updates),
                ..was
            })
            &&& after.world.entities.contains_key(mover)
            &&& after.world.entities.get(other) == before.world.entities.get(other)
            &&& after.world == (WorldStateView {
                entities: after.world.entities,
                stats: after.world.stats,
                ..before.world
            })
            &&& after.world.stats.movement_updates == bumped(before.world.stats.movement_updates)
            &&& after.report == (ReplicationView {
                relayed_moves: bumped(before.report.relayed_moves),
                ..before.report
            })
        }),
{
}

/// An object that is destroyed is gone, with its cast and with every fight on
/// either side of it. Everything else stays. The packet names it by its packed
/// guid, and what follows that is not looked at.
pub proof fn lemma_a_destroyed_object_is_gone<C, T>(
    before: Progress<C, T>,
    opcode: u16,
    guid: u64,
    rest: Seq<u8>,
    heard: Heard<C, T>,
    now: Moment,
    other: u64,
)
    requires
        opcode == 0x00AA,
        other != guid,
    ensures
        ({
            let packet = PacketView {
                opcode,
                body: written(seq![Piece::Guid(guid), Piece::Bytes(rest)]),
            };
            let after = before.after(packet, heard, now);
            let (was, new) = (before.world, after.world);
            &&& !new.entities.contains_key(guid)
            &&& new.entities.get(other) == was.entities.get(other)
            &&& !new.casts.contains_key(guid)
            &&& new.casts.get(other) == was.casts.get(other)
            &&& !new.attacking.contains_key(guid)
            &&& new.attacking.get(other) == if was.attacking.get(other) == Some(guid) {
                None
            } else {
                was.attacking.get(other)
            }
            &&& new.stats.removed == if was.entities.contains_key(guid) {
                bumped(was.stats.removed)
            } else {
                was.stats.removed
            }
            &&& new.cooldowns == was.cooldowns && new.spells == was.spells && new.names == was.names
            &&& after.report == (ReplicationView {
                destroys: bumped(before.report.destroys),
                ..before.report
            })
        }),
{
    let pieces = seq![Piece::Guid(guid), Piece::Bytes(rest)];
    let body = written(pieces);
    let c = Cursor::over(body, "SMSG_DESTROY_OBJECT");
    lemma_whole(pieces, "SMSG_DESTROY_OBJECT");
    lemma_next(c, pieces, 0, body.len() as int);
}

/// An update does to the world what its blocks do, one after the other,
/// whether it arrives plain or compressed.
pub proof fn lemma_an_update_does_what_its_blocks_do<C, T>(
    before: Progress<C, T>,
    packet: PacketView,
    heard: Heard<C, T>,
    now: Moment,
    blocks: Seq<BlockView>,
)
    requires
        (packet.opcode == 0x00A9 && update_object(packet.body) == Ok::<Seq<BlockView>, Error>(
            blocks,
        )) || (packet.opcode == 0x01F6 && compressed_update_object(packet.body) == Ok::<
            Seq<BlockView>,
            Error,
        >(blocks)),
    ensures
        ({
            let after = before.after(packet, heard, now);
            &&& after.world == before.world.with_blocks(blocks)
            &&& after.report == (ReplicationView {
                object_updates: bumped(before.report.object_updates),
                ..before.report
            })
        }),
{
}

/// An update without blocks does nothing.
pub proof fn lemma_no_blocks_do_nothing(world: WorldStateView)
    ensures
        world.with_blocks(seq![]) == world,
{
}

proof fn lemma_one_block(world: WorldStateView, block: BlockView)
    ensures
        world.with_blocks(seq![block]) == world.with_block(block),
{
    assert(seq![block].drop_last() =~= seq![]);
    assert(world.with_blocks(seq![block].drop_last()) == world);
}

/// An object that comes into view for the first time is what its block says:
/// what it is, where it is, how it moves and what its fields hold. It follows
/// no path. No other object changes.
pub proof fn lemma_a_new_object_is_what_its_block_says(
    world: WorldStateView,
    guid: u64,
    object_type: ObjectType,
    spawned: bool,
    movement: MovementView,
    fields: Map<u16, u32>,
    other: u64,
)
    requires
        !world.entities.contains_key(guid),
        other != guid,
    ensures
        ({
            let after = world.with_blocks(
                seq![BlockView::Create { guid, object_type, spawned, movement, fields }],
            );
            let new = after.entities[guid];
            &&& after.entities.contains_key(guid)
            &&& new.guid == guid
            &&& new.object_type == object_type
            &&& new.position == movement.position
            &&& new.movement == movement.info
            &&& new.fields == fields
            &&& new.destination is None && new.move_duration is None && new.move_started is None
            &&& new.arrival_facing is None && new.bearing is None
            &&& new.updates == 1
            &&& after.entities.get(other) == world.entities.get(other)
            &&& after == (WorldStateView {
                entities: after.entities,
                stats: after.stats,
                ..world
            })
            &&& after.stats == (crate::state::Stats {
                created: bumped(world.stats.created),
                ..world.stats
            })
        }),
{
    lemma_one_block(world, BlockView::Create { guid, object_type, spawned, movement, fields });
}

/// An object that comes into view again is of the kind that is said, has every
/// field that is said and keeps the others, and is where it is said to be,
/// where that is said. No other object changes.
pub proof fn lemma_an_object_comes_back(
    world: WorldStateView,
    guid: u64,
    object_type: ObjectType,
    spawned: bool,
    movement: MovementView,
    fields: Map<u16, u32>,
    index: u16,
    other: u64,
)
    requires
        world.entities.contains_key(guid),
        other != guid,
    ensures
        ({
            let after = world.with_blocks(
                seq![BlockView::Create { guid, object_type, spawned, movement, fields }],
            );
            let (was, new) = (world.entities[guid], after.entities[guid]);
            &&& after.entities.contains_key(guid)
            &&& new.guid == was.guid
            &&& new.object_type == object_type
            &&& new.fields.get(index) == if fields.contains_key(index) {
                Some(fields[index])
            } else {
                was.fields.get(index)
            }
            &&& movement.position is Some ==> new.position == movement.position && new.destination
                is None && new.move_duration is None && new.move_started is None
                && new.arrival_facing is None
            &&& movement.position is None ==> new.position == was.position && new.destination
                == was.destination && new.move_duration == was.move_duration && new.move_started
                == was.move_started && new.arrival_facing == was.arrival_facing
            &&& new.movement == if movement.info is Some {
                movement.info
            } else {
                was.movement
            }
            &&& new.updates == bumped(was.updates)
            &&& after.entities.get(other) == world.entities.get(other)
            &&& after.stats == (crate::state::Stats {
                recreated: bumped(world.stats.recreated),
                ..world.stats
            })
        }),
{
    lemma_one_block(world, BlockView::Create { guid, object_type, spawned, movement, fields });
}

/// Values are folded over those of their object: what is said holds from then
/// on, and what is not said stays. No other object changes.
pub proof fn lemma_values_are_folded_in(
    world: WorldStateView,
    guid: u64,
    fields: Map<u16, u32>,
    index: u16,
    other: u64,
)
    requires
        world.entities.contains_key(guid),
        other != guid,
    ensures
        ({
            let after = world.with_blocks(seq![BlockView::Values { guid, fields }]);
            let (was, new) = (world.entities[guid], after.entities[guid]);
            &&& after.entities.contains_key(guid)
            &&& new.fields.get(index) == if fields.contains_key(index) {
                Some(fields[index])
            } else {
                was.fields.get(index)
            }
            &&& new == (EntityView { fields: new.fields, updates: bumped(was.updates), ..was })
            &&& after.entities.get(other) == world.entities.get(other)
            &&& after.stats == (crate::state::Stats {
                value_updates: bumped(world.stats.value_updates),
                ..world.stats
            })
        }),
{
    lemma_one_block(world, BlockView::Values { guid, fields });
}

/// A movement block puts its object where it says, where it says so, and that
/// ends a path. No field and no other object changes.
pub proof fn lemma_a_movement_block_places_its_object(
    world: WorldStateView,
    guid: u64,
    movement: MovementView,
    other: u64,
)
    requires
        world.entities.contains_key(guid),
        other != guid,
    ensures
        ({
            let after = world.with_blocks(seq![BlockView::Movement { guid, movement }]);
            let (was, new) = (world.entities[guid], after.entities[guid]);
            &&& after.entities.contains_key(guid)
            &&& movement.position is Some ==> new.position == movement.position && new.destination
                is None && new.move_duration is None && new.move_started is None
                && new.arrival_facing is None
            &&& movement.position is None ==> new.position == was.position && new.destination
                == was.destination && new.move_duration == was.move_duration && new.move_started
                == was.move_started && new.arrival_facing == was.arrival_facing
            &&& new.movement == if movement.info is Some {
                movement.info
            } else {
                was.movement
            }
            &&& new.guid == was.guid && new.object_type == was.object_type && new.fields
                == was.fields
            &&& new.updates == bumped(was.updates)
            &&& after.entities.get(other) == world.entities.get(other)
            &&& after.stats == (crate::state::Stats {
                movement_updates: bumped(world.stats.movement_updates),
                ..world.stats
            })
        }),
{
    lemma_one_block(world, BlockView::Movement { guid, movement });
}

/// A change to an object that is not in view is counted, and invents nothing.
pub proof fn lemma_a_block_about_nothing_is_counted(
    world: WorldStateView,
    guid: u64,
    fields: Map<u16, u32>,
    movement: MovementView,
)
    requires
        !world.entities.contains_key(guid),
    ensures
        ({
            let counted = WorldStateView {
                stats: crate::state::Stats {
                    orphaned: bumped(world.stats.orphaned),
                    ..world.stats
                },
                ..world
            };
            &&& world.with_blocks(seq![BlockView::Values { guid, fields }]) == counted
            &&& world.with_blocks(seq![BlockView::Movement { guid, movement }]) == counted
        }),
{
    lemma_one_block(world, BlockView::Values { guid, fields });
    lemma_one_block(world, BlockView::Movement { guid, movement });
}

proof fn lemma_all_gone(world: WorldStateView, guids: Seq<u64>, guid: u64)
    ensures
        ({
            let after = world.without_all(guids);
            &&& guids.contains(guid) ==> !after.entities.contains_key(guid)
                && !after.casts.contains_key(guid) && !after.attacking.contains_key(guid)
            &&& !guids.contains(guid) ==> after.entities.get(guid) == world.entities.get(guid)
                && after.casts.get(guid) == world.casts.get(guid) && after.attacking.get(guid)
                == match world.attacking.get(guid) {
                Some(victim) => if guids.contains(victim) {
                    None
                } else {
                    Some(victim)
                },
                None => None,
            }
            &&& after.cooldowns == world.cooldowns && after.spells == world.spells && after.names
                == world.names
        }),
    decreases guids.len(),
{
    if guids.len() > 0 {
        let before = guids.drop_last();
        lemma_all_gone(world, before, guid);
        assert(guids =~= before.push(guids.last()));
        assert(guids.contains(guid) <==> before.contains(guid) || guid == guids.last()) by {
            if before.contains(guid) {
                assert(guids[before.index_of(guid)] == guid);
            }
            if guid == guids.last() {
                assert(guids[guids.len() - 1] == guid);
            }
            if guids.contains(guid) && guid != guids.last() {
                assert(before[guids.index_of(guid)] == guid);
            }
        }
        if let Some(victim) = world.attacking.get(guid) {
            assert(guids.contains(victim) <==> before.contains(victim) || victim
                == guids.last()) by {
                if before.contains(victim) {
                    assert(guids[before.index_of(victim)] == victim);
                }
                if victim == guids.last() {
                    assert(guids[guids.len() - 1] == victim);
                }
                if guids.contains(victim) && victim != guids.last() {
                    assert(before[guids.index_of(victim)] == victim);
                }
            }
        }
    }
}

/// What goes out of view is gone, with its casts and its fights. What does not
/// stays, and fights on unless its victim went. Things that are said to be near
/// change nothing.
pub proof fn lemma_what_leaves_is_gone(world: WorldStateView, guids: Seq<u64>, guid: u64)
    ensures
        ({
            let after = world.with_blocks(seq![BlockView::OutOfRange { guids }]);
            &&& guids.contains(guid) ==> !after.entities.contains_key(guid)
                && !after.casts.contains_key(guid) && !after.attacking.contains_key(guid)
            &&& !guids.contains(guid) ==> after.entities.get(guid) == world.entities.get(guid)
                && after.casts.get(guid) == world.casts.get(guid) && after.attacking.get(guid)
                == match world.attacking.get(guid) {
                Some(victim) => if guids.contains(victim) {
                    None
                } else {
                    Some(victim)
                },
                None => None,
            }
            &&& after.cooldowns == world.cooldowns && after.spells == world.spells && after.names
                == world.names
        }),
        world.with_blocks(seq![BlockView::NearObjects { guids }]) == world,
{
    lemma_one_block(world, BlockView::OutOfRange { guids });
    lemma_one_block(world, BlockView::NearObjects { guids });
    lemma_all_gone(world, guids, guid);
}

/// Chat and threat lists go to the caller where they could be read, and are
/// failures where they could not. The world is as it was.
pub proof fn lemma_events_are_handed_back<C, T>(
    before: Progress<C, T>,
    packet: PacketView,
    now: Moment,
    line: Result<C, Error>,
    list: Result<T, Error>,
)
    ensures
        packet.opcode == 0x0096 || packet.opcode == 0x03B3 ==> {
            let after = before.after(packet, Heard::Chat(line), now);
            &&& after.world == before.world
            &&& after.report == match line {
                Ok(message) => ReplicationView {
                    chat: before.report.chat + seq![message],
                    ..before.report
                },
                Err(error) => ReplicationView {
                    failures: before.report.failures + seq![
                        (packet.opcode, error, Ok::<Seq<u8>, Error>(packet.body)),
                    ],
                    ..before.report
                },
            }
        },
        packet.opcode == 0x0483 ==> {
            let after = before.after(packet, Heard::Threat(list), now);
            &&& after.world == before.world
            &&& after.report == match list {
                Ok(threat) => ReplicationView {
                    threat: before.report.threat + seq![threat],
                    ..before.report
                },
                Err(error) => ReplicationView {
                    failures: before.report.failures + seq![
                        (packet.opcode, error, Ok::<Seq<u8>, Error>(packet.body)),
                    ],
                    ..before.report
                },
            }
        },
{
    match line {
        Ok(message) => {
            assert(before.report.chat.push(message) =~= before.report.chat + seq![message]);
        },
        Err(error) => {
            let failure = (packet.opcode, error, Ok::<Seq<u8>, Error>(packet.body));
            assert(before.report.failures.push(failure) =~= before.report.failures
                + seq![failure]);
        },
    }
    match list {
        Ok(threat) => {
            assert(before.report.threat.push(threat) =~= before.report.threat + seq![threat]);
        },
        Err(error) => {
            let failure = (packet.opcode, error, Ok::<Seq<u8>, Error>(packet.body));
            assert(before.report.failures.push(failure) =~= before.report.failures
                + seq![failure]);
        },
    }
}

/// A batch of one packet does what the packet does, and an empty one nothing.
pub proof fn lemma_a_batch_of_one<C, T>(
    before: Progress<C, T>,
    packet: PacketView,
    heard: Heard<C, T>,
    now: Moment,
)
    ensures
        before.after_all(seq![packet], seq![heard], now) == before.after(packet, heard, now),
        before.after_all(seq![], seq![], now) == before,
{
    assert(seq![packet].drop_last() =~= seq![]);
    assert(before.after_all(seq![packet].drop_last(), seq![heard].drop_last(), now) == before);
}

/// The milliseconds between two moments are whole, and none are missing.
pub proof fn lemma_milliseconds_are_whole(from: Moment, to: Moment)
    requires
        from.nanos <= to.nanos,
    ensures
        1_000_000 * millis_between(from, to) <= to.nanos - from.nanos,
        to.nanos - from.nanos < 1_000_000 * (millis_between(from, to) + 1),
        millis_between(to, from) == 0,
{
}

/// A cast is over once all of its time has passed, and not before.
pub proof fn lemma_a_cast_takes_its_time(cast: Cast, now: Moment)
    requires
        cast.started.nanos <= now.nanos,
    ensures
        cast_done(cast, now) <==> now.nanos - cast.started.nanos >= 1_000_000 * cast.duration_ms,
{
}

/// Along a path an object has come as far as the time since it set out, and
/// once that is over it is at the end.
pub proof fn lemma_an_object_is_along_its_path(entity: EntityView, now: Moment)
    requires
        entity.position is Some,
        entity.destination is Some,
        entity.move_duration is Some,
        entity.move_started is Some,
        entity.move_started->0.nanos <= now.nanos,
    ensures
        ({
            let duration = entity.move_duration->0;
            let passed = now.nanos - entity.move_started->0.nanos;
            let pose = entity.pose(now)->0;
            &&& entity.pose(now) is Some
            &&& pose.from == entity.position->0
            &&& pose.travel matches Some(travel) && travel.to == entity.destination->0
                && travel.duration == duration && (passed >= 1_000_000 * duration
                ==> travel.elapsed == duration) && (passed < 1_000_000 * duration ==> 1_000_000
                * travel.elapsed <= passed < 1_000_000 * (travel.elapsed + 1))
            &&& entity.moving(now) <==> passed < 1_000_000 * duration
        }),
{
}

/// Why a packet does not decode, by the number it arrives under.
pub open spec fn cannot_be_read(packet: PacketView) -> Option<Error> {
    let (opcode, body) = (packet.opcode, packet.body);
    if opcode == 0x00DD && monster_move(body) is Err {
        Some(monster_move(body)->Err_0)
    } else if relayed_movement(opcode) && relayed(body) is Err {
        Some(relayed(body)->Err_0)
    } else if opcode == 0x0051 && name_query_response(body) is Err {
        Some(name_query_response(body)->Err_0)
    } else if opcode == 0x0061 && creature_query_response(body) is Err {
        Some(creature_query_response(body)->Err_0)
    } else if opcode == 0x012A && initial_spells(body) is Err {
        Some(initial_spells(body)->Err_0)
    } else if opcode == 0x0134 && spell_cooldown(body) is Err {
        Some(spell_cooldown(body)->Err_0)
    } else if opcode == 0x0131 && spell_start(body) is Err {
        Some(spell_start(body)->Err_0)
    } else if opcode == 0x0132 && spell_go(body) is Err {
        Some(spell_go(body)->Err_0)
    } else if opcode == 0x0130 && cast_failed(body) is Err {
        Some(cast_failed(body)->Err_0)
    } else if opcode == 0x014A && melee_swing(body) is Err {
        Some(melee_swing(body)->Err_0)
    } else if opcode == 0x0480 && power_update(body) is Err {
        Some(power_update(body)->Err_0)
    } else if opcode == 0x0143 && attack_start(body) is Err {
        Some(attack_start(body)->Err_0)
    } else if opcode == 0x0144 && attack_stop(body) is Err {
        Some(attack_stop(body)->Err_0)
    } else {
        None
    }
}

/// A packet that does not decode leaves the world as it was, and is reported
/// with its number, with why, and with its body, behind those before it.
pub proof fn lemma_what_cannot_be_read_is_reported<C, T>(
    before: Progress<C, T>,
    packet: PacketView,
    heard: Heard<C, T>,
    now: Moment,
    error: Error,
)
    requires
        cannot_be_read(packet) == Some(error),
    ensures
        ({
            let after = before.after(packet, heard, now);
            &&& after.world == before.world
            &&& after.report == (ReplicationView {
                failures: before.report.failures + seq![
                    (packet.opcode, error, Ok::<Seq<u8>, Error>(packet.body)),
                ],
                ..before.report
            })
        }),
{
    let failure = (packet.opcode, error, Ok::<Seq<u8>, Error>(packet.body));
    assert(before.report.failures.push(failure) =~= before.report.failures + seq![failure]);
}

/// So is an update, of which the payload is kept as it would have been read:
/// expanded, or with why it could not be, where it was compressed.
pub proof fn lemma_a_bad_update_is_reported<C, T>(
    before: Progress<C, T>,
    packet: PacketView,
    heard: Heard<C, T>,
    now: Moment,
    error: Error,
    payload: Result<Seq<u8>, Error>,
)
    requires
        (packet.opcode == 0x00A9 && update_object(packet.body) == Err::<Seq<BlockView>, Error>(
            error,
        ) && payload == Ok::<Seq<u8>, Error>(packet.body)) || (packet.opcode == 0x01F6
            && compressed_update_object(packet.body) == Err::<Seq<BlockView>, Error>(error)
            && payload == decompressed(packet.body)),
    ensures
        ({
            let after = before.after(packet, heard, now);
            &&& after.world == before.world
            &&& after.report == (ReplicationView {
                failures: before.report.failures + seq![(packet.opcode, error, payload)],
                ..before.report
            })
        }),
{
    let failure = (packet.opcode, error, payload);
    assert(before.report.failures.push(failure) =~= before.report.failures + seq![failure]);
}

/// A destroyed object that is not named whole is a failure.
pub proof fn lemma_a_bad_removal_is_reported<C, T>(
    before: Progress<C, T>,
    packet: PacketView,
    heard: Heard<C, T>,
    now: Moment,
)
    requires
        packet.opcode == 0x00AA,
        read_guid(Cursor::over(packet.body, "SMSG_DESTROY_OBJECT")).1.failed is Some,
    ensures
        ({
            let after = before.after(packet, heard, now);
            let error = read_guid(Cursor::over(packet.body, "SMSG_DESTROY_OBJECT")).1.failed->0;
            &&& after.world == before.world
            &&& after.report == (ReplicationView {
                failures: before.report.failures + seq![
                    (packet.opcode, error, Ok::<Seq<u8>, Error>(packet.body)),
                ],
                ..before.report
            })
        }),
{
    let error = read_guid(Cursor::over(packet.body, "SMSG_DESTROY_OBJECT")).1.failed->0;
    let failure = (packet.opcode, error, Ok::<Seq<u8>, Error>(packet.body));
    assert(before.report.failures.push(failure) =~= before.report.failures + seq![failure]);
}

/// Any other packet does nothing.
pub proof fn lemma_other_packets_do_nothing<C, T>(
    before: Progress<C, T>,
    packet: PacketView,
    heard: Heard<C, T>,
    now: Moment,
)
    requires
        !relayed_movement(packet.opcode),
        !([
            0x00A9u16,
            0x01F6,
            0x00DD,
            0x0051,
            0x0061,
            0x0096,
            0x03B3,
            0x012A,
            0x0134,
            0x0131,
            0x0132,
            0x0130,
            0x014A,
            0x0480,
            0x0483,
            0x0143,
            0x0144,
            0x00AA,
        ]@.contains(packet.opcode)),
    ensures
        before.after(packet, heard, now) == before,
{
    let known = [
        0x00A9u16,
        0x01F6,
        0x00DD,
        0x0051,
        0x0061,
        0x0096,
        0x03B3,
        0x012A,
        0x0134,
        0x0131,
        0x0132,
        0x0130,
        0x014A,
        0x0480,
        0x0483,
        0x0143,
        0x0144,
        0x00AA,
    ]@;
    assert forall|i: int| 0 <= i < 18 implies known[i] != packet.opcode by {
        assert(!known.contains(packet.opcode));
    }
    assert(known[0] == 0x00A9 && known[1] == 0x01F6 && known[2] == 0x00DD && known[3] == 0x0051);
    assert(known[4] == 0x0061 && known[5] == 0x0096 && known[6] == 0x03B3 && known[7] == 0x012A);
    assert(known[8] == 0x0134 && known[9] == 0x0131 && known[10] == 0x0132 && known[11] == 0x0130);
    assert(known[12] == 0x014A && known[13] == 0x0480 && known[14] == 0x0483 && known[15]
        == 0x0143);
    assert(known[16] == 0x0144 && known[17] == 0x00AA);
}

/// Somebody or something that moves and is not in view is counted, and nothing
/// is invented.
pub proof fn lemma_a_move_of_nobody_is_counted<C, T>(
    before: Progress<C, T>,
    packet: PacketView,
    heard: Heard<C, T>,
    now: Moment,
)
    requires
        (packet.opcode == 0x00DD && monster_move(packet.body) is Ok
            && !before.world.entities.contains_key(monster_move(packet.body)->Ok_0.guid)) || (
        relayed_movement(packet.opcode) && relayed(packet.body) is Ok
            && !before.world.entities.contains_key(relayed(packet.body)->Ok_0.0)),
    ensures
        before.after(packet, heard, now).world == (WorldStateView {
            stats: crate::state::Stats {
                orphaned: bumped(before.world.stats.orphaned),
                ..before.world.stats
            },
            ..before.world
        }),
{
}

/// The blocks that are handed out are those of the updates that decode, plain
/// or compressed, in the order they arrived, and no others.
pub proof fn lemma_blocks_are_handed_out_in_order(
    first: Seq<PacketView>,
    second: Seq<PacketView>,
    packet: PacketView,
)
    ensures
        blocks_of(first + second) == blocks_of(first) + blocks_of(second),
        blocks_of(seq![packet]) == if packet.opcode == 0x00A9 && update_object(packet.body) is Ok {
            update_object(packet.body)->Ok_0
        } else if packet.opcode == 0x01F6 && compressed_update_object(packet.body) is Ok {
            compressed_update_object(packet.body)->Ok_0
        } else {
            seq![]
        },
    decreases second.len(),
{
    let one = seq![packet];
    assert(one.drop_last() =~= seq![]);
    assert(blocks_of(one.drop_last()) == Seq::<BlockView>::empty());
    assert(blocks_of(one) =~= blocks_in(packet));
    if second.len() == 0 {
        assert(first + second =~= first);
        assert(blocks_of(first) + blocks_of(second) =~= blocks_of(first));
    } else {
        assert((first + second).drop_last() =~= first + second.drop_last());
        lemma_blocks_are_handed_out_in_order(first, second.drop_last(), packet);
        assert(blocks_of(first + second) =~= blocks_of(first) + blocks_of(second));
    }
}

/// The players are the objects of that kind.
pub proof fn lemma_players_are_players(world: WorldStateView, guid: u64)
    requires
        world.entities.dom().finite(),
    ensures
        player_guids(world.entities).contains(guid) <==> world.entities.contains_key(guid)
            && world.entities[guid].object_type == ObjectType::Player,
{
    let keep = |guid: u64| world.entities[guid].object_type == ObjectType::Player;
    lemma_listing(world.entities.dom());
    let all = listing(world.entities.dom());
    lemma_filter_members(all, keep, guid);
    assert(all.to_set().contains(guid) <==> all.contains(guid));
}

/// An object faces along its path until it has arrived, and then as its move
/// asked, or still along its path where it asked nothing. One that follows no
/// path faces as it was told, or as it stands.
pub proof fn lemma_an_object_faces_along_its_path(entity: EntityView, now: Moment)
    ensures
        ({
            let arrived = now.nanos - entity.move_started->0.nanos >= 1_000_000
                * entity.move_duration->0;
            let course = Heading::Course { from: entity.position->0, to: entity.destination->0 };
            let has_path = entity.position is Some && entity.destination is Some
                && entity.move_duration is Some && entity.move_started is Some;
            &&& has_path && entity.move_started->0.nanos <= now.nanos ==> entity.heading(now)
                == match entity.arrival_facing {
                Some(MoveFacing::Angle(bits)) => if arrived {
                    Heading::Angle(bits)
                } else {
                    course
                },
                Some(MoveFacing::Spot { x, y, z }) => if arrived {
                    Heading::Spot { x, y, z }
                } else {
                    course
                },
                Some(MoveFacing::Target(guid)) => if arrived {
                    Heading::Target(guid)
                } else {
                    course
                },
                None => course,
            }
            &&& entity.destination is None && entity.bearing is Some ==> entity.heading(now)
                == entity.bearing->0
            &&& entity.destination is None && entity.bearing is None && entity.position is Some
                ==> entity.heading(now) == Heading::Angle(entity.position->0.orientation)
            &&& entity.destination is None && entity.position is Some ==> entity.pose(now)
                is Some && entity.pose(now)->0.from == entity.position->0 && entity.pose(
                now,
            )->0.travel is None
            &&& entity.position is None ==> entity.pose(now) is None
            &&& entity.pose(now) matches Some(pose) ==> pose.heading == entity.heading(now)
        }),
{
}

} // verus!
