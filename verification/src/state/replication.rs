//! Folding what a server sends into the world.
//!
//! There is one table from opcodes to what they do, because two would drift
//! apart: a packet that is wired into one and not the other freezes whatever
//! it should have moved.
use crate::client::{Packet, PacketView};
use crate::combat::{
    attack_start, attack_stop, melee_swing, parse_attack_start, parse_attack_stop,
    parse_melee_swing, MeleeSwing,
};
use crate::cursor::{views, Cursor};
use crate::opcode::{is_relayed_movement, relayed_movement, server};
use crate::protocol::{parse_movement, relayed, Error, Reader};
use crate::query::{
    creature_query_response, name_query_response, parse_creature_query_response,
    parse_name_query_response,
};
use crate::spell::{
    cast_failed, initial_spells, parse_cast_failed, parse_initial_spells, parse_spell_cooldown,
    parse_spell_go, parse_spell_start, spell_cooldown, spell_go, spell_start, time_left,
    CastFailed, SpellCooldown, SpellCooldownEvent,
};
use crate::state::entity::{bump, bumped, Cast, Cooldown, EntityView, Moment};
use crate::state::{WorldState, WorldStateView};
use crate::update::{
    compressed_update_object, decompress_update_object, decompressed, monster_move,
    parse_compressed_update_object, parse_monster_move, parse_power_update, parse_update_object,
    power_field, power_update, read_guid, read_packed_guid, update_object, Block, BlockView,
};
use crate::wire::push_all;
use vstd::prelude::*;

verus! {

/// What one batch of packets did to a world.
#[derive(Debug)]
pub struct Replication<C, T> {
    pub object_updates: usize,
    pub monster_moves: usize,
    pub relayed_moves: usize,
    pub destroys: usize,
    /// Names that arrived, which the world has already.
    pub names: usize,
    /// Spells in the spellbook, if it arrived.
    pub spells: usize,
    /// Casts that began.
    pub casts_started: usize,
    /// Casts that landed and were in progress.
    pub casts_landed: usize,
    /// Casts that the server refused.
    pub cast_failures: Vec<CastFailed>,
    /// Chat that was read. It is a stream and no state, so the caller has it.
    pub chat: Vec<C>,
    /// Melee swings, in the order they arrived.
    pub swings: Vec<MeleeSwing>,
    /// Powers that changed on their own.
    pub power_updates: usize,
    /// Threat lists that were read.
    pub threat: Vec<T>,
    /// Fights that began.
    pub attacks_started: usize,
    /// Fights that ended and were known of.
    pub attacks_stopped: usize,
    /// Packets that did not decode: the opcode, the error, and the payload.
    pub failures: Vec<(u16, Error, Result<Vec<u8>, Error>)>,
}

/// A [`Replication`] as a mathematical value.
#[verifier::ext_equal]
pub struct ReplicationView<C, T> {
    pub object_updates: usize,
    pub monster_moves: usize,
    pub relayed_moves: usize,
    pub destroys: usize,
    pub names: usize,
    pub spells: usize,
    pub casts_started: usize,
    pub casts_landed: usize,
    pub cast_failures: Seq<CastFailed>,
    pub chat: Seq<C>,
    pub swings: Seq<MeleeSwing>,
    pub power_updates: usize,
    pub threat: Seq<T>,
    pub attacks_started: usize,
    pub attacks_stopped: usize,
    pub failures: Seq<(u16, Error, Result<Seq<u8>, Error>)>,
}

/// A payload as a mathematical value.
pub open spec fn payload_view(payload: Result<Vec<u8>, Error>) -> Result<Seq<u8>, Error> {
    match payload {
        Ok(bytes) => Ok(bytes@),
        Err(error) => Err(error),
    }
}

/// A list of failures as a mathematical value.
pub open spec fn failure_views(
    failures: Seq<(u16, Error, Result<Vec<u8>, Error>)>,
) -> Seq<(u16, Error, Result<Seq<u8>, Error>)> {
    Seq::new(
        failures.len(),
        |i: int| (failures[i].0, failures[i].1, payload_view(failures[i].2)),
    )
}

impl<C, T> View for Replication<C, T> {
    type V = ReplicationView<C, T>;

    open spec fn view(&self) -> ReplicationView<C, T> {
        ReplicationView {
            object_updates: self.object_updates,
            monster_moves: self.monster_moves,
            relayed_moves: self.relayed_moves,
            destroys: self.destroys,
            names: self.names,
            spells: self.spells,
            casts_started: self.casts_started,
            casts_landed: self.casts_landed,
            cast_failures: self.cast_failures@,
            chat: self.chat@,
            swings: self.swings@,
            power_updates: self.power_updates,
            threat: self.threat@,
            attacks_started: self.attacks_started,
            attacks_stopped: self.attacks_stopped,
            failures: failure_views(self.failures@),
        }
    }
}

/// A batch in which nothing happened.
pub open spec fn quiet<C, T>() -> ReplicationView<C, T> {
    ReplicationView {
        object_updates: 0,
        monster_moves: 0,
        relayed_moves: 0,
        destroys: 0,
        names: 0,
        spells: 0,
        casts_started: 0,
        casts_landed: 0,
        cast_failures: seq![],
        chat: seq![],
        swings: seq![],
        power_updates: 0,
        threat: seq![],
        attacks_started: 0,
        attacks_stopped: 0,
        failures: seq![],
    }
}

impl<C, T> ReplicationView<C, T> {
    /// With a packet that did not decode.
    pub open spec fn refusing(
        self,
        opcode: u16,
        error: Error,
        payload: Result<Seq<u8>, Error>,
    ) -> ReplicationView<C, T> {
        ReplicationView { failures: self.failures.push((opcode, error, payload)), ..self }
    }
}

impl<C, T> Replication<C, T> {
    fn new() -> (r: Self)
        ensures
            r@ == quiet::<C, T>(),
    {
        let r = Replication {
            object_updates: 0,
            monster_moves: 0,
            relayed_moves: 0,
            destroys: 0,
            names: 0,
            spells: 0,
            casts_started: 0,
            casts_landed: 0,
            cast_failures: Vec::new(),
            chat: Vec::new(),
            swings: Vec::new(),
            power_updates: 0,
            threat: Vec::new(),
            attacks_started: 0,
            attacks_stopped: 0,
            failures: Vec::new(),
        };
        assert(r@ =~= quiet::<C, T>());
        r
    }

    fn refuse(&mut self, opcode: u16, error: Error, payload: Result<Vec<u8>, Error>)
        ensures
            final(self)@ == old(self)@.refusing(opcode, error, payload_view(payload)),
    {
        self.failures.push((opcode, error, payload));
        assert(self@ =~= old(self)@.refusing(opcode, error, payload_view(payload)));
    }
}

fn copied(bytes: &Vec<u8>) -> (r: Vec<u8>)
    ensures
        r@ == bytes@,
{
    let mut out: Vec<u8> = Vec::new();
    push_all(&mut out, bytes);
    assert(out@ =~= bytes@);
    out
}

/// What reading a packet as chat, or as a threat list, came to.
pub enum Heard<C, T> {
    Chat(Result<C, Error>),
    Threat(Result<T, Error>),
    /// The packet is neither.
    Nothing,
}

/// Whether an opcode is that of a line of chat.
pub open spec fn is_chat(opcode: u16) -> bool {
    opcode == server::MESSAGECHAT || opcode == server::GM_MESSAGECHAT
}

/// Whether reading a body can come to an outcome.
pub open spec fn reads<R, F: Fn(&[u8]) -> Result<R, Error>>(
    read: F,
    body: Seq<u8>,
    outcome: Result<R, Error>,
) -> bool {
    exists|bytes: &[u8]| bytes@ == body && call_ensures(read, (bytes,), outcome)
}

/// Whether a reading takes every body.
pub open spec fn reads_all<R, F: Fn(&[u8]) -> Result<R, Error>>(read: F) -> bool {
    forall|bytes: &[u8]| call_requires(read, (bytes,))
}

/// Whether an outcome is that of reading one packet.
pub open spec fn heard_in<
    C,
    T,
    F: Fn(&[u8]) -> Result<C, Error>,
    G: Fn(&[u8]) -> Result<T, Error>,
>(packet: PacketView, heard: Heard<C, T>, chat: F, threat: G) -> bool {
    if is_chat(packet.opcode) {
        heard matches Heard::Chat(outcome) && reads(chat, packet.body, outcome)
    } else if packet.opcode == server::THREAT_UPDATE {
        heard matches Heard::Threat(outcome) && reads(threat, packet.body, outcome)
    } else {
        heard is Nothing
    }
}

/// Whether outcomes are those of reading a batch, one for each packet.
pub open spec fn heard_from<
    C,
    T,
    F: Fn(&[u8]) -> Result<C, Error>,
    G: Fn(&[u8]) -> Result<T, Error>,
>(packets: Seq<PacketView>, heard: Seq<Heard<C, T>>, chat: F, threat: G) -> bool {
    &&& heard.len() == packets.len()
    &&& forall|i: int|
        0 <= i < packets.len() ==> heard_in(packets[i], #[trigger] heard[i], chat, threat)
}

/// A world and what has been done to it so far in a batch.
#[verifier::ext_equal]
pub struct Progress<C, T> {
    pub world: WorldStateView,
    pub report: ReplicationView<C, T>,
}

/// Cooldowns with those of a login folded in. One without an end has no time
/// to count.
pub open spec fn seeded(
    cooldowns: Map<u32, Cooldown>,
    list: Seq<SpellCooldown>,
    now: Moment,
) -> Map<u32, Cooldown>
    decreases list.len(),
{
    if list.len() == 0 {
        cooldowns
    } else {
        let before = seeded(cooldowns, list.drop_last(), now);
        match time_left(list.last()) {
            Some(duration_ms) => before.insert(
                list.last().spell_id,
                Cooldown { started: now, duration_ms },
            ),
            None => before,
        }
    }
}

/// Cooldowns with those that casts began folded in.
pub open spec fn begun(
    cooldowns: Map<u32, Cooldown>,
    list: Seq<SpellCooldownEvent>,
    now: Moment,
) -> Map<u32, Cooldown>
    decreases list.len(),
{
    if list.len() == 0 {
        cooldowns
    } else {
        begun(cooldowns, list.drop_last(), now).insert(
            list.last().spell_id,
            Cooldown { started: now, duration_ms: list.last().cooldown_ms },
        )
    }
}

impl<C, T> Progress<C, T> {
    /// With a packet that did not decode, which costs only itself.
    pub open spec fn refusing(self, packet: PacketView, error: Error) -> Progress<C, T> {
        Progress {
            report: self.report.refusing(packet.opcode, error, Ok(packet.body)),
            ..self
        }
    }

    /// An object update, plain or compressed. Of one that does not decode the
    /// payload is kept expanded, where it expands.
    pub open spec fn object_update(self, packet: PacketView) -> Progress<C, T> {
        let compressed = packet.opcode == server::COMPRESSED_UPDATE_OBJECT;
        let parsed = if compressed {
            compressed_update_object(packet.body)
        } else {
            update_object(packet.body)
        };
        match parsed {
            Ok(blocks) => Progress {
                world: self.world.with_blocks(blocks),
                report: ReplicationView {
                    object_updates: bumped(self.report.object_updates),
                    ..self.report
                },
            },
            Err(error) => Progress {
                report: self.report.refusing(
                    packet.opcode,
                    error,
                    if compressed {
                        decompressed(packet.body)
                    } else {
                        Ok(packet.body)
                    },
                ),
                ..self
            },
        }
    }

    pub open spec fn monster_move(self, packet: PacketView, now: Moment) -> Progress<C, T> {
        match monster_move(packet.body) {
            Ok(moved) => Progress {
                world: self.world.with_path(moved, now),
                report: ReplicationView {
                    monster_moves: bumped(self.report.monster_moves),
                    ..self.report
                },
            },
            Err(error) => self.refusing(packet, error),
        }
    }

    pub open spec fn relayed_move(self, packet: PacketView) -> Progress<C, T> {
        match relayed(packet.body) {
            Ok((mover, info)) => Progress {
                world: self.world.with_movement(mover, Some(info.position), Some(info)),
                report: ReplicationView {
                    relayed_moves: bumped(self.report.relayed_moves),
                    ..self.report
                },
            },
            Err(error) => self.refusing(packet, error),
        }
    }

    pub open spec fn player_name(self, packet: PacketView) -> Progress<C, T> {
        match name_query_response(packet.body) {
            Ok(answer) => Progress {
                world: WorldStateView {
                    names: self.world.names.with_player(answer),
                    ..self.world
                },
                report: ReplicationView { names: bumped(self.report.names), ..self.report },
            },
            Err(error) => self.refusing(packet, error),
        }
    }

    pub open spec fn creature_name(self, packet: PacketView) -> Progress<C, T> {
        match creature_query_response(packet.body) {
            Ok(answer) => Progress {
                world: WorldStateView {
                    names: self.world.names.with_creature(answer),
                    ..self.world
                },
                report: ReplicationView { names: bumped(self.report.names), ..self.report },
            },
            Err(error) => self.refusing(packet, error),
        }
    }

    pub open spec fn spellbook(self, packet: PacketView, now: Moment) -> Progress<C, T> {
        match initial_spells(packet.body) {
            Ok(book) => Progress {
                world: WorldStateView {
                    cooldowns: seeded(self.world.cooldowns, book.cooldowns, now),
                    spells: book,
                    ..self.world
                },
                report: ReplicationView { spells: book.spells.len() as usize, ..self.report },
            },
            Err(error) => self.refusing(packet, error),
        }
    }

    pub open spec fn cooldowns(self, packet: PacketView, now: Moment) -> Progress<C, T> {
        match spell_cooldown(packet.body) {
            Ok((_, list)) => Progress {
                world: WorldStateView {
                    cooldowns: begun(self.world.cooldowns, list, now),
                    ..self.world
                },
                ..self
            },
            Err(error) => self.refusing(packet, error),
        }
    }

    pub open spec fn cast_start(self, packet: PacketView, now: Moment) -> Progress<C, T> {
        match spell_start(packet.body) {
            Ok(start) => Progress {
                world: WorldStateView {
                    casts: self.world.casts.insert(
                        start.caster,
                        Cast {
                            spell_id: start.spell_id,
                            started: now,
                            duration_ms: start.cast_time_ms,
                        },
                    ),
                    ..self.world
                },
                report: ReplicationView {
                    casts_started: bumped(self.report.casts_started),
                    ..self.report
                },
            },
            Err(error) => self.refusing(packet, error),
        }
    }

    pub open spec fn cast_landing(self, packet: PacketView) -> Progress<C, T> {
        match spell_go(packet.body) {
            Ok(go) => Progress {
                world: WorldStateView { casts: self.world.casts.remove(go.caster), ..self.world },
                report: if self.world.casts.contains_key(go.caster) {
                    ReplicationView {
                        casts_landed: bumped(self.report.casts_landed),
                        ..self.report
                    }
                } else {
                    self.report
                },
            },
            Err(error) => self.refusing(packet, error),
        }
    }

    pub open spec fn cast_failure(self, packet: PacketView) -> Progress<C, T> {
        match cast_failed(packet.body) {
            Ok(failure) => Progress {
                report: ReplicationView {
                    cast_failures: self.report.cast_failures.push(failure),
                    ..self.report
                },
                ..self
            },
            Err(error) => self.refusing(packet, error),
        }
    }

    pub open spec fn swing(self, packet: PacketView) -> Progress<C, T> {
        match melee_swing(packet.body) {
            Ok(swing) => Progress {
                report: ReplicationView { swings: self.report.swings.push(swing), ..self.report },
                ..self
            },
            Err(error) => self.refusing(packet, error),
        }
    }

    /// A power is folded into its unit's own fields, so that there is one
    /// place that holds it. One past the power fields is refused, or it would
    /// overwrite whatever lies there.
    pub open spec fn power(self, packet: PacketView) -> Progress<C, T> {
        match power_update(packet.body) {
            Ok(power) => if !self.world.entities.contains_key(power.guid) {
                Progress { world: self.world.orphaned(), ..self }
            } else {
                match power_field(power.power_type) {
                    Some(field) => {
                        let entity = self.world.entities[power.guid];
                        Progress {
                            world: WorldStateView {
                                entities: self.world.entities.insert(
                                    power.guid,
                                    EntityView {
                                        fields: entity.fields.insert(field, power.value),
                                        updates: bumped(entity.updates),
                                        ..entity
                                    },
                                ),
                                ..self.world
                            },
                            report: ReplicationView {
                                power_updates: bumped(self.report.power_updates),
                                ..self.report
                            },
                        }
                    },
                    None => self.refusing(
                        packet,
                        Error::UnknownPowerType { got: power.power_type },
                    ),
                }
            },
            Err(error) => self.refusing(packet, error),
        }
    }

    pub open spec fn fight_start(self, packet: PacketView) -> Progress<C, T> {
        match attack_start(packet.body) {
            Ok(fight) => Progress {
                world: WorldStateView {
                    attacking: self.world.attacking.insert(fight.attacker, fight.victim),
                    ..self.world
                },
                report: ReplicationView {
                    attacks_started: bumped(self.report.attacks_started),
                    ..self.report
                },
            },
            Err(error) => self.refusing(packet, error),
        }
    }

    pub open spec fn fight_stop(self, packet: PacketView) -> Progress<C, T> {
        match attack_stop(packet.body) {
            Ok(fight) => Progress {
                world: WorldStateView {
                    attacking: self.world.attacking.remove(fight.attacker),
                    ..self.world
                },
                report: if self.world.attacking.contains_key(fight.attacker) {
                    ReplicationView {
                        attacks_stopped: bumped(self.report.attacks_stopped),
                        ..self.report
                    }
                } else {
                    self.report
                },
            },
            Err(error) => self.refusing(packet, error),
        }
    }

    pub open spec fn destroy(self, packet: PacketView) -> Progress<C, T> {
        let (guid, end) = read_guid(Cursor::over(packet.body, "SMSG_DESTROY_OBJECT"));
        match end.outcome(guid) {
            Ok(guid) => Progress {
                world: self.world.without(guid),
                report: ReplicationView { destroys: bumped(self.report.destroys), ..self.report },
            },
            Err(error) => self.refusing(packet, error),
        }
    }

    /// A line of chat, which goes to the caller where it was read.
    pub open spec fn chat(self, packet: PacketView, outcome: Result<C, Error>) -> Progress<C, T> {
        match outcome {
            Ok(message) => Progress {
                report: ReplicationView { chat: self.report.chat.push(message), ..self.report },
                ..self
            },
            Err(error) => self.refusing(packet, error),
        }
    }

    /// A threat list, which goes to the caller where it was read.
    pub open spec fn threat(self, packet: PacketView, outcome: Result<T, Error>) -> Progress<C, T> {
        match outcome {
            Ok(list) => Progress {
                report: ReplicationView { threat: self.report.threat.push(list), ..self.report },
                ..self
            },
            Err(error) => self.refusing(packet, error),
        }
    }

    /// With one packet folded in. A packet of another kind changes nothing.
    pub open spec fn after(
        self,
        packet: PacketView,
        heard: Heard<C, T>,
        now: Moment,
    ) -> Progress<C, T> {
        let opcode = packet.opcode;
        if opcode == server::UPDATE_OBJECT || opcode == server::COMPRESSED_UPDATE_OBJECT {
            self.object_update(packet)
        } else if opcode == server::MONSTER_MOVE {
            self.monster_move(packet, now)
        } else if relayed_movement(opcode) {
            self.relayed_move(packet)
        } else if opcode == server::NAME_QUERY_RESPONSE {
            self.player_name(packet)
        } else if opcode == server::CREATURE_QUERY_RESPONSE {
            self.creature_name(packet)
        } else if is_chat(opcode) {
            self.chat(packet, heard->Chat_0)
        } else if opcode == server::INITIAL_SPELLS {
            self.spellbook(packet, now)
        } else if opcode == server::SPELL_COOLDOWN {
            self.cooldowns(packet, now)
        } else if opcode == server::SPELL_START {
            self.cast_start(packet, now)
        } else if opcode == server::SPELL_GO {
            self.cast_landing(packet)
        } else if opcode == server::ATTACKER_STATE_UPDATE {
            self.swing(packet)
        } else if opcode == server::POWER_UPDATE {
            self.power(packet)
        } else if opcode == server::THREAT_UPDATE {
            self.threat(packet, heard->Threat_0)
        } else if opcode == server::ATTACK_START {
            self.fight_start(packet)
        } else if opcode == server::ATTACK_STOP {
            self.fight_stop(packet)
        } else if opcode == server::CAST_FAILED {
            self.cast_failure(packet)
        } else if opcode == server::DESTROY_OBJECT {
            self.destroy(packet)
        } else {
            self
        }
    }

    /// With a batch folded in, one packet after the other.
    pub open spec fn after_all(
        self,
        packets: Seq<PacketView>,
        heard: Seq<Heard<C, T>>,
        now: Moment,
    ) -> Progress<C, T>
        decreases packets.len(),
    {
        if packets.len() == 0 {
            self
        } else {
            self.after_all(packets.drop_last(), heard.drop_last(), now).after(
                packets.last(),
                heard.last(),
                now,
            )
        }
    }
}

/// The blocks of a packet, where it is an object update that decodes.
pub open spec fn blocks_in(packet: PacketView) -> Seq<BlockView> {
    let parsed = if packet.opcode == server::UPDATE_OBJECT {
        update_object(packet.body)
    } else if packet.opcode == server::COMPRESSED_UPDATE_OBJECT {
        compressed_update_object(packet.body)
    } else {
        Ok(seq![])
    };
    match parsed {
        Ok(blocks) => blocks,
        Err(_) => seq![],
    }
}

/// The blocks of a batch, in the order they arrived.
pub open spec fn blocks_of(packets: Seq<PacketView>) -> Seq<BlockView>
    decreases packets.len(),
{
    if packets.len() == 0 {
        seq![]
    } else {
        blocks_of(packets.drop_last()) + blocks_in(packets.last())
    }
}

/// A world and a report as one.
spec fn progress<C, T>(world: &WorldState, report: &Replication<C, T>) -> Progress<C, T> {
    Progress { world: world@, report: report@ }
}

impl WorldState {
    fn fold_object_update<C, T>(
        &mut self,
        packet: &Packet,
        report: &mut Replication<C, T>,
        blocks_out: &mut Vec<Block>,
        keep: bool,
    )
        requires
            packet.opcode == server::UPDATE_OBJECT || packet.opcode
                == server::COMPRESSED_UPDATE_OBJECT,
        ensures
            progress(final(self), final(report)) == progress(old(self), old(report)).object_update(
                packet@,
            ),
            keep ==> views(final(blocks_out)@) == views(old(blocks_out)@) + blocks_in(packet@),
            !keep ==> final(blocks_out)@ == old(blocks_out)@,
    {
        let compressed: bool = packet.opcode == server::COMPRESSED_UPDATE_OBJECT;
        let parsed = if compressed {
            parse_compressed_update_object(&packet.body)
        } else {
            parse_update_object(&packet.body)
        };
        match parsed {
            Ok(mut blocks) => {
                report.object_updates = bump(report.object_updates);
                self.apply(&blocks);
                assert(views(old(blocks_out)@) + views(blocks@) =~= views(
                    old(blocks_out)@ + blocks@,
                ));
                if keep {
                    blocks_out.append(&mut blocks);
                }
            },
            Err(error) => {
                let payload = if compressed {
                    decompress_update_object(&packet.body)
                } else {
                    Ok(copied(&packet.body))
                };
                report.refuse(packet.opcode, error, payload);
                assert(views(old(blocks_out)@) + seq![] =~= views(old(blocks_out)@));
            },
        }
    }

    fn fold_monster_move<C, T>(&mut self, packet: &Packet, report: &mut Replication<C, T>, now: Moment)
        ensures
            progress(final(self), final(report)) == progress(old(self), old(report)).monster_move(
                packet@, now,
            ),
    {
        match parse_monster_move(&packet.body) {
            Ok(moved) => {
                report.monster_moves = bump(report.monster_moves);
                self.apply_monster_move(&moved, now);
            },
            Err(error) => report.refuse(packet.opcode, error, Ok(copied(&packet.body))),
        }
        assert(progress(self, report) =~= progress(old(self), old(report)).monster_move(packet@, now));
    }

    fn fold_relayed_move<C, T>(&mut self, packet: &Packet, report: &mut Replication<C, T>)
        ensures
            progress(final(self), final(report)) == progress(old(self), old(report)).relayed_move(
                packet@,
            ),
    {
        match parse_movement(&packet.body) {
            Ok((mover, info)) => {
                report.relayed_moves = bump(report.relayed_moves);
                self.apply_relayed_movement(mover, &info);
            },
            Err(error) => report.refuse(packet.opcode, error, Ok(copied(&packet.body))),
        }
        assert(progress(self, report) =~= progress(old(self), old(report)).relayed_move(packet@));
    }

    fn fold_player_name<C, T>(&mut self, packet: &Packet, report: &mut Replication<C, T>)
        ensures
            progress(final(self), final(report)) == progress(old(self), old(report)).player_name(
                packet@,
            ),
    {
        match parse_name_query_response(&packet.body) {
            Ok(answer) => {
                report.names = bump(report.names);
                self.names.apply_player(answer);
            },
            Err(error) => report.refuse(packet.opcode, error, Ok(copied(&packet.body))),
        }
        assert(progress(self, report) =~= progress(old(self), old(report)).player_name(packet@));
    }

    fn fold_creature_name<C, T>(&mut self, packet: &Packet, report: &mut Replication<C, T>)
        ensures
            progress(final(self), final(report)) == progress(old(self), old(report)).creature_name(
                packet@,
            ),
    {
        match parse_creature_query_response(&packet.body) {
            Ok(answer) => {
                report.names = bump(report.names);
                self.names.apply_creature(answer);
            },
            Err(error) => report.refuse(packet.opcode, error, Ok(copied(&packet.body))),
        }
        assert(progress(self, report) =~= progress(old(self), old(report)).creature_name(packet@));
    }

    fn fold_spellbook<C, T>(&mut self, packet: &Packet, report: &mut Replication<C, T>, now: Moment)
        ensures
            progress(final(self), final(report)) == progress(old(self), old(report)).spellbook(
                packet@, now,
            ),
    {
        match parse_initial_spells(&packet.body) {
            Ok(book) => {
                report.spells = book.spells.len();
                self.seed_cooldowns(&book.cooldowns, now);
                self.spells = book;
            },
            Err(error) => report.refuse(packet.opcode, error, Ok(copied(&packet.body))),
        }
        assert(progress(self, report) =~= progress(old(self), old(report)).spellbook(packet@, now));
    }

    fn seed_cooldowns(&mut self, list: &Vec<SpellCooldown>, now: Moment)
        ensures
            final(self)@ == (WorldStateView {
                cooldowns: seeded(old(self)@.cooldowns, list@, now),
                ..old(self)@
            }),
    {
        broadcast use vstd::std_specs::hash::group_hash_axioms;

        for i in 0..list.len()
            invariant
                self@ == (WorldStateView {
                    cooldowns: seeded(old(self)@.cooldowns, list@.take(i as int), now),
                    ..old(self)@
                }),
        {
            assert(list@.take(i + 1).drop_last() =~= list@.take(i as int));
            if let Some(duration_ms) = list[i].remaining_ms() {
                self.cooldowns.insert(list[i].spell_id, Cooldown { started: now, duration_ms });
            }
        }
        assert(list@.take(list@.len() as int) =~= list@);
    }

    fn begin_cooldowns(&mut self, list: &Vec<SpellCooldownEvent>, now: Moment)
        ensures
            final(self)@ == (WorldStateView {
                cooldowns: begun(old(self)@.cooldowns, list@, now),
                ..old(self)@
            }),
    {
        broadcast use vstd::std_specs::hash::group_hash_axioms;

        for i in 0..list.len()
            invariant
                self@ == (WorldStateView {
                    cooldowns: begun(old(self)@.cooldowns, list@.take(i as int), now),
                    ..old(self)@
                }),
        {
            assert(list@.take(i + 1).drop_last() =~= list@.take(i as int));
            self.cooldowns.insert(
                list[i].spell_id,
                Cooldown { started: now, duration_ms: list[i].cooldown_ms },
            );
        }
        assert(list@.take(list@.len() as int) =~= list@);
    }

    fn fold_cooldowns<C, T>(&mut self, packet: &Packet, report: &mut Replication<C, T>, now: Moment)
        ensures
            progress(final(self), final(report)) == progress(old(self), old(report)).cooldowns(
                packet@, now,
            ),
    {
        match parse_spell_cooldown(&packet.body) {
            Ok((_caster, list)) => self.begin_cooldowns(&list, now),
            Err(error) => report.refuse(packet.opcode, error, Ok(copied(&packet.body))),
        }
        assert(progress(self, report) =~= progress(old(self), old(report)).cooldowns(packet@, now));
    }

    fn fold_cast_start<C, T>(&mut self, packet: &Packet, report: &mut Replication<C, T>, now: Moment)
        ensures
            progress(final(self), final(report)) == progress(old(self), old(report)).cast_start(
                packet@, now,
            ),
    {
        broadcast use vstd::std_specs::hash::group_hash_axioms;

        match parse_spell_start(&packet.body) {
            Ok(start) => {
                report.casts_started = bump(report.casts_started);
                self.casts.insert(
                    start.caster,
                    Cast {
                        spell_id: start.spell_id,
                        started: now,
                        duration_ms: start.cast_time_ms,
                    },
                );
            },
            Err(error) => report.refuse(packet.opcode, error, Ok(copied(&packet.body))),
        }
        assert(progress(self, report) =~= progress(old(self), old(report)).cast_start(packet@, now));
    }

    fn fold_cast_landing<C, T>(&mut self, packet: &Packet, report: &mut Replication<C, T>)
        ensures
            progress(final(self), final(report)) == progress(old(self), old(report)).cast_landing(
                packet@,
            ),
    {
        broadcast use vstd::std_specs::hash::group_hash_axioms;

        match parse_spell_go(&packet.body) {
            Ok(go) => {
                if self.casts.remove(&go.caster).is_some() {
                    report.casts_landed = bump(report.casts_landed);
                }
            },
            Err(error) => report.refuse(packet.opcode, error, Ok(copied(&packet.body))),
        }
        assert(progress(self, report) =~= progress(old(self), old(report)).cast_landing(packet@));
    }

    fn fold_cast_failure<C, T>(&mut self, packet: &Packet, report: &mut Replication<C, T>)
        ensures
            progress(final(self), final(report)) == progress(old(self), old(report)).cast_failure(
                packet@,
            ),
    {
        match parse_cast_failed(&packet.body) {
            Ok(failure) => report.cast_failures.push(failure),
            Err(error) => report.refuse(packet.opcode, error, Ok(copied(&packet.body))),
        }
        assert(progress(self, report) =~= progress(old(self), old(report)).cast_failure(packet@));
    }

    fn fold_swing<C, T>(&mut self, packet: &Packet, report: &mut Replication<C, T>)
        ensures
            progress(final(self), final(report)) == progress(old(self), old(report)).swing(
                packet@,
            ),
    {
        match parse_melee_swing(&packet.body) {
            Ok(swing) => report.swings.push(swing),
            Err(error) => report.refuse(packet.opcode, error, Ok(copied(&packet.body))),
        }
        assert(progress(self, report) =~= progress(old(self), old(report)).swing(packet@));
    }

    fn fold_power<C, T>(&mut self, packet: &Packet, report: &mut Replication<C, T>)
        ensures
            progress(final(self), final(report)) == progress(old(self), old(report)).power(
                packet@,
            ),
    {
        match parse_power_update(&packet.body) {
            Ok(power) => match (self.entities.take(power.guid), power.field()) {
                (Some(mut entity), Some(field)) => {
                    entity.fields.set(field, power.value);
                    entity.updates = bump(entity.updates);
                    self.entities.put(entity);
                    report.power_updates = bump(report.power_updates);
                },
                (Some(entity), None) => {
                    self.entities.put(entity);
                    report.refuse(
                        packet.opcode,
                        Error::UnknownPowerType { got: power.power_type },
                        Ok(copied(&packet.body)),
                    );
                },
                (None, _) => {
                    self.stats.orphaned = bump(self.stats.orphaned);
                },
            },
            Err(error) => report.refuse(packet.opcode, error, Ok(copied(&packet.body))),
        }
        assert(progress(self, report) =~= progress(old(self), old(report)).power(packet@));
    }

    fn fold_fight_start<C, T>(&mut self, packet: &Packet, report: &mut Replication<C, T>)
        ensures
            progress(final(self), final(report)) == progress(old(self), old(report)).fight_start(
                packet@,
            ),
    {
        broadcast use vstd::std_specs::hash::group_hash_axioms;

        match parse_attack_start(&packet.body) {
            Ok(fight) => {
                report.attacks_started = bump(report.attacks_started);
                self.attacking.insert(fight.attacker, fight.victim);
            },
            Err(error) => report.refuse(packet.opcode, error, Ok(copied(&packet.body))),
        }
        assert(progress(self, report) =~= progress(old(self), old(report)).fight_start(packet@));
    }

    fn fold_fight_stop<C, T>(&mut self, packet: &Packet, report: &mut Replication<C, T>)
        ensures
            progress(final(self), final(report)) == progress(old(self), old(report)).fight_stop(
                packet@,
            ),
    {
        broadcast use vstd::std_specs::hash::group_hash_axioms;

        match parse_attack_stop(&packet.body) {
            Ok(fight) => {
                if self.attacking.remove(&fight.attacker).is_some() {
                    report.attacks_stopped = bump(report.attacks_stopped);
                }
            },
            Err(error) => report.refuse(packet.opcode, error, Ok(copied(&packet.body))),
        }
        assert(progress(self, report) =~= progress(old(self), old(report)).fight_stop(packet@));
    }

    fn fold_destroy<C, T>(&mut self, packet: &Packet, report: &mut Replication<C, T>)
        ensures
            progress(final(self), final(report)) == progress(old(self), old(report)).destroy(
                packet@,
            ),
    {
        let mut reader = Reader::new(&packet.body, "SMSG_DESTROY_OBJECT");
        match read_packed_guid(&mut reader) {
            Ok(guid) => {
                report.destroys = bump(report.destroys);
                self.remove(guid);
            },
            Err(error) => report.refuse(packet.opcode, error, Ok(copied(&packet.body))),
        }
    }

    fn fold_chat<C, T, F: Fn(&[u8]) -> Result<C, Error>>(
        &self,
        packet: &Packet,
        report: &mut Replication<C, T>,
        chat: &F,
    ) -> (heard: Ghost<Heard<C, T>>)
        requires
            reads_all(*chat),
        ensures
            heard@ matches Heard::Chat(outcome) && reads(*chat, packet@.body, outcome),
            progress(self, final(report)) == progress(self, old(report)).chat(
                packet@,
                heard@->Chat_0,
            ),
    {
        let outcome = chat(packet.body.as_slice());
        let ghost heard = Heard::<C, T>::Chat(outcome);
        assert(reads(*chat, packet@.body, outcome));
        match outcome {
            Ok(message) => report.chat.push(message),
            Err(error) => report.refuse(packet.opcode, error, Ok(copied(&packet.body))),
        }
        assert(progress(self, report) =~= progress(self, old(report)).chat(
            packet@,
            heard->Chat_0,
        ));
        Ghost(heard)
    }

    fn fold_threat<C, T, G: Fn(&[u8]) -> Result<T, Error>>(
        &self,
        packet: &Packet,
        report: &mut Replication<C, T>,
        threat: &G,
    ) -> (heard: Ghost<Heard<C, T>>)
        requires
            reads_all(*threat),
        ensures
            heard@ matches Heard::Threat(outcome) && reads(*threat, packet@.body, outcome),
            progress(self, final(report)) == progress(self, old(report)).threat(
                packet@,
                heard@->Threat_0,
            ),
    {
        let outcome = threat(packet.body.as_slice());
        let ghost heard = Heard::<C, T>::Threat(outcome);
        assert(reads(*threat, packet@.body, outcome));
        match outcome {
            Ok(list) => report.threat.push(list),
            Err(error) => report.refuse(packet.opcode, error, Ok(copied(&packet.body))),
        }
        assert(progress(self, report) =~= progress(self, old(report)).threat(
            packet@,
            heard->Threat_0,
        ));
        Ghost(heard)
    }

    fn fold_packet<
        C,
        T,
        F: Fn(&[u8]) -> Result<C, Error>,
        G: Fn(&[u8]) -> Result<T, Error>,
    >(
        &mut self,
        packet: &Packet,
        report: &mut Replication<C, T>,
        blocks_out: &mut Vec<Block>,
        keep: bool,
        now: Moment,
        chat: &F,
        threat: &G,
    ) -> (heard: Ghost<Heard<C, T>>)
        requires
            reads_all(*chat),
            reads_all(*threat),
        ensures
            heard_in(packet@, heard@, *chat, *threat),
            progress(final(self), final(report)) == progress(old(self), old(report)).after(
                packet@,
                heard@,
                now,
            ),
            keep ==> views(final(blocks_out)@) == views(old(blocks_out)@) + blocks_in(packet@),
            !keep ==> final(blocks_out)@ == old(blocks_out)@,
    {
        let opcode: u16 = packet.opcode;
        if opcode == server::UPDATE_OBJECT || opcode == server::COMPRESSED_UPDATE_OBJECT {
            self.fold_object_update(packet, report, blocks_out, keep);
            return Ghost(Heard::Nothing);
        }
        assert(views(blocks_out@) + seq![] =~= views(blocks_out@));
        if opcode == server::MONSTER_MOVE {
            self.fold_monster_move(packet, report, now);
        } else if is_relayed_movement(opcode) {
            self.fold_relayed_move(packet, report);
        } else if opcode == server::NAME_QUERY_RESPONSE {
            self.fold_player_name(packet, report);
        } else if opcode == server::CREATURE_QUERY_RESPONSE {
            self.fold_creature_name(packet, report);
        } else if opcode == server::MESSAGECHAT || opcode == server::GM_MESSAGECHAT {
            return self.fold_chat(packet, report, chat);
        } else if opcode == server::INITIAL_SPELLS {
            self.fold_spellbook(packet, report, now);
        } else if opcode == server::SPELL_COOLDOWN {
            self.fold_cooldowns(packet, report, now);
        } else if opcode == server::SPELL_START {
            self.fold_cast_start(packet, report, now);
        } else if opcode == server::SPELL_GO {
            self.fold_cast_landing(packet, report);
        } else if opcode == server::ATTACKER_STATE_UPDATE {
            self.fold_swing(packet, report);
        } else if opcode == server::POWER_UPDATE {
            self.fold_power(packet, report);
        } else if opcode == server::THREAT_UPDATE {
            return self.fold_threat(packet, report, threat);
        } else if opcode == server::ATTACK_START {
            self.fold_fight_start(packet, report);
        } else if opcode == server::ATTACK_STOP {
            self.fold_fight_stop(packet, report);
        } else if opcode == server::CAST_FAILED {
            self.fold_cast_failure(packet, report);
        } else if opcode == server::DESTROY_OBJECT {
            self.fold_destroy(packet, report);
        }
        Ghost(Heard::Nothing)
    }

    /// Folds every packet of a batch into the world.
    ///
    /// A packet that does not decode costs only itself and is reported, or a
    /// removal that went missing would leave a ghost that nobody counted. The
    /// blocks of the object updates go to `blocks_out` as well, where one is
    /// given. Whatever the batch starts is timed from `now`.
    ///
    /// Lines of chat and threat lists are events and no state, and what is in
    /// them is read by `chat` and `threat`: a GM's line by the same reading as
    /// anybody's. One that cannot be read is a packet that does not decode.
    pub fn replicate<C, T, F: Fn(&[u8]) -> Result<C, Error>, G: Fn(&[u8]) -> Result<T, Error>>(
        &mut self,
        packets: &[Packet],
        blocks_out: Option<&mut Vec<Block>>,
        now: Moment,
        chat: F,
        threat: G,
    ) -> (r: Replication<C, T>)
        requires
            reads_all(chat),
            reads_all(threat),
        ensures
            exists|heard: Seq<Heard<C, T>>|
                {
                    &&& #[trigger] heard_from(views(packets@), heard, chat, threat)
                    &&& (Progress { world: final(self)@, report: r@ }) == (Progress {
                        world: old(self)@,
                        report: quiet::<C, T>(),
                    }).after_all(views(packets@), heard, now)
                },
            blocks_out matches Some(out) ==> views(final(out)@) == views((*out)@) + blocks_of(
                views(packets@),
            ),
    {
        let mut report = Replication::new();
        let keep: bool = blocks_out.is_some();
        let mut blocks: Vec<Block> = Vec::new();
        let ghost mut heard: Seq<Heard<C, T>> = seq![];
        assert(views(blocks@) =~= seq![]);
        for i in 0..packets.len()
            invariant
                reads_all(chat),
                reads_all(threat),
                heard_from(views(packets@.take(i as int)), heard, chat, threat),
                progress(self, &report) == (Progress {
                    world: old(self)@,
                    report: quiet::<C, T>(),
                }).after_all(views(packets@.take(i as int)), heard, now),
                keep ==> views(blocks@) == blocks_of(views(packets@.take(i as int))),
        {
            let ghost before = heard;
            let ghost all = views(packets@.take(i + 1));
            assert(all.drop_last() =~= views(packets@.take(i as int)));
            assert(all.last() == packets@[i as int]@);
            let one = self.fold_packet(
                &packets[i],
                &mut report,
                &mut blocks,
                keep,
                now,
                &chat,
                &threat,
            );
            proof {
                heard = before.push(one@);
                assert(heard.drop_last() =~= before);
                assert forall|k: int| 0 <= k < all.len() implies heard_in(
                    all[k],
                    #[trigger] heard[k],
                    chat,
                    threat,
                ) by {
                    if k < i {
                        assert(all[k] == all.drop_last()[k]);
                        assert(heard[k] == before[k]);
                    }
                }
            }
        }
        assert(packets@.take(packets@.len() as int) =~= packets@);
        if let Some(out) = blocks_out {
            assert(views((*out)@ + blocks@) =~= views((*out)@) + views(blocks@));
            out.append(&mut blocks);
        }
        report
    }
}

} // verus!
