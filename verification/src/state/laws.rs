//! What holds of the replicated world, whatever is folded into it.
use crate::client::PacketView;
use crate::cursor::Cursor;
use crate::movement::MovementInfo;
use crate::opcode::server;
use crate::state::entity::{
    bumped, cast_done, heading_for, millis_between, Cast, EntityView, Heading,
    Moment,
};
use crate::state::replication::{Heard, Progress, ReplicationView};
use crate::state::{filed_rightly, fights_without, WorldStateView};
use crate::update::{
    compressed_update_object, fields, power_update, read_guid, update_object, BlockView,
    MonsterMoveView, MovementView, ObjectType, Position,
};
use vstd::prelude::*;

verus! {

/// A change of values leaves alone whatever it does not name: every other
/// field of the object, its place and its path, and every other object.
pub proof fn lemma_values_disturb_nothing_else(
    world: WorldStateView,
    guid: u64,
    changed: Map<u16, u32>,
    index: u16,
    other: u64,
)
    requires
        world.entities.contains_key(guid),
        other != guid,
    ensures
        ({
            let after = world.with_values(guid, changed);
            let (was, is) = (world.entities[guid], after.entities[guid]);
            &&& changed.contains_key(index) ==> is.fields.get(index) == changed.get(index)
            &&& !changed.contains_key(index) ==> is.fields.get(index) == was.fields.get(index)
            &&& is == (EntityView { fields: is.fields, updates: bumped(was.updates), ..was })
            &&& after.entities.dom() == world.entities.dom()
            &&& after.entities.get(other) == world.entities.get(other)
            &&& after.casts == world.casts
            &&& after.attacking == world.attacking
        }),
{
    assert(world.with_values(guid, changed).entities.dom() =~= world.entities.dom());
}

/// No change creates the object that it is about. One about an object that is
/// not there is counted, and changes nothing else.
pub proof fn lemma_orphans_are_not_invented(
    world: WorldStateView,
    guid: u64,
    changed: Map<u16, u32>,
    position: Option<Position>,
    info: Option<MovementInfo>,
    moved: MonsterMoveView,
    now: Moment,
)
    requires
        !world.entities.contains_key(guid),
        moved.guid == guid,
    ensures
        world.with_values(guid, changed) == world.orphaned(),
        world.with_movement(guid, position, info) == world.orphaned(),
        world.with_path(moved, now) == world.orphaned(),
        world.orphaned().entities == world.entities,
        world.orphaned().stats.orphaned == bumped(world.stats.orphaned),
{
}

/// An object that comes into view again is the same object: it is not
/// duplicated, and keeps every field that the new block does not carry.
pub proof fn lemma_recreating_merges(
    world: WorldStateView,
    guid: u64,
    object_type: ObjectType,
    movement: MovementView,
    carried: Map<u16, u32>,
    index: u16,
)
    requires
        world.entities.contains_key(guid),
    ensures
        ({
            let after = world.created(guid, object_type, movement, carried);
            let (was, is) = (world.entities[guid], after.entities[guid]);
            &&& after.entities.dom() == world.entities.dom()
            &&& after.stats.created == world.stats.created
            &&& after.stats.recreated == bumped(world.stats.recreated)
            &&& is.fields.get(index) == if carried.contains_key(index) {
                carried.get(index)
            } else {
                was.fields.get(index)
            }
            &&& movement.position is None ==> is.position == was.position && is.destination
                == was.destination
        }),
{
    assert(world.created(guid, object_type, movement, carried).entities.dom()
        =~= world.entities.dom());
}

/// A removal takes an object's cast with it, and every fight that it is in on
/// either side, and touches nothing else.
pub proof fn lemma_removal_leaves_no_trace(world: WorldStateView, guid: u64, other: u64)
    ensures
        ({
            let after = world.without(guid);
            &&& !after.entities.contains_key(guid)
            &&& !after.casts.contains_key(guid)
            &&& !after.attacking.contains_key(guid)
            &&& after.attacking.contains_key(other) ==> after.attacking[other] != guid
            &&& other != guid ==> after.entities.get(other) == world.entities.get(other)
            &&& other != guid ==> after.casts.get(other) == world.casts.get(other)
            &&& other != guid && world.attacking.contains_key(other) && world.attacking[other]
                != guid ==> after.attacking.contains_key(other) && after.attacking[other]
                == world.attacking[other]
        }),
{
}

/// A position that was reported supersedes a path that was predicted: from
/// then on the object is exactly there, at every moment.
pub proof fn lemma_reported_position_ends_a_path(
    world: WorldStateView,
    guid: u64,
    position: Position,
    info: Option<MovementInfo>,
    now: Moment,
)
    requires
        world.entities.contains_key(guid),
    ensures
        ({
            let entity = world.with_movement(guid, Some(position), info).entities[guid];
            &&& entity.destination is None
            &&& entity.move_duration is None
            &&& entity.move_started is None
            &&& entity.arrival_facing is None
            &&& !entity.moving(now)
            &&& entity.pose(now) matches Some(pose)
            &&& pose.from == position
            &&& pose.travel is None
            &&& pose.heading == Heading::Angle(position.orientation)
        }),
{
}

/// A creature sets out from the start of its path. It does not stand at the
/// end of it, and at the moment of setting out it has come no way.
pub proof fn lemma_a_path_begins_at_its_start(
    world: WorldStateView,
    moved: MonsterMoveView,
    now: Moment,
)
    requires
        world.entities.contains_key(moved.guid),
    ensures
        ({
            let entity = world.with_path(moved, now).entities[moved.guid];
            &&& entity.position matches Some(at)
            &&& at.x == moved.from.x && at.y == moved.from.y && at.z == moved.from.z
            &&& entity.destination == moved.to
            &&& moved.to is None ==> !entity.moving(now)
            &&& moved.to is Some ==> entity.moving(now) == (moved.duration > 0)
            &&& entity.pose(now) matches Some(pose)
            &&& pose.travel matches Some(travel) ==> travel.elapsed == 0 && travel.duration
                == moved.duration
        }),
{
}

/// A stop ends a path as a reported position does: from then on the creature
/// stands there, at every moment, and faces as the stop asked or, where it did
/// not, as it did when it came.
pub proof fn lemma_a_stop_ends_a_path(
    world: WorldStateView,
    moved: MonsterMoveView,
    now: Moment,
    later: Moment,
)
    requires
        world.entities.contains_key(moved.guid),
        moved.to is None,
    ensures
        ({
            let before = world.entities[moved.guid];
            let entity = world.with_path(moved, now).entities[moved.guid];
            &&& entity.destination is None
            &&& entity.move_duration is None
            &&& entity.move_started is None
            &&& entity.arrival_facing is None
            &&& !entity.moving(later)
            &&& entity.pose(later) matches Some(pose)
            &&& pose.from.x == moved.from.x && pose.from.y == moved.from.y && pose.from.z
                == moved.from.z
            &&& pose.travel is None
            &&& pose.heading == match moved.facing {
                Some(facing) => heading_for(facing),
                None => before.heading(now),
            }
        }),
{
}

/// While a creature travels it faces along its path. From its arrival on it
/// faces as its move asked, at every later moment.
pub proof fn lemma_arrival_facing(entity: EntityView, now: Moment, later: Moment)
    requires
        entity.has_path(),
        now.nanos <= later.nanos,
    ensures
        entity.moving(now) ==> entity.heading(now) is Course,
        !entity.moving(now) ==> !entity.moving(later),
        !entity.moving(now) && entity.arrival_facing is Some ==> entity.heading(later)
            == heading_for(entity.arrival_facing->0),
        !entity.moving(now) && entity.arrival_facing is None ==> entity.heading(later)
            == entity.heading(now),
{
    lemma_time_passes(entity.move_started->0, now, later);
}

/// How far an object has come never goes back, and never past the end.
pub proof fn lemma_travel_advances(entity: EntityView, now: Moment, later: Moment)
    requires
        entity.has_path(),
        now.nanos <= later.nanos,
    ensures
        ({
            let (here, there) = (entity.pose(now)->0.travel->0, entity.pose(later)->0.travel->0);
            &&& here.elapsed <= there.elapsed
            &&& there.elapsed <= there.duration
            &&& here.to == there.to
        }),
{
    lemma_time_passes(entity.move_started->0, now, later);
}

proof fn lemma_time_passes(from: Moment, now: Moment, later: Moment)
    requires
        now.nanos <= later.nanos,
    ensures
        millis_between(from, now) <= millis_between(from, later),
{
    if now.nanos > from.nanos {
        let (a, b) = (now.nanos - from.nanos, later.nanos - from.nanos);
        assert(a / 1_000_000 <= b / 1_000_000) by (nonlinear_arith)
            requires
                0 <= a <= b,
        ;
    }
}

/// A cast whose time has passed stays over.
pub proof fn lemma_a_cast_stays_over(cast: Cast, now: Moment, later: Moment)
    requires
        now.nanos <= later.nanos,
        cast_done(cast, now),
    ensures
        cast_done(cast, later),
{
    lemma_time_passes(cast.started, now, later);
}

/// Whether the counters account for every object that is in view.
pub open spec fn accounted(world: WorldStateView) -> bool {
    &&& world.entities.dom().finite()
    &&& world.entities.len() + world.stats.removed == world.stats.created
}

/// Whether the counters could still count.
pub open spec fn countable(world: WorldStateView) -> bool {
    world.stats.created < usize::MAX
}

proof fn lemma_removals_account(world: WorldStateView, guids: Seq<u64>)
    requires
        accounted(world),
        countable(world),
    ensures
        accounted(world.without_all(guids)),
        world.without_all(guids).stats.created == world.stats.created,
    decreases guids.len(),
{
    if guids.len() > 0 {
        lemma_removals_account(world, guids.drop_last());
        let before = world.without_all(guids.drop_last());
        if !before.entities.contains_key(guids.last()) {
            assert(before.entities.remove(guids.last()) =~= before.entities);
        }
    }
}

proof fn lemma_block_accounts(world: WorldStateView, block: BlockView)
    requires
        accounted(world),
        countable(world.with_block(block)),
    ensures
        accounted(world.with_block(block)),
        world.stats.created <= world.with_block(block).stats.created,
{
    match block {
        BlockView::Create { guid, .. } => {
            if world.entities.contains_key(guid) {
                assert(world.with_block(block).entities.dom() =~= world.entities.dom());
            } else {
                assert(world.with_block(block).entities.dom() =~= world.entities.dom().insert(
                    guid,
                ));
            }
        },
        BlockView::Values { guid, .. } => {
            if world.entities.contains_key(guid) {
                assert(world.with_block(block).entities.dom() =~= world.entities.dom());
            }
        },
        BlockView::Movement { guid, .. } => {
            if world.entities.contains_key(guid) {
                assert(world.with_block(block).entities.dom() =~= world.entities.dom());
            }
        },
        BlockView::OutOfRange { guids } => {
            lemma_created_only_by_blocks(world, guids);
            lemma_removals_account(world, guids);
        },
        BlockView::NearObjects { .. } => {},
    }
}

proof fn lemma_created_only_by_blocks(world: WorldStateView, guids: Seq<u64>)
    ensures
        world.without_all(guids).stats.created == world.stats.created,
    decreases guids.len(),
{
    if guids.len() > 0 {
        lemma_created_only_by_blocks(world, guids.drop_last());
    }
}

proof fn lemma_created_grows(world: WorldStateView, block: BlockView)
    ensures
        world.stats.created <= world.with_block(block).stats.created,
{
    if let BlockView::OutOfRange { guids } = block {
        lemma_created_only_by_blocks(world, guids);
    }
}

/// The counters add up: whatever blocks are folded in, the objects in view
/// are those that were created and not removed.
pub proof fn lemma_the_counters_add_up(world: WorldStateView, blocks: Seq<BlockView>)
    requires
        accounted(world),
        countable(world.with_blocks(blocks)),
    ensures
        accounted(world.with_blocks(blocks)),
    decreases blocks.len(),
{
    if blocks.len() > 0 {
        let before = world.with_blocks(blocks.drop_last());
        lemma_created_grows(before, blocks.last());
        lemma_the_counters_add_up(world, blocks.drop_last());
        lemma_block_accounts(before, blocks.last());
    }
}

proof fn lemma_removals_keep_files(world: WorldStateView, guids: Seq<u64>)
    requires
        filed_rightly(world.entities),
    ensures
        filed_rightly(world.without_all(guids).entities),
    decreases guids.len(),
{
    if guids.len() > 0 {
        lemma_removals_keep_files(world, guids.drop_last());
    }
}

/// Whatever blocks are folded in, every object stays filed under its own guid
/// and no path is left half described.
pub proof fn lemma_objects_stay_filed(world: WorldStateView, blocks: Seq<BlockView>)
    requires
        filed_rightly(world.entities),
    ensures
        filed_rightly(world.with_blocks(blocks).entities),
    decreases blocks.len(),
{
    if blocks.len() > 0 {
        lemma_objects_stay_filed(world, blocks.drop_last());
        let before = world.with_blocks(blocks.drop_last());
        if let BlockView::OutOfRange { guids } = blocks.last() {
            lemma_removals_keep_files(before, guids);
        }
    }
}

/// Folding two updates one after the other is folding their blocks in a row.
pub proof fn lemma_updates_compose(
    world: WorldStateView,
    first: Seq<BlockView>,
    second: Seq<BlockView>,
)
    ensures
        world.with_blocks(first + second) == world.with_blocks(first).with_blocks(second),
    decreases second.len(),
{
    if second.len() == 0 {
        assert(first + second =~= first);
    } else {
        assert((first + second).drop_last() =~= first + second.drop_last());
        lemma_updates_compose(world, first, second.drop_last());
    }
}

/// A packet that does not decode costs only itself: the world stays as it
/// was, and the failure is reported behind those that came before.
pub proof fn lemma_a_bad_packet_costs_only_itself<C, T>(
    before: Progress<C, T>,
    packet: PacketView,
    heard: Heard<C, T>,
    now: Moment,
)
    ensures
        ({
            let after = before.after(packet, heard, now);
            let grown = after.report.failures.len() - before.report.failures.len();
            &&& grown == 0 || grown == 1
            &&& grown == 1 ==> {
                &&& after.world == before.world
                &&& after.report.failures.drop_last() == before.report.failures
                &&& after.report.failures.last().0 == packet.opcode
                &&& after.report == (ReplicationView {
                    failures: after.report.failures,
                    ..before.report
                })
            }
            &&& grown == 0 ==> after.report.failures == before.report.failures
        }),
{
    let after = before.after(packet, heard, now);
    if after.report.failures.len() > before.report.failures.len() {
        assert(after.report.failures.drop_last() =~= before.report.failures);
    }
}

proof fn lemma_created_grows_by_blocks(world: WorldStateView, blocks: Seq<BlockView>)
    ensures
        world.stats.created <= world.with_blocks(blocks).stats.created,
    decreases blocks.len(),
{
    if blocks.len() > 0 {
        lemma_created_grows_by_blocks(world, blocks.drop_last());
        lemma_created_grows(world.with_blocks(blocks.drop_last()), blocks.last());
    }
}

proof fn lemma_packet_accounts<C, T>(
    before: Progress<C, T>,
    packet: PacketView,
    heard: Heard<C, T>,
    now: Moment,
)
    ensures
        before.world.stats.created <= before.after(packet, heard, now).world.stats.created,
        accounted(before.world) && countable(before.after(packet, heard, now).world) ==> accounted(
            before.after(packet, heard, now).world,
        ),
{
    let (was, is) = (before.world, before.after(packet, heard, now).world);
    if packet.opcode == server::UPDATE_OBJECT || packet.opcode
        == server::COMPRESSED_UPDATE_OBJECT {
        let parsed = if packet.opcode == server::COMPRESSED_UPDATE_OBJECT {
            compressed_update_object(packet.body)
        } else {
            update_object(packet.body)
        };
        if let Ok(blocks) = parsed {
            lemma_created_grows_by_blocks(was, blocks);
            if accounted(was) && countable(was.with_blocks(blocks)) {
                lemma_the_counters_add_up(was, blocks);
            }
        }
    } else if packet.opcode == server::DESTROY_OBJECT {
        let guid = read_guid(Cursor::over(packet.body, "SMSG_DESTROY_OBJECT")).0;
        if !was.entities.contains_key(guid) {
            assert(was.entities.remove(guid) =~= was.entities);
        }
    } else {
        assert(is.entities.dom() =~= was.entities.dom());
    }
}

/// The counters add up whatever arrives: after any batch the objects in view
/// are those that were created and not removed.
pub proof fn lemma_replication_adds_up<C, T>(
    start: Progress<C, T>,
    packets: Seq<PacketView>,
    heard: Seq<Heard<C, T>>,
    now: Moment,
)
    requires
        accounted(start.world),
        countable(start.after_all(packets, heard, now).world),
    ensures
        accounted(start.after_all(packets, heard, now).world),
    decreases packets.len(),
{
    if packets.len() > 0 {
        let before = start.after_all(packets.drop_last(), heard.drop_last(), now);
        lemma_packet_accounts(before, packets.last(), heard.last(), now);
        lemma_replication_adds_up(start, packets.drop_last(), heard.drop_last(), now);
    }
}

/// How a batch is cut into smaller ones does not matter.
pub proof fn lemma_batches_compose<C, T>(
    start: Progress<C, T>,
    first: Seq<PacketView>,
    first_heard: Seq<Heard<C, T>>,
    second: Seq<PacketView>,
    second_heard: Seq<Heard<C, T>>,
    now: Moment,
)
    requires
        first.len() == first_heard.len(),
        second.len() == second_heard.len(),
    ensures
        start.after_all(first + second, first_heard + second_heard, now) == start.after_all(
            first,
            first_heard,
            now,
        ).after_all(second, second_heard, now),
    decreases second.len(),
{
    if second.len() == 0 {
        assert(first + second =~= first);
        assert(first_heard + second_heard =~= first_heard);
    } else {
        assert((first + second).drop_last() =~= first + second.drop_last());
        assert((first_heard + second_heard).drop_last() =~= first_heard
            + second_heard.drop_last());
        lemma_batches_compose(
            start,
            first,
            first_heard,
            second.drop_last(),
            second_heard.drop_last(),
            now,
        );
    }
}

/// A power that changes on its own lands where the unit's power is read from,
/// and in no other field. It is an update like any other, and counts as one.
pub proof fn lemma_a_power_lands_where_it_is_read<C, T>(
    before: Progress<C, T>,
    packet: PacketView,
    index: u16,
)
    requires
        power_update(packet.body) is Ok,
        before.world.entities.contains_key(power_update(packet.body)->Ok_0.guid),
        before.world.entities[power_update(packet.body)->Ok_0.guid].packed_byte(3) == Some(
            power_update(packet.body)->Ok_0.power_type,
        ),
        power_update(packet.body)->Ok_0.power_type < fields::POWER_COUNT,
        index != fields::UNIT_POWER1 + power_update(packet.body)->Ok_0.power_type,
    ensures
        ({
            let power = power_update(packet.body)->Ok_0;
            let was = before.world.entities[power.guid];
            let is = before.power(packet).world.entities[power.guid];
            &&& is.power_field(fields::UNIT_POWER1) == Some(power.value)
            &&& is.fields.get(index) == was.fields.get(index)
            &&& is.updates == bumped(was.updates)
        }),
{
}

/// Starting a fight and stopping it balance: what the start adds the stop
/// takes away.
pub proof fn lemma_fights_balance(attacking: Map<u64, u64>, attacker: u64, victim: u64)
    requires
        !attacking.contains_key(attacker),
    ensures
        attacking.insert(attacker, victim).remove(attacker) == attacking,
        fights_without(attacking.insert(attacker, victim), attacker) == fights_without(
            attacking,
            attacker,
        ),
{
    assert(attacking.insert(attacker, victim).remove(attacker) =~= attacking);
    assert(fights_without(attacking.insert(attacker, victim), attacker) =~= fights_without(
        attacking,
        attacker,
    ));
}

} // verus!
