use std::io::Write;
use world::client::Packet;
use world::movement::MovementInfo;
use world::opcode::server;
use world::protocol::{Error, Reader};
use world::state::entity::{Cast, Cooldown, Entity, Heading, Moment};
use world::state::WorldState;
use world::update::{
    fields, parse_update_object, write_packed_guid, Block, Fields, MonsterMove, MoveFacing,
    Movement, ObjectType, Position,
};

const START: Moment = Moment { nanos: 5_000_000_000 };
const ME: u64 = 0x32;
const WOLF: u64 = 0xf130_0000_0600_0bde;

fn after(moment: Moment, millis: u64) -> Moment {
    Moment { nanos: moment.nanos + millis * 1_000_000 }
}

fn before(moment: Moment, millis: u64) -> Moment {
    Moment { nanos: moment.nanos - millis * 1_000_000 }
}

#[derive(Debug, PartialEq)]
struct Spot {
    x: f32,
    y: f32,
    z: f32,
    orientation: f32,
}

fn spot(x: f32, y: f32) -> Spot {
    Spot { x, y, z: 0.0, orientation: 0.0 }
}

fn coordinates(position: &Position) -> (f32, f32, f32) {
    (f32::from_bits(position.x), f32::from_bits(position.y), f32::from_bits(position.z))
}

fn interpolated_position(entity: &Entity, now: Moment) -> Option<Spot> {
    let pose = entity.pose(now)?;
    let (x, y, z) = coordinates(&pose.from);
    let (dx, dy, dz, t) = match pose.travel {
        Some(travel) => {
            let (to_x, to_y, to_z) = coordinates(&travel.to);
            let t = if travel.duration == 0 {
                1.0
            } else {
                travel.elapsed as f32 / travel.duration as f32
            };
            (to_x - x, to_y - y, to_z - z, t)
        }
        None => (0.0, 0.0, 0.0, 0.0),
    };
    let orientation = match pose.heading {
        Heading::Angle(bits) => f32::from_bits(bits),
        Heading::Course { from, to } => {
            let (a, b) = (coordinates(&from), coordinates(&to));
            (b.1 - a.1).atan2(b.0 - a.0)
        }
        other => panic!("no angle in {other:?}"),
    };
    Some(Spot { x: x + dx * t, y: y + dy * t, z: z + dz * t, orientation })
}

fn move_speed(entity: &Entity, now: Moment) -> Option<f32> {
    let (from, to, duration) = entity.travelling(now)?;
    let (a, b) = (coordinates(&from), coordinates(&to));
    let distance =
        ((b.0 - a.0).powi(2) + (b.1 - a.1).powi(2) + (b.2 - a.2).powi(2)).sqrt();
    Some(distance / (duration as f32 / 1000.0))
}

fn remaining_fraction(cooldown: &Cooldown, now: Moment) -> f32 {
    if cooldown.duration_ms == 0 {
        return 0.0;
    }
    cooldown.remaining_ms(now) as f32 / cooldown.duration_ms as f32
}

fn progress_fraction(cast: &Cast, now: Moment) -> f32 {
    if cast.is_done(now) {
        return 1.0;
    }
    now.millis_since(cast.started) as f32 / cast.duration_ms as f32
}

fn cooldown_fraction(world: &WorldState, spell: u32, now: Moment) -> f32 {
    world.cooldowns.get(&spell).map(|cooldown| remaining_fraction(cooldown, now)).unwrap_or(0.0)
}

fn update_object_body(guid: u64, entries: &[(u16, u32)]) -> Vec<u8> {
    let highest = entries.iter().map(|(at, _)| *at).max().unwrap_or(0);
    let blocks = (highest as usize / 32) + 1;
    let mut mask = vec![0u32; blocks];
    for (at, _) in entries {
        mask[*at as usize / 32] |= 1 << (*at % 32);
    }
    let mut body = vec![blocks as u8];
    for word in &mask {
        body.extend_from_slice(&word.to_le_bytes());
    }
    let mut sorted = entries.to_vec();
    sorted.sort_by_key(|(at, _)| *at);
    for (_, value) in sorted {
        body.extend_from_slice(&value.to_le_bytes());
    }

    let mut packet = 1u32.to_le_bytes().to_vec();
    packet.push(2);
    write_packed_guid(guid, &mut packet);
    packet.push(3);
    packet.extend_from_slice(&0u16.to_le_bytes());
    packet.extend_from_slice(&body);
    packet
}

fn fields_of(entries: &[(u16, u32)]) -> Fields {
    let packet = update_object_body(1, entries);
    match parse_update_object(&packet).unwrap().remove(0) {
        Block::Create { fields, .. } => fields,
        other => panic!("wrong block: {other:?}"),
    }
}

fn create(guid: u64, object_type: ObjectType, at: Option<Position>, f: &[(u16, u32)]) -> Block {
    Block::Create {
        guid,
        object_type,
        spawned: false,
        movement: Movement {
            position: at,
            ..Movement::default()
        },
        fields: fields_of(f),
    }
}

fn at(x: f32, y: f32) -> Position {
    Position { x: x.to_bits(), y: y.to_bits(), z: 0, orientation: 0 }
}

/// A line of chat for these tests: one string.
fn line(body: &[u8]) -> Result<String, Error> {
    let mut reader = Reader::new(body, "line");
    let text = reader.cstring()?;
    reader.finish()?;
    Ok(text)
}

/// A threat list for these tests: one word.
fn list(body: &[u8]) -> Result<u32, Error> {
    let mut reader = Reader::new(body, "list");
    let word = reader.u32()?;
    reader.finish()?;
    Ok(word)
}

#[test]
fn creating_then_reading_back() {
    let mut world = WorldState::new();
    world.apply(&[create(
        7,
        ObjectType::Unit,
        Some(at(1.0, 2.0)),
        &[
            (fields::UNIT_LEVEL, 12),
            (fields::UNIT_DISPLAY_ID, 49),
        ],
    )]);

    assert_eq!(world.len(), 1);
    let entity = world.get(7).expect("created");
    assert_eq!(entity.level(), Some(12));
    assert_eq!(entity.display_id(), Some(49));
    assert_eq!(entity.position, Some(at(1.0, 2.0)));
    assert_eq!(world.stats().created, 1);
}

#[test]
fn a_values_update_merges_rather_than_replaces() {
    let mut world = WorldState::new();
    world.apply(&[create(
        7,
        ObjectType::Unit,
        Some(at(1.0, 2.0)),
        &[
            (fields::UNIT_LEVEL, 12),
            (fields::UNIT_HEALTH, 100),
            (fields::UNIT_DISPLAY_ID, 49),
        ],
    )]);

    world.apply(&[Block::Values {
        guid: 7,
        fields: fields_of(&[(fields::UNIT_HEALTH, 60)]),
    }]);

    let entity = world.get(7).unwrap();
    assert_eq!(entity.health(), Some(60), "the change did not apply");
    assert_eq!(entity.level(), Some(12), "level was erased by the merge");
    assert_eq!(
        entity.display_id(),
        Some(49),
        "display id was erased by the merge"
    );
    assert_eq!(entity.position, Some(at(1.0, 2.0)), "position was disturbed");
    assert_eq!(world.stats().value_updates, 1);
}

#[test]
fn out_of_range_removes() {
    let mut world = WorldState::new();
    world.apply(&[
        create(7, ObjectType::Unit, Some(at(1.0, 2.0)), &[]),
        create(8, ObjectType::Player, Some(at(3.0, 4.0)), &[]),
    ]);
    world.apply(&[Block::OutOfRange { guids: vec![7] }]);

    assert_eq!(world.len(), 1);
    assert!(world.get(7).is_none());
    assert!(world.get(8).is_some());
    assert_eq!(world.stats().removed, 1);
}

#[test]
fn updates_for_unknown_objects_are_counted_not_invented() {
    let mut world = WorldState::new();
    world.apply(&[Block::Values {
        guid: 99,
        fields: fields_of(&[(fields::UNIT_HEALTH, 5)]),
    }]);

    assert!(world.is_empty(), "an update conjured an entity");
    assert_eq!(world.stats().orphaned, 1);
    assert_eq!(world.stats().value_updates, 0);
}

#[test]
fn recreating_merges_and_is_counted_separately() {
    let mut world = WorldState::new();
    world.apply(&[create(
        7,
        ObjectType::Unit,
        Some(at(1.0, 2.0)),
        &[(fields::UNIT_LEVEL, 12)],
    )]);
    world.apply(&[create(
        7,
        ObjectType::Unit,
        Some(at(9.0, 9.0)),
        &[(fields::UNIT_HEALTH, 30)],
    )]);

    assert_eq!(world.len(), 1, "a re-create duplicated the object");
    let entity = world.get(7).unwrap();
    assert_eq!(entity.level(), Some(12), "the original fields were lost");
    assert_eq!(entity.health(), Some(30));
    assert_eq!(entity.position, Some(at(9.0, 9.0)));
    assert_eq!(world.stats().created, 1);
    assert_eq!(world.stats().recreated, 1);
}

#[test]
fn relayed_movement_moves_the_right_object() {
    let mut world = WorldState::new();
    world.apply(&[
        create(7, ObjectType::Player, Some(at(0.0, 0.0)), &[]),
        create(8, ObjectType::Player, Some(at(5.0, 5.0)), &[]),
    ]);

    let info = MovementInfo::standing(at(10.0, 20.0), 1);
    world.apply_relayed_movement(7, &info);

    assert_eq!(world.get(7).unwrap().position, Some(at(10.0, 20.0)));
    assert_eq!(
        world.get(8).unwrap().position,
        Some(at(5.0, 5.0)),
        "the wrong object moved"
    );
}

#[test]
fn a_monster_move_starts_at_the_path_start() {
    let mut world = WorldState::new();
    world.apply(&[create(7, ObjectType::Unit, Some(at(0.0, 0.0)), &[])]);

    world.apply_monster_move(
        &MonsterMove {
            guid: 7,
            from: at(1.0, 1.0),
            to: Some(at(50.0, 50.0)),
            duration: 5000,
            stopped: false,
            facing: None,
            path: Vec::new(),
        },
        START,
    );

    let entity = world.get(7).unwrap();
    assert_eq!(entity.position, Some(at(1.0, 1.0)), "creature teleported");
    assert_eq!(entity.destination, Some(at(50.0, 50.0)));
}

#[test]
fn the_stats_account_for_every_change() {
    let mut world = WorldState::new();
    world.apply(&[
        create(1, ObjectType::Unit, Some(at(0.0, 0.0)), &[]),
        create(2, ObjectType::Unit, Some(at(0.0, 0.0)), &[]),
        create(3, ObjectType::Player, Some(at(0.0, 0.0)), &[]),
    ]);
    world.apply(&[Block::Values {
        guid: 1,
        fields: fields_of(&[(fields::UNIT_HEALTH, 1)]),
    }]);
    world.apply(&[Block::OutOfRange { guids: vec![2, 404] }]);

    let stats = world.stats();
    assert_eq!(stats.created, 3);
    assert_eq!(stats.value_updates, 1);
    assert_eq!(stats.removed, 1, "removing an unknown guid was counted");
    assert_eq!(world.len(), stats.created - stats.removed);
    assert_eq!(world.players().len(), 1);
}

#[test]
fn replicate_applies_good_packets_and_counts_bad_ones() {
    let mut world = WorldState::new();
    world.apply(&[create(7, ObjectType::Unit, Some(at(0.0, 0.0)), &[])]);

    let mut good_destroy = Vec::new();
    write_packed_guid(7, &mut good_destroy);

    let packets = vec![
        Packet {
            opcode: server::UPDATE_OBJECT,
            body: update_object_body(8, &[(fields::UNIT_LEVEL, 5)]),
        },
        Packet {
            opcode: server::DESTROY_OBJECT,
            body: vec![0xFF],
        },
        Packet {
            opcode: server::DESTROY_OBJECT,
            body: good_destroy,
        },
    ];

    let report = world.replicate(&packets, None, START, line, list);

    assert_eq!(report.object_updates, 1);
    assert_eq!(report.destroys, 1);
    assert_eq!(
        report.failures.len(),
        1,
        "the truncated destroy must be counted, not dropped"
    );
    assert_eq!(report.failures[0].0, server::DESTROY_OBJECT);

    assert!(world.get(7).is_none(), "the valid destroy did not apply");
    assert!(world.get(8).is_some(), "the valid create did not apply");
}

#[test]
fn cooldown_remaining_fraction_counts_down_and_clamps() {
    let started = START;
    let cooldown = Cooldown {
        started,
        duration_ms: 4000,
    };
    assert_eq!(remaining_fraction(&cooldown, started), 1.0);
    assert!(
        (remaining_fraction(&cooldown, after(started, 2000)) - 0.5)
            .abs()
            < 0.01
    );
    assert_eq!(
        remaining_fraction(&cooldown, after(started, 10000)),
        0.0,
        "must clamp at zero rather than go negative"
    );

    let instant = Cooldown {
        started,
        duration_ms: 0,
    };
    assert_eq!(
        remaining_fraction(&instant, started),
        0.0,
        "a zero-duration cooldown is never actually on cooldown"
    );
}

#[test]
fn replicate_folds_spell_cooldown_into_the_world() {
    let mut body = 0x32u64.to_le_bytes().to_vec();
    body.push(0);
    body.extend(78u32.to_le_bytes());
    body.extend(1500u32.to_le_bytes());

    let mut world = WorldState::new();
    let report = world.replicate(
        &[Packet {
            opcode: server::SPELL_COOLDOWN,
            body,
        }],
        None,
        START,
        line,
        list,
    );

    assert!(report.failures.is_empty());
    let now = START;
    assert_eq!(cooldown_fraction(&world, 78, now), 1.0);
    assert_eq!(
        cooldown_fraction(&world, 9999, now),
        0.0,
        "a spell never put on cooldown must read as ready"
    );
}

#[test]
fn cast_progress_fraction_counts_up_and_clamps() {
    let started = START;
    let cast = Cast {
        spell_id: 5185,
        started,
        duration_ms: 4000,
    };
    assert_eq!(progress_fraction(&cast, started), 0.0);
    assert!(
        (progress_fraction(&cast, after(started, 2000)) - 0.5)
            .abs()
            < 0.01
    );
    assert_eq!(
        progress_fraction(&cast, after(started, 10000)),
        1.0,
        "must clamp at one rather than run past it"
    );

    let instant = Cast {
        spell_id: 6603,
        started,
        duration_ms: 0,
    };
    assert_eq!(
        progress_fraction(&instant, started),
        1.0,
        "a zero-duration cast is already done the instant it starts"
    );
}

#[test]
fn replicate_folds_spell_start_into_a_cast_and_spell_go_clears_it() {
    let start_body: [u8; 27] = [
        0x01, 0x33, 0x01, 0x33, 0x00, 0x41, 0x14, 0x00, 0x00, 0x02, 0x08, 0x00, 0x00, 0xdc,
        0x05, 0x00, 0x00, 0x02, 0x00, 0x00, 0x00, 0x01, 0x33, 0x64, 0x00, 0x00, 0x00,
    ];
    let mut world = WorldState::new();
    let report = world.replicate(
        &[Packet {
            opcode: server::SPELL_START,
            body: start_body.to_vec(),
        }],
        None,
        START,
        line,
        list,
    );
    assert!(report.failures.is_empty(), "{:?}", report.failures);
    assert_eq!(report.casts_started, 1);
    let now = START;
    let cast = world
        .active_cast(0x33, now)
        .expect("the caster's cast must be visible immediately");
    assert_eq!(cast.spell_id, 5185);
    assert_eq!(cast.duration_ms, 1500);
    assert!(progress_fraction(&cast, now) < 1.0);

    let go_body: [u8; 37] = [
        0x01, 0x33, 0x01, 0x33, 0x00, 0x41, 0x14, 0x00, 0x00, 0x00, 0x09, 0x00, 0x00, 0x74,
        0xd4, 0x37, 0x5a, 0x01, 0x33, 0x00, 0x00, 0x00, 0x00, 0x00, 0x00, 0x00, 0x00, 0x02,
        0x00, 0x00, 0x00, 0x01, 0x33, 0x51, 0x00, 0x00, 0x00,
    ];
    let report = world.replicate(
        &[Packet {
            opcode: server::SPELL_GO,
            body: go_body.to_vec(),
        }],
        None,
        START,
        line,
        list,
    );
    assert!(report.failures.is_empty(), "{:?}", report.failures);
    assert_eq!(report.casts_landed, 1);
    assert!(
        world.active_cast(0x33, START).is_none(),
        "SMSG_SPELL_GO must clear the cast it landed"
    );
}

#[test]
fn a_spell_go_with_no_matching_start_clears_nothing() {
    let go_body: [u8; 37] = [
        0x01, 0x33, 0x01, 0x33, 0x00, 0x41, 0x14, 0x00, 0x00, 0x00, 0x09, 0x00, 0x00, 0x74,
        0xd4, 0x37, 0x5a, 0x01, 0x33, 0x00, 0x00, 0x00, 0x00, 0x00, 0x00, 0x00, 0x00, 0x02,
        0x00, 0x00, 0x00, 0x01, 0x33, 0x51, 0x00, 0x00, 0x00,
    ];
    let mut world = WorldState::new();
    let report = world.replicate(
        &[Packet {
            opcode: server::SPELL_GO,
            body: go_body.to_vec(),
        }],
        None,
        START,
        line,
        list,
    );
    assert!(report.failures.is_empty());
    assert_eq!(report.casts_landed, 0);
}

#[test]
fn active_cast_expires_on_its_own_without_needing_spell_go() {
    let mut world = WorldState::new();
    let started = START;
    world.casts.insert(
        0x33,
        Cast {
            spell_id: 5185,
            started,
            duration_ms: 1500,
        },
    );
    assert!(world.active_cast(0x33, started).is_some());
    assert!(
        world
            .active_cast(0x33, after(started, 2000))
            .is_none(),
        "a cast past its own duration must stop showing on its own"
    );
}

#[test]
fn replicate_hands_back_the_swings_it_parsed() {
    let hit = [
        0x02, 0x00, 0x00, 0x00, 0x01, 0x32, 0xcb, 0xde, 0x0b, 0x06, 0x30, 0xf1, 0x04, 0x00,
        0x00, 0x00, 0x00, 0x00, 0x00, 0x00, 0x01, 0x01, 0x00, 0x00, 0x00, 0x00, 0x00, 0x80,
        0x40, 0x04, 0x00, 0x00, 0x00, 0x01, 0x00, 0x00, 0x00, 0x00, 0x00, 0x00, 0x00, 0x00,
    ];

    let mut world = WorldState::new();
    let report = world.replicate(
        &[Packet {
            opcode: server::ATTACKER_STATE_UPDATE,
            body: hit.to_vec(),
        }],
        None,
        START,
        line,
        list,
    );
    assert!(report.failures.is_empty(), "{:?}", report.failures);
    assert_eq!(report.swings.len(), 1, "the swing never reached the caller");
    assert_eq!(report.swings[0].damage, 4);
    assert_eq!(report.swings[0].attacker, 0x32);
}

#[test]
fn a_power_update_lands_in_the_entity_that_owns_it() {
    let mut world = WorldState::new();
    let mut fields = Fields::default();
    fields.set(fields::UNIT_POWER1 + 1, 100);
    fields.set(fields::UNIT_BYTES_0, 1 | (1 << 8) | (1 << 24));
    world.create(
        ME,
        ObjectType::Player,
        &Movement::default(),
        &fields,
    );

    let body = [0x01, 0x32, 0x01, 0xf4, 0x01, 0x00, 0x00];
    let report = world.replicate(
        &[Packet {
            opcode: server::POWER_UPDATE,
            body: body.to_vec(),
        }],
        None,
        START,
        line,
        list,
    );
    assert!(report.failures.is_empty(), "{:?}", report.failures);
    assert_eq!(report.power_updates, 1);
    assert_eq!(
        world.get(ME).and_then(|e| e.power()),
        Some(500),
        "the update did not reach the field a unit frame reads"
    );
}

#[test]
fn a_power_update_counts_as_an_update() {
    let mut world = WorldState::new();
    world.create(ME, ObjectType::Player, &Movement::default(), &Fields::default());
    assert_eq!(world.get(ME).unwrap().updates, 1);
    let body = [0x01, 0x32, 0x01, 0xf4, 0x01, 0x00, 0x00];
    let packet = Packet { opcode: server::POWER_UPDATE, body: body.to_vec() };
    world.replicate(&[packet], None, START, line, list);
    assert_eq!(world.get(ME).unwrap().updates, 2);
    assert_eq!(world.get(ME).unwrap().fields.get(fields::UNIT_POWER1 + 1), Some(500));
}

#[test]
fn a_power_type_past_the_array_is_refused() {
    let mut world = WorldState::new();
    world.create(
        0x32,
        ObjectType::Player,
        &Movement::default(),
        &Fields::default(),
    );
    let body = [0x01, 0x32, 200, 0x01, 0x00, 0x00, 0x00];
    let report = world.replicate(
        &[Packet {
            opcode: server::POWER_UPDATE,
            body: body.to_vec(),
        }],
        None,
        START,
        line,
        list,
    );
    assert_eq!(report.power_updates, 0);
    assert_eq!(report.failures.len(), 1, "a bad power type was written anyway");
}

#[test]
fn a_fight_starts_and_stops() {
    let start = [
        0x32, 0x00, 0x00, 0x00, 0x00, 0x00, 0x00, 0x00, 0xde, 0x0b, 0x00, 0x06, 0x00, 0x00,
        0x30, 0xf1,
    ];
    let stop = [
        0x01, 0x32, 0xcb, 0xde, 0x0b, 0x06, 0x30, 0xf1, 0x00, 0x00, 0x00, 0x00,
    ];

    let mut world = WorldState::new();
    let report = world.replicate(
        &[Packet {
            opcode: server::ATTACK_START,
            body: start.to_vec(),
        }],
        None,
        START,
        line,
        list,
    );
    assert!(report.failures.is_empty(), "{:?}", report.failures);
    assert_eq!(report.attacks_started, 1);
    assert_eq!(world.attacking.get(&ME), Some(&WOLF));

    let report = world.replicate(
        &[Packet {
            opcode: server::ATTACK_STOP,
            body: stop.to_vec(),
        }],
        None,
        START,
        line,
        list,
    );
    assert!(report.failures.is_empty(), "{:?}", report.failures);
    assert_eq!(report.attacks_stopped, 1);
    assert!(world.attacking.is_empty(), "the fight outlived its stop");
}

#[test]
fn a_fight_leaves_with_whoever_died() {

    let mut world = WorldState::new();
    world.attacking.insert(ME, WOLF);
    world.attacking.insert(WOLF, ME);

    world.remove(WOLF);
    assert!(
        world.attacking.is_empty(),
        "the dead unit is still in a fight: {:?}",
        world.attacking
    );
}

#[test]
fn a_cast_leaves_with_the_caster() {
    let mut world = WorldState::new();
    world.casts.insert(
        0x33,
        Cast {
            spell_id: 5185,
            started: START,
            duration_ms: 1500,
        },
    );

    assert!(!world.remove(0x33), "no entity was ever created for it");
    assert!(
        world.casts.is_empty(),
        "the caster left and its cast stayed behind"
    );
}

#[test]
fn interpolated_position_lerps_between_endpoints_and_faces_the_direction_of_travel() {
    let mut world = WorldState::new();
    world.apply(&[create(7, ObjectType::Unit, Some(at(0.0, 0.0)), &[])]);
    world.apply_monster_move(
        &MonsterMove {
            guid: 7,
            from: at(0.0, 0.0),
            to: Some(at(100.0, 0.0)),
            duration: 4000,
            stopped: false,
            facing: None,
            path: Vec::new(),
        },
        START,
    );

    let entity = world.get(7).unwrap();
    let started = entity.move_started.expect("a move with a destination must record when it started");

    let halfway = interpolated_position(entity, after(started, 2000))
        .unwrap();
    assert!(
        (halfway.x - 50.0).abs() < 0.01,
        "halfway through a 4s move along x should be near x=50, got {}",
        halfway.x
    );
    assert_eq!(halfway.y, 0.0);
    assert_eq!(
        halfway.orientation, 0.0,
        "travelling straight along +x should face angle 0"
    );
}

#[test]
fn interpolated_position_clamps_at_both_ends() {
    let mut world = WorldState::new();
    world.apply(&[create(7, ObjectType::Unit, Some(at(0.0, 0.0)), &[])]);
    world.apply_monster_move(
        &MonsterMove {
            guid: 7,
            from: at(0.0, 0.0),
            to: Some(at(100.0, 0.0)),
            duration: 4000,
            stopped: false,
            facing: None,
            path: Vec::new(),
        },
        START,
    );

    let entity = world.get(7).unwrap();
    let started = entity.move_started.unwrap();

    let before = interpolated_position(entity, before(started, 500))
        .unwrap();
    assert_eq!(before.x, 0.0, "must not run backwards past the start");

    let after = interpolated_position(entity, after(started, 10000))
        .unwrap();
    assert_eq!(after.x, 100.0, "must clamp at the destination, not overshoot");
}

#[test]
fn arrival_facing_takes_over_once_the_move_completes_but_not_before() {
    let mut world = WorldState::new();
    world.apply(&[create(7, ObjectType::Unit, Some(at(0.0, 0.0)), &[])]);
    world.apply_monster_move(
        &MonsterMove {
            guid: 7,
            from: at(0.0, 0.0),
            to: Some(at(100.0, 0.0)),
            duration: 4000,
            stopped: false,
            facing: Some(MoveFacing::Angle(2.5f32.to_bits())),
            path: Vec::new(),
        },
        START,
    );

    let entity = world.get(7).unwrap();
    let started = entity.move_started.unwrap();

    let mid = interpolated_position(entity, after(started, 2000))
        .unwrap();
    assert_eq!(
        mid.orientation, 0.0,
        "still en route: direction of travel, not the arrival hint"
    );

    let arrived = interpolated_position(entity, after(started, 4000))
        .unwrap();
    assert_eq!(
        arrived.orientation, 2.5,
        "arrived: the wire's arrival facing must actually take effect"
    );

    let long_after = interpolated_position(entity, after(started, 30000))
        .unwrap();
    assert_eq!(long_after.orientation, 2.5, "and stay in effect, not just at the instant of arrival");
}

#[test]
fn a_zero_duration_move_prefers_the_arrival_facing_over_the_endpoint_default() {
    let mut world = WorldState::new();
    world.apply(&[create(7, ObjectType::Unit, Some(at(0.0, 5.0)), &[])]);
    world.apply_monster_move(
        &MonsterMove {
            guid: 7,
            from: at(0.0, 5.0),
            to: Some(at(0.0, 5.0)),
            duration: 0,
            stopped: false,
            facing: Some(MoveFacing::Angle(1.1f32.to_bits())),
            path: Vec::new(),
        },
        START,
    );

    let entity = world.get(7).unwrap();
    let position = interpolated_position(entity, START)
        .unwrap();
    assert_eq!(position.orientation, 1.1);
}

#[test]
fn a_zero_duration_move_without_a_hint_faces_the_destination() {
    let mut world = WorldState::new();
    world.apply(&[create(7, ObjectType::Unit, Some(at(0.0, 0.0)), &[])]);
    world.apply_monster_move(
        &MonsterMove {
            guid: 7,
            from: at(0.0, 0.0),
            to: Some(at(0.0, 100.0)),
            duration: 0,
            stopped: false,
            facing: None,
            path: Vec::new(),
        },
        START,
    );

    let entity = world.get(7).unwrap();
    let position = interpolated_position(entity, START)
        .unwrap();
    assert!(
        (position.orientation - std::f32::consts::FRAC_PI_2).abs() < 1e-5,
        "got {}",
        position.orientation
    );
}

#[test]
fn a_stop_clears_the_path_and_keeps_the_facing_it_asks_for() {
    let mut world = WorldState::new();
    world.apply(&[create(7, ObjectType::Unit, Some(at(0.0, 0.0)), &[])]);
    let mut moved = MonsterMove {
        guid: 7,
        from: at(0.0, 0.0),
        to: Some(at(100.0, 0.0)),
        duration: 4000,
        stopped: false,
        facing: Some(MoveFacing::Angle(2.5f32.to_bits())),
        path: Vec::new(),
    };
    world.apply_monster_move(&moved, START);
    assert!(world.get(7).unwrap().arrival_facing.is_some());

    moved.from = at(3.0, 4.0);
    moved.to = None;
    moved.facing = Some(MoveFacing::Angle(1.5f32.to_bits()));
    world.apply_monster_move(&moved, START);

    let entity = world.get(7).unwrap();
    assert!(entity.destination.is_none());
    assert!(entity.move_duration.is_none());
    assert!(entity.move_started.is_none());
    assert!(entity.arrival_facing.is_none());
    let position = interpolated_position(entity, START).unwrap();
    assert_eq!((position.x, position.y), (3.0, 4.0));
    assert_eq!(position.orientation, 1.5);
}

#[test]
fn an_authoritative_position_clears_a_predicted_move() {
    let mut world = WorldState::new();
    world.apply(&[create(7, ObjectType::Unit, Some(at(0.0, 0.0)), &[])]);
    world.apply_monster_move(
        &MonsterMove {
            guid: 7,
            from: at(0.0, 0.0),
            to: Some(at(100.0, 0.0)),
            duration: 4000,
            stopped: false,
            facing: Some(MoveFacing::Angle(2.5f32.to_bits())),
            path: Vec::new(),
        },
        START,
    );
    assert!(world.get(7).unwrap().destination.is_some());
    assert!(world.get(7).unwrap().arrival_facing.is_some());

    let info = MovementInfo::standing(at(3.0, 4.0), 1);
    world.apply_relayed_movement(7, &info);

    let entity = world.get(7).unwrap();
    assert!(
        entity.destination.is_none(),
        "the predicted path must not survive a fresher authoritative position"
    );
    assert!(entity.move_duration.is_none());
    assert!(entity.move_started.is_none());
    assert!(
        entity.arrival_facing.is_none(),
        "a stale arrival hint must not survive a fresher authoritative position either"
    );
    assert_eq!(
        interpolated_position(entity, START),
        Some(spot(3.0, 4.0)),
        "with no path in flight, the position must be exactly what was reported"
    );
}

#[test]
fn is_moving_is_true_only_for_the_moves_actual_duration() {
    let mut world = WorldState::new();
    world.apply(&[create(7, ObjectType::Unit, Some(at(0.0, 0.0)), &[])]);
    world.apply_monster_move(
        &MonsterMove {
            guid: 7,
            from: at(0.0, 0.0),
            to: Some(at(100.0, 0.0)),
            duration: 4000,
            stopped: false,
            facing: None,
            path: Vec::new(),
        },
        START,
    );

    let entity = world.get(7).unwrap();
    let started = entity.move_started.unwrap();

    assert!(
        entity.is_moving(after(started, 2000)),
        "halfway through a 4s move, the creature is still moving"
    );
    assert!(
        !entity.is_moving(after(started, 30000)),
        "long after the move should have arrived, it must not still read as moving, \
         even though destination is still set to the old target"
    );
    assert!(entity.destination.is_some(), "the premise: destination outlives the move");
}

#[test]
fn move_speed_is_the_paths_length_over_its_duration() {
    let mut world = WorldState::new();
    world.apply(&[create(7, ObjectType::Unit, Some(at(0.0, 0.0)), &[])]);
    world.apply_monster_move(
        &MonsterMove {
            guid: 7,
            from: at(0.0, 0.0),
            to: Some(at(30.0, 0.0)),
            duration: 4000,
            stopped: false,
            facing: None,
            path: Vec::new(),
        },
        START,
    );

    let entity = world.get(7).unwrap();
    let started = entity.move_started.unwrap();
    let speed = move_speed(entity, after(started, 1000))
        .expect("a move is in flight");
    assert!((speed - 7.5).abs() < 1e-3, "got {speed}");

    assert!(move_speed(entity, after(started, 30000))
        .is_none());
}

#[test]
fn move_speed_counts_the_climb() {
    let mut world = WorldState::new();
    world.apply(&[create(7, ObjectType::Unit, Some(at(0.0, 0.0)), &[])]);
    let uphill = Position { z: 4.0f32.to_bits(), ..at(3.0, 0.0) };
    world.apply_monster_move(
        &MonsterMove {
            guid: 7,
            from: at(0.0, 0.0),
            to: Some(uphill),
            duration: 1000,
            stopped: false,
            facing: None,
            path: Vec::new(),
        },
        START,
    );

    let entity = world.get(7).unwrap();
    let started = entity.move_started.unwrap();
    let speed = move_speed(entity, started).expect("a move is in flight");
    assert!((speed - 5.0).abs() < 1e-3, "got {speed}, expected the 3-4-5 hypotenuse");
}

#[test]
fn a_stopped_creature_is_not_moving() {
    let mut world = WorldState::new();
    world.apply(&[create(7, ObjectType::Unit, Some(at(0.0, 0.0)), &[])]);
    world.apply_monster_move(
        &MonsterMove {
            guid: 7,
            from: at(0.0, 0.0),
            to: None,
            duration: 0,
            stopped: true,
            facing: None,
            path: Vec::new(),
        },
        START,
    );

    assert!(!world.get(7).unwrap().is_moving(START));
}

#[test]
fn bytes_0_unpacks_race_class_gender_and_power() {
    let mut world = WorldState::new();
    world.apply(&[create(
        1,
        ObjectType::Unit,
        None,
        &[(fields::UNIT_BYTES_0, packed_bytes_0(4, 4, 1, 3))],
    )]);
    let entity = world.get(1).unwrap();
    assert_eq!(entity.race(), Some(4));
    assert_eq!(entity.class(), Some(4));
    assert_eq!(entity.gender(), Some(1));
    assert_eq!(entity.power_type(), Some(3));
}

#[test]
fn power_comes_from_the_field_the_units_type_selects() {
    let mut world = WorldState::new();
    world.apply(&[create(
        1,
        ObjectType::Unit,
        None,
        &[
            (fields::UNIT_BYTES_0, packed_bytes_0(1, 4, 0, 3)),
            (fields::UNIT_POWER1, 0),
            (fields::UNIT_POWER1 + 3, 87),
            (fields::UNIT_MAX_POWER1, 0),
            (fields::UNIT_MAX_POWER1 + 3, 100),
        ],
    )]);
    let entity = world.get(1).unwrap();
    assert_eq!(entity.power(), Some(87), "read POWER1 instead of POWER4");
    assert_eq!(entity.max_power(), Some(100));
}

#[test]
fn a_power_type_past_the_array_reads_nothing_rather_than_a_neighbour() {
    assert_eq!(
        fields::UNIT_POWER1 + 29,
        fields::UNIT_LEVEL,
        "the premise of this test: an unguarded index 29 lands on the level"
    );

    let mut world = WorldState::new();
    world.apply(&[create(
        1,
        ObjectType::Unit,
        None,
        &[
            (fields::UNIT_BYTES_0, packed_bytes_0(1, 1, 0, 29)),
            (fields::UNIT_LEVEL, 60),
        ],
    )]);
    let entity = world.get(1).unwrap();
    assert_eq!(entity.power(), None);
    assert_eq!(entity.max_power(), None);
    assert_eq!(entity.level(), Some(60), "the field itself is untouched");
}

#[test]
fn nothing_targeted_reads_as_no_target() {
    let mut world = WorldState::new();
    world.apply(&[
        create(1, ObjectType::Unit, None, &[(fields::UNIT_TARGET, 0)]),
        create(
            2,
            ObjectType::Unit,
            None,
            &[(fields::UNIT_TARGET, 0x1234), (fields::UNIT_TARGET + 1, 0xF13)],
        ),
    ]);
    assert_eq!(world.get(1).unwrap().target(), None);
    assert_eq!(world.get(2).unwrap().target(), Some(0x0000_0F13_0000_1234));
}

fn packed_bytes_0(race: u8, class: u8, gender: u8, power: u8) -> u32 {
    u32::from_le_bytes([race, class, gender, power])
}

#[test]
fn the_login_burst_seeds_the_cooldowns_that_have_a_time() {
    let mut body = vec![0u8];
    body.extend(0u16.to_le_bytes());
    body.extend(3u16.to_le_bytes());
    for (spell, own, shared) in [(172u32, 6000u32, 0u32), (6603, 0, 9000), (1784, 1, 0x8000_0000)] {
        body.extend(spell.to_le_bytes());
        body.extend([0u8; 4]);
        body.extend(own.to_le_bytes());
        body.extend(shared.to_le_bytes());
    }
    let mut world = WorldState::new();
    let packets = [Packet { opcode: server::INITIAL_SPELLS, body }];
    let report = world.replicate(&packets, None, START, line, list);
    assert!(report.failures.is_empty(), "{:?}", report.failures);
    assert_eq!(report.spells, 0);
    assert_eq!(world.spells.cooldowns.len(), 3);
    assert_eq!(cooldown_fraction(&world, 172, START), 1.0);
    assert_eq!(world.cooldowns[&172].remaining_ms(after(START, 4500)), 1500);
    assert_eq!(world.cooldowns[&6603].duration_ms, 9000);
    assert!(!world.cooldowns.contains_key(&1784));
}

#[test]
fn a_stop_keeps_the_course_that_was_being_travelled() {
    let mut world = WorldState::new();
    world.apply(&[create(7, ObjectType::Unit, Some(at(0.0, 0.0)), &[])]);
    let mut moved = MonsterMove {
        guid: 7,
        from: at(0.0, 0.0),
        to: Some(at(0.0, 50.0)),
        path: Vec::new(),
        duration: 1000,
        stopped: false,
        facing: None,
    };
    world.apply_monster_move(&moved, START);
    moved.from = at(0.0, 25.0);
    moved.to = None;
    moved.stopped = true;
    world.apply_monster_move(&moved, after(START, 500));
    let entity = world.get(7).unwrap();
    assert_eq!(entity.position, Some(at(0.0, 25.0)));
    let place = interpolated_position(entity, after(START, 900)).unwrap();
    assert_eq!((place.x, place.y), (0.0, 25.0));
    assert!((place.orientation - std::f32::consts::FRAC_PI_2).abs() < 1e-5);

    moved.facing = Some(MoveFacing::Target(0x99));
    world.apply_monster_move(&moved, after(START, 950));
    let pose = world.get(7).unwrap().pose(after(START, 950)).unwrap();
    assert_eq!(pose.heading, Heading::Target(0x99));
    assert_eq!(pose.travel, None);
}

#[test]
fn the_blocks_of_a_batch_go_to_whoever_asks_for_them() {
    let bad = Packet { opcode: server::UPDATE_OBJECT, body: vec![1, 0, 0, 0, 9] };
    let packets = [
        Packet { opcode: server::UPDATE_OBJECT, body: update_object_body(1, &[(3, 7)]) },
        bad,
        Packet { opcode: server::UPDATE_OBJECT, body: update_object_body(2, &[]) },
    ];
    let mut blocks = Vec::new();
    let mut world = WorldState::new();
    let report = world.replicate(&packets, Some(&mut blocks), START, line, list);
    let guids: Vec<Option<u64>> = blocks.iter().map(|block| block.guid()).collect();
    assert_eq!(guids, vec![Some(1), Some(2)]);
    assert_eq!(report.object_updates, 2);
    assert_eq!(report.failures.len(), 1);
    assert!(matches!(&report.failures[0].2, Ok(body) if body == &[1, 0, 0, 0, 9]));
    let order: Vec<u64> = world.iter().iter().map(|entity| entity.guid).collect();
    assert_eq!(order, vec![1, 2]);
}

#[test]
fn a_compressed_update_that_does_not_decode_is_kept_expanded() {
    let plain = vec![1u8, 0, 0, 0, 9];
    let mut encoder =
        flate2::write::ZlibEncoder::new(Vec::new(), flate2::Compression::default());
    encoder.write_all(&plain).unwrap();
    let mut body = (plain.len() as u32).to_le_bytes().to_vec();
    body.extend(encoder.finish().unwrap());
    let mut world = WorldState::new();
    let opcode = server::COMPRESSED_UPDATE_OBJECT;
    let packets = [
        Packet { opcode, body },
        Packet { opcode, body: vec![4, 0, 0, 0, 1, 2, 3] },
    ];
    let report = world.replicate(&packets, None, START, line, list);
    assert_eq!(report.failures.len(), 2);
    assert!(matches!(&report.failures[0].2, Ok(payload) if payload == &plain));
    assert!(report.failures[1].2.is_err());
}

#[test]
fn names_chat_threat_and_refused_casts_come_back() {
    let mut name = vec![0x01, 0x35, 0];
    name.extend(b"Watcher\0\0");
    name.extend([1, 0, 1, 0]);
    let unknown = (299u32 | 0x8000_0000).to_le_bytes().to_vec();
    let mut failed = vec![0u8];
    failed.extend(6603u32.to_le_bytes());
    failed.push(0x4A);
    let packets = [
        Packet { opcode: server::NAME_QUERY_RESPONSE, body: name },
        Packet { opcode: server::CREATURE_QUERY_RESPONSE, body: unknown },
        Packet { opcode: server::MESSAGECHAT, body: b"hello\0".to_vec() },
        Packet { opcode: server::GM_MESSAGECHAT, body: b"behave\0".to_vec() },
        Packet { opcode: server::THREAT_UPDATE, body: vec![5, 6, 0, 0] },
        Packet { opcode: server::CAST_FAILED, body: failed },
        Packet { opcode: server::PONG, body: vec![7] },
    ];
    let mut world = WorldState::new();
    let report = world.replicate(&packets, None, START, line, list);
    assert!(report.failures.is_empty(), "{:?}", report.failures);
    assert_eq!(report.names, 2);
    assert_eq!(world.names.players[&0x35].name.as_deref(), Some("Watcher"));
    assert_eq!(world.names.creatures[&299].name, None);
    assert_eq!(report.chat, vec!["hello".to_string(), "behave".to_string()]);
    assert_eq!(report.threat, vec![0x0605]);
    assert_eq!(report.cast_failures[0].reason, 0x4A);
}

#[test]
fn chat_and_threat_that_cannot_be_read_are_failures() {
    let packets = [
        Packet { opcode: server::MESSAGECHAT, body: Vec::new() },
        Packet { opcode: server::THREAT_UPDATE, body: vec![5, 6] },
        Packet { opcode: server::GM_MESSAGECHAT, body: b"heard\0".to_vec() },
        Packet { opcode: server::GM_MESSAGECHAT, body: b"cut".to_vec() },
    ];
    let mut world = WorldState::new();
    let report = world.replicate(&packets, None, START, line, list);
    assert_eq!(report.chat, vec!["heard".to_string()]);
    assert!(report.threat.is_empty());
    let failed: Vec<u16> = report.failures.iter().map(|failure| failure.0).collect();
    assert_eq!(
        failed,
        vec![server::MESSAGECHAT, server::THREAT_UPDATE, server::GM_MESSAGECHAT]
    );
    assert!(matches!(report.failures[0].1, Error::UnterminatedString { .. }));
    assert!(matches!(report.failures[1].1, Error::Truncated { need: 4, len: 2, .. }));
    assert!(matches!(&report.failures[2].2, Ok(payload) if payload == b"cut"));
}

#[test]
fn movement_reaches_its_object_through_any_relayed_opcode() {
    let info = MovementInfo::standing(at(10.0, 20.0), 1);
    let mut world = WorldState::new();
    world.apply(&[create(7, ObjectType::Player, Some(at(0.0, 0.0)), &[])]);
    let packets = [
        Packet { opcode: 0x00DA, body: world::protocol::movement(7, &info) },
        Packet { opcode: server::MOVE_STOP, body: world::protocol::movement(8, &info) },
    ];
    let report = world.replicate(&packets, None, START, line, list);
    assert_eq!(report.relayed_moves, 2);
    assert_eq!(world.get(7).unwrap().position, Some(at(10.0, 20.0)));
    assert_eq!(world.get(7).unwrap().movement, Some(info));
    assert_eq!(world.stats().orphaned, 1);
}

#[test]
fn a_creatures_path_arrives_through_the_batch() {
    let mut body = Vec::new();
    write_packed_guid(7, &mut body);
    body.push(0);
    for value in [1.0f32, 2.0, 3.0] {
        body.extend(value.to_le_bytes());
    }
    body.extend(0u32.to_le_bytes());
    body.push(0);
    body.extend(0u32.to_le_bytes());
    body.extend(2500u32.to_le_bytes());
    body.extend(1u32.to_le_bytes());
    for value in [5.0f32, 6.0, 7.0] {
        body.extend(value.to_le_bytes());
    }
    let mut world = WorldState::default();
    world.apply(&[create(7, ObjectType::Unit, None, &[])]);
    let packets = [Packet { opcode: server::MONSTER_MOVE, body }];
    let report = world.replicate(&packets, None, START, line, list);
    assert_eq!(report.monster_moves, 1);
    let entity = world.get(7).unwrap();
    assert_eq!(entity.move_duration, Some(2500));
    assert_eq!(entity.move_started, Some(START));
    assert!(entity.is_moving(after(START, 2499)));
    assert!(!entity.is_moving(after(START, 2500)));
}

#[test]
fn near_objects_and_movement_blocks() {
    let mut world = WorldState::new();
    world.apply(&[
        create(7, ObjectType::Unit, None, &[]),
        Block::NearObjects { guids: vec![7, 8] },
        Block::Movement {
            guid: 7,
            movement: Movement { position: Some(at(4.0, 5.0)), ..Movement::default() },
        },
        Block::Movement { guid: 9, movement: Movement::default() },
    ]);
    assert_eq!(world.len(), 1);
    assert_eq!(world.get(7).unwrap().position, Some(at(4.0, 5.0)));
    assert_eq!(world.get(7).unwrap().updates, 2);
    assert_eq!(world.stats().movement_updates, 1);
    assert_eq!(world.stats().orphaned, 1);
}

#[test]
fn a_swing_with_more_than_one_block_is_refused() {
    let mut body = 2u32.to_le_bytes().to_vec();
    body.extend([0x01, 0x32, 0x01, 0x33]);
    body.extend([0u8; 8]);
    body.push(2);
    let packets = [Packet { opcode: server::ATTACKER_STATE_UPDATE, body }];
    let mut world = WorldState::new();
    let report = world.replicate(&packets, None, START, line, list);
    assert!(report.swings.is_empty());
    assert!(matches!(
        report.failures[0].1,
        world::protocol::Error::UnconfirmedSwingDamageBlocks { count: 2 }
    ));
}
