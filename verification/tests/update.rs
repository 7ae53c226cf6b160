use std::io::Write;
use world::codec::ZlibFault;
use world::protocol::{Error, Reader};
use world::update::{
    decompress_update_object, fields, monster_move_is_about, parse_power_update, Fields, movement_flags, parse_compressed_update_object, parse_login_set_time_speed,
    parse_monster_move, parse_update_object, read_fields, read_packed_guid, update_flags,
    write_packed_guid, Block, GameTime, MoveFacing, ObjectType, Position, MOVE_FACING_ANGLE,
    MOVE_FACING_SPOT, MOVE_FACING_TARGET, MOVE_NORMAL, MOVE_STOP,
};

fn place(x: f32, y: f32, z: f32) -> Position {
    Position { x: x.to_bits(), y: y.to_bits(), z: z.to_bits(), orientation: 0 }
}

fn floats(position: &Position) -> (f32, f32, f32) {
    (f32::from_bits(position.x), f32::from_bits(position.y), f32::from_bits(position.z))
}

fn tail() -> Vec<u8> {
    let mut extra = 0u32.to_le_bytes().to_vec();
    extra.extend_from_slice(&4000u32.to_le_bytes());
    extra.extend_from_slice(&1u32.to_le_bytes());
    for value in [10.0f32, 20.0, 30.0] {
        extra.extend_from_slice(&value.to_le_bytes());
    }
    extra
}

const CAPTURED: [u8; 12] = [
    0x02, 0x21, 0x73, 0x1a,
    0x8a, 0x88, 0x88, 0x3c,
    0x00, 0x00, 0x00, 0x00,
];

#[test]
fn the_realms_clock_matches_the_wall_clock_it_was_captured_against() {
    let time = parse_login_set_time_speed(&CAPTURED).expect("captured live");
    assert_eq!((time.hour, time.minute), (4, 2));
    assert_eq!(time.weekday, 4, "Thursday, counting Sunday as zero");
    assert_eq!(time.day, 12, "zero-based, so the thirteenth");
    assert_eq!(time.month, 7, "zero-based, so August");
    assert_eq!(time.year, 26, "years since 2000");
    assert!((f32::from_bits(time.speed) - 1.0 / 60.0).abs() < 1e-6, "got {}", time.speed);
    assert_eq!(time.minute_of_day(), 4 * 60 + 2);
}

#[test]
fn a_short_or_long_body_is_refused() {
    assert!(parse_login_set_time_speed(&CAPTURED[..8]).is_err());
    let mut long = CAPTURED.to_vec();
    long.push(0);
    assert!(
        parse_login_set_time_speed(&long).is_err(),
        "trailing bytes must be an error, not ignored"
    );
}

fn advanced(time: &GameTime, elapsed: std::time::Duration) -> GameTime {
    let minutes = f64::from(f32::from_bits(time.speed)) * elapsed.as_secs_f64();
    let total = f64::from(time.minute_of_day()) + minutes;
    time.at_minute(total.rem_euclid(1440.0) as u32)
}

#[test]
fn the_clock_runs_forward_at_the_realms_rate() {
    let time = parse_login_set_time_speed(&CAPTURED).unwrap();
    let later = advanced(&time, std::time::Duration::from_secs(3600));
    assert_eq!((later.hour, later.minute), (5, 2));
    let midnight = advanced(&time, std::time::Duration::from_secs(24 * 3600));
    assert_eq!((midnight.hour, midnight.minute), (4, 2));
    let past = advanced(&time, std::time::Duration::from_secs(20 * 3600));
    assert_eq!(past.hour, 0, "20 hours past 04:02 is just past midnight");
}

#[test]
fn packed_guids_round_trip() {
    for guid in [
        0u64,
        1,
        0xFF,
        0x100,
        0x1234_5678,
        0xFFFF_FFFF_FFFF_FFFF,
        0x0000_0100_0000_0001,
    ] {
        let mut packed = Vec::new();
        write_packed_guid(guid, &mut packed);
        let mut reader = Reader::new(&packed, "guid");
        assert_eq!(read_packed_guid(&mut reader).unwrap(), guid, "{guid:#x}");
        reader.finish().unwrap();
    }
}

#[test]
fn packed_guids_omit_zero_bytes() {
    let mut packed = Vec::new();
    write_packed_guid(1, &mut packed);
    assert_eq!(packed, vec![0x01, 0x01], "a small guid should cost 2 bytes");

    let mut packed = Vec::new();
    write_packed_guid(0, &mut packed);
    assert_eq!(packed, vec![0x00], "a zero guid is just an empty mask");

    let mut packed = Vec::new();
    write_packed_guid(u64::MAX, &mut packed);
    assert_eq!(packed.len(), 9, "an all-bytes guid costs mask plus eight");
}

#[test]
fn packed_guids_keep_byte_positions() {
    let guid = 0xAA00_0000_0000_00BBu64;
    let mut packed = Vec::new();
    write_packed_guid(guid, &mut packed);
    assert_eq!(packed, vec![0b1000_0001, 0xBB, 0xAA]);

    let mut reader = Reader::new(&packed, "guid");
    assert_eq!(read_packed_guid(&mut reader).unwrap(), guid);
}

fn fields_bytes(entries: &[(u16, u32)]) -> Vec<u8> {
    let highest = entries.iter().map(|(at, _)| *at).max().unwrap_or(0);
    let blocks = (highest as usize / 32) + 1;
    let mut mask = vec![0u32; blocks];
    for (at, _) in entries {
        mask[*at as usize / 32] |= 1 << (*at % 32);
    }

    let mut body = vec![blocks as u8];
    for word in &mask {
        body.extend_from_slice(&word.to_le_bytes());
    }
    let mut sorted = entries.to_vec();
    sorted.sort_by_key(|(at, _)| *at);
    for (_, value) in sorted {
        body.extend_from_slice(&value.to_le_bytes());
    }
    body
}

#[test]
fn sparse_fields_read_back_by_index() {
    let entries = [(0u16, 7u32), (2, 9), (54, 1), (67, 49)];
    let body = fields_bytes(&entries);
    let mut reader = Reader::new(&body, "fields");
    let parsed = read_fields(&mut reader).unwrap();
    reader.finish().unwrap();

    assert_eq!(parsed.len(), 4);
    for (index, value) in entries {
        assert_eq!(parsed.get(index), Some(value), "field {index}");
    }
    assert_eq!(parsed.get(1), None, "an unset field must be absent");
    assert_eq!(parsed.get(999), None);
}

#[test]
fn field_values_follow_mask_order_across_words() {
    let body = fields_bytes(&[(70, 0xAAAA), (3, 0xBBBB), (33, 0xCCCC)]);
    let mut reader = Reader::new(&body, "fields");
    let parsed = read_fields(&mut reader).unwrap();
    reader.finish().unwrap();

    assert_eq!(parsed.get(3), Some(0xBBBB));
    assert_eq!(parsed.get(33), Some(0xCCCC));
    assert_eq!(parsed.get(70), Some(0xAAAA));
}

#[test]
fn a_guid_field_pair_joins_into_one_value() {
    let body = fields_bytes(&[(0, 0x5566_7788), (1, 0x1122_3344)]);
    let mut reader = Reader::new(&body, "fields");
    let parsed = read_fields(&mut reader).unwrap();
    assert_eq!(parsed.get_u64(0), Some(0x1122_3344_5566_7788));
}

#[test]
fn an_empty_mask_yields_no_fields() {
    let mut reader = Reader::new(&[0u8], "fields");
    assert!(read_fields(&mut reader).unwrap().is_empty());
}

#[test]
fn a_mask_longer_than_its_values_is_rejected() {
    let mut body = fields_bytes(&[(0, 1), (1, 2), (2, 3)]);
    body.truncate(body.len() - 4);
    let mut reader = Reader::new(&body, "fields");
    assert!(read_fields(&mut reader).is_err());
}

fn stationary_create(guid: u64, object_type: u8) -> Vec<u8> {
    let mut body = Vec::new();
    body.push(2);
    write_packed_guid(guid, &mut body);
    body.push(object_type);
    body.extend_from_slice(&update_flags::STATIONARY_POSITION.to_le_bytes());
    for value in [1.0f32, 2.0, 3.0, 0.5] {
        body.extend_from_slice(&value.to_le_bytes());
    }
    body.extend_from_slice(&fields_bytes(&[(fields::OBJECT_ENTRY, 1234)]));
    body
}

#[test]
fn a_stationary_create_block_parses() {
    let mut body = 1u32.to_le_bytes().to_vec();
    body.extend_from_slice(&stationary_create(0x4321, 5));

    let blocks = parse_update_object(&body).unwrap();
    assert_eq!(blocks.len(), 1);
    match &blocks[0] {
        Block::Create {
            guid,
            object_type,
            spawned,
            movement,
            fields,
        } => {
            assert_eq!(*guid, 0x4321);
            assert_eq!(*object_type, ObjectType::GameObject);
            assert!(!spawned);
            assert_eq!(f32::from_bits(movement.position.unwrap().x), 1.0);
            assert_eq!(f32::from_bits(movement.position.unwrap().orientation), 0.5);
            assert_eq!(fields.get(fields::OBJECT_ENTRY), Some(1234));
        }
        other => panic!("wrong block: {other:?}"),
    }
}

#[test]
fn several_blocks_parse_in_sequence() {
    let mut body = 3u32.to_le_bytes().to_vec();
    body.extend_from_slice(&stationary_create(0x11, 5));
    body.extend_from_slice(&stationary_create(0x22, 7));
    body.push(4);
    body.extend_from_slice(&2u32.to_le_bytes());
    write_packed_guid(0x33, &mut body);
    write_packed_guid(0x44, &mut body);

    let blocks = parse_update_object(&body).unwrap();
    assert_eq!(blocks.len(), 3);
    assert_eq!(blocks[0].guid(), Some(0x11));
    assert_eq!(blocks[1].guid(), Some(0x22));
    match &blocks[2] {
        Block::OutOfRange { guids } => assert_eq!(guids, &[0x33, 0x44]),
        other => panic!("wrong block: {other:?}"),
    }
}

fn living_create(guid: u64, flags: u32) -> Vec<u8> {
    let mut body = Vec::new();
    body.push(3);
    write_packed_guid(guid, &mut body);
    body.push(4);
    body.extend_from_slice(&(update_flags::LIVING | update_flags::SELF).to_le_bytes());

    body.extend_from_slice(&flags.to_le_bytes());
    body.extend_from_slice(&0u16.to_le_bytes());
    body.extend_from_slice(&12345u32.to_le_bytes());
    for value in [-8949.95f32, -132.49, 83.53, 1.0] {
        body.extend_from_slice(&value.to_le_bytes());
    }
    if flags & (movement_flags::SWIMMING | movement_flags::FLYING) != 0 {
        body.extend_from_slice(&0.25f32.to_le_bytes());
    }
    body.extend_from_slice(&0u32.to_le_bytes());
    if flags & movement_flags::FALLING != 0 {
        body.extend_from_slice(&[0u8; 16]);
    }
    for speed in [1.0f32, 7.0, 4.5, 4.72, 2.5, 7.0, 4.5, 3.14, 1.0] {
        body.extend_from_slice(&speed.to_le_bytes());
    }
    body.extend_from_slice(&fields_bytes(&[(fields::UNIT_LEVEL, 1)]));
    body
}

#[test]
fn a_living_create_block_parses() {
    let mut body = 1u32.to_le_bytes().to_vec();
    body.extend_from_slice(&living_create(0x07, 0));

    let blocks = parse_update_object(&body).unwrap();
    match &blocks[0] {
        Block::Create {
            object_type,
            spawned,
            movement,
            fields,
            ..
        } => {
            assert_eq!(*object_type, ObjectType::Player);
            assert!(spawned, "CREATE_OBJECT2 marks a spawn");
            assert!(movement.is_self());
            assert!(movement.is_living());
            assert_eq!(f32::from_bits(movement.position.unwrap().x), -8949.95);
            assert_eq!(f32::from_bits(movement.speeds.unwrap()[1]), 7.0, "run speed");
            assert_eq!(fields.get(fields::UNIT_LEVEL), Some(1));
        }
        other => panic!("wrong block: {other:?}"),
    }
}

#[test]
fn pitch_is_present_only_when_the_flags_call_for_it() {
    for flags in [
        movement_flags::SWIMMING,
        movement_flags::FLYING,
        movement_flags::SWIMMING | movement_flags::FALLING,
    ] {
        let mut body = 1u32.to_le_bytes().to_vec();
        body.extend_from_slice(&living_create(0x07, flags));
        let blocks = parse_update_object(&body)
            .unwrap_or_else(|error| panic!("flags {flags:#x}: {error:?}"));
        match &blocks[0] {
            Block::Create { movement, .. } => {
                assert_eq!(f32::from_bits(movement.speeds.unwrap()[1]), 7.0, "flags {flags:#x}")
            }
            other => panic!("wrong block: {other:?}"),
        }
    }
}

#[test]
fn a_transportable_position_is_eight_floats() {
    let mut body = 1u32.to_le_bytes().to_vec();
    body.push(2);
    write_packed_guid(0x55, &mut body);
    body.push(5);
    body.extend_from_slice(&update_flags::POSITION.to_le_bytes());
    write_packed_guid(0, &mut body);
    for value in [10.0f32, 20.0, 30.0] {
        body.extend_from_slice(&value.to_le_bytes());
    }
    for value in [10.0f32, 20.0, 30.0] {
        body.extend_from_slice(&value.to_le_bytes());
    }
    body.extend_from_slice(&1.25f32.to_le_bytes());
    body.extend_from_slice(&0f32.to_le_bytes());
    body.extend_from_slice(&fields_bytes(&[(fields::OBJECT_ENTRY, 42)]));

    let blocks = parse_update_object(&body).expect("eight floats, not nine");
    match &blocks[0] {
        Block::Create {
            movement, fields, ..
        } => {
            let position = movement.position.expect("a position");
            assert_eq!(floats(&position), (10.0, 20.0, 30.0));
            assert_eq!(f32::from_bits(position.orientation), 1.25, "orientation read from the wrong float");
            assert_eq!(fields.get(fields::OBJECT_ENTRY), Some(42));
        }
        other => panic!("wrong block: {other:?}"),
    }
}

#[test]
fn leftover_bytes_are_an_error() {
    let mut body = 1u32.to_le_bytes().to_vec();
    body.extend_from_slice(&stationary_create(0x4321, 5));
    body.push(0);
    assert!(matches!(
        parse_update_object(&body),
        Err(Error::Trailing { .. })
    ));
}

#[test]
fn an_unknown_update_type_is_rejected() {
    let mut body = 1u32.to_le_bytes().to_vec();
    body.push(9);
    assert!(matches!(
        parse_update_object(&body),
        Err(Error::UnknownUpdateType { got: 9 })
    ));
}

#[test]
fn an_unknown_object_type_is_rejected() {
    let mut body = 1u32.to_le_bytes().to_vec();
    body.extend_from_slice(&stationary_create(1, 99));
    assert!(matches!(
        parse_update_object(&body),
        Err(Error::UnknownObjectType { got: 99 })
    ));
}

#[test]
fn an_overstated_block_count_is_rejected() {
    let mut body = 5000u32.to_le_bytes().to_vec();
    body.extend_from_slice(&stationary_create(1, 5));
    assert!(parse_update_object(&body).is_err());
}

#[test]
fn the_compressed_form_matches_the_plain_one() {
    let mut plain = 1u32.to_le_bytes().to_vec();
    plain.extend_from_slice(&stationary_create(0x99, 5));

    let mut encoder =
        flate2::write::ZlibEncoder::new(Vec::new(), flate2::Compression::default());
    encoder.write_all(&plain).unwrap();
    let compressed = encoder.finish().unwrap();

    let mut body = (plain.len() as u32).to_le_bytes().to_vec();
    body.extend_from_slice(&compressed);

    let from_compressed = parse_compressed_update_object(&body).unwrap();
    let from_plain = parse_update_object(&plain).unwrap();
    assert_eq!(from_compressed.len(), from_plain.len());
    assert_eq!(from_compressed[0].guid(), from_plain[0].guid());
}

#[test]
fn a_wrong_declared_length_is_rejected() {
    let mut plain = 1u32.to_le_bytes().to_vec();
    plain.extend_from_slice(&stationary_create(0x99, 5));
    let mut encoder =
        flate2::write::ZlibEncoder::new(Vec::new(), flate2::Compression::default());
    encoder.write_all(&plain).unwrap();
    let compressed = encoder.finish().unwrap();

    let mut body = (plain.len() as u32 + 1).to_le_bytes().to_vec();
    body.extend_from_slice(&compressed);
    assert!(matches!(
        parse_compressed_update_object(&body),
        Err(Error::CompressedLength { .. })
    ));
}

fn monster_move_body(move_type: u8, extra: &[u8]) -> Vec<u8> {
    let mut body = Vec::new();
    write_packed_guid(7, &mut body);
    body.push(0);
    for value in [1.0f32, 2.0, 3.0] {
        body.extend_from_slice(&value.to_le_bytes());
    }
    body.extend_from_slice(&0u32.to_le_bytes());
    body.push(move_type);
    body.extend_from_slice(extra);
    body
}

#[test]
fn a_flying_spline_keeps_every_point() {
    let flying: u32 = 0x0000_2000;
    let route = [
        [10.0f32, 20.0, 30.0],
        [40.0, 50.0, 60.0],
        [70.0, 80.0, 90.0],
    ];
    let mut extra = Vec::new();
    extra.extend_from_slice(&flying.to_le_bytes());
    extra.extend_from_slice(&4200u32.to_le_bytes());
    extra.extend_from_slice(&(route.len() as u32).to_le_bytes());
    for point in route {
        for value in point {
            extra.extend_from_slice(&value.to_le_bytes());
        }
    }
    let body = monster_move_body(MOVE_NORMAL, &extra);

    let parsed = parse_monster_move(&body).expect("a flying spline parses");
    assert_eq!(parsed.duration, 4200);
    assert_eq!(parsed.path.len(), 3, "every point is kept, not just the last");
    for (got, want) in parsed.path.iter().zip(route.iter()) {
        assert_eq!(floats(got), (want[0], want[1], want[2]));
    }
    let to = parsed.to.expect("a flying spline has a destination");
    assert_eq!(floats(&to), (70.0, 80.0, 90.0));
}

#[test]
fn the_old_flying_bit_reads_a_route_as_packed_offsets() {
    let wrong: u32 = 0x0000_0200;
    let mut extra = Vec::new();
    extra.extend_from_slice(&wrong.to_le_bytes());
    extra.extend_from_slice(&4200u32.to_le_bytes());
    extra.extend_from_slice(&3u32.to_le_bytes());
    for value in [70.0f32, 80.0, 90.0] {
        extra.extend_from_slice(&value.to_le_bytes());
    }
    extra.extend_from_slice(&0u32.to_le_bytes());
    extra.extend_from_slice(&0u32.to_le_bytes());
    let body = monster_move_body(MOVE_NORMAL, &extra);

    let parsed = parse_monster_move(&body).expect("it parses -- that is the problem");
    assert!(
        parsed.path.is_empty(),
        "the packed branch spells out no route, which is why the flight was declined"
    );
    assert!(parsed.to.is_some(), "and it still yields a plausible destination");
}

#[test]
fn the_facing_modes_that_name_something_are_kept_not_skipped() {
    let mut extra = 0xF130_0000_4500_0A4Bu64.to_le_bytes().to_vec();
    extra.extend_from_slice(&tail());
    let parsed =
        parse_monster_move(&monster_move_body(MOVE_FACING_TARGET, &extra))
            .unwrap();
    assert_eq!(parsed.facing, Some(MoveFacing::Target(0xF130_0000_4500_0A4B)));

    let mut extra = Vec::new();
    for value in [11.0f32, 22.0, 33.0] {
        extra.extend_from_slice(&value.to_le_bytes());
    }
    extra.extend_from_slice(&tail());
    let parsed =
        parse_monster_move(&monster_move_body(MOVE_FACING_SPOT, &extra)).unwrap();
    assert_eq!(
        parsed.facing,
        Some(MoveFacing::Spot {
            x: 11.0f32.to_bits(),
            y: 22.0f32.to_bits(),
            z: 33.0f32.to_bits(),
        })
    );
}

#[test]
fn facing_angle_is_parsed_into_facing() {
    let mut extra = 1.25f32.to_le_bytes().to_vec();
    extra.extend_from_slice(&0u32.to_le_bytes());
    extra.extend_from_slice(&4000u32.to_le_bytes());
    extra.extend_from_slice(&1u32.to_le_bytes());
    for value in [10.0f32, 20.0, 30.0] {
        extra.extend_from_slice(&value.to_le_bytes());
    }
    let body = monster_move_body(MOVE_FACING_ANGLE, &extra);

    let parsed = parse_monster_move(&body).unwrap();
    assert_eq!(parsed.facing, Some(MoveFacing::Angle(1.25f32.to_bits())));
    assert_eq!(
        parsed.from,
        place(1.0, 2.0, 3.0)
    );
    assert_eq!(
        parsed.to,
        Some(place(10.0, 20.0, 30.0))
    );
    assert_eq!(parsed.duration, 4000);
}

#[test]
fn a_stop_carries_no_facing() {
    let body = monster_move_body(MOVE_STOP, &[]);

    let parsed = parse_monster_move(&body).unwrap();
    assert!(parsed.stopped);
    assert!(parsed.to.is_none());
    assert_eq!(parsed.facing, None);
}

#[test]
fn a_normal_move_has_no_facing() {
    let mut extra = 0u32.to_le_bytes().to_vec();
    extra.extend_from_slice(&2500u32.to_le_bytes());
    extra.extend_from_slice(&1u32.to_le_bytes());
    for value in [5.0f32, 6.0, 7.0] {
        extra.extend_from_slice(&value.to_le_bytes());
    }
    let body = monster_move_body(MOVE_NORMAL, &extra);

    let parsed = parse_monster_move(&body).unwrap();
    assert_eq!(parsed.facing, None);
    assert_eq!(parsed.duration, 2500);
}

#[test]
fn a_set_field_reads_back_and_a_merge_keeps_the_rest() {
    let mut older = Fields::default();
    older.set(9, 1);
    older.set(3, 2);
    older.set(9, 3);
    assert_eq!(older.iter(), vec![(3, 2), (9, 3)]);
    let mut newer = Fields::default();
    newer.set(5, 7);
    newer.set(3, 8);
    older.merge(&newer);
    assert_eq!(older.iter(), vec![(3, 8), (5, 7), (9, 3)]);
    assert_eq!(older.get_f32_bits(5), Some(7));
    assert_eq!(older.clone().iter(), older.iter());
    assert_eq!(older.get_u64(3), Some(8));
    assert_eq!(older.get_u64(4), None);
}

#[test]
fn no_object_update_is_the_beginning_of_another() {
    let mut body = 2u32.to_le_bytes().to_vec();
    body.extend_from_slice(&stationary_create(0x4321, 5));
    body.extend_from_slice(&living_create(7, movement_flags::SWIMMING));
    assert!(parse_update_object(&body).is_ok());
    for cut in 0..body.len() {
        assert!(parse_update_object(&body[..cut]).is_err(), "{cut} bytes");
    }
}

#[test]
fn a_stream_that_is_cut_or_corrupt_is_told_apart() {
    let mut plain = 1u32.to_le_bytes().to_vec();
    plain.extend_from_slice(&stationary_create(0x99, 5));
    let mut encoder =
        flate2::write::ZlibEncoder::new(Vec::new(), flate2::Compression::default());
    encoder.write_all(&plain).unwrap();
    let packed = encoder.finish().unwrap();
    let declared = (plain.len() as u32).to_le_bytes().to_vec();

    let mut whole = declared.clone();
    whole.extend_from_slice(&packed);
    assert_eq!(decompress_update_object(&whole).unwrap(), plain);
    assert!(matches!(
        decompress_update_object(&whole[..whole.len() - 6]),
        Err(Error::Compress(ZlibFault::Incomplete))
    ));
    let mut corrupt = declared;
    corrupt.extend([0xFFu8; 8]);
    assert!(matches!(
        decompress_update_object(&corrupt),
        Err(Error::Compress(ZlibFault::Corrupt))
    ));
    assert!(matches!(
        decompress_update_object(&[0xFF, 0xFF, 0xFF, 0x7F, 1]),
        Err(Error::Oversized { got: 0x7FFF_FFFF })
    ));
    assert!(matches!(decompress_update_object(&[1, 2]), Err(Error::Truncated { .. })));
}

#[test]
fn a_power_names_its_field_while_there_is_one() {
    let power = parse_power_update(&[0x01, 0x32, 6, 0xF4, 0x01, 0, 0]).unwrap();
    assert_eq!(power.field(), Some(fields::UNIT_POWER1 + 6));
    assert_eq!(power.value, 500);
    let past = parse_power_update(&[0x01, 0x32, 7, 0, 0, 0, 0]).unwrap();
    assert_eq!(past.field(), None);
}

#[test]
fn a_monster_move_is_about_its_own_guid() {
    let body = monster_move_body(MOVE_STOP, &[]);
    assert!(monster_move_is_about(&body, 7));
    assert!(!monster_move_is_about(&body, 8));
    assert!(!monster_move_is_about(&[], 7));
    assert!(matches!(
        parse_monster_move(&monster_move_body(9, &[])),
        Err(Error::UnknownUpdateType { got: 9 })
    ));
}
