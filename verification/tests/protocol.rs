use std::io::Read;
use world::movement::MovementInfo;
use world::opcode::{server, ClientOpcode};
use world::protocol::{
    addon_block, addon_frame, auth_digest, auth_session, char_create, char_delete, client_packet,
    describe_char_result, describe_response, movement, parse_auth_challenge, parse_auth_response,
    parse_char_enum, parse_login_verify_world, parse_movement, parse_pong, parse_result_code, parse_server_header, parse_teleport,
    parse_time_sync_req, ping, player_login, server_header_len, session_body, time_sync_resp,
    Appearance, AuthResponse, Error, Reader, BUILD, CHAR_CREATE_SUCCESS, CHAR_DELETE_SUCCESS,
    CLIENT_HEADER_LEN, EQUIPMENT_SLOTS, MAX_PACKET, SERVER_HEADER_LEN, SERVER_HEADER_LEN_LARGE,
    SESSION_KEY_LEN,
};
use world::update::Position;

#[test]
fn a_client_header_is_big_endian_size_and_wide_opcode() {
    let packet = client_packet(ClientOpcode::CharEnum, &[]);
    assert_eq!(packet.len(), CLIENT_HEADER_LEN);
    assert_eq!(&packet[0..2], &[0x00, 0x04]);
    assert_eq!(&packet[2..6], &0x37u32.to_le_bytes());
}

#[test]
fn the_client_size_covers_the_body() {
    let packet = client_packet(ClientOpcode::AuthSession, &[9u8; 300]);
    let size = u16::from_be_bytes([packet[0], packet[1]]) as usize;
    assert_eq!(size, 304);
    assert_eq!(packet.len(), size + 2);
}

fn server_header(size: usize, opcode: u16) -> Vec<u8> {
    let mut header = Vec::new();
    if size > 0x7FFF {
        header.push(0x80 | (size >> 16) as u8);
        header.push((size >> 8) as u8);
        header.push(size as u8);
    } else {
        header.push((size >> 8) as u8);
        header.push(size as u8);
    }
    header.extend_from_slice(&opcode.to_le_bytes());
    header
}

#[test]
fn a_short_server_header_parses() {
    let header = server_header(2 + 24, server::AUTH_CHALLENGE);
    assert_eq!(header.len(), SERVER_HEADER_LEN);
    assert_eq!(server_header_len(header[0]), SERVER_HEADER_LEN);

    let parsed = parse_server_header(&header).unwrap();
    assert_eq!(parsed.opcode, 0x01EC);
    assert_eq!(parsed.body_len, 24);
}

#[test]
fn a_large_server_header_grows_a_third_size_byte() {
    let body = 0x12345;
    let header = server_header(body + 2, 0x003B);
    assert_eq!(header.len(), SERVER_HEADER_LEN_LARGE);
    assert_eq!(server_header_len(header[0]), SERVER_HEADER_LEN_LARGE);

    let parsed = parse_server_header(&header).unwrap();
    assert_eq!(parsed.opcode, 0x003B);
    assert_eq!(parsed.body_len, body, "the flag bit leaked into the size");
}

#[test]
fn the_large_packet_boundary_is_at_0x8000() {
    assert_eq!(server_header_len(server_header(0x7FFF, 1)[0]), SERVER_HEADER_LEN);
    assert_eq!(
        server_header_len(server_header(0x8000, 1)[0]),
        SERVER_HEADER_LEN_LARGE
    );
}

#[test]
fn an_absurd_size_is_rejected_rather_than_awaited() {
    let header = server_header(0x7F_FFFF, 0x003B);
    assert!(matches!(
        parse_server_header(&header),
        Err(Error::Oversized { .. })
    ));
}

#[test]
fn the_limit_clears_every_two_byte_size() {
    assert!(
        MAX_PACKET > 0x7FFF,
        "the limit would reject packets with a short header"
    );
    let parsed = parse_server_header(&server_header(0x7FFF, 0x003B)).unwrap();
    assert_eq!(parsed.body_len, 0x7FFD);
}

#[test]
fn a_size_too_small_for_an_opcode_is_rejected() {
    assert!(matches!(
        parse_server_header(&[0x00, 0x01, 0x3B, 0x00]),
        Err(Error::Undersized { got: 1 })
    ));
}

fn challenge_body(seed: [u8; 4]) -> Vec<u8> {
    let mut body = Vec::new();
    body.extend_from_slice(&1u32.to_le_bytes());
    body.extend_from_slice(&seed);
    body.extend_from_slice(&[0xAB; 16]);
    body.extend_from_slice(&[0xCD; 16]);
    body
}

#[test]
fn the_challenge_is_forty_bytes() {
    assert_eq!(challenge_body([0; 4]).len(), 40);
    assert!(parse_auth_challenge(&challenge_body([0; 4])).is_ok());
}

#[test]
fn the_challenge_seed_survives_verbatim() {
    let parsed = parse_auth_challenge(&challenge_body([0xDE, 0xAD, 0xBE, 0xEF])).unwrap();
    assert_eq!(parsed.server_seed, [0xDE, 0xAD, 0xBE, 0xEF]);
}

#[test]
fn a_truncated_challenge_is_rejected() {
    let full = challenge_body([1, 2, 3, 4]);
    for cut in [0, 4, 8, full.len() - 1] {
        assert!(
            parse_auth_challenge(&full[..cut]).is_err(),
            "accepted a {cut}-byte challenge"
        );
    }
}

#[test]
fn an_overlong_challenge_is_rejected() {
    let mut body = challenge_body([1, 2, 3, 4]);
    body.push(0);
    assert!(matches!(
        parse_auth_challenge(&body),
        Err(Error::Trailing { .. })
    ));
}

#[test]
fn every_digest_input_changes_the_digest() {
    let key = [0x5Au8; SESSION_KEY_LEN];
    let base = auth_digest("ACCOUNT33", &[1, 2, 3, 4], &[5, 6, 7, 8], &key);

    assert_ne!(base, auth_digest("OTHER", &[1, 2, 3, 4], &[5, 6, 7, 8], &key));
    assert_ne!(
        base,
        auth_digest("ACCOUNT33", &[9, 2, 3, 4], &[5, 6, 7, 8], &key)
    );
    assert_ne!(
        base,
        auth_digest("ACCOUNT33", &[1, 2, 3, 4], &[9, 6, 7, 8], &key)
    );
    assert_ne!(
        base,
        auth_digest("ACCOUNT33", &[1, 2, 3, 4], &[5, 6, 7, 8], &[0u8; SESSION_KEY_LEN])
    );
}

#[test]
fn the_seed_order_matters() {
    let key = [0x5Au8; SESSION_KEY_LEN];
    assert_ne!(
        auth_digest("A", &[1, 2, 3, 4], &[5, 6, 7, 8], &key),
        auth_digest("A", &[5, 6, 7, 8], &[1, 2, 3, 4], &key),
    );
}

#[test]
fn the_account_is_upper_cased_in_the_digest() {
    let key = [0x11u8; SESSION_KEY_LEN];
    assert_eq!(
        auth_digest("account33", &[1; 4], &[2; 4], &key),
        auth_digest("ACCOUNT33", &[1; 4], &[2; 4], &key),
    );
}

#[test]
fn the_session_body_carries_the_build_and_account() {
    let body = auth_session("account33", 1, &[1; 4], &[2; 4], &[3u8; SESSION_KEY_LEN]).unwrap();
    assert_eq!(&body[0..4], &BUILD.to_le_bytes());
    assert_eq!(&body[8..18], b"ACCOUNT33\0");
}

#[test]
fn the_addon_block_declares_its_uncompressed_length() {
    let block = addon_block().unwrap();
    let declared = u32::from_le_bytes(block[0..4].try_into().unwrap()) as usize;
    assert_eq!(declared, 8, "an empty manifest is a count and a timestamp");
    assert_ne!(declared, block.len() - 4, "declared the compressed length");

    assert_eq!(block[4], 0x78);
}

#[test]
fn an_accepted_session_reports_its_expansion() {
    let mut body = vec![0x0C];
    body.extend_from_slice(&0u32.to_le_bytes());
    body.push(0);
    body.extend_from_slice(&0u32.to_le_bytes());
    body.push(2);
    assert_eq!(
        parse_auth_response(&body).unwrap(),
        AuthResponse::Accepted { expansion: 2 }
    );
}

#[test]
fn a_queued_session_reports_its_position() {
    let mut body = vec![0x1B];
    body.extend_from_slice(&42u32.to_le_bytes());
    body.push(0);
    assert_eq!(
        parse_auth_response(&body).unwrap(),
        AuthResponse::Queued { position: 42 }
    );
}

#[test]
fn refusals_keep_their_code() {
    for code in [0x0D, 0x14, 0x1C, 0x1D, 0x21] {
        assert_eq!(
            parse_auth_response(&[code]).unwrap(),
            AuthResponse::Refused { code }
        );
    }
    assert_eq!(describe_response(0x14), "client build rejected");
    assert_eq!(describe_response(0x1D), "account already online");
}

#[test]
fn a_movement_packet_round_trips_with_its_mover() {
    let info = MovementInfo {
        flags: world::update::movement_flags::FORWARD,
        time: 12_345,
        position: Position {
            x: (-8949.95f32).to_bits(),
            y: (-132.49f32).to_bits(),
            z: 83.53f32.to_bits(),
            orientation: 3.14f32.to_bits(),
        },
        ..MovementInfo::default()
    };

    let body = movement(0x32, &info);
    let (mover, parsed) = parse_movement(&body).unwrap();
    assert_eq!(mover, 0x32);
    assert_eq!(parsed, info);

    assert!(
        parse_movement(&body[1..]).is_err(),
        "the packet parsed without its guid, so the guid is not load-bearing"
    );
}

#[test]
fn a_wide_mover_guid_shifts_the_body() {
    let info = MovementInfo::standing(Default::default(), 7);
    let narrow = movement(0x32, &info);
    let wide = movement(0xF130_0000_3370_0BA9, &info);
    assert!(wide.len() > narrow.len());

    let (mover, parsed) = parse_movement(&wide).unwrap();
    assert_eq!(mover, 0xF130_0000_3370_0BA9);
    assert_eq!(parsed, info);
}

#[test]
fn a_creation_request_carries_the_name_and_appearance() {
    let body = char_create("Testwolf", &Appearance::human_warrior());
    assert_eq!(&body[0..9], b"Testwolf\0");
    assert_eq!(body.len(), 9 + 9);
    assert_eq!(body[9], 1, "race");
    assert_eq!(body[10], 1, "class");
}

#[test]
fn a_deletion_request_is_a_bare_guid() {
    assert_eq!(char_delete(0x1122334455667788), 0x1122334455667788u64.to_le_bytes());
}

#[test]
fn the_character_result_codes_are_the_confirmed_values() {
    assert_eq!(CHAR_CREATE_SUCCESS, 0x2F);
    assert_eq!(CHAR_DELETE_SUCCESS, 0x47);
    assert_eq!(describe_char_result(CHAR_CREATE_SUCCESS), "created");
    assert_eq!(describe_char_result(CHAR_DELETE_SUCCESS), "deleted");
    assert_eq!(
        describe_char_result(0x3B),
        "that class needs an existing level 55 character"
    );
    assert_eq!(describe_char_result(0xFE), "an unrecognised outcome");
}

#[test]
fn an_empty_result_packet_is_rejected() {
    assert!(parse_result_code(&[], "SMSG_CHAR_CREATE").is_err());
}

fn char_entry(name: &str, level: u8, pet_family: u32) -> Vec<u8> {
    let mut body = Vec::new();
    body.extend_from_slice(&0x1122334455667788u64.to_le_bytes());
    body.extend_from_slice(name.as_bytes());
    body.push(0);
    body.extend_from_slice(&[1, 2, 0, 3, 4, 5, 6, 7]);
    body.push(level);
    body.extend_from_slice(&12u32.to_le_bytes());
    body.extend_from_slice(&0u32.to_le_bytes());
    body.extend_from_slice(&(-8949.95f32).to_le_bytes());
    body.extend_from_slice(&(-132.49f32).to_le_bytes());
    body.extend_from_slice(&83.53f32.to_le_bytes());
    body.extend_from_slice(&0u32.to_le_bytes());
    body.extend_from_slice(&0u32.to_le_bytes());
    body.extend_from_slice(&0u32.to_le_bytes());
    body.push(1);
    body.extend_from_slice(&0u32.to_le_bytes());
    body.extend_from_slice(&0u32.to_le_bytes());
    body.extend_from_slice(&pet_family.to_le_bytes());
    for slot in 0..EQUIPMENT_SLOTS {
        body.extend_from_slice(&(slot as u32).to_le_bytes());
        body.push(slot as u8);
        body.extend_from_slice(&0u32.to_le_bytes());
    }
    body
}

#[test]
fn an_empty_character_list_parses() {
    assert!(parse_char_enum(&[0]).unwrap().is_empty());
}

#[test]
fn a_real_entry_is_the_observed_length() {
    let mut body = vec![1];
    body.extend_from_slice(&char_entry("Testwolf", 1, 0));
    assert_eq!(body.len(), 279);
    assert_eq!(parse_char_enum(&body).unwrap()[0].name, "Testwolf");
}

#[test]
fn characters_parse_with_their_equipment() {
    let mut body = vec![2];
    body.extend_from_slice(&char_entry("Kaelthas", 80, 1));
    body.extend_from_slice(&char_entry("Bo", 1, 0));
    let characters = parse_char_enum(&body).unwrap();

    assert_eq!(characters.len(), 2);
    assert_eq!(characters[0].name, "Kaelthas");
    assert_eq!(characters[0].level, 80);
    assert_eq!(characters[0].guid, 0x1122334455667788);
    assert_eq!(characters[0].equipment.len(), EQUIPMENT_SLOTS);
    assert_eq!(characters[0].equipment[5].display_id, 5);
    assert_eq!(characters[0].equipment[19].inventory_type, 19);
    assert_eq!(characters[1].name, "Bo");
    assert_eq!(characters[1].level, 1);
}

#[test]
fn a_wrong_equipment_count_is_caught_by_the_length() {
    let mut body = vec![1];
    let mut entry = char_entry("Solo", 1, 0);
    entry.truncate(entry.len() - 9);
    body.extend_from_slice(&entry);
    assert!(
        parse_char_enum(&body).is_err(),
        "a nineteen-slot entry was accepted"
    );

    let mut body = vec![1];
    body.extend_from_slice(&char_entry("Solo", 1, 0));
    body.extend_from_slice(&[0u8; 9]);
    assert!(matches!(
        parse_char_enum(&body),
        Err(Error::Trailing { got: 9, .. })
    ));
}

#[test]
fn protocol_an_overstated_count_is_rejected() {
    let mut body = vec![4];
    body.extend_from_slice(&char_entry("Solo", 1, 0));
    assert!(matches!(
        parse_char_enum(&body),
        Err(Error::Truncated { .. })
    ));
}

#[test]
fn character_flags_decode() {
    let mut body = vec![1];
    let mut entry = char_entry("Ghosty", 70, 0);
    let flags_at = 8 + 7 + 8 + 1 + 4 + 4 + 12 + 4;
    entry[flags_at..flags_at + 4].copy_from_slice(&0x2000u32.to_le_bytes());
    body.extend_from_slice(&entry);

    let character = &parse_char_enum(&body).unwrap()[0];
    assert!(character.is_ghost());
    assert!(!character.needs_rename());
    assert!(!character.has_pet());
}

#[test]
fn the_digest_is_the_one_of_this_message() {
    let key = [0x5Au8; SESSION_KEY_LEN];
    let digest = auth_digest("account33", &[1, 2, 3, 4], &[5, 6, 7, 8], &key);
    let expected: [u8; 20] = [
        0x68, 0x7c, 0xd5, 0xd2, 0x0e, 0x9b, 0x51, 0xb7, 0xee, 0x00, 0xe0, 0xdc, 0xe7, 0x6f, 0x98,
        0xb1, 0x2f, 0x4b, 0x19, 0x9d,
    ];
    assert_eq!(digest, expected);
}

#[test]
fn the_session_body_is_laid_out_field_by_field() {
    let body = session_body("AB", 7, &[1, 2, 3, 4], &[9u8; 20], &[5, 5]);
    let mut expected = BUILD.to_le_bytes().to_vec();
    expected.extend([0; 4]);
    expected.extend(b"AB\0");
    expected.extend([0; 4]);
    expected.extend([1, 2, 3, 4]);
    expected.extend([0; 8]);
    expected.extend(7u32.to_le_bytes());
    expected.extend([0; 8]);
    expected.extend([9u8; 20]);
    expected.extend([5, 5]);
    assert_eq!(body, expected);
    assert_eq!(addon_frame(8, &[1, 2]), vec![8, 0, 0, 0, 1, 2]);
}

#[test]
fn the_addon_block_expands_to_an_empty_manifest() {
    let block = addon_block().unwrap();
    let mut plain = Vec::new();
    flate2::read::ZlibDecoder::new(&block[4..]).read_to_end(&mut plain).unwrap();
    assert_eq!(plain, vec![0u8; 8]);
}

#[test]
fn the_session_ends_in_its_digest_and_addons() {
    let key = [3u8; SESSION_KEY_LEN];
    let body = auth_session("account33", 1, &[1; 4], &[2; 4], &key).unwrap();
    let addons = addon_block().unwrap();
    let at = body.len() - addons.len();
    assert_eq!(&body[at..], &addons[..]);
    assert_eq!(&body[at - 20..at], &auth_digest("ACCOUNT33", &[1; 4], &[2; 4], &key));
}

#[test]
fn a_small_packet_of_every_kind() {
    assert_eq!(player_login(0x1122), 0x1122u64.to_le_bytes());
    assert_eq!(ping(7, 30), vec![7, 0, 0, 0, 30, 0, 0, 0]);
    assert_eq!(time_sync_resp(9, 100), vec![9, 0, 0, 0, 100, 0, 0, 0]);
    assert_eq!(parse_pong(&[7, 0, 0, 0]).unwrap(), 7);
    assert_eq!(parse_time_sync_req(&[1, 1, 0, 0]).unwrap(), 0x101);
    assert!(parse_pong(&[7, 0, 0]).is_err());
    assert!(parse_time_sync_req(&[7, 0, 0, 0, 0]).is_err());
}

#[test]
fn a_login_names_its_place_and_a_teleport_its_mover() {
    let mut body = 571u32.to_le_bytes().to_vec();
    for value in [1.5f32, -2.5, 3.5, 0.25] {
        body.extend(value.to_le_bytes());
    }
    let place = parse_login_verify_world(&body).unwrap();
    assert_eq!(place.map, 571);
    assert_eq!(f32::from_bits(place.y), -2.5);
    assert!(parse_login_verify_world(&body[..19]).is_err());

    let info = MovementInfo::standing(
        Position { x: 1, y: 2, z: 3, orientation: 4 },
        5,
    );
    let mut body = vec![0x01, 0x32];
    body.extend(77u32.to_le_bytes());
    info.write(&mut body);
    let teleport = parse_teleport(&body).unwrap();
    assert_eq!(teleport.mover, 0x32);
    assert!(parse_teleport(&body[..body.len() - 1]).is_err());
}

#[test]
fn a_reader_says_where_it_ran_out() {
    let data = [1u8, 2, 3, 0xFF, 0xFF, 0xFF, 0xFF, b'a', 0, b'b'];
    let mut reader = Reader::new(&data, "sample");
    assert_eq!(reader.u8().unwrap(), 1);
    assert_eq!(reader.u16().unwrap(), 0x0302);
    assert_eq!(reader.i32().unwrap(), -1);
    assert_eq!(reader.cstring().unwrap(), "a");
    assert_eq!(reader.remaining(), 1);
    assert!(matches!(
        reader.u64(),
        Err(Error::Truncated { what: "sample", at: 9, need: 8, len: 10 })
    ));
    assert!(matches!(
        reader.cstring(),
        Err(Error::UnterminatedString { what: "sample" })
    ));

    let mut reader = Reader::new(&data, "sample");
    reader.skip(2).unwrap();
    assert_eq!(reader.bytes::<2>().unwrap(), [3, 0xFF]);
    assert_eq!(reader.rest(), &data[4..]);
    reader.finish().unwrap();
    assert!(matches!(
        Reader::new(&data, "sample").finish(),
        Err(Error::Trailing { what: "sample", got: 10 })
    ));
    assert_eq!(Reader::new(&[0, 0, 0x80, 0x3F], "one").f32_bits().unwrap(), 1.0f32.to_bits());
}

#[test]
fn what_is_not_text_is_replaced_and_not_refused() {
    let data = [b'a', 0xFF, b'b', 0];
    assert_eq!(Reader::new(&data, "text").cstring().unwrap(), "a\u{FFFD}b");
}

#[test]
fn every_error_says_what_is_wrong() {
    let cases = vec![
        (
            Error::Truncated { what: "X", at: 3, need: 4, len: 5 },
            "X: needed 4 bytes at offset 3, packet holds 5",
        ),
        (Error::Trailing { what: "X", got: 2 }, "X: 2 trailing bytes left unread"),
        (
            Error::Undersized { got: 1 },
            "packet header claims 1 bytes, too few to hold even an opcode",
        ),
        (
            Error::UnexpectedOpcode { expected: "SMSG_PONG", got: 0x1234 },
            "expected SMSG_PONG, got opcode 0x1234",
        ),
        (Error::Refused(String::from("no")), "server refused the session: no"),
        (
            Error::UnterminatedString { what: "X" },
            "string field X is not terminated",
        ),
        (
            Error::CompressedLength { declared: 9, got: 10 },
            "compressed payload declared 9 bytes but expanded to 10",
        ),
        (Error::UnknownUpdateType { got: 9 }, "unknown object update type 9"),
        (Error::UnknownObjectType { got: 99 }, "unknown object type 99"),
        (
            Error::UnsupportedSpellTarget { what: "X", flags: 0x40 },
            "X: target flags 0x40 are not a shape this parser has seen live",
        ),
        (
            Error::UnknownPowerType { got: 200 },
            "SMSG_POWER_UPDATE: power type 200 is past the end of the power array",
        ),
    ];
    for (error, words) in cases {
        assert_eq!(error.message(), words);
    }
    assert!(Error::Oversized { got: 2_000_000 }.message().contains("2000000"));
    assert!(Error::UnconfirmedSpellMisses { count: 3 }.message().contains("3 miss"));
    assert!(Error::UnconfirmedSwingDamageBlocks { count: 2 }.message().contains("2 damage"));
    assert!(Error::VendorRowCount { count: 4, expected: 128, got: 96 }
        .message()
        .contains("4 rows need 128 bytes but the body has 96"));
    assert!(Error::TrainerRowCount { count: 6, expected: 228, got: 9 }
        .message()
        .contains("6 spells need at least 228 bytes but the body has 9"));
    assert!(Error::TradeSlotOutOfOrder { expected: 1, got: 7 }.message().contains("record 7"));
}

#[test]
fn a_body_past_sixteen_bits_wraps_its_size() {
    let packet = client_packet(ClientOpcode::CharEnum, &vec![0u8; 0xFFFE]);
    assert_eq!(&packet[..2], &[0x00, 0x02]);
    assert_eq!(packet.len(), 6 + 0xFFFE);
}

#[test]
fn a_movement_with_every_part_reads_back() {
    let place = Position { x: 1, y: 2, z: 3, orientation: 4 };
    let mut info = MovementInfo::standing(place, 9);
    info.flags = 0x0000_0200 | 0x0020_0000 | 0x0000_1000 | 0x0400_0000;
    info.transport.guid = 0x1F00_0000_0000_0042;
    info.transport.position = Position { x: 5, ..place };
    info.transport.time = 6;
    info.transport.seat = 1;
    info.pitch = 0x3E80_0000;
    info.fall_time = 11;
    info.fall.sine = 12;
    info.fall.horizontal_speed = 13;
    info.spline_elevation = 14;
    let body = movement(0xF130_0000_3370_0BA9, &info);
    assert_eq!(parse_movement(&body).unwrap(), (0xF130_0000_3370_0BA9, info));
    for cut in 0..body.len() {
        assert!(parse_movement(&body[..cut]).is_err(), "{cut} bytes");
    }
}

#[test]
fn no_character_list_is_the_beginning_of_another() {
    let mut body = vec![1];
    body.extend_from_slice(&char_entry("Testwolf", 1, 0));
    for cut in 0..body.len() {
        assert!(parse_char_enum(&body[..cut]).is_err(), "{cut} bytes");
    }
}
