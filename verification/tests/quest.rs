use world::quest::{parse_quest_poi, parse_quest_query, QuestgiverMark};

const CAPTURED: [u8; 4 + 3 * 48] = [
    0x03, 0x00, 0x00, 0x00,
    0x6a, 0x00, 0x00, 0x00, 0x01, 0x00, 0x00, 0x00,
    0x00, 0x00, 0x00, 0x00,
    0xff, 0xff, 0xff, 0xff,
    0x00, 0x00, 0x00, 0x00,
    0x27, 0x00, 0x00, 0x00,
    0x00, 0x00, 0x00, 0x00,
    0x00, 0x00, 0x00, 0x00, 0x01, 0x00, 0x00, 0x00,
    0x01, 0x00, 0x00, 0x00,
    0x36, 0xd9, 0xff, 0xff, 0xf4, 0x01, 0x00, 0x00,
    0x55, 0x00, 0x00, 0x00, 0x01, 0x00, 0x00, 0x00,
    0x00, 0x00, 0x00, 0x00,
    0xff, 0xff, 0xff, 0xff,
    0x00, 0x00, 0x00, 0x00,
    0x1e, 0x00, 0x00, 0x00,
    0x00, 0x00, 0x00, 0x00,
    0x00, 0x00, 0x00, 0x00, 0x01, 0x00, 0x00, 0x00,
    0x01, 0x00, 0x00, 0x00,
    0x3c, 0xd9, 0xff, 0xff, 0x26, 0x00, 0x00, 0x00,
    0x0f, 0x03, 0x00, 0x00, 0x01, 0x00, 0x00, 0x00,
    0x00, 0x00, 0x00, 0x00,
    0xff, 0xff, 0xff, 0xff,
    0x00, 0x00, 0x00, 0x00,
    0x1e, 0x00, 0x00, 0x00,
    0x00, 0x00, 0x00, 0x00,
    0x00, 0x00, 0x00, 0x00, 0x01, 0x00, 0x00, 0x00,
    0x01, 0x00, 0x00, 0x00,
    0x39, 0xdd, 0xff, 0xff, 0x5d, 0xff, 0xff, 0xff,
];

#[test]
fn a_captured_response_parses_exactly() {
    let sets = parse_quest_poi(&CAPTURED).unwrap();
    assert_eq!(sets.len(), 3);
    assert_eq!(
        sets.iter().map(|s| s.quest_id).collect::<Vec<_>>(),
        vec![106, 85, 783]
    );
    assert!(sets.iter().all(|s| s.markers.len() == 1));
}

#[test]
fn the_markers_agree_with_the_servers_own_poi_tables() {
    let sets = parse_quest_poi(&CAPTURED).unwrap();
    let seen: Vec<(u32, u32, (i32, i32))> = sets
        .iter()
        .map(|set| {
            let marker = &set.markers[0];
            (set.quest_id, marker.world_map_area_id, marker.points[0])
        })
        .collect();
    assert_eq!(
        seen,
        vec![
            (106, 39, (-9930, 500)),
            (85, 30, (-9924, 38)),
            (783, 30, (-8903, -163)),
        ]
    );
}

#[test]
fn coordinates_are_signed_world_positions() {
    let sets = parse_quest_poi(&CAPTURED).unwrap();
    let (x, y) = sets[2].markers[0].points[0];
    assert!(x < 0 && y < 0, "Northshire is negative in both axes");
    assert!((x - -8928).abs() < 100 && (y - -187).abs() < 100);
}

#[test]
fn a_negative_objective_index_reads_as_absent() {
    let sets = parse_quest_poi(&CAPTURED).unwrap();
    assert!(sets
        .iter()
        .all(|s| s.markers[0].objective_index.is_none()));
}

#[test]
fn a_real_objective_index_survives() {
    let mut body = CAPTURED.to_vec();
    body[16..20].copy_from_slice(&4u32.to_le_bytes());
    let sets = parse_quest_poi(&body).unwrap();
    assert_eq!(sets[0].markers[0].objective_index, Some(4));
    assert_eq!(sets[0].markers[0].world_map_area_id, 39);
    assert_eq!(sets[1].quest_id, 85);
}

#[test]
fn a_quest_with_no_markers_parses() {
    let body = [
        0x01, 0x00, 0x00, 0x00,
        0x0f, 0x03, 0x00, 0x00,
        0x00, 0x00, 0x00, 0x00,
    ];
    let sets = parse_quest_poi(&body).unwrap();
    assert_eq!(sets[0].quest_id, 783);
    assert!(sets[0].markers.is_empty());
}

#[test]
fn a_truncated_reply_is_an_error() {
    let mut body = CAPTURED.to_vec();
    body[0] = 4;
    assert!(parse_quest_poi(&body).is_err());
}

#[test]
fn quest_trailing_bytes_are_an_error() {
    let mut body = CAPTURED.to_vec();
    body.push(0);
    assert!(parse_quest_poi(&body).is_err());
}

#[test]
fn no_marker_reply_is_the_beginning_of_another() {
    for cut in 0..CAPTURED.len() {
        assert!(parse_quest_poi(&CAPTURED[..cut]).is_err(), "{cut} bytes");
    }
}

#[test]
fn a_quest_names_only_the_slots_that_are_filled() {
    let mut body = vec![0u8; 260];
    body[..4].copy_from_slice(&333u32.to_le_bytes());
    body.extend_from_slice(b"Title\0Text\0\0\0\0");
    body.extend_from_slice(&[0u8; 64]);
    for (item, count) in [(11119u32, 1u32), (0, 0), (6, 12), (0, 9), (0, 0), (7, 2)] {
        body.extend_from_slice(&item.to_le_bytes());
        body.extend_from_slice(&count.to_le_bytes());
    }
    body.extend_from_slice(b"\0one\0two\0\0");
    let quest = parse_quest_query(&body).unwrap();
    assert_eq!(quest.id, 333);
    let wanted: Vec<(u32, u32)> =
        quest.item_objectives.iter().map(|want| (want.item, want.count)).collect();
    assert_eq!(wanted, vec![(11119, 1), (6, 12), (7, 2)]);
    assert!(parse_quest_query(&body[..body.len() - 1]).is_err());
    body.push(0);
    assert!(parse_quest_query(&body).is_err());
}

#[test]
fn every_status_survives_as_a_mark() {
    for status in 0..=255u8 {
        assert_eq!(QuestgiverMark::from_status(status).to_status(), status);
    }
    assert!(QuestgiverMark::from_status(8).is_drawn());
    assert!(QuestgiverMark::from_status(10).is_drawn());
    assert!(!QuestgiverMark::from_status(0).is_drawn());
    assert!(!QuestgiverMark::from_status(9).is_drawn());
    assert_eq!(QuestgiverMark::from_status(9), QuestgiverMark::Unknown(9));
}
