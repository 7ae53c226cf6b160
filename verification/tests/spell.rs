use world::protocol::{Error, Reader};
use world::spell::{
    cast_spell, cast_spell_at_gameobject, describe_cast_failure, parse_cast_failed,
    parse_initial_spells, parse_spell_cooldown, parse_spell_go, parse_spell_start, target_flags,
    use_item, write_cast_targets, INDEFINITE, OPEN_LOCK_KNEELING,
};
use world::update::read_packed_guid;

fn spellbook(spells: &[u32], cooldowns: &[u32]) -> Vec<u8> {
    let mut body = vec![0u8];
    body.extend((spells.len() as u16).to_le_bytes());
    for id in spells {
        body.extend(id.to_le_bytes());
        body.extend(0u16.to_le_bytes());
    }
    body.extend((cooldowns.len() as u16).to_le_bytes());
    for id in cooldowns {
        body.extend(id.to_le_bytes());
        body.extend(0u16.to_le_bytes());
        body.extend(0u16.to_le_bytes());
        body.extend(1500u32.to_le_bytes());
        body.extend(0u32.to_le_bytes());
    }
    body
}

#[test]
fn a_spellbook_parses() {
    let parsed = parse_initial_spells(&spellbook(&[6603, 78, 2457], &[78])).unwrap();
    assert_eq!(
        parsed.spells.iter().map(|s| s.id).collect::<Vec<_>>(),
        vec![6603, 78, 2457]
    );
    assert_eq!(parsed.cooldowns.len(), 1);
    assert_eq!(parsed.cooldowns[0].cooldown_ms, 1500);
    assert_eq!(parsed.cooldowns[0].remaining_ms(), Some(1500));
}

#[test]
fn an_indefinite_cooldown_is_a_marker_and_not_a_duration() {
    let mut body = vec![0u8];
    body.extend(0u16.to_le_bytes());
    body.extend(1u16.to_le_bytes());
    body.extend(1784u32.to_le_bytes());
    body.extend(0u16.to_le_bytes());
    body.extend(0u16.to_le_bytes());
    body.extend(1u32.to_le_bytes());
    body.extend(INDEFINITE.to_le_bytes());

    let parsed = parse_initial_spells(&body).unwrap();
    let entry = parsed.cooldowns[0];
    assert_eq!(entry.spell_id, 1784);
    assert!(entry.is_indefinite());
    assert_eq!(
        entry.remaining_ms(),
        None,
        "the marker was read as a duration"
    );
}

#[test]
fn a_categorised_cooldown_carries_its_time_in_the_category_word() {
    let mut body = vec![0u8];
    body.extend(0u16.to_le_bytes());
    body.extend(1u16.to_le_bytes());
    body.extend(6603u32.to_le_bytes());
    body.extend(0u16.to_le_bytes());
    body.extend(11u16.to_le_bytes());
    body.extend(0u32.to_le_bytes());
    body.extend(9000u32.to_le_bytes());

    let parsed = parse_initial_spells(&body).unwrap();
    assert_eq!(parsed.cooldowns[0].cooldown_ms, 0);
    assert_eq!(parsed.cooldowns[0].category, 11);
    assert_eq!(parsed.cooldowns[0].remaining_ms(), Some(9000));
}

#[test]
fn an_empty_spellbook_parses() {
    let parsed = parse_initial_spells(&spellbook(&[], &[])).unwrap();
    assert!(parsed.spells.is_empty());
    assert!(parsed.cooldowns.is_empty());
}

#[test]
fn the_cooldown_list_matches_a_captured_live_packet() {
    let mut body = vec![0u8];
    body.extend(0u16.to_le_bytes());
    body.extend(4u16.to_le_bytes());
    body.extend([
        0x68, 0xe9, 0x00, 0x00, 0x00, 0x00, 0x00, 0x00,
        0x00, 0x00, 0x00, 0x00, 0x00, 0x00, 0x00, 0x00,
        0x30, 0x1c, 0x01, 0x00, 0x00, 0x00, 0x00, 0x00,
        0x00, 0x00, 0x00, 0x00, 0x00, 0x00, 0x00, 0x00,
    ]);

    let parsed = parse_initial_spells(&body).unwrap();
    assert_eq!(
        parsed.cooldowns.iter().map(|c| c.spell_id).collect::<Vec<_>>(),
        vec![59752, 72752],
        "no entry may name spell zero"
    );
    assert_eq!(
        parsed.cooldowns_announced, 4,
        "the count over-reports and the packet is not wrong for it"
    );
}

#[test]
fn a_count_of_five_arrives_with_one_entry() {
    let mut body = vec![0u8];
    body.extend(0u16.to_le_bytes());
    body.extend(5u16.to_le_bytes());
    body.extend([
        0xf8, 0x06, 0x00, 0x00, 0x00, 0x00, 0x00, 0x00,
        0x00, 0x00, 0x00, 0x00, 0x00, 0x00, 0x00, 0x00,
    ]);

    let parsed = parse_initial_spells(&body).unwrap();
    assert_eq!(parsed.cooldowns.len(), 1);
    assert_eq!(parsed.cooldowns[0].spell_id, 1784);
    assert_eq!(parsed.cooldowns_announced, 5);
}

#[test]
fn more_entries_than_announced_is_refused() {
    let mut body = vec![0u8];
    body.extend(0u16.to_le_bytes());
    body.extend(1u16.to_le_bytes());
    body.extend([0u8; 32]);
    assert!(parse_initial_spells(&body).is_err());
}

#[test]
fn a_wrong_width_shows_up_as_leftovers() {
    let body = spellbook(&[6603, 78], &[]);

    let mut extra = body.clone();
    extra.push(0);
    assert!(parse_initial_spells(&extra).is_err());

    for cut in 1..body.len() {
        assert!(
            parse_initial_spells(&body[..cut]).is_err(),
            "{cut} bytes parsed as a whole spellbook"
        );
    }
}

#[test]
fn spell_an_overstated_count_is_rejected() {
    let mut body = vec![0u8];
    body.extend(60_000u16.to_le_bytes());
    assert!(parse_initial_spells(&body).is_err());
}

fn cooldown_body(caster: u64, flags: u8, entries: &[(u32, u32)]) -> Vec<u8> {
    let mut body = caster.to_le_bytes().to_vec();
    body.push(flags);
    for (spell, cooldown) in entries {
        body.extend(spell.to_le_bytes());
        body.extend(cooldown.to_le_bytes());
    }
    body
}

#[test]
fn a_spell_cooldown_parses_one_entry() {
    let body = cooldown_body(0x0000_0000_0000_0032, 0, &[(78, 1500)]);
    let (caster, cooldowns) = parse_spell_cooldown(&body).unwrap();
    assert_eq!(caster, 0x32);
    assert_eq!(cooldowns.len(), 1);
    assert_eq!(cooldowns[0].spell_id, 78);
    assert_eq!(cooldowns[0].cooldown_ms, 1500);
}

#[test]
fn a_spell_cooldown_parses_several_entries_with_no_count_field() {
    let body = cooldown_body(0x32, 1, &[(78, 1500), (172, 6000), (2457, 0)]);
    let (_, cooldowns) = parse_spell_cooldown(&body).unwrap();
    assert_eq!(
        cooldowns.iter().map(|c| (c.spell_id, c.cooldown_ms)).collect::<Vec<_>>(),
        vec![(78, 1500), (172, 6000), (2457, 0)]
    );
}

#[test]
fn an_empty_spell_cooldown_parses_to_no_entries() {
    let body = cooldown_body(0x32, 0, &[]);
    let (caster, cooldowns) = parse_spell_cooldown(&body).unwrap();
    assert_eq!(caster, 0x32);
    assert!(cooldowns.is_empty());
}

#[test]
fn a_partial_trailing_entry_is_rejected() {
    let mut body = cooldown_body(0x32, 0, &[(78, 1500)]);
    body.push(0xFF);
    assert!(parse_spell_cooldown(&body).is_err());
}

#[test]
fn a_truncated_header_is_rejected() {
    for cut in 0..9 {
        let body = cooldown_body(0x32, 0, &[(78, 1500)]);
        assert!(
            parse_spell_cooldown(&body[..cut]).is_err(),
            "{cut} bytes parsed as a whole header"
        );
    }
}

#[test]
fn a_spell_start_matches_a_captured_live_packet() {
    let body: [u8; 27] = [
        0x01, 0x33, 0x01, 0x33, 0x00, 0x41, 0x14, 0x00, 0x00, 0x02, 0x08, 0x00, 0x00, 0xdc,
        0x05, 0x00, 0x00, 0x02, 0x00, 0x00, 0x00, 0x01, 0x33, 0x64, 0x00, 0x00, 0x00,
    ];
    let parsed = parse_spell_start(&body).unwrap();
    assert_eq!(parsed.cast_item, 0x33);
    assert_eq!(parsed.caster, 0x33);
    assert_eq!(parsed.cast_count, 0);
    assert_eq!(parsed.spell_id, 5185);
    assert_eq!(parsed.cast_flags, 0x0802);
    assert_eq!(parsed.cast_time_ms, 1500);
    assert_eq!(parsed.target, 0x33);
    assert_eq!(parsed.trailing, Some(100));
}

#[test]
fn a_spell_start_at_a_gameobject_parses_with_no_trailing_word() {
    let body: [u8; 23] = [
        0x01, 0x33, 0x01, 0x33, 0x00, 0x41, 0x14, 0x00, 0x00, 0x02, 0x08, 0x00, 0x00, 0xdc,
        0x05, 0x00, 0x00, 0x00, 0x08, 0x00, 0x00, 0x01, 0x33,
    ];
    let parsed = parse_spell_start(&body).unwrap();
    assert_eq!(parsed.target, 0x33);
    assert_eq!(parsed.trailing, None);
}

#[test]
fn a_spell_go_matches_a_captured_live_packet() {
    let body: [u8; 37] = [
        0x01, 0x33, 0x01, 0x33, 0x00, 0x41, 0x14, 0x00, 0x00, 0x00, 0x09, 0x00, 0x00, 0x74,
        0xd4, 0x37, 0x5a, 0x01, 0x33, 0x00, 0x00, 0x00, 0x00, 0x00, 0x00, 0x00, 0x00, 0x02,
        0x00, 0x00, 0x00, 0x01, 0x33, 0x51, 0x00, 0x00, 0x00,
    ];
    let parsed = parse_spell_go(&body).unwrap();
    assert_eq!(parsed.cast_item, 0x33);
    assert_eq!(parsed.caster, 0x33);
    assert_eq!(parsed.cast_count, 0);
    assert_eq!(parsed.spell_id, 5185);
    assert_eq!(parsed.cast_flags, 0x0900);
    assert_eq!(parsed.timestamp, 0x5a37d474);
    assert_eq!(parsed.hits, vec![0x33]);
    assert_eq!(parsed.target, 0x33);
    assert_eq!(parsed.trailing, Some(0x51));
}

#[test]
fn a_wrong_width_in_spell_start_or_go_shows_up_as_leftovers_or_truncation() {
    let start: [u8; 27] = [
        0x01, 0x33, 0x01, 0x33, 0x00, 0x41, 0x14, 0x00, 0x00, 0x02, 0x08, 0x00, 0x00, 0xdc,
        0x05, 0x00, 0x00, 0x02, 0x00, 0x00, 0x00, 0x01, 0x33, 0x64, 0x00, 0x00, 0x00,
    ];
    let no_trailing_word = 23;
    let mut extra = start.to_vec();
    extra.push(0);
    assert!(parse_spell_start(&extra).is_err());
    for cut in 0..start.len() {
        if cut == no_trailing_word {
            assert_eq!(parse_spell_start(&start[..cut]).unwrap().trailing, None);
            continue;
        }
        assert!(
            parse_spell_start(&start[..cut]).is_err(),
            "{cut} bytes parsed as a whole SMSG_SPELL_START"
        );
    }

    let go: [u8; 37] = [
        0x01, 0x33, 0x01, 0x33, 0x00, 0x41, 0x14, 0x00, 0x00, 0x00, 0x09, 0x00, 0x00, 0x74,
        0xd4, 0x37, 0x5a, 0x01, 0x33, 0x00, 0x00, 0x00, 0x00, 0x00, 0x00, 0x00, 0x00, 0x02,
        0x00, 0x00, 0x00, 0x01, 0x33, 0x51, 0x00, 0x00, 0x00,
    ];
    let go_no_trailing_word = 33;
    let mut extra = go.to_vec();
    extra.push(0);
    assert!(parse_spell_go(&extra).is_err());
    for cut in 0..go.len() {
        if cut == go_no_trailing_word {
            assert_eq!(parse_spell_go(&go[..cut]).unwrap().trailing, None);
            continue;
        }
        assert!(
            parse_spell_go(&go[..cut]).is_err(),
            "{cut} bytes parsed as a whole SMSG_SPELL_GO"
        );
    }
}

#[test]
fn an_unrecognised_target_shape_is_refused_by_name() {
    let mut start: [u8; 27] = [
        0x01, 0x33, 0x01, 0x33, 0x00, 0x41, 0x14, 0x00, 0x00, 0x02, 0x08, 0x00, 0x00, 0xdc,
        0x05, 0x00, 0x00, 0x02, 0x00, 0x00, 0x00, 0x01, 0x33, 0x64, 0x00, 0x00, 0x00,
    ];
    start[17] = 0x00;
    let error = parse_spell_start(&start).unwrap_err();
    assert!(
        matches!(
            error,
            Error::UnsupportedSpellTarget { flags: 0, .. }
        ),
        "{error:?}"
    );
}

#[test]
fn a_nonzero_miss_count_is_refused_rather_than_guessed() {
    let mut go: [u8; 37] = [
        0x01, 0x33, 0x01, 0x33, 0x00, 0x41, 0x14, 0x00, 0x00, 0x00, 0x09, 0x00, 0x00, 0x74,
        0xd4, 0x37, 0x5a, 0x01, 0x33, 0x00, 0x00, 0x00, 0x00, 0x00, 0x00, 0x00, 0x00, 0x02,
        0x00, 0x00, 0x00, 0x01, 0x33, 0x51, 0x00, 0x00, 0x00,
    ];
    go[26] = 1;
    let error = parse_spell_go(&go).unwrap_err();
    assert!(
        matches!(
            error,
            Error::UnconfirmedSpellMisses { count: 1 }
        ),
        "{error:?}"
    );
}

#[test]
fn a_targeted_cast_carries_a_guid_and_a_self_cast_does_not() {
    let on_self = cast_spell(6603, None);
    assert_eq!(on_self.len(), 1 + 4 + 1 + 4);
    assert_eq!(&on_self[6..10], &target_flags::SELF.to_le_bytes());

    let on_target = cast_spell(6603, Some(0xF130_0000_2B00_0BBA));
    assert!(on_target.len() > on_self.len());
    assert_eq!(&on_target[6..10], &target_flags::UNIT.to_le_bytes());

    let mut r = Reader::new(&on_target[10..], "guid");
    assert_eq!(
        read_packed_guid(&mut r).unwrap(),
        0xF130_0000_2B00_0BBA
    );
    r.finish().unwrap();
}

#[test]
fn the_spell_id_survives_the_write() {
    let body = cast_spell(0x1234_5678, None);
    assert_eq!(&body[1..5], &0x1234_5678u32.to_le_bytes());
}

#[test]
fn a_gameobject_cast_carries_the_gameobject_flag_and_a_guid() {
    let body = cast_spell_at_gameobject(OPEN_LOCK_KNEELING, 0xF110_0277_1500_05A8);
    assert_eq!(&body[1..5], &OPEN_LOCK_KNEELING.to_le_bytes());
    assert_eq!(&body[6..10], &target_flags::GAMEOBJECT.to_le_bytes());
    assert_ne!(target_flags::GAMEOBJECT, target_flags::UNIT);

    let mut r = Reader::new(&body[10..], "guid");
    assert_eq!(
        read_packed_guid(&mut r).unwrap(),
        0xF110_0277_1500_05A8
    );
    r.finish().unwrap();
}

#[test]
fn unobserved_failures_keep_their_number() {
    assert!(describe_cast_failure(0x0C).contains("target"));
    assert!(describe_cast_failure(0xEE).contains("0xee"));
    assert!(describe_cast_failure(0x4A).contains("0x4a"));
}

#[test]
fn a_cast_failure_tolerates_data_it_does_not_understand() {
    let mut body = vec![0u8];
    body.extend(6603u32.to_le_bytes());
    body.push(0x4A);
    body.extend(1234u32.to_le_bytes());

    let parsed = parse_cast_failed(&body).unwrap();
    assert_eq!(parsed.spell_id, 6603);
    assert_eq!(parsed.reason, 0x4A);
}

#[test]
fn an_item_use_carries_its_guid_unpacked() {
    let body = use_item(255, 23, 0x4000_0000_0000_1234, 8690, None);
    let mut expected = vec![255, 23, 0];
    expected.extend(8690u32.to_le_bytes());
    expected.extend(0x4000_0000_0000_1234u64.to_le_bytes());
    expected.extend(0u32.to_le_bytes());
    expected.push(0);
    expected.extend(0u32.to_le_bytes());
    assert_eq!(body, expected);

    let aimed = use_item(255, 23, 0x4000_0000_0000_1234, 8690, Some(0x33));
    assert_eq!(&aimed[..20], &expected[..20]);
    assert_eq!(&aimed[20..], &[2, 0, 0, 0, 1, 0x33]);
}

#[test]
fn the_targets_go_behind_what_was_written() {
    let mut body = vec![9];
    write_cast_targets(Some(1), &mut body);
    assert_eq!(body, vec![9, 2, 0, 0, 0, 1, 1]);
}

#[test]
fn a_reason_without_words_is_two_digits() {
    assert_eq!(describe_cast_failure(0x0C), "the spell cannot be cast on that target");
    assert_eq!(describe_cast_failure(0x05), "reason 0x05");
}

#[test]
fn entries_past_the_announced_count_are_named_as_leftovers() {
    let mut body = vec![0u8];
    body.extend(0u16.to_le_bytes());
    body.extend(1u16.to_le_bytes());
    body.extend([0u8; 32]);
    assert!(matches!(
        parse_initial_spells(&body),
        Err(Error::Trailing { what: "SMSG_INITIAL_SPELLS cooldowns", got: 32 })
    ));
}

#[test]
fn an_accepted_spellbook_is_accounted_for() {
    for (spells, cooldowns) in [(0usize, 0usize), (3, 0), (2, 2)] {
        let ids: Vec<u32> = (1..=spells as u32).collect();
        let waiting: Vec<u32> = (1..=cooldowns as u32).collect();
        let body = spellbook(&ids, &waiting);
        assert_eq!(body.len(), 5 + 6 * spells + 16 * cooldowns);
        let book = parse_initial_spells(&body).unwrap();
        assert_eq!((book.spells.len(), book.cooldowns.len()), (spells, cooldowns));
    }
}
