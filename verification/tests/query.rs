use world::query::{
    creature_query, item_query, name_query, parse_creature_query_response,
    parse_item_query_response, parse_name_query_response, DECLINED_NAMES, ITEM_SPELLS,
    ITEM_SPELL_FIELDS, ITEM_SPELLTRIGGER_ON_USE,
};
use world::update::write_packed_guid;

const CREATURE_NAMES: usize = 4;
const CREATURE_QUEST_ITEMS: usize = 6;
const CREATURE_MODELS: usize = 4;
const ITEM_NAMES: usize = 4;
const ITEM_DAMAGES: usize = 2;
const ITEM_RESISTANCES: usize = 6;
const ITEM_SOCKETS: usize = 3;

fn packed(guid: u64) -> Vec<u8> {
    let mut out = Vec::new();
    write_packed_guid(guid, &mut out);
    out
}

fn cstr(text: &str) -> Vec<u8> {
    let mut out = text.as_bytes().to_vec();
    out.push(0);
    out
}

fn name_response(name: &str, declined: bool) -> Vec<u8> {
    let mut body = packed(0x35);
    body.push(0);
    body.extend(cstr(name));
    body.extend(cstr(""));
    body.extend([1, 0, 1]);
    body.push(u8::from(declined));
    if declined {
        for form in 0..DECLINED_NAMES {
            body.extend(cstr(&format!("{name}{form}")));
        }
    }
    body
}

#[test]
fn a_player_name_parses() {
    let parsed = parse_name_query_response(&name_response("Watcher", false)).unwrap();
    assert_eq!(parsed.guid, 0x35);
    assert_eq!(parsed.name.as_deref(), Some("Watcher"));
    assert_eq!(parsed.realm, "");
    assert_eq!((parsed.race, parsed.gender, parsed.class), (1, 0, 1));
}

#[test]
fn declined_names_are_consumed_rather_than_left_over() {
    let parsed = parse_name_query_response(&name_response("Watcher", true)).unwrap();
    assert_eq!(parsed.name.as_deref(), Some("Watcher"));
}

#[test]
fn an_unknown_guid_is_a_name_of_none() {
    let mut body = packed(0x99);
    body.push(1);
    let parsed = parse_name_query_response(&body).unwrap();
    assert_eq!(parsed.guid, 0x99);
    assert_eq!(parsed.name, None);
}

#[test]
fn query_trailing_bytes_are_an_error() {
    let mut body = name_response("Watcher", false);
    body.push(0);
    assert!(parse_name_query_response(&body).is_err());
}

#[test]
fn a_truncated_response_is_an_error() {
    let body = name_response("Watcher", false);
    for cut in 1..body.len() {
        assert!(
            parse_name_query_response(&body[..cut]).is_err(),
            "{cut} bytes parsed as a whole response"
        );
    }
}

fn creature_response(entry: u32, name: &str) -> Vec<u8> {
    let mut body = entry.to_le_bytes().to_vec();
    body.extend(cstr(name));
    for _ in 1..CREATURE_NAMES {
        body.extend(cstr(""));
    }
    body.extend(cstr("Wolf Trainer"));
    body.extend(cstr(""));
    for value in [0x1000u32, 1, 1, 0, 0, 0] {
        body.extend(value.to_le_bytes());
    }
    for _ in 0..CREATURE_MODELS {
        body.extend(297u32.to_le_bytes());
    }
    body.extend(1.0f32.to_le_bytes());
    body.extend(1.0f32.to_le_bytes());
    body.push(0);
    for _ in 0..CREATURE_QUEST_ITEMS {
        body.extend(0u32.to_le_bytes());
    }
    body.extend(0u32.to_le_bytes());
    body
}

#[test]
fn a_creature_name_parses() {
    let parsed = parse_creature_query_response(&creature_response(299, "Young Wolf")).unwrap();
    assert_eq!(parsed.entry, 299);
    assert_eq!(parsed.name.as_deref(), Some("Young Wolf"));
    assert_eq!(parsed.sub_name, "Wolf Trainer");
    assert_eq!(parsed.creature_type, 1);
}

#[test]
fn an_unknown_entry_is_flagged_in_the_entry_itself() {
    let body = (299u32 | 0x8000_0000).to_le_bytes().to_vec();
    let parsed = parse_creature_query_response(&body).unwrap();
    assert_eq!(parsed.entry, 299);
    assert_eq!(parsed.name, None);
}

#[test]
fn a_creature_response_must_consume_its_tail() {
    let mut body = creature_response(299, "Young Wolf");
    body.extend(0u32.to_le_bytes());
    assert!(parse_creature_query_response(&body).is_err());

    let short = creature_response(299, "Young Wolf");
    assert!(parse_creature_query_response(&short[..short.len() - 2]).is_err());
}

#[test]
fn an_empty_name_is_no_name() {
    let parsed = parse_creature_query_response(&creature_response(1, "")).unwrap();
    assert_eq!(parsed.name, None);
}

#[test]
fn the_queries_carry_what_the_server_keys_on() {
    assert_eq!(
        name_query(0x0F13_0000_1234_5678),
        0x0F13_0000_1234_5678u64.to_le_bytes()
    );

    let body = creature_query(299, 0xABCD);
    assert_eq!(body.len(), 12);
    assert_eq!(&body[..4], &299u32.to_le_bytes());
    assert_eq!(&body[4..], &0xABCDu64.to_le_bytes());

    let body = item_query(2224, 0);
    assert_eq!(body.len(), 12);
    assert_eq!(&body[..4], &2224u32.to_le_bytes());
}

fn item_response(entry: u32, name: &str, stats: u32) -> Vec<u8> {
    let mut body = entry.to_le_bytes().to_vec();
    body.extend(1u32.to_le_bytes());
    body.extend(7u32.to_le_bytes());
    body.extend(0u32.to_le_bytes());
    body.extend(cstr(name));
    for _ in 1..ITEM_NAMES {
        body.extend(cstr(""));
    }
    body.extend(12345u32.to_le_bytes());
    body.extend(2u32.to_le_bytes());
    body.extend(0u32.to_le_bytes());
    body.extend(0u32.to_le_bytes());
    body.extend(25u32.to_le_bytes());
    body.extend(5u32.to_le_bytes());
    body.extend(21u32.to_le_bytes());
    body.extend((-1i32).to_le_bytes());
    body.extend((-1i32).to_le_bytes());
    body.extend(3u32.to_le_bytes());
    body.extend(1u32.to_le_bytes());
    for _ in 0..7 {
        body.extend(0u32.to_le_bytes());
    }
    body.extend(0u32.to_le_bytes());
    body.extend(20i32.to_le_bytes());
    body.extend(0u32.to_le_bytes());

    body.extend(stats.to_le_bytes());
    for stat in 0..stats {
        body.extend((stat + 1).to_le_bytes());
        body.extend(((stat as i32) * 2).to_le_bytes());
    }

    body.extend(0u32.to_le_bytes());
    body.extend(0u32.to_le_bytes());
    for _ in 0..ITEM_DAMAGES {
        body.extend(1.5f32.to_le_bytes());
        body.extend(3.5f32.to_le_bytes());
        body.extend(0u32.to_le_bytes());
    }
    body.extend(0u32.to_le_bytes());
    for _ in 0..ITEM_RESISTANCES {
        body.extend(0u32.to_le_bytes());
    }
    body.extend(1900u32.to_le_bytes());
    body.extend(0u32.to_le_bytes());
    body.extend(0.0f32.to_le_bytes());
    for _ in 0..ITEM_SPELLS {
        for _ in 0..ITEM_SPELL_FIELDS {
            body.extend(0u32.to_le_bytes());
        }
    }
    body.extend(1u32.to_le_bytes());
    body.extend(cstr("A well-used blade."));
    for _ in 0..5 {
        body.extend(0u32.to_le_bytes());
    }
    body.extend(1u32.to_le_bytes());
    body.extend(1u32.to_le_bytes());
    body.extend(0u32.to_le_bytes());
    body.extend(0u32.to_le_bytes());
    body.extend(0u32.to_le_bytes());
    body.extend(0u32.to_le_bytes());
    body.extend(55u32.to_le_bytes());
    body.extend(0u32.to_le_bytes());
    body.extend(0u32.to_le_bytes());
    body.extend(0u32.to_le_bytes());
    body.extend(0u32.to_le_bytes());
    for _ in 0..ITEM_SOCKETS {
        body.extend(0u32.to_le_bytes());
        body.extend(0u32.to_le_bytes());
    }
    body.extend(0u32.to_le_bytes());
    body.extend(0u32.to_le_bytes());
    body.extend((-1i32).to_le_bytes());
    body.extend(0.0f32.to_le_bytes());
    body.extend(0u32.to_le_bytes());
    body.extend((-1i32).to_le_bytes());
    body.extend(0u32.to_le_bytes());
    body
}

#[test]
fn an_item_parses() {
    let parsed = parse_item_query_response(&item_response(2224, "Small Dagger", 2)).unwrap();
    assert_eq!(parsed.entry, 2224);
    assert_eq!(parsed.name.as_deref(), Some("Small Dagger"));
    assert_eq!(parsed.description, "A well-used blade.");
    assert_eq!(parsed.display_id, 12345);
    assert_eq!(parsed.quality, 2);
    assert_eq!(parsed.stackable, 20);
    assert_eq!(parsed.max_durability, 55);
    assert_eq!(parsed.sell_price, 5);
}

#[test]
fn the_stat_block_shifts_everything_below_it() {
    for stats in [0u32, 1, 5, 10] {
        let parsed =
            parse_item_query_response(&item_response(2224, "Small Dagger", stats)).unwrap();
        assert_eq!(
            parsed.max_durability, 55,
            "{stats} stats: the tail did not realign"
        );
        assert_eq!(parsed.display_id, 12345, "{stats} stats");
        assert_eq!(parsed.description, "A well-used blade.", "{stats} stats");
    }
}

#[test]
fn an_unknown_item_entry_is_flagged_in_the_entry() {
    let body = (2224u32 | 0x8000_0000).to_le_bytes().to_vec();
    let parsed = parse_item_query_response(&body).unwrap();
    assert_eq!(parsed.entry, 2224);
    assert_eq!(parsed.name, None);
    assert_eq!(parsed.display_id, 0);
}

#[test]
fn an_item_with_trailing_bytes_is_an_error() {
    let mut body = item_response(2224, "Small Dagger", 2);
    body.push(0);
    assert!(parse_item_query_response(&body).is_err());
}

#[test]
fn a_truncated_item_response_is_an_error() {
    let body = item_response(2224, "Small Dagger", 2);
    for cut in 1..body.len() {
        assert!(
            parse_item_query_response(&body[..cut]).is_err(),
            "{cut} bytes parsed as a whole response"
        );
    }
}

#[test]
fn the_first_spell_that_a_click_fires_is_the_one_to_use() {
    let mut body = item_response(6948, "Hearthstone", 0);
    let description = body.len() - 4 * 29 - "A well-used blade.".len() - 1;
    let slots = description - 4 - 4 * ITEM_SPELLS * ITEM_SPELL_FIELDS;
    let mut set = |slot: usize, field: usize, value: u32| {
        let at = slots + 4 * (slot * ITEM_SPELL_FIELDS + field);
        body[at..at + 4].copy_from_slice(&value.to_le_bytes());
    };
    set(0, 0, 77);
    set(0, 1, ITEM_SPELLTRIGGER_ON_USE + 1);
    set(2, 0, 8690);
    set(3, 0, 9999);
    let parsed = parse_item_query_response(&body).unwrap();
    assert_eq!(parsed.spells.len(), ITEM_SPELLS);
    assert_eq!(parsed.spells[0].id, 77);
    assert_eq!(parsed.use_spell(), Some(8690));

    let plain = parse_item_query_response(&item_response(2224, "Small Dagger", 1)).unwrap();
    assert_eq!(plain.use_spell(), None);
}

#[test]
fn no_creature_answer_is_the_beginning_of_another() {
    let body = creature_response(299, "Young Wolf");
    for cut in 0..body.len() {
        assert!(parse_creature_query_response(&body[..cut]).is_err(), "{cut} bytes");
    }
}
