use world::protocol::Error;
use world::trainer::{
    measure_stride, parse_trainer_list, TrainerSpellState, HEADER_BYTES, SHORT_SPELL_BYTES,
    SPELL_BYTES,
};

const LLANE: [u8; 286] = [
    0xa3, 0x9c, 0x00, 0x8f, 0x03, 0x00, 0x30, 0xf1,
    0x00, 0x00, 0x00, 0x00,
    0x06, 0x00, 0x00, 0x00,
    0x64, 0x00, 0x00, 0x00, 0x00, 0x5f, 0x00, 0x00, 0x00, 0x00, 0x00, 0x00, 0x00, 0x00, 0x00,
    0x00, 0x00, 0x04, 0x00, 0x00, 0x00, 0x00, 0x00, 0x00, 0x00, 0x00, 0x00, 0x00, 0x00, 0x00,
    0x00, 0x00, 0x00, 0x00, 0x00, 0x00, 0x00, 0x00,
    0x04, 0x03, 0x00, 0x00, 0x00, 0x5f, 0x00, 0x00, 0x00, 0x00, 0x00, 0x00, 0x00, 0x00, 0x00,
    0x00, 0x00, 0x04, 0x00, 0x00, 0x00, 0x00, 0x00, 0x00, 0x00, 0x00, 0x00, 0x00, 0x00, 0x00,
    0x00, 0x00, 0x00, 0x00, 0x00, 0x00, 0x00, 0x00,
    0x37, 0x0c, 0x00, 0x00, 0x01, 0x5f, 0x00, 0x00, 0x00, 0x00, 0x00, 0x00, 0x00, 0x00, 0x00,
    0x00, 0x00, 0x06, 0x00, 0x00, 0x00, 0x00, 0x00, 0x00, 0x00, 0x00, 0x00, 0x00, 0x00, 0x00,
    0x00, 0x00, 0x00, 0x00, 0x00, 0x00, 0x00, 0x00,
    0xc7, 0x18, 0x00, 0x00, 0x01, 0x5f, 0x00, 0x00, 0x00, 0x00, 0x00, 0x00, 0x00, 0x00, 0x00,
    0x00, 0x00, 0x06, 0x00, 0x00, 0x00, 0x00, 0x00, 0x00, 0x00, 0x00, 0x00, 0x00, 0x00, 0x00,
    0x00, 0x00, 0x00, 0x00, 0x00, 0x00, 0x00, 0x00,
    0x11, 0x1a, 0x00, 0x00, 0x00, 0x09, 0x00, 0x00, 0x00, 0x00, 0x00, 0x00, 0x00, 0x00, 0x00,
    0x00, 0x00, 0x01, 0x00, 0x00, 0x00, 0x00, 0x00, 0x00, 0x00, 0x00, 0x00, 0x00, 0x00, 0x00,
    0x00, 0x00, 0x00, 0x00, 0x00, 0x00, 0x00, 0x00,
    0x7c, 0x86, 0x00, 0x00, 0x01, 0x5f, 0x00, 0x00, 0x00, 0x00, 0x00, 0x00, 0x00, 0x00, 0x00,
    0x00, 0x00, 0x06, 0x00, 0x00, 0x00, 0x00, 0x00, 0x00, 0x00, 0x00, 0x00, 0x00, 0x00, 0x00,
    0x00, 0x00, 0x00, 0x00, 0x00, 0x00, 0x00, 0x00,
    0x48, 0x65, 0x6c, 0x6c, 0x6f, 0x2c, 0x20, 0x77, 0x61, 0x72, 0x72, 0x69, 0x6f, 0x72, 0x21,
    0x20, 0x20, 0x52, 0x65, 0x61, 0x64, 0x79, 0x20, 0x66, 0x6f, 0x72, 0x20, 0x73, 0x6f, 0x6d,
    0x65, 0x20, 0x74, 0x72, 0x61, 0x69, 0x6e, 0x69, 0x6e, 0x67, 0x3f, 0x00,
];

const DATABASE: [(u32, u32, u8); 6] = [
    (100, 100, 4),
    (772, 100, 4),
    (3127, 100, 6),
    (6343, 100, 6),
    (6673, 10, 1),
    (34428, 100, 6),
];

const READER_LEVEL: u8 = 5;

#[test]
fn parses_a_captured_trainer_list() {
    let list = parse_trainer_list(&LLANE).expect("Llane's list parses");
    assert_eq!(list.trainer, 0xf130_0003_8f00_9ca3);
    assert_eq!(list.kind, 0);
    assert_eq!(list.spells.len(), 6);
    assert_eq!(list.greeting, "Hello, warrior!  Ready for some training?");
}

#[test]
fn every_row_agrees_with_the_servers_table() {
    let list = parse_trainer_list(&LLANE).unwrap();
    for (parsed, &(spell, _, level)) in list.spells.iter().zip(DATABASE.iter()) {
        assert_eq!(parsed.spell, spell);
        assert_eq!(parsed.required_level, level, "spell {spell}");
    }
}

#[test]
fn state_splits_exactly_on_the_readers_level() {
    let list = parse_trainer_list(&LLANE).unwrap();
    for spell in &list.spells {
        let expected = if spell.required_level > READER_LEVEL {
            TrainerSpellState::Unavailable
        } else {
            TrainerSpellState::Available
        };
        assert_eq!(
            spell.state, expected,
            "spell {} wants level {} and the reader is {READER_LEVEL}",
            spell.spell, spell.required_level
        );
    }
    assert_eq!(list.learnable().len(), 3, "three of six, split on level");
}

#[test]
fn cost_is_the_discounted_one_not_the_tables() {
    let list = parse_trainer_list(&LLANE).unwrap();
    for (parsed, &(spell, table_cost, _)) in list.spells.iter().zip(DATABASE.iter()) {
        let discounted = (f64::from(table_cost) * 0.95).floor() as u32;
        assert_eq!(
            parsed.cost, discounted,
            "spell {spell}: table says {table_cost}, wire should say {discounted}"
        );
        assert!(parsed.cost < table_cost, "spell {spell} is not discounted");
    }
}

#[test]
fn the_greeting_separates_the_strides() {
    let candidates = [26, SHORT_SPELL_BYTES, 34, SPELL_BYTES];
    let fits = measure_stride(&LLANE, &candidates);

    let winners: Vec<usize> = fits
        .iter()
        .filter(|f| f.accounts_for_body && f.greeting_is_printable)
        .map(|f| f.stride)
        .collect();
    assert_eq!(
        winners,
        vec![SPELL_BYTES],
        "exactly one stride should leave a readable greeting"
    );

    let winner = fits.iter().find(|f| f.stride == SPELL_BYTES).unwrap();
    assert_eq!(
        winner.greeting.as_deref(),
        Some("Hello, warrior!  Ready for some training?")
    );

    for fit in fits.iter().filter(|f| f.stride != SPELL_BYTES) {
        assert!(
            !fit.greeting_is_printable,
            "stride {} left readable text, so this probe does not discriminate",
            fit.stride
        );
    }
}

#[test]
fn trainer_trailing_bytes_are_an_error() {
    let mut body = LLANE.to_vec();
    body.push(0);
    assert!(parse_trainer_list(&body).is_err());
}

#[test]
fn the_short_stride_does_not_parse_the_real_body() {
    let short = HEADER_BYTES + 6 * SHORT_SPELL_BYTES;
    assert!(short < LLANE.len());
    let fit = &measure_stride(&LLANE, &[SHORT_SPELL_BYTES])[0];
    assert!(!fit.accounts_for_body);
    assert!(!fit.greeting_is_printable);
}

#[test]
fn an_overshoot_shorter_than_the_greeting_is_not_separable() {
    let fits = measure_stride(&LLANE, &[SPELL_BYTES, SPELL_BYTES + 4]);
    assert!(fits.iter().all(|f| f.accounts_for_body && f.greeting_is_printable));
    assert_eq!(fits[1].greeting.as_deref(), Some("or some training?"));

    let right = fits[0].greeting.clone().unwrap();
    let wrong = fits[1].greeting.clone().unwrap();
    assert!(right.ends_with(&wrong) && right != wrong);
}

#[test]
fn an_impossible_row_count_is_refused_not_allocated() {
    let mut body = LLANE.to_vec();
    body[12..16].copy_from_slice(&0xffff_ffffu32.to_le_bytes());
    assert!(matches!(
        parse_trainer_list(&body),
        Err(Error::TrainerRowCount { .. })
    ));
}

#[test]
fn an_empty_list_is_not_an_error() {
    let mut body = Vec::new();
    body.extend_from_slice(&7u64.to_le_bytes());
    body.extend_from_slice(&0u32.to_le_bytes());
    body.extend_from_slice(&0u32.to_le_bytes());
    body.extend_from_slice(b"Nothing for you.\0");
    let list = parse_trainer_list(&body).unwrap();
    assert!(list.is_empty());
    assert_eq!(list.greeting, "Nothing for you.");
}

#[test]
fn only_available_spells_are_worth_asking_for() {
    assert!(TrainerSpellState::Available.is_learnable());
    assert!(!TrainerSpellState::Unavailable.is_learnable());
    assert!(!TrainerSpellState::Known.is_learnable());
    assert!(!TrainerSpellState::Unknown(7).is_learnable());
}

#[test]
fn no_trainer_list_is_the_beginning_of_another() {
    for cut in 0..LLANE.len() {
        assert!(parse_trainer_list(&LLANE[..cut]).is_err(), "{cut} bytes");
    }
}
