use world::combat::{parse_attack_start, parse_attack_stop, parse_melee_swing};
use world::protocol::Error;

const HIT: [u8; 42] = [
    0x02, 0x00, 0x00, 0x00, 0x01, 0x32, 0xcb, 0xde, 0x0b, 0x06, 0x30, 0xf1, 0x04, 0x00, 0x00, 0x00,
    0x00, 0x00, 0x00, 0x00, 0x01, 0x01, 0x00, 0x00, 0x00, 0x00, 0x00, 0x80, 0x40, 0x04, 0x00, 0x00,
    0x00, 0x01, 0x00, 0x00, 0x00, 0x00, 0x00, 0x00, 0x00, 0x00,
];

#[test]
fn a_swing_names_both_sides_and_the_damage() {
    let swing = parse_melee_swing(&HIT).unwrap();
    assert_eq!(swing.hit_info, 2);
    assert_eq!(swing.attacker, 0x32);
    assert_eq!(swing.victim, 0xf130_0000_0600_0bde);
    assert_eq!((swing.damage, swing.overkill, swing.school), (4, 0, 1));
}

#[test]
fn no_swing_is_the_beginning_of_another() {
    for cut in 0..HIT.len() {
        assert!(parse_melee_swing(&HIT[..cut]).is_err(), "{cut} bytes");
    }
    let mut more = HIT.to_vec();
    more.push(0);
    assert!(matches!(parse_melee_swing(&more), Err(Error::Trailing { got: 1, .. })));
}

#[test]
fn a_fight_names_the_same_sides_at_both_ends() {
    let mut start = 0x32u64.to_le_bytes().to_vec();
    start.extend(0x99u64.to_le_bytes());
    let stop = [0x01, 0x32, 0x01, 0x99, 0, 0, 0, 0];
    let (begun, ended) = (parse_attack_start(&start).unwrap(), parse_attack_stop(&stop).unwrap());
    assert_eq!(begun, ended);
    assert!(parse_attack_start(&start[..15]).is_err());
    assert!(parse_attack_stop(&stop[..7]).is_err());
}
