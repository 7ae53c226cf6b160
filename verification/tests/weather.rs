use world::weather::{parse, Weather};

#[test]
fn reads_a_weather_change() {
    let mut body = Vec::new();
    body.extend_from_slice(&4u32.to_le_bytes());
    body.extend_from_slice(&1.0f32.to_le_bytes());
    body.push(0);
    let change = parse(&body).expect("a nine-byte body");
    assert_eq!(change.weather, Weather::MediumRain);
    assert_eq!(f32::from_bits(change.intensity), 1.0);
    assert!(!change.abrupt);
    assert!(change.weather.is_storm());
}

#[test]
fn only_real_weather_is_a_storm() {
    assert!(!Weather::Fine.is_storm());
    assert!(!Weather::from_raw(0).is_storm());
    assert!(!Weather::Unknown(1234).is_storm());
    for raw in [1, 3, 4, 5, 6, 7, 8, 22, 41, 42, 86, 90, 106] {
        assert!(
            Weather::from_raw(raw).is_storm(),
            "state {raw} should be lit as a storm"
        );
        assert!(
            !matches!(Weather::from_raw(raw), Weather::Unknown(_)),
            "state {raw} should have a name"
        );
    }
}

#[test]
fn an_unknown_state_keeps_its_number() {
    assert_eq!(Weather::from_raw(99), Weather::Unknown(99));
}

#[test]
fn a_body_of_the_wrong_length_is_an_error() {
    assert!(parse(&[0; 8]).is_err(), "short body accepted");
    assert!(parse(&[0; 10]).is_err(), "trailing bytes accepted");
}

#[test]
fn intensity_stays_in_range() {
    let build = |v: f32| {
        let mut body = Vec::new();
        body.extend_from_slice(&5u32.to_le_bytes());
        body.extend_from_slice(&v.to_le_bytes());
        body.push(1);
        f32::from_bits(parse(&body).unwrap().intensity)
    };
    assert_eq!(build(2.5), 1.0);
    assert_eq!(build(-1.0), 0.0);
    assert_eq!(build(f32::NAN), 0.0);
    assert_eq!(build(0.5), 0.5);
}
