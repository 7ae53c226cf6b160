use world::taxi::{
    parse_activate_reply, parse_taxi_menu, Flight, TaxiReply, MASK_WORDS, SHOW_NODES_BYTES,
};

fn menu(nodes: &[u32]) -> Vec<u8> {
    let mut body = Vec::new();
    body.extend_from_slice(&1u32.to_le_bytes());
    body.extend_from_slice(&0xf130_0000_0000_0042u64.to_le_bytes());
    body.extend_from_slice(&2u32.to_le_bytes());
    let mut mask = [0u32; MASK_WORDS];
    for node in nodes {
        mask[*node as usize / 32] |= 1 << (node % 32);
    }
    for word in mask {
        body.extend_from_slice(&word.to_le_bytes());
    }
    body
}

#[test]
fn taxi_the_body_is_a_fixed_size() {
    assert_eq!(menu(&[]).len(), SHOW_NODES_BYTES);
    assert_eq!(SHOW_NODES_BYTES, 72);
}

#[test]
fn parses_a_menu() {
    let parsed = parse_taxi_menu(&menu(&[2, 100])).unwrap();
    assert_eq!(parsed.npc, 0xf130_0000_0000_0042);
    assert_eq!(parsed.current_node, 2);
    assert_eq!(parsed.unknown, 1);
}

#[test]
fn a_bit_names_its_own_node_across_word_boundaries() {
    let parsed = parse_taxi_menu(&menu(&[2, 31, 32, 100, 447])).unwrap();
    for known in [2, 31, 32, 100, 447] {
        assert!(parsed.knows(known), "node {known} should be known");
    }
    for unknown in [0, 1, 3, 30, 33, 99, 101, 446] {
        assert!(!parsed.knows(unknown), "node {unknown} should not be");
    }
    assert_eq!(parsed.count(), 5);
    assert_eq!(
        parsed.known_nodes(),
        vec![2, 31, 32, 100, 447]
    );
}

#[test]
fn an_empty_mask_is_no_nodes_rather_than_unknown() {
    let parsed = parse_taxi_menu(&menu(&[])).unwrap();
    assert_eq!(parsed.count(), 0);
    assert_eq!(parsed.known_nodes().len(), 0);
    assert!(!parsed.knows(0));
}

#[test]
fn a_node_past_the_mask_is_simply_not_known() {
    let parsed = parse_taxi_menu(&menu(&[2])).unwrap();
    assert!(!parsed.knows(448));
    assert!(!parsed.knows(u32::MAX));
}

#[test]
fn a_body_of_the_wrong_size_is_refused() {
    let mut short = menu(&[]);
    short.pop();
    assert!(parse_taxi_menu(&short).is_err());

    let mut long = menu(&[]);
    long.push(0);
    assert!(parse_taxi_menu(&long).is_err());
}

#[test]
fn only_the_accepted_code_is_named() {
    assert_eq!(
        parse_activate_reply(&0u32.to_le_bytes()).unwrap(),
        TaxiReply::Accepted
    );
    assert!(parse_activate_reply(&0u32.to_le_bytes()).unwrap().accepted());
    for code in [1u32, 4, 6, 11, 99] {
        let reply = parse_activate_reply(&code.to_le_bytes()).unwrap();
        assert_eq!(reply, TaxiReply::Refused(code));
        assert!(!reply.accepted());
    }
}

struct Ride {
    flight: Flight,
    points: Vec<(f32, f32, f32)>,
}

fn ride(points: &[(f32, f32, f32)], duration_ms: u32) -> Option<Ride> {
    let mut lengths = Vec::new();
    let mut total = 0.0f32;
    for (i, point) in points.iter().enumerate() {
        if i > 0 {
            let last = points[i - 1];
            let (dx, dy, dz) = (point.0 - last.0, point.1 - last.1, point.2 - last.2);
            total += (dx * dx + dy * dy + dz * dz).sqrt();
        }
        lengths.push(total.to_bits());
    }
    let flight = Flight::new(lengths, duration_ms)?;
    Some(Ride { flight, points: points.to_vec() })
}

impl Ride {
    fn length(&self) -> f32 {
        f32::from_bits(self.flight.length())
    }

    fn points(&self) -> usize {
        self.flight.points()
    }

    fn finished(&self, elapsed_ms: u32) -> bool {
        self.flight.finished(elapsed_ms)
    }

    fn at(&self, elapsed_ms: u32) -> ((f32, f32, f32), f32) {
        let used = self.flight.used_ms(elapsed_ms);
        let fraction = f64::from(used) / f64::from(self.flight.duration_ms());
        let target = (fraction as f32) * self.length();
        let leg = self.flight.leg(target.to_bits());
        let start = f32::from_bits(self.flight.distance_to(leg).unwrap());
        let end = f32::from_bits(self.flight.distance_to(leg + 1).unwrap());
        let along = if end > start { ((target - start) / (end - start)).clamp(0.0, 1.0) } else { 0.0 };
        let (a, b) = (self.points[leg], self.points[leg + 1]);
        let place = (
            a.0 + (b.0 - a.0) * along,
            a.1 + (b.1 - a.1) * along,
            a.2 + (b.2 - a.2) * along,
        );
        (place, (b.1 - a.1).atan2(b.0 - a.0))
    }
}

fn route() -> Ride {
    ride(
        &[(0.0, 0.0, 0.0), (100.0, 0.0, 0.0), (100.0, 300.0, 0.0)],
        4000,
    )
    .unwrap()
}

#[test]
fn the_ends_are_the_ends() {
    let f = route();
    assert_eq!(f.at(0).0, (0.0, 0.0, 0.0));
    assert_eq!(f.at(4000).0, (100.0, 300.0, 0.0));
    assert_eq!(f.length(), 400.0);
    assert_eq!(f.points(), 3);
}

#[test]
fn a_fraction_of_the_time_is_that_fraction_of_the_distance() {
    let f = route();
    assert_eq!(f.at(1000).0, (100.0, 0.0, 0.0), "quarter time = the corner");
    assert_eq!(f.at(2000).0, (100.0, 100.0, 0.0), "half time = 200 units");
}

#[test]
fn the_heading_comes_from_the_segment_being_flown() {
    let f = route();
    assert!(f.at(500).1.abs() < 1e-5, "first leg runs east");
    assert!(
        (f.at(3000).1 - std::f32::consts::FRAC_PI_2).abs() < 1e-5,
        "second leg runs north"
    );
}

#[test]
fn overrunning_holds_the_destination() {
    let f = route();
    assert_eq!(f.at(99_999).0, (100.0, 300.0, 0.0));
    assert!(f.finished(4000));
    assert!(!f.finished(3999));
}

#[test]
fn a_route_that_is_not_one_is_refused() {
    assert!(ride(&[], 1000).is_none());
    assert!(ride(&[(1.0, 2.0, 3.0)], 1000).is_none());
    assert!(ride(&[(0.0, 0.0, 0.0), (1.0, 0.0, 0.0)], 0).is_none());
    assert!(ride(&[(5.0, 5.0, 5.0), (5.0, 5.0, 5.0)], 1000).is_none());
}

#[test]
fn altitude_is_part_of_the_route() {
    let f =
        ride(&[(0.0, 0.0, 100.0), (0.0, 0.0, 100.0), (0.0, 200.0, 300.0)], 1000)
            .unwrap();
    assert!((f.at(500).0 .2 - 200.0).abs() < 0.01);
}

#[test]
fn a_distance_is_found_on_its_leg() {
    let lengths = vec![0.0f32, 10.0, 10.0, 40.0].into_iter().map(f32::to_bits).collect();
    let flight = Flight::new(lengths, 1000).unwrap();
    assert_eq!(flight.leg(0.0f32.to_bits()), 0);
    assert_eq!(flight.leg(9.5f32.to_bits()), 0);
    assert_eq!(flight.leg(10.0f32.to_bits()), 2);
    assert_eq!(flight.leg(39.0f32.to_bits()), 2);
    assert_eq!(flight.leg(40.0f32.to_bits()), 2);
    assert_eq!(flight.distance_to(3), Some(40.0f32.to_bits()));
    assert_eq!(flight.distance_to(4), None);
    assert_eq!(flight.clone(), flight);
}
