use world::protocol::Error;
use world::trade::{
    parse_trade_offer, parse_trade_status, TradeSession, TradeStatus, EXTENDED_BYTES,
    NONTRADED_SLOT, SLOT_BYTES, TRADE_SLOTS,
};

#[test]
fn status_tails_are_per_status() {
    let mut begin = 1u32.to_le_bytes().to_vec();
    begin.extend_from_slice(&0x0000_0001_0000_0007u64.to_le_bytes());
    assert_eq!(
        parse_trade_status(&begin).unwrap(),
        TradeStatus::Begin {
            partner: 0x0000_0001_0000_0007
        }
    );

    let mut open = 2u32.to_le_bytes().to_vec();
    open.extend_from_slice(&0u32.to_le_bytes());
    assert_eq!(
        parse_trade_status(&open).unwrap(),
        TradeStatus::OpenWindow { token: 0 }
    );

    assert_eq!(
        parse_trade_status(&8u32.to_le_bytes()).unwrap(),
        TradeStatus::Complete
    );

    assert!(parse_trade_status(&1u32.to_le_bytes()).is_err());
    let mut fat = 8u32.to_le_bytes().to_vec();
    fat.extend_from_slice(&0u64.to_le_bytes());
    assert!(parse_trade_status(&fat).is_err());
}

#[test]
fn unnamed_status_keeps_its_number() {
    assert_eq!(
        parse_trade_status(&23u32.to_le_bytes()).unwrap(),
        TradeStatus::Other(23)
    );
}

fn extended(theirs: bool, money: u32, at: &[(u8, u32, u32, u32)]) -> Vec<u8> {
    let mut body = Vec::with_capacity(EXTENDED_BYTES);
    body.push(theirs as u8);
    body.extend_from_slice(&0u32.to_le_bytes());
    body.extend_from_slice(&(TRADE_SLOTS as u32).to_le_bytes());
    body.extend_from_slice(&(TRADE_SLOTS as u32).to_le_bytes());
    body.extend_from_slice(&money.to_le_bytes());
    body.extend_from_slice(&0u32.to_le_bytes());
    for slot in 0..TRADE_SLOTS as u8 {
        body.push(slot);
        match at.iter().find(|(s, ..)| *s == slot) {
            Some(&(_, entry, display, count)) => {
                body.extend_from_slice(&entry.to_le_bytes());
                body.extend_from_slice(&display.to_le_bytes());
                body.extend_from_slice(&count.to_le_bytes());
                for _ in 0..15 {
                    body.extend_from_slice(&0u32.to_le_bytes());
                }
            }
            None => {
                for _ in 0..18 {
                    body.extend_from_slice(&0u32.to_le_bytes());
                }
            }
        }
    }
    body
}

#[test]
fn trade_the_body_is_a_fixed_size() {
    assert_eq!(SLOT_BYTES, 73);
    assert_eq!(EXTENDED_BYTES, 532);
    assert_eq!(extended(true, 0, &[]).len(), EXTENDED_BYTES);
}

#[test]
fn slots_keep_their_own_index() {
    let body = extended(
        true,
        1234,
        &[(1, 2070, 6353, 5), (NONTRADED_SLOT, 7005, 1542, 1)],
    );
    let offer = parse_trade_offer(&body).unwrap();

    assert!(offer.theirs);
    assert_eq!(offer.money, 1234);
    assert_eq!(offer.items.len(), 2);

    let first = offer.item_at(1).expect("slot 1 is occupied");
    assert_eq!(first.entry, 2070);
    assert_eq!(first.display_id, 6353);
    assert_eq!(first.count, 5);

    assert!(offer.item_at(0).is_none());
    assert!(offer.item_at(NONTRADED_SLOT).is_some());

    let traded: Vec<u8> = offer.traded().iter().map(|i| i.slot).collect();
    assert_eq!(traded, vec![1]);
}

#[test]
fn the_leading_byte_names_the_side() {
    assert!(parse_trade_offer(&extended(true, 0, &[])).unwrap().theirs);
    assert!(!parse_trade_offer(&extended(false, 0, &[])).unwrap().theirs);
}

#[test]
fn a_shifted_record_is_caught_by_its_index() {
    let mut body = extended(true, 0, &[(0, 2070, 6353, 1)]);
    body.drain(1..5);
    let err = parse_trade_offer(&body).unwrap_err();
    assert!(
        matches!(err, Error::TradeSlotOutOfOrder { .. })
            || matches!(err, Error::Truncated { .. }),
        "expected a slot-order or truncation failure, got {err:?}"
    );
}

#[test]
fn money_alone_is_an_offer() {
    assert!(
        parse_trade_offer(&extended(false, 0, &[]))
            .unwrap()
            .is_empty()
    );
    assert!(
        !parse_trade_offer(&extended(false, 1, &[]))
            .unwrap()
            .is_empty()
    );
}

#[test]
fn a_session_keeps_what_is_put_on_the_table() {
    let mut session = TradeSession::requested(7);
    assert!(!session.awaiting_our_answer());
    assert!(!session.we_offer_anything());
    assert_eq!(session.first_free_slot(), Some(0));
    session.put(0, 0xAA);
    session.put(NONTRADED_SLOT, 0xBB);
    assert!(session.already_offered(0xAA));
    assert!(!session.already_offered(0xCC));
    assert_eq!(session.first_free_slot(), Some(1));
    assert!(session.we_offer_anything());
    session.take_back(0);
    session.take_back(NONTRADED_SLOT);
    assert!(!session.we_offer_anything());
    session.put_money(5);
    assert!(session.we_offer_anything());
    assert!(!session.both_accepted());
}

#[test]
fn an_offered_trade_waits_for_our_answer() {
    let session = TradeSession::offered(7);
    assert_eq!(session.partner, Some(7));
    assert!(!session.we_asked);
    assert!(session.awaiting_our_answer());
}

#[test]
fn a_change_of_the_table_withdraws_both_acceptances() {
    let mut session = TradeSession::requested(7);
    session.accepted = true;
    session.partner_accepted = true;
    assert!(session.both_accepted());
    session.put(2, 0xAA);
    assert!(!session.both_accepted());
    session.accepted = true;
    session.partner_accepted = true;
    session.put_money(1);
    assert!(!session.both_accepted());
}
