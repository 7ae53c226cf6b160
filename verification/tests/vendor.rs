use world::protocol::Error;
use world::vendor::{parse_vendor_list, ITEM_BYTES};

const FARLEY: [u8; 105] = [
    0xc7, 0xd2, 0x00, 0x27, 0x01, 0x00, 0x30, 0xf1,
    0x03,
    0x01, 0x00, 0x00, 0x00,
    0x9f, 0x00, 0x00, 0x00,
    0xa4, 0x46, 0x00, 0x00,
    0xff, 0xff, 0xff, 0xff,
    0x17, 0x00, 0x00, 0x00,
    0x00, 0x00, 0x00, 0x00,
    0x05, 0x00, 0x00, 0x00,
    0x00, 0x00, 0x00, 0x00,
    0x02, 0x00, 0x00, 0x00,
    0x9e, 0x01, 0x00, 0x00,
    0x90, 0x55, 0x00, 0x00,
    0xff, 0xff, 0xff, 0xff,
    0x76, 0x00, 0x00, 0x00,
    0x00, 0x00, 0x00, 0x00,
    0x05, 0x00, 0x00, 0x00,
    0x00, 0x00, 0x00, 0x00,
    0x03, 0x00, 0x00, 0x00,
    0xa6, 0x01, 0x00, 0x00,
    0xd0, 0x18, 0x00, 0x00,
    0xff, 0xff, 0xff, 0xff,
    0xdb, 0x01, 0x00, 0x00,
    0x00, 0x00, 0x00, 0x00,
    0x05, 0x00, 0x00, 0x00,
    0x00, 0x00, 0x00, 0x00,
];

#[test]
fn a_captured_stock_list_parses_exactly() {
    let list = parse_vendor_list(&FARLEY).unwrap();
    assert_eq!(list.vendor, 0xf130_0001_2700_d2c7);
    assert_eq!(list.items.len(), 3);
    assert!(!list.is_empty());
    assert_eq!(list.items[0].slot, 1);
}

#[test]
fn every_entry_and_display_id_agree_with_item_dbc() {
    let list = parse_vendor_list(&FARLEY).unwrap();
    let pairs: Vec<(u32, u32)> = list
        .items
        .iter()
        .map(|item| (item.entry, item.display_id))
        .collect();
    assert_eq!(
        pairs,
        vec![(159, 18084), (414, 21904), (422, 6352)],
        "entry and display must pair the way Item.dbc says they do"
    );
}

#[test]
fn the_price_is_the_discounted_one_and_not_the_tables() {
    let list = parse_vendor_list(&FARLEY).unwrap();
    let prices: Vec<u32> = list.items.iter().map(|item| item.price).collect();
    assert_eq!(prices, vec![23, 118, 475]);

    for (price, base) in prices.iter().zip([25u32, 125, 500]) {
        assert_eq!(*price, base * 95 / 100, "reputation discount on {base}");
        assert_ne!(*price, base, "the table's price must not be what arrives");
    }
}

#[test]
fn unlimited_stock_reads_as_absent_rather_than_four_billion() {
    let list = parse_vendor_list(&FARLEY).unwrap();
    assert!(list.items.iter().all(|item| item.remaining.is_none()));
}

#[test]
fn a_finite_stock_survives_the_signed_read() {
    let mut body = FARLEY.to_vec();
    body[21..25].copy_from_slice(&7u32.to_le_bytes());
    let list = parse_vendor_list(&body).unwrap();
    assert_eq!(list.items[0].remaining, Some(7));
    assert_eq!(list.items[0].price, 23);
    assert_eq!(list.items[1].entry, 414);
}

#[test]
fn a_truncated_row_list_is_an_error() {
    let mut body = FARLEY.to_vec();
    body[8] = 4;
    assert!(parse_vendor_list(&body).is_err());
}

#[test]
fn vendor_trailing_bytes_are_an_error() {
    let mut body = FARLEY.to_vec();
    body.push(0);
    assert!(parse_vendor_list(&body).is_err());
}

#[test]
fn the_row_size_accounts_for_the_captured_body_length() {
    assert_eq!(8 + 1 + 12 * ITEM_BYTES, 393);
    assert_eq!(FARLEY.len(), 8 + 1 + 3 * ITEM_BYTES);
}

#[test]
fn an_empty_stock_list_parses() {
    let body = [0xc7, 0xd2, 0x00, 0x27, 0x01, 0x00, 0x30, 0xf1, 0x00];
    let list = parse_vendor_list(&body).unwrap();
    assert!(list.is_empty());
}

#[test]
fn a_disagreeing_row_count_says_what_it_expected() {
    let mut body = FARLEY.to_vec();
    body[8] = 4;
    assert!(matches!(
        parse_vendor_list(&body),
        Err(Error::VendorRowCount { count: 4, expected: 128, got: 96 })
    ));
}
