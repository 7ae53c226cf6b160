use world::order::arrange;
use world::text::{decimal_text, file_safe, hex_padded_text, hex_text};
use world::wire::{push16, push32, push64, same_bytes, to_signed};

#[test]
fn numbers_are_spelled_out() {
    assert_eq!(decimal_text(0), "0");
    assert_eq!(decimal_text(u64::MAX), "18446744073709551615");
    assert_eq!(hex_text(0xBEEF), "beef");
    assert_eq!(hex_padded_text(5, 4), "0005");
}

#[test]
fn a_name_keeps_its_letters_and_digits() {
    assert_eq!(file_safe("Neko Core-7"), "Neko_Core_7");
    assert_eq!(file_safe("\u{e4}/\\."), "____");
    assert_eq!(file_safe(""), "");
}

#[test]
fn a_list_is_sorted_with_what_occurs_twice() {
    assert_eq!(arrange(&vec![5u32, 1, 5, 0]), vec![0, 1, 5, 5]);
    assert_eq!(arrange(&vec![u64::MAX, 0, 7]), vec![0, 7, u64::MAX]);
    assert_eq!(arrange(&Vec::<u32>::new()), Vec::<u32>::new());
}

#[test]
fn words_go_out_low_byte_first() {
    let mut out = vec![9];
    push16(&mut out, 0x0102);
    push32(&mut out, 0x0304_0506);
    push64(&mut out, 0x0708_090A_0B0C_0D0E);
    assert_eq!(out, vec![9, 2, 1, 6, 5, 4, 3, 14, 13, 12, 11, 10, 9, 8, 7]);
    assert_eq!(to_signed(0xFFFF_FFFE), -2);
    assert_eq!(to_signed(7), 7);
    assert!(same_bytes(&[1, 2], &[1, 2]));
    assert!(!same_bytes(&[1, 2], &[1, 3]));
    assert!(!same_bytes(&[1], &[1, 2]));
}
