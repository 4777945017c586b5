use stegano_core::bit_iterator::{byte_from_bits, push_bit};
use stegano_core::BitIterator;

fn collect(bytes: &[u8]) -> Vec<bool> {
    let mut bits = BitIterator::new(bytes);
    let mut out = Vec::new();
    while let Some(bit) = bits.next() {
        out.push(bit);
    }
    out
}

#[test]
fn bits_come_least_significant_first() {
    assert_eq!(
        collect(&[0b1011_0010]),
        vec![false, true, false, false, true, true, false, true]
    );
}

#[test]
fn bytes_come_in_order() {
    let bits = collect(&[0x01, 0x80]);
    assert_eq!(bits.len(), 16);
    assert!(bits[0]);
    assert!(bits[1..15].iter().all(|b| !b));
    assert!(bits[15]);
}

#[test]
fn eight_bits_per_byte_and_then_none() {
    let bytes = [0xA5u8, 0x00, 0xFF, 0x3C, 0x81];
    let mut bits = BitIterator::new(&bytes);
    let mut count = 0;
    while bits.next().is_some() {
        count += 1;
    }
    assert_eq!(count, bytes.len() * 8);
    assert_eq!(bits.next(), None);
    assert_eq!(bits.next(), None);
}

#[test]
fn empty_buffer_has_no_bits() {
    let mut bits = BitIterator::new(&[]);
    assert_eq!(bits.next(), None);
}

#[test]
fn known_byte_survives_the_round_trip() {
    let bits = collect(&[0b1011_0010]);
    assert_eq!(byte_from_bits(&bits), 0b1011_0010);
}

#[test]
fn every_byte_survives_the_round_trip() {
    for value in 0..=255u8 {
        let bits = collect(&[value]);
        assert_eq!(byte_from_bits(&bits), value);
    }
}

#[test]
fn byte_from_bits_weighs_bit_i_with_two_to_the_i() {
    let mut bits = [false; 8];
    bits[0] = true;
    assert_eq!(byte_from_bits(&bits), 1);
    bits[7] = true;
    assert_eq!(byte_from_bits(&bits), 129);
    assert_eq!(byte_from_bits(&[true; 8]), 255);
    assert_eq!(byte_from_bits(&[false; 8]), 0);
}

#[test]
fn push_bit_sets_one_bit() {
    assert_eq!(push_bit(0, 0, true), 1);
    assert_eq!(push_bit(0, 7, true), 128);
    assert_eq!(push_bit(0b0000_0101, 1, true), 0b0000_0111);
    assert_eq!(push_bit(0b0000_0101, 1, false), 0b0000_0101);
}
