use sdes_keys::error::SdesError;
use sdes_keys::permutation::{permute, P10, P8};

#[test]
fn p10_moves_each_bit_to_its_place() {
    assert_eq!(permute(0b1010000010, &P10, 10, 10), Ok(0b1000001100));
}

#[test]
fn p10_of_a_single_bit() {
    // The most significant key bit is named by the seventh entry of the table.
    assert_eq!(permute(0b1000000000, &P10, 10, 10), Ok(0b0000001000));
    // The least significant key bit is named by the sixth entry.
    assert_eq!(permute(0b0000000001, &P10, 10, 10), Ok(0b0000010000));
}

#[test]
fn p8_selects_eight_of_ten_bits() {
    assert_eq!(permute(0b0000111000, &P8, 8, 10), Ok(0b10100100));
    assert_eq!(permute(0b0010000011, &P8, 8, 10), Ok(0b01000011));
}

#[test]
fn p8_ignores_the_two_leading_bits() {
    assert_eq!(permute(0b1100000000, &P8, 8, 10), Ok(0));
    assert_eq!(permute(0b0011111111, &P8, 8, 10), Ok(0b11111111));
}

#[test]
fn p10_is_a_bijection_on_ten_bit_values() {
    let mut seen = vec![false; 1024];
    for k in 0..1024u16 {
        let out = permute(k, &P10, 10, 10).unwrap();
        assert!(out < 1024);
        assert!(!seen[out as usize], "{} occurs twice", out);
        seen[out as usize] = true;
    }
    assert!(seen.iter().all(|&s| s));
}

#[test]
fn identity_table_returns_the_input() {
    let eight: Vec<u16> = (1..=8).collect();
    for x in 0..256u16 {
        assert_eq!(permute(x, &eight, 8, 8), Ok(x));
    }
    let ten: Vec<u16> = (1..=10).collect();
    for x in 0..1024u16 {
        assert_eq!(permute(x, &ten, 10, 10), Ok(x));
    }
}

#[test]
fn reversal_table_reverses_the_bits() {
    let table = [4u16, 3, 2, 1];
    assert_eq!(permute(0b0001, &table, 4, 4), Ok(0b1000));
    assert_eq!(permute(0b0110, &table, 4, 4), Ok(0b0110));
    assert_eq!(permute(0b1011, &table, 4, 4), Ok(0b1101));
}

#[test]
fn bits_above_the_source_width_are_not_read() {
    assert_eq!(permute(0b1111_1100_0000_0000, &P10, 10, 10), Ok(0));
}

#[test]
fn a_table_may_repeat_a_position() {
    assert_eq!(permute(0b10, &[1u16, 1, 2, 1], 4, 2), Ok(0b1101));
}

#[test]
fn empty_table_gives_zero() {
    assert_eq!(permute(0b1011, &[], 0, 4), Ok(0));
}

#[test]
fn full_width_table() {
    let table: Vec<u16> = (1..=16).rev().collect();
    assert_eq!(permute(0x8001, &table, 16, 16), Ok(0x8001));
    assert_eq!(permute(0x0001, &table, 16, 16), Ok(0x8000));
    assert_eq!(permute(0x00F0, &table, 16, 16), Ok(0x0F00));
}

#[test]
fn table_entry_zero_is_refused() {
    assert_eq!(
        permute(0b1010, &[1u16, 0, 3, 4], 4, 4),
        Err(SdesError::InvalidPermutationTable)
    );
}

#[test]
fn table_entry_beyond_the_source_is_refused() {
    assert_eq!(
        permute(0b1010000010, &[3u16, 5, 2, 7, 4, 11, 1, 9, 8, 6], 10, 10),
        Err(SdesError::InvalidPermutationTable)
    );
    assert_eq!(
        permute(0, &[6u16, 3, 7, 4, 8, 5, 10, 9], 8, 9),
        Err(SdesError::InvalidPermutationTable)
    );
}
