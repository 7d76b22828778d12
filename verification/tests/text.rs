use sdes_keys::arguments::{parse_args, Invocation};
use sdes_keys::error::SdesError;
use sdes_keys::text::{parse_data, parse_key, subkey_literal};

fn args(words: &[&str]) -> Vec<String> {
    words.iter().map(|w| w.to_string()).collect()
}

#[test]
fn key_literal_is_read_in_base_two() {
    assert_eq!(parse_key("1010000010"), Ok(0b1010000010));
    assert_eq!(parse_key("0000000000"), Ok(0));
    assert_eq!(parse_key("1111111111"), Ok(1023));
    assert_eq!(parse_key("1"), Ok(1));
    assert_eq!(parse_key("0110"), Ok(6));
}

#[test]
fn key_with_a_foreign_character_is_refused() {
    assert_eq!(parse_key("10100000a0"), Err(SdesError::InvalidKeyFormat));
    assert_eq!(parse_key("1010000012"), Err(SdesError::InvalidKeyFormat));
    assert_eq!(parse_key("2"), Err(SdesError::InvalidKeyFormat));
    assert_eq!(parse_key("10 1"), Err(SdesError::InvalidKeyFormat));
    assert_eq!(parse_key("0b101"), Err(SdesError::InvalidKeyFormat));
    assert_eq!(parse_key("1é1"), Err(SdesError::InvalidKeyFormat));
}

#[test]
fn key_with_a_sign_is_refused() {
    assert_eq!(parse_key("+101"), Err(SdesError::InvalidKeyFormat));
    assert_eq!(parse_key("-101"), Err(SdesError::InvalidKeyFormat));
}

#[test]
fn empty_key_is_refused() {
    assert_eq!(parse_key(""), Err(SdesError::InvalidKeyFormat));
}

#[test]
fn key_longer_than_ten_digits_is_refused() {
    assert_eq!(parse_key("10100000101"), Err(SdesError::InvalidKeyFormat));
    assert_eq!(parse_key("00000000001"), Err(SdesError::InvalidKeyFormat));
}

#[test]
fn data_literal_is_read_in_base_two() {
    assert_eq!(parse_data("11111111"), Ok(255));
    assert_eq!(parse_data("0"), Ok(0));
    assert_eq!(parse_data("01000011"), Ok(0x43));
    assert_eq!(parse_data("0000000000001"), Ok(1));
}

#[test]
fn data_that_does_not_fit_eight_bits_is_refused() {
    assert_eq!(parse_data("100000000"), Err(SdesError::InvalidDataFormat));
    assert_eq!(parse_data("1111111111111111111"), Err(SdesError::InvalidDataFormat));
}

#[test]
fn data_with_a_foreign_character_is_refused() {
    assert_eq!(parse_data("1010x"), Err(SdesError::InvalidDataFormat));
    assert_eq!(parse_data(""), Err(SdesError::InvalidDataFormat));
    assert_eq!(parse_data("+1"), Err(SdesError::InvalidDataFormat));
}

#[test]
fn round_key_literal_has_prefix_and_eight_digits() {
    assert_eq!(subkey_literal(0b10100100), "0b10100100");
    assert_eq!(subkey_literal(0b01000011), "0b01000011");
    assert_eq!(subkey_literal(0), "0b00000000");
    assert_eq!(subkey_literal(255), "0b11111111");
    assert_eq!(subkey_literal(1), "0b00000001");
}

#[test]
fn round_key_literal_agrees_with_std_formatting() {
    for k in 0..256u16 {
        assert_eq!(subkey_literal(k), format!("{:#010b}", k));
    }
}

#[test]
fn digits_of_a_literal_read_back() {
    for k in 0..256u16 {
        let literal = subkey_literal(k);
        assert_eq!(parse_data(&literal[2..]), Ok(k as u8));
    }
}

#[test]
fn too_few_arguments_is_a_usage_error() {
    assert_eq!(parse_args(&args(&[])), Err(SdesError::UsageError));
    assert_eq!(parse_args(&args(&["sdes"])), Err(SdesError::UsageError));
    assert_eq!(parse_args(&args(&["sdes", "1010000010"])), Err(SdesError::UsageError));
    // Too few arguments are reported before anything is read.
    assert_eq!(parse_args(&args(&["sdes", "xyz"])), Err(SdesError::UsageError));
}

#[test]
fn key_and_data_are_read() {
    assert_eq!(
        parse_args(&args(&["sdes", "1010000010", "01110010"])),
        Ok(Invocation { key: 0b1010000010, data: 0b01110010, decrypt: false })
    );
}

#[test]
fn decrypt_flag_is_the_third_argument() {
    assert_eq!(
        parse_args(&args(&["sdes", "1010000010", "01110010", "-d"])),
        Ok(Invocation { key: 0b1010000010, data: 0b01110010, decrypt: true })
    );
    assert_eq!(
        parse_args(&args(&["sdes", "1", "1", "-D"])),
        Ok(Invocation { key: 1, data: 1, decrypt: false })
    );
    assert_eq!(
        parse_args(&args(&["sdes", "1", "1", "-d", "more"])),
        Ok(Invocation { key: 1, data: 1, decrypt: false })
    );
}

#[test]
fn bad_key_is_reported_before_bad_data() {
    assert_eq!(
        parse_args(&args(&["sdes", "10x", "12"])),
        Err(SdesError::InvalidKeyFormat)
    );
    assert_eq!(
        parse_args(&args(&["sdes", "101", "12"])),
        Err(SdesError::InvalidDataFormat)
    );
    assert_eq!(
        parse_args(&args(&["sdes", "10100000101", "1"])),
        Err(SdesError::InvalidKeyFormat)
    );
}
