//! Binary literals: keys and data as text of the digits `0` and `1`.

use vstd::prelude::*;
use vstd::arithmetic::power2::{lemma2_to64, lemma_pow2_strictly_increases, pow2};
use vstd::arithmetic::div_mod::lemma_small_mod;
use vstd::string::StringExecFns;
use crate::bits::{
    lemma_bit_u16, lemma_value_bound, lemma_value_of_pattern, lemma_value_prefix, pattern,
    pattern_value,
};
use crate::error::SdesError;

verus! {

/// The text is made of the digits `0` and `1`, at least one of them.
pub open spec fn is_binary(text: Seq<char>) -> bool {
    &&& text.len() > 0
    &&& forall|i: int| 0 <= i < text.len() ==> text[i] == '0' || text[i] == '1'
}

/// The bit pattern that the digits of `text` spell.
pub open spec fn digit_bits(text: Seq<char>) -> Seq<bool> {
    Seq::new(text.len(), |i: int| text[i] == '1')
}

/// The number that `text` denotes in base 2.
pub open spec fn binary_value(text: Seq<char>) -> nat {
    pattern_value(digit_bits(text))
}

/// Reads a binary literal of any length whose value is at most `limit`.
fn parse_binary(text: &str, limit: u16) -> (res: Option<u16>)
    ensures
        res is Some <==> is_binary(text@) && binary_value(text@) <= limit,
        res matches Some(value) ==> value == binary_value(text@),
{
    let mut value: u16 = 0;
    let mut seen: bool = false;
    let ghost bits = digit_bits(text@);
    for c in iter: text.chars()
        invariant
            iter.seq() == text@,
            bits == digit_bits(text@),
            seen == (iter.index() > 0),
            forall|j: int| 0 <= j < iter.index() ==> text@[j] == '0' || text@[j] == '1',
            value == pattern_value(bits.take(iter.index() as int)),
            value <= limit,
    {
        let ghost i = iter.index() as int;
        assert(c == text@[i]);
        let digit: u32 = if c == '0' {
            0
        } else if c == '1' {
            1
        } else {
            return None;
        };
        let next: u32 = 2 * (value as u32) + digit;
        proof {
            assert(bits.take(i + 1).drop_last() =~= bits.take(i));
            assert(bits.take(i + 1).last() == (c == '1'));
            assert(next == pattern_value(bits.take(i + 1)));
            lemma_value_prefix(bits, i + 1);
        }
        if next > limit as u32 {
            return None;
        }
        value = next as u16;
        seen = true;
    }
    proof {
        assert(bits.take(text@.len() as int) =~= bits);
    }
    if seen {
        Some(value)
    } else {
        None
    }
}

/// The text is a master key: a binary literal of one to ten digits.
pub open spec fn is_key_text(text: Seq<char>) -> bool {
    is_binary(text) && text.len() <= 10
}

/// The text is a data block: a binary literal whose value fits in eight bits.
pub open spec fn is_data_text(text: Seq<char>) -> bool {
    is_binary(text) && binary_value(text) <= 255
}

/// Reads a master key from its binary literal.
///
/// Anything but one to ten digits `0` and `1` is refused.
pub fn parse_key(text: &str) -> (res: Result<u16, SdesError>)
    ensures
        res is Ok <==> is_key_text(text@),
        res matches Ok(key) ==> key == binary_value(text@) && key < 1024,
        res matches Err(e) ==> e == SdesError::InvalidKeyFormat,
{
    if text.unicode_len() > 10 {
        return Err(SdesError::InvalidKeyFormat);
    }
    proof {
        lemma_value_bound(digit_bits(text@));
        lemma2_to64();
        if text@.len() < 10 {
            lemma_pow2_strictly_increases(text@.len(), 10);
        }
    }
    match parse_binary(text, 1023) {
        Some(key) => Ok(key),
        None => Err(SdesError::InvalidKeyFormat),
    }
}

/// Reads a data block from its binary literal.
///
/// Anything but digits `0` and `1` that denote a number below 256 is
/// refused; leading zeros are accepted.
pub fn parse_data(text: &str) -> (res: Result<u8, SdesError>)
    ensures
        res is Ok <==> is_data_text(text@),
        res matches Ok(data) ==> data == binary_value(text@),
        res matches Err(e) ==> e == SdesError::InvalidDataFormat,
{
    match parse_binary(text, 255) {
        Some(data) => Ok(data as u8),
        None => Err(SdesError::InvalidDataFormat),
    }
}

/// The digits that spell a bit pattern.
pub open spec fn digit_text(bits: Seq<bool>) -> Seq<char> {
    Seq::new(bits.len(), |i: int| if bits[i] { '1' } else { '0' })
}

/// The literal of an 8-bit number: the prefix `0b` and its eight digits.
pub open spec fn literal_text(value: nat) -> Seq<char> {
    seq!['0', 'b'] + digit_text(pattern(value, 8))
}

/// Writes a round key as a binary literal of fixed length, such as
/// `0b01000011`.
pub fn subkey_literal(key: u16) -> (out: String)
    requires
        key < 256,
    ensures
        out@ == literal_text(key as nat),
{
    let mut out = String::from_str("0b");
    let ghost digits = digit_text(pattern(key as nat, 8));
    proof {
        reveal_strlit("0b");
        reveal_strlit("0");
        reveal_strlit("1");
        assert(out@ =~= seq!['0', 'b'] + digits.take(0));
    }
    let mut i: u16 = 0;
    while i < 8
        invariant
            i <= 8,
            digits == digit_text(pattern(key as nat, 8)),
            out@ == seq!['0', 'b'] + digits.take(i as int),
            "0"@ == seq!['0'],
            "1"@ == seq!['1'],
        decreases 8 - i,
    {
        let shift: u16 = 7 - i;
        proof {
            lemma_bit_u16(key, shift);
        }
        if (key >> shift) & 1 == 1 {
            out.append("1");
        } else {
            out.append("0");
        }
        proof {
            assert(out@ =~= seq!['0', 'b'] + digits.take(i + 1));
        }
        i += 1;
    }
    proof {
        assert(digits.take(8) =~= digits);
    }
    out
}

/// The digits of the `width` low bits of a number are a binary literal
/// that denotes the number again.
pub proof fn lemma_digits_round_trip(x: nat, width: nat)
    requires
        0 < width,
        x < pow2(width),
    ensures
        is_binary(digit_text(pattern(x, width))),
        digit_text(pattern(x, width)).len() == width,
        binary_value(digit_text(pattern(x, width))) == x,
{
    let bits = pattern(x, width);
    assert(digit_bits(digit_text(bits)) =~= bits);
    lemma_value_of_pattern(x, width);
    lemma_small_mod(x, pow2(width));
}

} // verus!
