//! The key schedule: from the 10-bit master key to the two 8-bit round keys.

use vstd::prelude::*;
use vstd::arithmetic::power2::lemma2_to64;
use vstd::arithmetic::div_mod::lemma_small_mod;
use crate::bits::{
    bit, lemma_bit_u16, lemma_pattern_of_value, lemma_value_of_pattern, lemma_word_from_bits,
    pattern, pattern_value,
};
use crate::permutation::{permute, permute_value, permuted, P10, P8};

verus! {

/// `bits` moved `n` places towards the most significant end, the bits that
/// leave there entering again at the other end.
pub open spec fn rotated(bits: Seq<bool>, n: nat) -> Seq<bool>
    recommends
        n <= bits.len(),
{
    bits.subrange(n as int, bits.len() as int) + bits.subrange(0, n as int)
}

/// The 5-bit number `x` after a circular left shift by `n` places.
pub open spec fn shifted_value(x: nat, n: nat) -> nat
    recommends
        n <= 5,
{
    pattern_value(rotated(pattern(x, 5), n))
}

/// Circular left shift of a 5-bit field by `n` places.
pub fn shift_left(x: u16, n: u16) -> (r: u16)
    requires
        x < 32,
        n <= 5,
    ensures
        r == shifted_value(x as nat, n as nat),
        r < 32,
        pattern(r as nat, 5) == rotated(pattern(x as nat, 5), n as nat),
{
    let r: u16 = ((x << n) | (x >> (5 - n))) & 0x1F;
    proof {
        let wanted = rotated(pattern(x as nat, 5), n as nat);
        assert forall|m: u16| m < 16 implies #[trigger] bit(r as nat, m as nat) == (m < 5
            && wanted[5 - 1 - m]) by {
            let from: u16 = if m >= n {
                (m - n) as u16
            } else {
                (5 + m - n) as u16
            };
            let back: u16 = (5 - n) as u16;
            lemma_bit_u16(r, m);
            lemma_bit_u16(x, from);
            assert(((((x << n) | (x >> back)) & 0x1F) >> m) & 1 == 1 <==> (m < 5 && (x >> from)
                & 1 == 1)) by (bit_vector)
                requires
                    x < 32,
                    n <= 5,
                    m < 16,
                    back == 5 - n,
                    m >= n ==> from == m - n,
                    m < n ==> from == 5 + m - n,
            ;
        }
        lemma_word_from_bits(r, 5, wanted);
        lemma2_to64();
    }
    r
}

/// A circular shift of a 5-bit number by `n` places, followed by one by the
/// remaining `5 - n` places, gives the number back.
pub proof fn lemma_full_rotation(x: nat, n: nat)
    requires
        x < 32,
        n <= 5,
    ensures
        shifted_value(shifted_value(x, n), (5 - n) as nat) == x,
{
    let start = pattern(x, 5);
    let turned = rotated(start, n);
    lemma_pattern_of_value(turned);
    assert(rotated(turned, (5 - n) as nat) =~= start);
    lemma_value_of_pattern(x, 5);
    lemma2_to64();
    lemma_small_mod(x, 32);
}

/// A 10-bit pattern after both of its 5-bit halves were rotated `n` places.
pub open spec fn halves_rotated(bits: Seq<bool>, n: nat) -> Seq<bool>
    recommends
        bits.len() == 10,
        n <= 5,
{
    rotated(bits.subrange(0, 5), n) + rotated(bits.subrange(5, 10), n)
}

/// The key bits after the initial permutation.
pub open spec fn initial_bits(key: nat) -> Seq<bool> {
    permuted(pattern(key, 10), P10@)
}

/// The ten bits from which the first round key is selected: the permuted
/// key with each half rotated by one place.
pub open spec fn round_one_bits(key: nat) -> Seq<bool> {
    halves_rotated(initial_bits(key), 1)
}

/// The ten bits from which the second round key is selected: those of the
/// first round with each half rotated by two more places.
pub open spec fn round_two_bits(key: nat) -> Seq<bool> {
    halves_rotated(round_one_bits(key), 2)
}

/// The first round key of the master key `key`.
pub open spec fn first_subkey(key: nat) -> nat {
    pattern_value(permuted(round_one_bits(key), P8@))
}

/// The second round key of the master key `key`.
pub open spec fn second_subkey(key: nat) -> nat {
    pattern_value(permuted(round_two_bits(key), P8@))
}

/// The positions of the master key's bits that make up the first round key.
pub open spec fn first_selection() -> Seq<u16> {
    seq![1u16, 7, 9, 4, 8, 3, 10, 6]
}

/// The positions of the master key's bits that make up the second round key.
pub open spec fn second_selection() -> Seq<u16> {
    seq![8u16, 3, 6, 5, 10, 2, 9, 1]
}

/// Each round key is a fixed selection of eight bits of the master key:
/// permuting, rotating and selecting amount to one table each.
pub proof fn lemma_subkeys_select(key: nat)
    ensures
        first_subkey(key) == permute_value(key, first_selection(), 10),
        second_subkey(key) == permute_value(key, second_selection(), 10),
{
    let bits = pattern(key, 10);
    assert(permuted(round_one_bits(key), P8@) =~= permuted(bits, first_selection()));
    assert(permuted(round_two_bits(key), P8@) =~= permuted(bits, second_selection()));
}

/// Every stage of the key schedule for one master key.
#[derive(Clone, Copy, Debug, PartialEq, Eq, Structural)]
pub struct KeySchedule {
    /// The key after the initial permutation (10 bits).
    pub permuted_key: u16,
    /// Its upper five bits.
    pub left: u16,
    /// Its lower five bits.
    pub right: u16,
    /// The upper half after the shift of the first round.
    pub left_one: u16,
    /// The lower half after the shift of the first round.
    pub right_one: u16,
    /// Both halves of the first round, joined (10 bits).
    pub combined_one: u16,
    /// The first round key (8 bits).
    pub key_one: u16,
    /// The upper half after the shift of the second round.
    pub left_two: u16,
    /// The lower half after the shift of the second round.
    pub right_two: u16,
    /// Both halves of the second round, joined (10 bits).
    pub combined_two: u16,
    /// The second round key (8 bits).
    pub key_two: u16,
}

impl KeySchedule {
    /// The stages are those that the master key `key` goes through.
    pub open spec fn is_schedule_of(self, key: nat) -> bool {
        &&& self.permuted_key == pattern_value(initial_bits(key))
        &&& self.left == pattern_value(initial_bits(key).subrange(0, 5))
        &&& self.right == pattern_value(initial_bits(key).subrange(5, 10))
        &&& self.left_one == pattern_value(round_one_bits(key).subrange(0, 5))
        &&& self.right_one == pattern_value(round_one_bits(key).subrange(5, 10))
        &&& self.combined_one == pattern_value(round_one_bits(key))
        &&& self.key_one == first_subkey(key)
        &&& self.left_two == pattern_value(round_two_bits(key).subrange(0, 5))
        &&& self.right_two == pattern_value(round_two_bits(key).subrange(5, 10))
        &&& self.combined_two == pattern_value(round_two_bits(key))
        &&& self.key_two == second_subkey(key)
    }
}

/// The halves of a 10-bit word hold the halves of its pattern.
proof fn lemma_split(v: u16)
    requires
        v < 1024,
    ensures
        v >> 5 < 32,
        v & 0x1F < 32,
        pattern((v >> 5) as nat, 5) == pattern(v as nat, 10).subrange(0, 5),
        pattern((v & 0x1F) as nat, 5) == pattern(v as nat, 10).subrange(5, 10),
        (v >> 5) == pattern_value(pattern(v as nat, 10).subrange(0, 5)),
        (v & 0x1F) == pattern_value(pattern(v as nat, 10).subrange(5, 10)),
{
    let high: u16 = v >> 5;
    let low: u16 = v & 0x1F;
    let upper = pattern(v as nat, 10).subrange(0, 5);
    let lower = pattern(v as nat, 10).subrange(5, 10);
    assert forall|m: u16| m < 16 implies #[trigger] bit(high as nat, m as nat) == (m < 5
        && upper[5 - 1 - m]) by {
        let from: u16 = if m < 5 {
            (m + 5) as u16
        } else {
            m
        };
        lemma_bit_u16(high, m);
        lemma_bit_u16(v, from);
        assert(((v >> 5) >> m) & 1 == 1 <==> (m < 5 && (v >> from) & 1 == 1)) by (bit_vector)
            requires
                v < 1024,
                m < 16,
                m < 5 ==> from == m + 5,
        ;
    }
    assert forall|m: u16| m < 16 implies #[trigger] bit(low as nat, m as nat) == (m < 5
        && lower[5 - 1 - m]) by {
        lemma_bit_u16(low, m);
        lemma_bit_u16(v, m);
        assert(((v & 0x1F) >> m) & 1 == 1 <==> (m < 5 && (v >> m) & 1 == 1)) by (bit_vector)
            requires
                m < 16,
        ;
    }
    lemma_word_from_bits(high, 5, upper);
    lemma_word_from_bits(low, 5, lower);
    lemma2_to64();
}

/// Two 5-bit words joined hold the two patterns one after the other.
proof fn lemma_join(l: u16, r: u16)
    requires
        l < 32,
        r < 32,
    ensures
        (l << 5) | r < 1024,
        pattern(((l << 5) | r) as nat, 10) == pattern(l as nat, 5) + pattern(r as nat, 5),
        ((l << 5) | r) == pattern_value(pattern(l as nat, 5) + pattern(r as nat, 5)),
{
    let c: u16 = (l << 5) | r;
    let both = pattern(l as nat, 5) + pattern(r as nat, 5);
    assert forall|m: u16| m < 16 implies #[trigger] bit(c as nat, m as nat) == (m < 10
        && both[10 - 1 - m]) by {
        let from: u16 = if 5 <= m < 10 {
            (m - 5) as u16
        } else {
            m
        };
        lemma_bit_u16(c, m);
        lemma_bit_u16(l, from);
        lemma_bit_u16(r, m);
        assert((((l << 5) | r) >> m) & 1 == 1 <==> (if m < 5 {
            (r >> m) & 1 == 1
        } else {
            m < 10 && (l >> from) & 1 == 1
        })) by (bit_vector)
            requires
                l < 32,
                r < 32,
                m < 16,
                5 <= m < 10 ==> from == m - 5,
        ;
    }
    lemma_word_from_bits(c, 10, both);
    lemma2_to64();
}

/// Runs the key schedule on the 10 low bits of `key` and keeps every stage.
///
/// The key is permuted by `P10` and split into two 5-bit halves. Each half
/// is rotated left by one place, and `P8` selects the first round key from
/// the joined halves. The halves are then rotated by two more places, and
/// `P8` selects the second round key.
pub fn key_schedule(key: u16) -> (s: KeySchedule)
    ensures
        s.is_schedule_of(key as nat),
        s.permuted_key < 1024,
        s.combined_one < 1024,
        s.combined_two < 1024,
        s.key_one < 256,
        s.key_two < 256,
        s.left < 32 && s.right < 32,
        s.left_one < 32 && s.right_one < 32,
        s.left_two < 32 && s.right_two < 32,
{
    proof {
        lemma2_to64();
    }
    let permuted_key: u16 = permute(key, P10.as_slice(), 10, 10).unwrap();

    let lh_key: u16 = permuted_key >> 5;
    let rh_key: u16 = permuted_key & 0x1F;
    proof {
        lemma_split(permuted_key);
    }

    let shifted_lh: u16 = shift_left(lh_key, 1);
    let shifted_rh: u16 = shift_left(rh_key, 1);

    let shifted_combined: u16 = (shifted_lh << 5) | shifted_rh;
    proof {
        lemma_join(shifted_lh, shifted_rh);
        assert(pattern(shifted_combined as nat, 10) == round_one_bits(key as nat));
        assert(round_one_bits(key as nat).subrange(0, 5) == pattern(shifted_lh as nat, 5));
        assert(round_one_bits(key as nat).subrange(5, 10) == pattern(shifted_rh as nat, 5));
    }

    let key_one: u16 = permute(shifted_combined, P8.as_slice(), 8, 10).unwrap();

    let lh_round: u16 = shifted_combined >> 5;
    let rh_round: u16 = shifted_combined & 0x1F;
    proof {
        lemma_split(shifted_combined);
    }

    let left_two: u16 = shift_left(lh_round, 2);
    let right_two: u16 = shift_left(rh_round, 2);

    let combined_two: u16 = (left_two << 5) | right_two;
    proof {
        lemma_join(left_two, right_two);
        assert(pattern(combined_two as nat, 10) == round_two_bits(key as nat));
        assert(round_two_bits(key as nat).subrange(0, 5) == pattern(left_two as nat, 5));
        assert(round_two_bits(key as nat).subrange(5, 10) == pattern(right_two as nat, 5));
    }

    let key_two: u16 = permute(combined_two, P8.as_slice(), 8, 10).unwrap();

    KeySchedule {
        permuted_key,
        left: lh_key,
        right: rh_key,
        left_one: shifted_lh,
        right_one: shifted_rh,
        combined_one: shifted_combined,
        key_one,
        left_two,
        right_two,
        combined_two,
        key_two,
    }
}

/// Derives the two 8-bit round keys from the 10 low bits of `key`.
pub fn key_gen(key: u16) -> (keys: (u16, u16))
    ensures
        keys.0 == first_subkey(key as nat),
        keys.1 == second_subkey(key as nat),
        keys.0 < 256,
        keys.1 < 256,
{
    let s = key_schedule(key);
    (s.key_one, s.key_two)
}

} // verus!
