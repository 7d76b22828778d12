//! The permutation engine: a table of source positions applied to a bit pattern.

use vstd::prelude::*;
use vstd::arithmetic::power2::*;
use vstd::arithmetic::div_mod::lemma_small_mod;
use crate::bits::{
    bit, lemma_bit_u16, lemma_pattern_of_value, lemma_value_bound, lemma_value_of_pattern,
    lemma_word_from_bits, pattern, pattern_value,
};
use crate::error::SdesError;

verus! {

/// The initial permutation of the ten key bits.
pub const P10: [u16; 10] = [3, 5, 2, 7, 4, 10, 1, 9, 8, 6];

/// The selection of eight out of ten bits that forms a round key.
pub const P8: [u16; 8] = [6, 3, 7, 4, 8, 5, 10, 9];

/// Every entry of `table` is a position of a pattern of `source_width` bits,
/// counted from 1 at the most significant bit.
pub open spec fn valid_table(table: Seq<u16>, source_width: nat) -> bool {
    forall|i: int| 0 <= i < table.len() ==> 1 <= #[trigger] table[i] <= source_width
}

/// The pattern whose bit `i` is the bit of `bits` at position `table[i]`.
pub open spec fn permuted(bits: Seq<bool>, table: Seq<u16>) -> Seq<bool> {
    Seq::new(table.len(), |i: int| bits[table[i] - 1])
}

/// The number that results from applying `table` to the `source_width` low
/// bits of `input`.
pub open spec fn permute_value(input: nat, table: Seq<u16>, source_width: nat) -> nat {
    pattern_value(permuted(pattern(input, source_width), table))
}

/// Setting bit `k` of a word changes that bit and no other.
proof fn lemma_set_bit(x: u16, k: u16, m: u16)
    requires
        k < 16,
        m < 16,
    ensures
        bit((x | (1u16 << k)) as nat, m as nat) == (m == k || bit(x as nat, m as nat)),
{
    let y = x | (1u16 << k);
    lemma_bit_u16(x, m);
    lemma_bit_u16(y, m);
    assert(((x | (1u16 << k)) >> m) & 1 == 1 <==> (m == k || (x >> m) & 1 == 1)) by (bit_vector)
        requires
            k < 16,
            m < 16,
    ;
}

/// A mask with the single bit `k` meets a word exactly where the word has that bit.
proof fn lemma_test_bit(x: u16, k: u16)
    requires
        k < 16,
    ensures
        (((1u16 << k) & x) != 0) == bit(x as nat, k as nat),
{
    lemma_bit_u16(x, k);
    assert((((1u16 << k) & x) != 0) == ((x >> k) & 1 == 1)) by (bit_vector)
        requires
            k < 16,
    ;
}

/// Applies the permutation table `perm` to the `in_size` low bits of `d_in`.
///
/// Positions in the table count from 1 at the most significant of the
/// `in_size` bits. Bit `i` of the result, counted from 0 at the most
/// significant of its `target_size` bits, is the bit of `d_in` at position
/// `perm[i]`. A table with an entry that is zero or exceeds `in_size` is
/// refused.
pub fn permute(d_in: u16, perm: &[u16], target_size: u16, in_size: u16) -> (res: Result<
    u16,
    SdesError,
>)
    requires
        perm@.len() == target_size,
        target_size <= 16,
        in_size <= 16,
    ensures
        res is Ok <==> valid_table(perm@, in_size as nat),
        res matches Ok(out) ==> {
            &&& out == permute_value(d_in as nat, perm@, in_size as nat)
            &&& out < pow2(target_size as nat)
            &&& pattern(out as nat, target_size as nat) == permuted(
                pattern(d_in as nat, in_size as nat),
                perm@,
            )
        },
        res matches Err(e) ==> e == SdesError::InvalidPermutationTable,
{
    let mut out: u16 = 0;
    let ghost source = pattern(d_in as nat, in_size as nat);
    let ghost wanted = permuted(source, perm@);
    proof {
        assert forall|m: u16| m < 16 implies !bit(0, m as nat) by {
            lemma_bit_u16(0, m);
            assert((0u16 >> m) & 1 == 0) by (bit_vector);
        }
    }
    for i in 0..target_size
        invariant
            perm@.len() == target_size,
            target_size <= 16,
            in_size <= 16,
            source == pattern(d_in as nat, in_size as nat),
            wanted == permuted(source, perm@),
            forall|j: int| 0 <= j < i ==> 1 <= #[trigger] perm@[j] <= in_size,
            forall|m: u16|
                m < 16 ==> #[trigger] bit(out as nat, m as nat) == (target_size - i <= m
                    < target_size && wanted[target_size - 1 - m]),
    {
        let entry: u16 = perm[i as usize];
        if entry == 0 || entry > in_size {
            return Err(SdesError::InvalidPermutationTable);
        }
        let mask: u16 = 1 << (in_size - entry);
        proof {
            lemma_test_bit(d_in, (in_size - entry) as u16);
            assert(wanted[i as int] == source[entry - 1]);
        }
        if (mask & d_in) != 0 {
            let ghost before = out;
            out |= 1 << (target_size - i - 1);
            proof {
                assert forall|m: u16| m < 16 implies #[trigger] bit(out as nat, m as nat) == (
                target_size - (i + 1) <= m < target_size && wanted[target_size - 1 - m]) by {
                    lemma_set_bit(before, (target_size - i - 1) as u16, m);
                }
            }
        }
    }
    proof {
        lemma_word_from_bits(out, target_size, wanted);
    }
    Ok(out)
}

/// The table that keeps each of `n` bits in its place.
pub open spec fn identity_table(n: nat) -> Seq<u16>
    recommends
        n <= u16::MAX,
{
    Seq::new(n, |i: int| (i + 1) as u16)
}

/// Applying the identity table to an `n`-bit number gives the number back.
pub proof fn lemma_identity_table(x: nat, n: nat)
    requires
        n <= u16::MAX,
        x < pow2(n),
    ensures
        valid_table(identity_table(n), n),
        permute_value(x, identity_table(n), n) == x,
{
    assert(permuted(pattern(x, n), identity_table(n)) =~= pattern(x, n));
    lemma_value_of_pattern(x, n);
    lemma_small_mod(x, pow2(n));
}

/// `back` undoes `table`: both have `table.len()` entries, and `back` names,
/// for each source position, the place to which `table` moves it.
pub open spec fn undoes(back: Seq<u16>, table: Seq<u16>) -> bool {
    &&& back.len() == table.len()
    &&& valid_table(back, table.len())
    &&& forall|j: int| 0 <= j < back.len() ==> table[#[trigger] back[j] - 1] == j + 1
}

/// Applying a table and then one that undoes it restores the pattern.
pub proof fn lemma_permuted_round_trip(bits: Seq<bool>, table: Seq<u16>, back: Seq<u16>)
    requires
        bits.len() == table.len(),
        undoes(back, table),
    ensures
        permuted(permuted(bits, table), back) == bits,
{
    assert forall|j: int| 0 <= j < bits.len() implies permuted(permuted(bits, table), back)[j]
        == bits[j] by {
        assert(table[back[j] - 1] == j + 1);
    }
    assert(permuted(permuted(bits, table), back) =~= bits);
}

/// The table that undoes `P10`.
pub open spec fn p10_inverse() -> Seq<u16> {
    seq![7u16, 3, 1, 5, 2, 10, 4, 9, 8, 6]
}

/// `P10` and its inverse undo each other.
pub proof fn lemma_p10_inverse()
    ensures
        undoes(p10_inverse(), P10@),
        undoes(P10@, p10_inverse()),
{
}

/// `P10` is one-to-one on the 10-bit numbers: two of them with the same
/// result are the same number.
pub proof fn lemma_p10_injective(a: nat, b: nat)
    requires
        a < 1024,
        b < 1024,
        permute_value(a, P10@, 10) == permute_value(b, P10@, 10),
    ensures
        a == b,
{
    let pa = pattern(a, 10);
    let pb = pattern(b, 10);
    lemma_p10_inverse();
    lemma_pattern_of_value(permuted(pa, P10@));
    lemma_pattern_of_value(permuted(pb, P10@));
    assert(permuted(pa, P10@) == permuted(pb, P10@));
    lemma_permuted_round_trip(pa, P10@, p10_inverse());
    lemma_permuted_round_trip(pb, P10@, p10_inverse());
    lemma_value_of_pattern(a, 10);
    lemma_value_of_pattern(b, 10);
    lemma2_to64();
    lemma_small_mod(a, 1024);
    lemma_small_mod(b, 1024);
}

/// `P10` is onto the 10-bit numbers: each of them is the result for some
/// 10-bit number, which is returned. With `lemma_p10_injective`, each value
/// therefore occurs exactly once among the 1024 results.
pub proof fn lemma_p10_surjective(y: nat) -> (k: nat)
    requires
        y < 1024,
    ensures
        k < 1024,
        permute_value(k, P10@, 10) == y,
{
    let source = permuted(pattern(y, 10), p10_inverse());
    let k = pattern_value(source);
    lemma_p10_inverse();
    lemma2_to64();
    lemma_value_bound(source);
    lemma_pattern_of_value(source);
    lemma_permuted_round_trip(pattern(y, 10), p10_inverse(), P10@);
    lemma_value_of_pattern(y, 10);
    lemma_small_mod(y, 1024);
    k
}

} // verus!
