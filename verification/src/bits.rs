//! Bit patterns: numbers read as sequences of bits, most significant first.

use vstd::prelude::*;
use vstd::arithmetic::power2::*;
use vstd::arithmetic::div_mod::*;
use vstd::bits::*;

verus! {

/// Whether the binary digit of weight `2^k` is set in `x`.
pub open spec fn bit(x: nat, k: nat) -> bool {
    (x / pow2(k)) % 2 == 1
}

/// The `width` low bits of `x`, most significant first.
pub open spec fn pattern(x: nat, width: nat) -> Seq<bool> {
    Seq::new(width, |i: int| bit(x, (width - 1 - i) as nat))
}

/// The number whose binary digits, most significant first, are `bits`.
pub open spec fn pattern_value(bits: Seq<bool>) -> nat
    decreases bits.len(),
{
    if bits.len() == 0 {
        0
    } else {
        2 * pattern_value(bits.drop_last()) + if bits.last() { 1nat } else { 0nat }
    }
}

/// A pattern of `n` bits denotes a number below `2^n`.
pub proof fn lemma_value_bound(bits: Seq<bool>)
    ensures
        pattern_value(bits) < pow2(bits.len()),
    decreases bits.len(),
{
    if bits.len() == 0 {
        lemma2_to64();
    } else {
        lemma_value_bound(bits.drop_last());
        lemma_pow2_unfold(bits.len());
    }
}

/// A pattern denotes at least as much as any of its leading parts.
pub proof fn lemma_value_prefix(bits: Seq<bool>, n: int)
    requires
        0 <= n <= bits.len(),
    ensures
        pattern_value(bits.take(n)) <= pattern_value(bits),
    decreases bits.len(),
{
    if n == bits.len() {
        assert(bits.take(n) =~= bits);
    } else {
        lemma_value_prefix(bits.drop_last(), n);
        assert(bits.drop_last().take(n) =~= bits.take(n));
    }
}

/// The lowest bit of a number tells whether it is odd.
pub proof fn lemma_bit_zero(x: nat)
    ensures
        bit(x, 0) == (x % 2 == 1),
{
    lemma2_to64();
}

/// Halving a number moves each of its bits one place down.
pub proof fn lemma_bit_halve(x: nat, k: nat)
    ensures
        bit(x, k + 1) == bit(x / 2, k),
{
    lemma_pow2_unfold(k + 1);
    lemma_pow2_pos(k);
    lemma_div_denominator(x as int, 2, pow2(k) as int);
}

/// Reading the bits of the number that a pattern denotes gives the pattern back.
pub proof fn lemma_pattern_of_value(bits: Seq<bool>)
    ensures
        pattern(pattern_value(bits), bits.len()) == bits,
    decreases bits.len(),
{
    let n = bits.len();
    let v = pattern_value(bits);
    if n > 0 {
        let rest = bits.drop_last();
        let w = pattern_value(rest);
        lemma_pattern_of_value(rest);
        assert(v / 2 == w);
        assert forall|i: int| 0 <= i < n implies pattern(v, n)[i] == bits[i] by {
            if i == n - 1 {
                lemma_bit_zero(v);
            } else {
                lemma_bit_halve(v, (n - 2 - i) as nat);
                assert(pattern(w, rest.len())[i] == rest[i]);
            }
        }
    }
    assert(pattern(v, n) =~= bits);
}

/// The pattern of the `width` low bits of `x` denotes `x` reduced modulo `2^width`.
pub proof fn lemma_value_of_pattern(x: nat, width: nat)
    ensures
        pattern_value(pattern(x, width)) == x % pow2(width),
    decreases width,
{
    if width == 0 {
        lemma2_to64();
    } else {
        let rest = (width - 1) as nat;
        assert forall|i: int| 0 <= i < rest implies pattern(x, width).drop_last()[i] == pattern(
            x / 2,
            rest,
        )[i] by {
            lemma_bit_halve(x, (rest - 1 - i) as nat);
        }
        assert(pattern(x, width).drop_last() =~= pattern(x / 2, rest));
        lemma_value_of_pattern(x / 2, rest);
        lemma_bit_zero(x);
        lemma_pow2_unfold(width);
        lemma_pow2_pos(rest);
        lemma_mod_breakdown(x as int, 2, pow2(rest) as int);
    }
}

/// On a 16-bit word, testing a bit by shift and mask agrees with `bit`.
pub proof fn lemma_bit_u16(x: u16, k: u16)
    requires
        k < 16,
    ensures
        bit(x as nat, k as nat) == ((x >> k) & 1 == 1),
{
    let y = x >> k;
    lemma_u16_shr_is_div(x, k);
    assert((y & 1 == 1) == (y % 2 == 1)) by (bit_vector);
}

/// A number below `2^top` whose bits from `width` up to `top` are all clear
/// lies below `2^width`.
pub proof fn lemma_high_bits_clear(x: nat, width: nat, top: nat)
    requires
        width <= top,
        x < pow2(top),
        forall|k: nat| width <= k < top ==> !#[trigger] bit(x, k),
    ensures
        x < pow2(width),
    decreases top - width,
{
    if width < top {
        let k = (top - 1) as nat;
        let d = pow2(k);
        lemma_pow2_unfold(top);
        lemma_pow2_pos(k);
        assert(!bit(x, k));
        assert(x / d < 2) by (nonlinear_arith)
            requires
                x < 2 * d,
                d > 0,
        ;
        assert(x < d) by (nonlinear_arith)
            requires
                x / d == 0,
                d > 0,
        ;
        lemma_high_bits_clear(x, width, k);
    }
}

/// A 16-bit word whose bits are those of `bits` in its `width` low places,
/// and clear above them, is the number that `bits` denotes.
pub proof fn lemma_word_from_bits(x: u16, width: u16, bits: Seq<bool>)
    requires
        width <= 16,
        bits.len() == width,
        forall|m: u16|
            m < 16 ==> #[trigger] bit(x as nat, m as nat) == (m < width && bits[width - 1 - m]),
    ensures
        x < pow2(width as nat),
        pattern(x as nat, width as nat) == bits,
        x == pattern_value(bits),
{
    assert forall|i: int| 0 <= i < width implies pattern(x as nat, width as nat)[i] == bits[i] by {
        let m = (width - 1 - i) as u16;
        assert(bit(x as nat, m as nat) == (m < width && bits[width - 1 - m]));
    }
    assert(pattern(x as nat, width as nat) =~= bits);
    lemma2_to64();
    assert forall|k: nat| width <= k < 16 implies !#[trigger] bit(x as nat, k) by {
        let m = k as u16;
        assert(bit(x as nat, m as nat) == (m < width && bits[width - 1 - m]));
    }
    lemma_high_bits_clear(x as nat, width as nat, 16);
    lemma_value_of_pattern(x as nat, width as nat);
    lemma_small_mod(x as nat, pow2(width as nat));
}

} // verus!
