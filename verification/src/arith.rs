//! Facts of integer arithmetic that the proofs share.

use crate::wide::bit_len;
use crate::wide::pow2_128;
use crate::wide::pow2_256;
use crate::wide::pow2_64;
use vstd::arithmetic::power2::pow2;
use vstd::prelude::*;

verus! {

/// A quotient rounded down, times the divisor, misses the dividend by less
/// than the divisor.
pub proof fn lemma_div_bounds(x: int, d: int)
    requires
        0 <= x,
        0 < d,
    ensures
        0 <= x / d,
        (x / d) * d <= x < (x / d) * d + d,
{
    vstd::arithmetic::div_mod::lemma_fundamental_div_mod(x, d);
    vstd::arithmetic::div_mod::lemma_mod_bound(x, d);
    vstd::arithmetic::div_mod::lemma_div_pos_is_pos(x, d);
    vstd::arithmetic::mul::lemma_mul_is_commutative(x / d, d);
}

/// Division rounds down monotonically in the dividend.
pub proof fn lemma_div_mono(x: int, y: int, d: int)
    requires
        x <= y,
        0 < d,
    ensures
        x / d <= y / d,
{
    vstd::arithmetic::div_mod::lemma_div_is_ordered(x, y, d);
}

/// `q * a / b` is at most `q` when `a` is at most `b`.
pub proof fn lemma_part_of_whole(q: int, a: int, b: int)
    requires
        0 <= q,
        0 <= a <= b,
        0 < b,
    ensures
        0 <= q * a / b <= q,
{
    assert(0 <= q * a <= q * b) by (nonlinear_arith)
        requires
            0 <= q,
            0 <= a <= b,
    ;
    vstd::arithmetic::div_mod::lemma_div_is_ordered(q * a, q * b, b);
    vstd::arithmetic::div_mod::lemma_div_multiples_vanish(q, b);
    vstd::arithmetic::mul::lemma_mul_is_commutative(q, b);
    vstd::arithmetic::div_mod::lemma_div_pos_is_pos(q * a, b);
}

/// The powers of two that the wide integers are made of.
pub proof fn lemma_pow2_values()
    ensures
        pow2(64) == pow2_64(),
        pow2(127) == 0x8000_0000_0000_0000_0000_0000_0000_0000int,
        pow2(128) == pow2_128(),
        pow2(255) == 0x8000_0000_0000_0000_0000_0000_0000_0000_0000_0000_0000_0000_0000_0000_0000_0000int,
        pow2(256) == pow2_256(),
{
    vstd::arithmetic::power2::lemma2_to64();
    vstd::arithmetic::power2::lemma2_to64_rest();
    vstd::arithmetic::power2::lemma_pow2_adds(63, 64);
    vstd::arithmetic::power2::lemma_pow2_adds(64, 64);
    vstd::arithmetic::power2::lemma_pow2_adds(127, 128);
    vstd::arithmetic::power2::lemma_pow2_adds(128, 128);
    let half = 0x8000_0000_0000_0000_0000_0000_0000_0000int;
    assert(pow2(127) == half);
    assert(pow2(128) == pow2_128());
    assert(pow2(255) == half * pow2_128());
    assert(pow2(256) == pow2_128() * pow2_128());
    assert(0x8000_0000_0000_0000_0000_0000_0000_0000int
        * 0x1_0000_0000_0000_0000_0000_0000_0000_0000int
        == 0x8000_0000_0000_0000_0000_0000_0000_0000_0000_0000_0000_0000_0000_0000_0000_0000int)
        by (nonlinear_arith);
    assert(0x1_0000_0000_0000_0000_0000_0000_0000_0000int
        * 0x1_0000_0000_0000_0000_0000_0000_0000_0000int
        == 0x1_0000_0000_0000_0000_0000_0000_0000_0000_0000_0000_0000_0000_0000_0000_0000_0000int)
        by (nonlinear_arith);
}

/// A number is below two to the power of its length in bits, and, unless it
/// is zero, not below half of that.
pub proof fn lemma_bit_len_bounds(x: int)
    requires
        0 <= x,
    ensures
        x < pow2(bit_len(x)),
        x > 0 ==> bit_len(x) >= 1 && pow2((bit_len(x) - 1) as nat) <= x,
    decreases x,
{
    if x == 0 {
        vstd::arithmetic::power2::lemma2_to64();
    } else {
        lemma_bit_len_bounds(x / 2);
        vstd::arithmetic::power2::lemma_pow2_unfold(bit_len(x));
        if x / 2 > 0 {
            vstd::arithmetic::power2::lemma_pow2_unfold((bit_len(x) - 1) as nat);
        } else {
            vstd::arithmetic::power2::lemma2_to64();
        }
    }
}

/// A number of at most `bits` bits is below 2^`bits`.
pub proof fn lemma_below_pow2(x: int, bits: nat)
    requires
        0 <= x,
        bit_len(x) <= bits,
    ensures
        x < pow2(bits),
{
    lemma_bit_len_bounds(x);
    if bit_len(x) < bits {
        vstd::arithmetic::power2::lemma_pow2_strictly_increases(bit_len(x), bits);
    }
}

/// A number below 2^`bits` has at most `bits` bits.
pub proof fn lemma_bit_len_le(x: int, bits: nat)
    requires
        0 <= x < pow2(bits),
    ensures
        bit_len(x) <= bits,
{
    lemma_bit_len_bounds(x);
    if x > 0 && bit_len(x) > bits {
        if bits < bit_len(x) - 1 {
            vstd::arithmetic::power2::lemma_pow2_strictly_increases(
                bits,
                (bit_len(x) - 1) as nat,
            );
        }
    }
}

/// Shifting right by `shift` cuts `shift` bits off: a number of at most
/// `bits + shift` bits is below 2^`bits` afterwards.
pub proof fn lemma_shifted_fits(x: int, bits: nat, shift: nat)
    requires
        0 <= x,
        bit_len(x) <= bits + shift,
    ensures
        0 <= x / (pow2(shift) as int) < pow2(bits),
{
    lemma_below_pow2(x, bits + shift);
    vstd::arithmetic::power2::lemma_pow2_adds(shift, bits);
    vstd::arithmetic::power2::lemma_pow2_pos(shift);
    vstd::arithmetic::div_mod::lemma_multiply_divide_lt(
        x,
        pow2(shift) as int,
        pow2(bits) as int,
    );
    vstd::arithmetic::div_mod::lemma_div_pos_is_pos(x, pow2(shift) as int);
}

} // verus!
