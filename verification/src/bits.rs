//! Bits of a 16-bit value, and how many of them a compact encoding needs.

use vstd::arithmetic::div_mod::{lemma_basic_div, lemma_div_denominator};
use vstd::arithmetic::logarithm::{lemma_log0, lemma_log_nonnegative, lemma_log_s, log};
use vstd::arithmetic::power2::{lemma2_to64, lemma_pow2_pos, lemma_pow2_strictly_increases};
use vstd::arithmetic::power2::{lemma_pow2_unfold, pow2};
use vstd::bits::lemma_u16_shr_is_div;
use vstd::prelude::*;

verus! {

/// Whether bit `index` of `value` is set; bit 0 is the least significant.
pub open spec fn bit(value: u16, index: nat) -> bool {
    (value >> (index as u16)) & 1 == 1
}

/// The number of bits of `value` up to and including its highest set bit:
/// `floor(log2(value)) + 1`, and 0 for the value 0.
pub open spec fn bit_width(value: u16) -> nat {
    if value == 0 {
        0
    } else {
        (log(2, value as int) + 1) as nat
    }
}

/// Bit `index` of `value` is the parity of `value / 2^index`.
pub proof fn lemma_bit_is_parity_of_quotient(value: u16, index: nat)
    requires
        index < 16,
    ensures
        bit(value, index) <==> (value as nat / pow2(index)) % 2 == 1,
{
    let shift = index as u16;
    let shifted = value >> shift;
    lemma_u16_shr_is_div(value, shift);
    assert(shifted & 1 == shifted % 2) by (bit_vector);
}

/// Halving the quotient by `2^index` gives the quotient by `2^(index + 1)`.
pub proof fn lemma_quotient_halves(value: nat, index: nat)
    ensures
        (value / pow2(index)) / 2 == value / pow2(index + 1),
{
    lemma_pow2_pos(index);
    lemma_pow2_unfold(index + 1);
    lemma_div_denominator(value as int, pow2(index) as int, 2);
    assert(pow2(index) * 2 == 2 * pow2(index)) by (nonlinear_arith);
}

/// A positive value lies between the power of two of its logarithm and the
/// next power of two.
pub proof fn lemma_log2_brackets(value: nat)
    requires
        value >= 1,
    ensures
        log(2, value as int) >= 0,
        pow2(log(2, value as int) as nat) <= value < pow2((log(2, value as int) + 1) as nat),
    decreases value,
{
    lemma_log_nonnegative(2, value as int);
    if value == 1 {
        lemma_log0(2, 1);
        lemma2_to64();
    } else {
        let half = value / 2;
        lemma_log_s(2, value as int);
        lemma_log2_brackets(half);
        let below = log(2, half as int) as nat;
        lemma_pow2_unfold(below + 1);
        lemma_pow2_unfold(below + 2);
    }
}

/// The width of a non-zero 16-bit value is between 1 and 16; its top bit,
/// at position `bit_width - 1`, is set, and every bit above it is clear.
pub proof fn lemma_bit_width_is_highest_bit(value: u16)
    requires
        value != 0,
    ensures
        1 <= bit_width(value) <= 16,
        bit(value, (bit_width(value) - 1) as nat),
        forall|index: nat| bit_width(value) <= index < 16 ==> !#[trigger] bit(value, index),
{
    let width = bit_width(value);
    let top = (width - 1) as nat;
    lemma_log2_brackets(value as nat);
    lemma2_to64();
    if width > 16 {
        lemma_pow2_strictly_increases(16, top);
    }
    lemma_pow2_pos(top);
    lemma_pow2_unfold(width);
    lemma_bit_is_parity_of_quotient(value, top);
    let amount = value as nat;
    assert(amount / pow2(top) == 1) by (nonlinear_arith)
        requires
            pow2(top) <= amount < 2 * pow2(top),
    ;
    assert forall|index: nat| width <= index < 16 implies !#[trigger] bit(value, index) by {
        if width < index {
            lemma_pow2_strictly_increases(width, index);
        }
        lemma_bit_is_parity_of_quotient(value, index);
        lemma_basic_div(value as int, pow2(index) as int);
    }
}

/// The width is where the quotients by powers of two reach zero:
/// `value / 2^index` is positive below the width and zero from it on.
pub proof fn lemma_quotient_positive_below_width(value: u16, index: nat)
    ensures
        value as nat / pow2(index) > 0 <==> index < bit_width(value),
{
    lemma_pow2_pos(index);
    if value == 0 {
        lemma_basic_div(0, pow2(index) as int);
    } else {
        let width = bit_width(value);
        lemma_log2_brackets(value as nat);
        if index < width {
            let top = (width - 1) as nat;
            if index < top {
                lemma_pow2_strictly_increases(index, top);
            }
            let amount = value as nat;
            assert(amount / pow2(index) > 0) by (nonlinear_arith)
                requires
                    0 < pow2(index) <= amount,
            ;
        } else {
            if width < index {
                lemma_pow2_strictly_increases(width, index);
            }
            lemma_basic_div(value as int, pow2(index) as int);
        }
    }
}

} // verus!
