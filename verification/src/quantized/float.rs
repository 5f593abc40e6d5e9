//! Widening of half-precision and brain floats, on their bits.

use vstd::arithmetic::power2::{lemma2_to64, lemma_pow2_adds, lemma_pow2_pos, lemma_pow2_unfold, pow2};
use vstd::prelude::*;

verus! {

/// The bits of a brain float are those of a value that is not a number.
pub open spec fn bf16_is_nan(bits: u16) -> bool {
    bits as int % 0x8000 > 0x7f80
}

/// The bits of the single-precision float that has the value of a brain float: the same bits,
/// followed by zeros. A signalling value that is not a number becomes a quiet one.
pub open spec fn bf16_widened(bits: u16) -> int {
    let quieted = if bf16_is_nan(bits) && (bits as int / 0x40) % 2 == 0 {
        bits as int + 0x40
    } else {
        bits as int
    };
    quieted * 0x1_0000
}

/// Widens a brain float, on bits.
pub(crate) fn bf16_to_f32_bits(bits: u16) -> (r: u32)
    ensures
        r == bf16_widened(bits),
{
    let word: u32 = bits as u32;
    if word % 0x8000 > 0x7f80 && (word / 0x40) % 2 == 0 {
        (word + 0x40) * 0x1_0000
    } else {
        word * 0x1_0000
    }
}

/// The bits of a single-precision float with the given exponent bits and fraction, where the
/// leading one of the fraction is put in its place first: each doubling of the fraction lowers
/// the exponent.
pub open spec fn normalized(fraction: int, exponent: int) -> int
    decreases 0x800 - fraction,
{
    if fraction >= 0x400 || fraction <= 0 {
        exponent * 0x80_0000 + (fraction - 0x400) * 0x2000
    } else {
        normalized(2 * fraction, exponent - 1)
    }
}

/// The bits, but for the sign, of the single-precision float that has the value of a
/// half-precision one: the fraction gets thirteen more bits, and the exponent, which is counted
/// from 15, is counted from 127. Fractions without a leading one get one. A signalling value that
/// is not a number becomes a quiet one.
pub open spec fn half_magnitude(magnitude: int) -> int {
    let fraction = magnitude % 0x400;
    if magnitude >= 0x7c00 {
        0x7f80_0000 + (if 0 < fraction < 0x200 {
            fraction + 0x200
        } else {
            fraction
        }) * 0x2000
    } else if magnitude >= 0x400 {
        magnitude * 0x2000 + 112 * 0x80_0000
    } else if magnitude == 0 {
        0
    } else {
        normalized(magnitude, 113)
    }
}

/// The bits of the single-precision float that has the value of a half-precision float.
pub open spec fn half_widened(bits: u16) -> int {
    (bits as int / 0x8000) * 0x8000_0000 + half_magnitude(bits as int % 0x8000)
}

/// Widens a half-precision float, on bits.
pub(crate) fn half_to_single_bits(bits: u16) -> (r: u32)
    ensures
        r == half_widened(bits),
{
    let sign: u32 = (bits / 0x8000) as u32 * 0x8000_0000;
    let magnitude: u32 = (bits % 0x8000) as u32;
    let fraction: u32 = magnitude % 0x400;
    if magnitude >= 0x7c00 {
        let quiet: u32 = if 0 < fraction && fraction < 0x200 {
            fraction + 0x200
        } else {
            fraction
        };
        return sign + 0x7f80_0000 + quiet * 0x2000;
    }
    if magnitude >= 0x400 {
        return sign + (magnitude * 0x2000 + 0x3800_0000);
    }
    if magnitude == 0 {
        return sign;
    }
    let mut lead: u32 = magnitude;
    let mut exponent: u32 = 113;
    let ghost mut doubled: int = 1;
    while lead < 0x400
        invariant
            0 < lead < 0x800,
            lead >= doubled,
            doubled >= 1,
            exponent <= 113,
            doubled * pow2(exponent as nat) == pow2(113),
            normalized(lead as int, exponent as int) == normalized(magnitude as int, 113),
        decreases 0x800 - lead,
    {
        proof {
            if exponent == 0 {
                lemma_small_powers();
                assert(doubled * 1 == doubled);
            }
            lemma_pow2_unfold(exponent as nat);
            let (d, p) = (doubled, pow2((exponent - 1) as nat) as int);
            assert((2 * d) * p == d * (2 * p)) by (nonlinear_arith);
            doubled = 2 * doubled;
        }
        lead = 2 * lead;
        exponent = exponent - 1;
    }
    sign + (exponent * 0x80_0000 + (lead - 0x400) * 0x2000)
}

/// More than ten doublings are more than a fraction has.
proof fn lemma_small_powers()
    ensures
        pow2(0) == 1,
        pow2(112) >= 0x400,
        pow2(113) > 0x800,
{
    lemma2_to64();
    lemma_pow2_adds(11, 101);
    lemma_pow2_pos(101);
    lemma_pow2_unfold(113);
    let p = pow2(101) as int;
    assert(0x800 * p >= 0x800) by (nonlinear_arith)
        requires
            p >= 1,
    ;
}

/// The value of a finite half-precision float, but for the sign, in units of its smallest one.
pub open spec fn half_units(magnitude: int) -> int {
    if magnitude < 0x400 {
        magnitude
    } else {
        (0x400 + magnitude % 0x400) * pow2((magnitude / 0x400 - 1) as nat)
    }
}

/// The value of a finite single-precision float, but for the sign, in units of its smallest one.
pub open spec fn single_units(magnitude: int) -> int {
    if magnitude < 0x80_0000 {
        magnitude
    } else {
        (0x80_0000 + magnitude % 0x80_0000) * pow2((magnitude / 0x80_0000 - 1) as nat)
    }
}

/// A finite half-precision float keeps its value: the units are 125 powers of two apart.
pub proof fn law_widening_keeps_the_value(magnitude: int)
    requires
        0 <= magnitude < 0x7c00,
    ensures
        single_units(half_magnitude(magnitude)) == half_units(magnitude) * pow2(125),
{
    if magnitude >= 0x400 {
        let (e, m) = (magnitude / 0x400, magnitude % 0x400);
        let w = half_magnitude(magnitude);
        assert(w == (e + 112) * 0x80_0000 + m * 0x2000);
        assert(w / 0x80_0000 == e + 112 && w % 0x80_0000 == m * 0x2000);
        lemma_pow2_adds((e - 1) as nat, 112);
        lemma_pow2_adds(13, 112);
        lemma2_to64();
        let (a, b) = (pow2((e - 1) as nat) as int, pow2(112) as int);
        assert((0x80_0000 + m * 0x2000) * (a * b) == ((0x400 + m) * a) * (0x2000 * b))
            by (nonlinear_arith);
    } else if magnitude > 0 {
        let b = pow2(112) as int;
        lemma_small_powers();
        assert(magnitude * b >= 0x400) by (nonlinear_arith)
            requires
                magnitude >= 1,
                b >= 0x400,
        ;
        lemma_normalized(magnitude, 113);
        lemma_pow2_adds(13, 112);
        lemma2_to64();
        assert(0x2000 * magnitude * b == magnitude * (0x2000 * b)) by (nonlinear_arith);
    } else {
        assert(0 * pow2(125) == 0) by (nonlinear_arith);
    }
}

/// Putting the leading one in its place keeps the value.
proof fn lemma_normalized(fraction: int, exponent: int)
    requires
        0 < fraction < 0x800,
        exponent >= 1,
        fraction * pow2((exponent - 1) as nat) >= 0x400,
    ensures
        single_units(normalized(fraction, exponent)) == 0x2000 * fraction * pow2(
            (exponent - 1) as nat,
        ),
    decreases 0x800 - fraction,
{
    if fraction >= 0x400 {
        let w = normalized(fraction, exponent);
        assert(w == exponent * 0x80_0000 + (fraction - 0x400) * 0x2000);
        assert(w / 0x80_0000 == exponent && w % 0x80_0000 == (fraction - 0x400) * 0x2000);
        assert(0x80_0000 + (fraction - 0x400) * 0x2000 == 0x2000 * fraction);
    } else {
        lemma_small_powers();
        assert(exponent >= 2) by {
            assert(fraction * 1 == fraction);
        }
        lemma_pow2_unfold((exponent - 1) as nat);
        let p = pow2((exponent - 2) as nat) as int;
        assert(0x2000 * (2 * fraction) * p == 0x2000 * fraction * (2 * p)) by (nonlinear_arith);
        assert((2 * fraction) * p == fraction * (2 * p)) by (nonlinear_arith);
        lemma_normalized(2 * fraction, exponent - 1);
    }
}

} // verus!
