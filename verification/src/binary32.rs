//! Rounding to IEEE 754 binary32, on integers.
//!
//! A finite, non-negative binary32 is known here by its encoding, the unsigned
//! number that its 32 bits write. Encodings are ordered as their values are, so
//! a bound on values is a bound on encodings.

use vstd::arithmetic::power2::{lemma2_to64, lemma_pow2_adds, lemma_pow2_pos, pow2};
use vstd::prelude::*;

verus! {

/// Encodings from here on are infinity and the NaNs.
pub const FIRST_NON_FINITE: u32 = 0x7F80_0000;

/// Number of encodings that share one binary exponent.
pub const BINADE: u32 = 0x80_0000;

/// Value of a finite encoding, in units of the smallest positive binary32, `2^-149`.
pub open spec fn units(bits: nat) -> nat {
    let exponent = bits / (BINADE as nat);
    let fraction = bits % (BINADE as nat);
    if exponent == 0 {
        fraction
    } else {
        (BINADE as nat + fraction) * pow2((exponent - 1) as nat)
    }
}

/// How far the encoding `bits` is from `num / den`, in units of `2^-149 / den`.
pub open spec fn distance(num: nat, den: nat, bits: nat) -> nat {
    let exact = num * pow2(149) as int;
    let rounded = units(bits) * den as int;
    if exact >= rounded {
        (exact - rounded) as nat
    } else {
        (rounded - exact) as nat
    }
}

/// `bits` encodes the finite binary32 closest to `num / den`; of two that are
/// equally close, the one whose last bit is zero.
pub open spec fn nearest(num: nat, den: nat, bits: nat) -> bool {
    &&& bits < FIRST_NON_FINITE
    &&& forall|other: nat|
        #![trigger units(other)]
        other < FIRST_NON_FINITE && other != bits ==> {
            ||| distance(num, den, bits) < distance(num, den, other)
            ||| distance(num, den, bits) == distance(num, den, other) && bits % 2 == 0
        }
}

proof fn units_step(bits: nat)
    ensures
        units(bits) < units(bits + 1),
{
    let exponent = bits / (BINADE as nat);
    let fraction = bits % (BINADE as nat);
    if fraction + 1 < BINADE {
        assert((bits + 1) / (BINADE as nat) == exponent);
        assert((bits + 1) % (BINADE as nat) == fraction + 1);
        if exponent > 0 {
            let p = pow2((exponent - 1) as nat);
            lemma_pow2_pos((exponent - 1) as nat);
            assert((BINADE as nat + fraction) * p < (BINADE as nat + fraction + 1) * p) by (nonlinear_arith)
                requires
                    p > 0,
            ;
        }
    } else {
        assert((bits + 1) / (BINADE as nat) == exponent + 1);
        assert((bits + 1) % (BINADE as nat) == 0);
        let p = pow2(exponent);
        lemma_pow2_pos(exponent);
        if exponent > 0 {
            lemma_pow2_adds(1, (exponent - 1) as nat);
            lemma2_to64();
            let q = pow2((exponent - 1) as nat);
            lemma_pow2_pos((exponent - 1) as nat);
            assert(p == 2 * q);
            assert((BINADE as nat + fraction) * q < (BINADE as nat + 0) * (2 * q)) by (nonlinear_arith)
                requires
                    q > 0,
                    BINADE as nat + fraction < 2 * BINADE,
            ;
        } else {
            lemma2_to64();
            assert(p == 1);
        }
    }
}

/// A larger encoding is a larger value.
pub proof fn encodings_ordered_as_values(low: nat, high: nat)
    requires
        low < high,
    ensures
        units(low) < units(high),
    decreases high,
{
    units_step((high - 1) as nat);
    if low + 1 < high {
        encodings_ordered_as_values(low, (high - 1) as nat);
    }
}

proof fn scaled_order(a: nat, b: nat, den: nat)
    requires
        a < b,
        den > 0,
    ensures
        a * den < b * den,
{
    assert(a * den < b * den) by (nonlinear_arith)
        requires
            a < b,
            den > 0,
    ;
}

/// No number has two nearest binary32 values.
pub proof fn nearest_is_unique(num: nat, den: nat, a: nat, b: nat)
    requires
        den > 0,
        nearest(num, den, a),
        nearest(num, den, b),
    ensures
        a == b,
{
    if a != b {
        let (low, high) = if a < b {
            (a, b)
        } else {
            (b, a)
        };
        let _ = units(low);
        let _ = units(high);
        assert(distance(num, den, low) == distance(num, den, high));
        assert(low % 2 == 0 && high % 2 == 0);
        encodings_ordered_as_values(low, low + 1);
        encodings_ordered_as_values(low + 1, high);
        scaled_order(units(low), units(low + 1), den);
        scaled_order(units(low + 1), units(high), den);
        assert(distance(num, den, (low + 1) as nat) < distance(num, den, low));
        assert(false);
    }
}

/// Nothing below an encoding is nearest to a number at or above it.
pub proof fn none_nearest_below(num: nat, den: nat, bound: nat)
    requires
        den > 0,
        bound < FIRST_NON_FINITE,
        units(bound) * den <= num * pow2(149),
    ensures
        forall|bits: nat| bits < bound ==> !#[trigger] nearest(num, den, bits),
{
    assert forall|bits: nat| bits < bound implies !#[trigger] nearest(num, den, bits) by {
        encodings_ordered_as_values(bits, bound);
        scaled_order(units(bits), units(bound), den);
        assert(distance(num, den, bound) < distance(num, den, bits));
    }
}

/// Nothing above an encoding is nearest to a number at or below it.
pub proof fn none_nearest_above(num: nat, den: nat, bound: nat)
    requires
        den > 0,
        bound < FIRST_NON_FINITE,
        num * pow2(149) <= units(bound) * den,
    ensures
        forall|bits: nat| bits > bound ==> !#[trigger] nearest(num, den, bits),
{
    assert forall|bits: nat| bits > bound implies !#[trigger] nearest(num, den, bits) by {
        encodings_ordered_as_values(bound, bits);
        scaled_order(units(bound), units(bits), den);
        assert(distance(num, den, bound) < distance(num, den, bits));
    }
}

/// Encoding of `mantissa / 2^scale`, for a mantissa of 24 bits.
pub open spec fn encoding(mantissa: nat, scale: nat) -> nat {
    ((149 - scale) * BINADE + mantissa) as nat
}

proof fn encoding_units(mantissa: nat, scale: nat)
    requires
        BINADE <= mantissa <= 2 * BINADE,
        scale <= 149,
    ensures
        units(encoding(mantissa, scale)) == mantissa * pow2((149 - scale) as nat),
{
    let bits = encoding(mantissa, scale);
    let p = pow2((149 - scale) as nat);
    if mantissa < 2 * BINADE {
        assert(bits == (150 - scale) * BINADE + (mantissa - BINADE));
        assert(bits / (BINADE as nat) == 150 - scale);
        assert(bits % (BINADE as nat) == mantissa - BINADE);
    } else {
        assert(bits == (151 - scale) * BINADE);
        assert(bits / (BINADE as nat) == 151 - scale);
        assert(bits % (BINADE as nat) == 0);
        lemma_pow2_adds(1, (149 - scale) as nat);
        lemma2_to64();
        assert((BINADE as nat + 0) * (2 * p) == mantissa * p) by (nonlinear_arith)
            requires
                mantissa == 2 * BINADE,
        ;
    }
}

/// Rounding `(mantissa + rest / den) / 2^scale` half to even on its mantissa
/// gives the nearest binary32.
pub proof fn rounded_mantissa_is_nearest(num: nat, den: nat, mantissa: nat, scale: nat, rest: nat, up: bool)
    requires
        den > 0,
        BINADE <= mantissa < 2 * BINADE,
        scale <= 149,
        rest < den,
        num * pow2(scale) == mantissa * den + rest,
        up <==> 2 * rest > den || (2 * rest == den && mantissa % 2 == 1),
    ensures
        nearest(num, den, encoding(if up { mantissa + 1 } else { mantissa }, scale)),
{
    let s = pow2((149 - scale) as nat);
    lemma_pow2_pos((149 - scale) as nat);
    let low = encoding(mantissa, scale);
    let high = encoding(mantissa + 1, scale);
    assert(high == low + 1);
    encoding_units(mantissa, scale);
    encoding_units(mantissa + 1, scale);
    lemma_pow2_adds(scale, (149 - scale) as nat);
    let exact = num * pow2(149);
    assert(exact == (mantissa * den + rest) * s) by (nonlinear_arith)
        requires
            exact == num * (pow2(scale) * s),
            num * pow2(scale) == mantissa * den + rest,
    ;
    assert(exact - (mantissa * s) * den == rest * s) by (nonlinear_arith)
        requires
            exact == (mantissa * den + rest) * s,
    ;
    assert(((mantissa + 1) * s) * den - exact == (den - rest) * s) by (nonlinear_arith)
        requires
            exact == (mantissa * den + rest) * s,
    ;
    assert(rest * s >= 0 && (den - rest) * s > 0) by (nonlinear_arith)
        requires
            s > 0,
            rest < den,
    ;
    assert(distance(num, den, low) == rest * s);
    assert(distance(num, den, high) == (den - rest) * s);
    assert((2 * rest > den ==> rest * s > (den - rest) * s) && (2 * rest == den ==> rest * s == (den
        - rest) * s) && (2 * rest < den ==> rest * s < (den - rest) * s)) by (nonlinear_arith)
        requires
            s > 0,
    ;
    let bits = if up {
        high
    } else {
        low
    };
    assert(low % 2 == mantissa % 2) by {
        assert(low == 2 * ((149 - scale) * 0x40_0000) + mantissa);
    }
    assert(high < FIRST_NON_FINITE);
    assert forall|other: nat|
        #![trigger units(other)]
        other < FIRST_NON_FINITE && other != bits implies {
        ||| distance(num, den, bits) < distance(num, den, other)
        ||| distance(num, den, bits) == distance(num, den, other) && bits % 2 == 0
    } by {
        if other < low {
            encodings_ordered_as_values(other, low);
            scaled_order(units(other), units(low), den);
            assert(distance(num, den, low) < distance(num, den, other));
        } else if other > high {
            encodings_ordered_as_values(high, other);
            scaled_order(units(high), units(other), den);
            assert(distance(num, den, high) < distance(num, den, other));
        }
    }
}

/// Scales a number of at least one until its whole part has 24 bits, and rounds it.
proof fn nearest_from(num: nat, den: nat, scale: nat, mantissa: nat) -> (bits: nat)
    requires
        den > 0,
        1 <= mantissa < 2 * BINADE,
        mantissa * den <= num * pow2(scale) < (mantissa + 1) * den,
        scale <= 23,
        pow2(scale) <= mantissa,
    ensures
        nearest(num, den, bits),
    decreases 2 * BINADE - mantissa,
{
    let scaled = num * pow2(scale);
    let rest = (scaled - mantissa * den) as nat;
    assert(rest < den) by (nonlinear_arith)
        requires
            scaled < (mantissa + 1) * den,
            rest == scaled - mantissa * den,
    ;
    if mantissa >= BINADE {
        let up = 2 * rest > den || (2 * rest == den && mantissa % 2 == 1);
        rounded_mantissa_is_nearest(num, den, mantissa, scale, rest, up);
        encoding(
            if up {
                mantissa + 1
            } else {
                mantissa
            },
            scale,
        )
    } else {
        lemma_pow2_adds(1, scale);
        lemma2_to64();
        let p = pow2(scale);
        assert(num * (2 * p) == 2 * scaled) by (nonlinear_arith)
            requires
                scaled == num * p,
        ;
        let bit: nat = if 2 * rest >= den {
            1
        } else {
            0
        };
        let doubled = 2 * mantissa + bit;
        assert(doubled * den <= 2 * scaled < (doubled + 1) * den) by (nonlinear_arith)
            requires
                rest == scaled - mantissa * den,
                rest < den,
                doubled == 2 * mantissa + bit,
                bit == 1 ==> 2 * rest >= den,
                bit == 0 ==> 2 * rest < den,
                bit <= 1,
        ;
        assert(scale < 23) by {
            if scale == 23 {
                assert(pow2(23) == BINADE);
            }
        }
        nearest_from(num, den, scale + 1, doubled)
    }
}

/// Every number from 1 to `2^24` has a nearest binary32.
pub proof fn nearest_exists(num: nat, den: nat) -> (bits: nat)
    requires
        den > 0,
        den <= num < 2 * BINADE * den,
    ensures
        nearest(num, den, bits),
{
    let mantissa = num / den;
    lemma2_to64();
    assert(mantissa * den <= num < (mantissa + 1) * den && 1 <= mantissa < 2 * BINADE) by (nonlinear_arith)
        requires
            den > 0,
            den <= num < 2 * BINADE * den,
            mantissa == num / den,
    ;
    assert(num * 1 == num);
    nearest_from(num, den, 0, mantissa)
}

proof fn whole_from(n: nat, scale: nat, mantissa: nat) -> (bits: nat)
    requires
        1 <= mantissa < 2 * BINADE,
        mantissa == n * pow2(scale),
        scale <= 23,
        pow2(scale) <= mantissa,
    ensures
        nearest(n, 1, bits),
        units(bits) == n * pow2(149),
    decreases 2 * BINADE - mantissa,
{
    lemma2_to64();
    if mantissa >= BINADE {
        rounded_mantissa_is_nearest(n, 1, mantissa, scale, 0, false);
        encoding_units(mantissa, scale);
        lemma_pow2_adds(scale, (149 - scale) as nat);
        assert(n * pow2(scale) * pow2((149 - scale) as nat) == n * pow2(149)) by (nonlinear_arith)
            requires
                pow2(149) == pow2(scale) * pow2((149 - scale) as nat),
        ;
        encoding(mantissa, scale)
    } else {
        lemma_pow2_adds(1, scale);
        let p = pow2(scale);
        assert(n * (2 * p) == 2 * (n * p)) by (nonlinear_arith);
        whole_from(n, scale + 1, 2 * mantissa)
    }
}

/// Whole numbers of up to 24 bits are binary32 values, nearest to themselves.
pub proof fn whole_numbers_are_exact(n: nat) -> (bits: nat)
    requires
        1 <= n < 2 * BINADE,
    ensures
        nearest(n, 1, bits),
        units(bits) == n * pow2(149),
{
    lemma2_to64();
    whole_from(n, 0, n)
}

/// An encoding is that of an IEEE 754 binary32: the upper bits scale by powers of
/// two, the lower 23 bits count the steps in between.
pub proof fn encodings_are_binary32(bits: nat)
    ensures
        bits < 0x80_0000 ==> units(bits) == bits,
        bits >= 0x80_0000 ==> units(bits) == (0x80_0000 + bits % 0x80_0000) * pow2(
            (bits / 0x80_0000 - 1) as nat,
        ),
        bits >= 0x80_0000 ==> units(bits + 0x80_0000) == 2 * units(bits),
{
    if bits >= 0x80_0000 {
        let e = (bits / 0x80_0000 - 1) as nat;
        let m = 0x80_0000 + bits % 0x80_0000;
        lemma2_to64();
        lemma_pow2_adds(1, e);
        assert((bits + 0x80_0000) / 0x80_0000 == bits / 0x80_0000 + 1);
        assert((bits + 0x80_0000) % 0x80_0000 == bits % 0x80_0000);
        assert(m * (2 * pow2(e)) == 2 * (m * pow2(e))) by (nonlinear_arith);
    }
}

/// No finite number is closer than the nearest; where another is as close, the
/// nearest is the even one.
pub proof fn nearest_is_closest(num: nat, den: nat, bits: nat, other: nat)
    requires
        nearest(num, den, bits),
        other < 0x7F80_0000,
    ensures
        bits < 0x7F80_0000,
        ({
            let exact = num * pow2(149);
            let error = exact - units(bits) * den;
            let other_error = exact - units(other) * den;
            let a = if error < 0 {
                -error
            } else {
                error
            };
            let b = if other_error < 0 {
                -other_error
            } else {
                other_error
            };
            a <= b && (a == b && other != bits ==> bits % 2 == 0)
        }),
{
    let _ = units(other);
}

} // verus!
