//! Decimal fractions of any length, and their binary32 rounding.

use crate::binary32::{nearest, nearest_is_closest, rounded_mantissa_is_nearest, units, BINADE};
use vstd::arithmetic::power::{lemma_pow0, lemma_pow1, lemma_pow_adds, lemma_pow_positive, pow};
use vstd::arithmetic::power2::{lemma2_to64, lemma_pow2_adds, lemma_pow2_strictly_increases, pow2};
use vstd::prelude::*;

verus! {

/// `d` holds decimal digits.
pub open spec fn are_digits(d: Seq<u8>) -> bool {
    forall|i: int| 0 <= i < d.len() ==> #[trigger] d[i] < 10
}

/// The number that decimal digits write, most significant first.
pub open spec fn value(d: Seq<u8>) -> nat
    decreases d.len(),
{
    if d.len() == 0 {
        0
    } else {
        value(d.drop_last()) * 10 + d.last() as nat
    }
}

/// `10^n`.
pub open spec fn ten_to(n: nat) -> nat {
    pow(10, n) as nat
}

pub proof fn ten_to_step(n: nat)
    ensures
        ten_to(0) == 1,
        ten_to(n) >= 1,
        ten_to(n + 1) == 10 * ten_to(n),
{
    lemma_pow0(10);
    lemma_pow1(10);
    lemma_pow_positive(10, n);
    lemma_pow_adds(10, 1, n);
}

pub proof fn value_concat(a: Seq<u8>, b: Seq<u8>)
    ensures
        value(a + b) == value(a) * ten_to(b.len()) + value(b),
    decreases b.len(),
{
    ten_to_step(0);
    if b.len() == 0 {
        assert(a + b =~= a);
        assert(value(a) * 1 == value(a));
    } else {
        value_concat(a, b.drop_last());
        assert((a + b).drop_last() =~= a + b.drop_last());
        assert((a + b).last() == b.last());
        ten_to_step((b.len() - 1) as nat);
        let p = ten_to((b.len() - 1) as nat);
        assert((value(a) * p) * 10 == value(a) * (10 * p)) by (nonlinear_arith);
    }
}

pub proof fn value_bound(d: Seq<u8>)
    requires
        are_digits(d),
    ensures
        value(d) < ten_to(d.len()),
    decreases d.len(),
{
    ten_to_step(0);
    if d.len() > 0 {
        assert forall|i: int| 0 <= i < d.len() - 1 implies #[trigger] d.drop_last()[i] < 10 by {
            assert(d.drop_last()[i] == d[i]);
        }
        value_bound(d.drop_last());
        ten_to_step((d.len() - 1) as nat);
    }
}

proof fn value_split_first(d: Seq<u8>, i: int)
    requires
        0 <= i < d.len(),
    ensures
        value(d.skip(i)) == d[i] as nat * ten_to((d.len() - i - 1) as nat) + value(d.skip(i + 1)),
{
    let head = seq![d[i]];
    assert(d.skip(i) =~= head + d.skip(i + 1));
    value_concat(head, d.skip(i + 1));
    assert(head.drop_last() =~= Seq::<u8>::empty());
    assert(value(head) == d[i]) by {
        assert(value(head.drop_last()) == 0);
    }
}

/// Doubles the fraction `0.d` in place and returns its whole part.
fn double_fraction(d: &mut Vec<u8>) -> (carry: u8)
    requires
        are_digits(old(d)@),
    ensures
        are_digits(final(d)@),
        final(d)@.len() == old(d)@.len(),
        carry <= 1,
        value(final(d)@) + carry * ten_to(old(d)@.len()) == 2 * value(old(d)@),
{
    let ghost before = d@;
    let len: usize = d.len();
    let mut i: usize = len;
    let mut carry: u8 = 0;
    proof {
        ten_to_step(0);
        assert(d@.skip(len as int) =~= Seq::<u8>::empty());
    }
    while i > 0
        invariant
            len == before.len(),
            d@.len() == len,
            i <= len,
            carry <= 1,
            are_digits(before),
            are_digits(d@),
            forall|j: int| 0 <= j < i ==> d@[j] == before[j],
            value(d@.skip(i as int)) + carry * ten_to((len - i) as nat) == 2 * value(
                before.skip(i as int),
            ),
        decreases i,
    {
        let ghost current = d@;
        let ghost carried = carry;
        i = i - 1;
        let twice: u8 = 2 * d[i] + carry;
        carry = twice / 10;
        d[i] = twice % 10;
        proof {
            let p = ten_to((len - i - 1) as nat);
            ten_to_step((len - i - 1) as nat);
            value_split_first(before, i as int);
            value_split_first(d@, i as int);
            assert(d@.skip(i + 1) =~= current.skip(i + 1));
            let old_rest = value(before.skip(i + 1));
            let new_rest = value(d@.skip(i + 1));
            assert((twice % 10) * p + new_rest + (twice / 10) * (10 * p) == 2 * (before[i as int] * p
                + old_rest)) by (nonlinear_arith)
                requires
                    twice == 2 * before[i as int] + carried,
                    new_rest + carried * p == 2 * old_rest,
                    twice == 10 * (twice / 10) + twice % 10,
            ;
        }
    }
    proof {
        assert(d@.skip(0) =~= d@);
        assert(before.skip(0) =~= before);
    }
    carry
}

proof fn zeros_value(d: Seq<u8>)
    ensures
        (forall|i: int| 0 <= i < d.len() ==> #[trigger] d[i] == 0) <==> value(d) == 0,
    decreases d.len(),
{
    if d.len() > 0 {
        zeros_value(d.drop_last());
        if value(d) == 0 {
            assert forall|i: int| 0 <= i < d.len() implies #[trigger] d[i] == 0 by {
                if i < d.len() - 1 {
                    assert(d.drop_last()[i] == d[i]);
                }
            }
        }
        if forall|i: int| 0 <= i < d.len() ==> #[trigger] d[i] == 0 {
            assert forall|i: int| 0 <= i < d.drop_last().len() implies #[trigger] d.drop_last()[i] == 0 by {
                assert(d[i] == 0);
            }
        }
    }
}

fn is_zero(d: &Vec<u8>) -> (zero: bool)
    ensures
        zero == (value(d@) == 0),
{
    proof {
        zeros_value(d@);
    }
    let mut i: usize = 0;
    while i < d.len()
        invariant
            i <= d.len(),
            forall|j: int| 0 <= j < i ==> #[trigger] d@[j] == 0,
            (forall|j: int| 0 <= j < d@.len() ==> #[trigger] d@[j] == 0) <==> value(d@) == 0,
        decreases d.len() - i,
    {
        if d[i] != 0 {
            return false;
        }
        i = i + 1;
    }
    true
}

proof fn scale_bound(num: nat, den: nat, mantissa: nat, scale: nat, rest: nat)
    requires
        den > 0,
        num * pow2(scale) == mantissa * den + rest,
        rest < den,
        mantissa < BINADE,
        10 * num >= den,
    ensures
        scale < 27,
{
    if scale >= 27 {
        lemma2_to64();
        if scale > 27 {
            lemma_pow2_strictly_increases(27, scale);
        }
        let p = pow2(scale);
        assert(p >= 0x800_0000);
        assert(num * p >= num * 0x800_0000) by (nonlinear_arith)
            requires
                p >= 0x800_0000,
        ;
        assert(mantissa * den + rest < 0x80_0000 * den) by (nonlinear_arith)
            requires
                rest < den,
                mantissa + 1 <= 0x80_0000,
        ;
        assert(false);
    }
}

/// The binary32 nearest to `whole` plus the decimal fraction `0.fraction`.
pub fn round_to_binary32(whole: u32, fraction: Vec<u8>) -> (bits: u32)
    requires
        whole < 10_000,
        are_digits(fraction@),
        10 * (whole * ten_to(fraction@.len()) + value(fraction@)) >= ten_to(fraction@.len()),
    ensures
        nearest(
            whole as nat * ten_to(fraction@.len()) + value(fraction@),
            ten_to(fraction@.len()),
            bits as nat,
        ),
{
    let ghost den = ten_to(fraction@.len());
    let ghost num = whole as nat * den + value(fraction@);
    let mut rest: Vec<u8> = fraction;
    let mut mantissa: u32 = whole;
    let mut scale: u32 = 0;
    proof {
        lemma2_to64();
        ten_to_step(fraction@.len());
        value_bound(fraction@);
        assert(num * 1 == num);
    }
    while mantissa < BINADE
        invariant
            den == ten_to(rest@.len()),
            den > 0,
            10 * num >= den,
            are_digits(rest@),
            value(rest@) < den,
            num * pow2(scale as nat) == mantissa as nat * den + value(rest@),
            mantissa < 2 * BINADE,
            scale <= 27,
        decreases 27 - scale,
    {
        proof {
            scale_bound(num, den, mantissa as nat, scale as nat, value(rest@));
        }
        let ghost before = value(rest@);
        let ghost halved = mantissa as nat;
        let carry: u8 = double_fraction(&mut rest);
        mantissa = 2 * mantissa + carry as u32;
        scale = scale + 1;
        proof {
            value_bound(rest@);
            lemma_pow2_adds(1, (scale - 1) as nat);
            lemma2_to64();
            let p = pow2((scale - 1) as nat);
            let after = value(rest@);
            assert(num * (2 * p) == (2 * halved + carry) * den + after) by (nonlinear_arith)
                requires
                    num * p == halved * den + before,
                    after + carry * den == 2 * before,
            ;
        }
    }
    let ghost remainder = value(rest@);
    let carry: u8 = double_fraction(&mut rest);
    let exact_half: bool = is_zero(&rest);
    let up: bool = carry == 1 && (!exact_half || mantissa % 2 == 1);
    proof {
        value_bound(rest@);
        assert(1 * den == den && 0 * den == 0);
        rounded_mantissa_is_nearest(num, den, mantissa as nat, scale as nat, remainder, up);
    }
    let rounded: u32 = if up {
        mantissa + 1
    } else {
        mantissa
    };
    (149 - scale) * BINADE + rounded
}

/// Rounding a decimal fraction finds a finite number that none is closer than.
pub proof fn rounding_is_to_the_closest(whole: u32, fraction: Vec<u8>, bits: u32, other: nat)
    requires
        call_ensures(round_to_binary32, (whole, fraction), bits),
        other < 0x7F80_0000,
    ensures
        ({
            let den = pow(10, fraction@.len());
            let exact = (whole * den + value(fraction@)) * pow2(149);
            let error = exact - units(bits as nat) * den;
            let other_error = exact - units(other) * den;
            let a = if error < 0 {
                -error
            } else {
                error
            };
            let b = if other_error < 0 {
                -other_error
            } else {
                other_error
            };
            a <= b && (a == b && other != bits ==> bits % 2 == 0)
        }),
{
    lemma_pow_positive(10, fraction@.len());
    let den = ten_to(fraction@.len());
    nearest_is_closest(whole as nat * den + value(fraction@), den, bits as nat, other);
}

} // verus!
