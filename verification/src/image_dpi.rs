//! The `image-dpi` parameter of a conversion request.

use crate::binary32::{
    distance, encodings_ordered_as_values, nearest, nearest_exists, nearest_is_closest,
    nearest_is_unique,
    none_nearest_above, none_nearest_below, units, whole_numbers_are_exact, BINADE, FIRST_NON_FINITE,
};
use crate::fraction::{are_digits, round_to_binary32, ten_to, ten_to_step, value, value_bound, value_concat};
use crate::literal::{
    digit_values, foreign_characters_make_no_number, is_letter, is_signed, is_word,
    occurs_in_numbers, read_float, scan_float, signed_numbers_read_back, without_sign,
    written_numbers_read_back, Literal, NumberParts, Reading, Scanned,
};
use crate::text::{decimal, decimal_reads_back, digits_value, is_digit};
use vstd::arithmetic::power::{lemma_pow_adds, lemma_pow_increases, lemma_pow_positive, pow};
use vstd::arithmetic::power2::{lemma2_to64, lemma_pow2_adds, lemma_pow2_pos, pow2};
use vstd::hash_map::StringHashMap;
use vstd::prelude::*;

verus! {

/// Encoding of the smallest accepted resolution, 1.
pub const MIN_IMAGE_DPI: u32 = 0x3F80_0000;

/// Encoding of the largest accepted resolution, 2400.
pub const MAX_IMAGE_DPI: u32 = 0x4516_0000;

/// Encoding of the resolution that applies when a request names none, 220.
pub const DEFAULT_IMAGE_DPI: u32 = 0x435C_0000;

/// Numerator of `digits * 10^exponent`.
pub open spec fn numerator(digits: Seq<char>, exponent: int) -> nat {
    if exponent >= 0 {
        digits_value(digits) * ten_to(exponent as nat)
    } else {
        digits_value(digits)
    }
}

/// Denominator of `digits * 10^exponent`.
pub open spec fn denominator(exponent: int) -> nat {
    if exponent >= 0 {
        1
    } else {
        ten_to((-exponent) as nat)
    }
}

/// `text` is a number, and the binary32 nearest to it is the resolution `bits`,
/// from 1 to 2400.
pub open spec fn denotes_dpi(text: Seq<char>, bits: u32) -> bool {
    &&& MIN_IMAGE_DPI <= bits <= MAX_IMAGE_DPI
    &&& match read_float(text) {
        Some(Literal::Finite { negative, digits, exponent }) => !negative && nearest(
            numerator(digits, exponent),
            denominator(exponent),
            bits as nat,
        ),
        _ => false,
    }
}

/// The text that asks for a resolution: `image-dpi`, or else `image_dpi`.
pub open spec fn requested_dpi(params: Map<Seq<char>, String>) -> Option<Seq<char>> {
    if params.contains_key("image-dpi"@) {
        Some(params["image-dpi"@]@)
    } else if params.contains_key("image_dpi"@) {
        Some(params["image_dpi"@]@)
    } else {
        None
    }
}

pub open spec fn not_a_number_message(raw: Seq<char>) -> Seq<char> {
    "image-dpi: `"@ + raw + "` is not a valid number"@
}

pub open spec fn out_of_range_message(raw: Seq<char>) -> Seq<char> {
    "image-dpi: must be between 1 and 2400 (got `"@ + raw + "`)"@
}

/// Why the resolution that a request asks for is rejected, if it is.
pub open spec fn dpi_rejection(params: Map<Seq<char>, String>) -> Option<Seq<char>> {
    match requested_dpi(params) {
        None => None,
        Some(raw) => if exists|bits: u32| denotes_dpi(raw, bits) {
            None
        } else if read_float(raw) is None {
            Some(not_a_number_message(raw))
        } else {
            Some(out_of_range_message(raw))
        },
    }
}

/// A request is converted at the resolution `bits`.
pub open spec fn dpi_granted(params: Map<Seq<char>, String>, bits: u32) -> bool {
    match requested_dpi(params) {
        None => bits == DEFAULT_IMAGE_DPI,
        Some(raw) => denotes_dpi(raw, bits),
    }
}

/// A resolution for embedded images, from 1 to 2400 pixels per inch.
#[derive(Clone, Copy, Debug, PartialEq, Eq, Structural)]
pub struct ImageDpi {
    bits: u32,
}

impl View for ImageDpi {
    type V = u32;

    closed spec fn view(&self) -> u32 {
        self.bits
    }
}

impl ImageDpi {
    #[verifier::type_invariant]
    spec fn in_range(self) -> bool {
        MIN_IMAGE_DPI <= self.bits <= MAX_IMAGE_DPI
    }

    /// The binary32 encoding of the resolution.
    pub fn bits(&self) -> (bits: u32)
        ensures
            bits == self@,
            MIN_IMAGE_DPI <= bits <= MAX_IMAGE_DPI,
    {
        proof {
            use_type_invariant(self);
        }
        self.bits
    }
}

proof fn values_agree(text: Seq<char>, digits: Seq<u8>)
    requires
        digit_values(text, digits),
    ensures
        digits_value(text) == value(digits),
        are_digits(digits),
    decreases text.len(),
{
    assert forall|i: int| 0 <= i < digits.len() implies #[trigger] digits[i] < 10 by {
        assert(is_digit(text[i]));
    }
    if text.len() > 0 {
        assert forall|i: int| 0 <= i < text.drop_last().len() implies is_digit(
            #[trigger] text.drop_last()[i],
        ) && digits.drop_last()[i] == text.drop_last()[i] as int - '0' as int by {
            assert(is_digit(text[i]));
        }
        values_agree(text.drop_last(), digits.drop_last());
        assert(is_digit(text[text.len() - 1]));
    }
}

proof fn leading_zeros(d: Seq<u8>, zeros: int)
    requires
        0 <= zeros <= d.len(),
        forall|i: int| 0 <= i < zeros ==> #[trigger] d[i] == 0,
    ensures
        value(d.skip(zeros)) == value(d),
    decreases zeros,
{
    if zeros == 0 {
        assert(d.skip(0) =~= d);
    } else {
        leading_zeros(d, zeros - 1);
        let head = seq![0u8];
        assert(d.skip(zeros - 1) =~= head + d.skip(zeros));
        value_concat(head, d.skip(zeros));
        assert(head.drop_last() =~= Seq::<u8>::empty());
        assert(value(head) == 0) by {
            assert(value(head.drop_last()) == 0);
        }
        assert(0 * ten_to(d.skip(zeros).len()) == 0) by (nonlinear_arith);
    }
}

/// A number that does not start with a zero is at least the power of ten of its length.
proof fn value_floor(d: Seq<u8>)
    requires
        d.len() > 0,
        d[0] > 0,
    ensures
        value(d) >= ten_to((d.len() - 1) as nat),
{
    let head = seq![d[0]];
    let tail = d.skip(1);
    assert(d =~= head + tail);
    value_concat(head, tail);
    assert(head.drop_last() =~= Seq::<u8>::empty());
    assert(value(head) == d[0]) by {
        assert(value(head.drop_last()) == 0);
    }
    let p = ten_to(tail.len());
    assert(d[0] as nat * p >= p) by (nonlinear_arith)
        requires
            d[0] >= 1,
    ;
}

proof fn ten_to_adds(a: nat, b: nat)
    ensures
        ten_to(a + b) == ten_to(a) * ten_to(b),
{
    lemma_pow_adds(10, a, b);
    lemma_pow_positive(10, a);
    lemma_pow_positive(10, b);
    lemma_pow_positive(10, a + b);
}

proof fn ten_to_grows(a: nat, b: nat)
    requires
        a <= b,
    ensures
        ten_to(a) <= ten_to(b),
{
    lemma_pow_increases(10, a, b);
    lemma_pow_positive(10, a);
    lemma_pow_positive(10, b);
}

proof fn small_powers_of_ten()
    ensures
        ten_to(0) == 1,
        ten_to(1) == 10,
        ten_to(2) == 100,
        ten_to(3) == 1000,
        ten_to(4) == 10_000,
{
    ten_to_step(0);
    ten_to_step(1);
    ten_to_step(2);
    ten_to_step(3);
}

/// Numbers of 10000 and more are nearest to no accepted resolution.
proof fn too_large(num: nat, den: nat)
    requires
        den > 0,
        num >= 10_000 * den,
    ensures
        forall|bits: nat| bits <= MAX_IMAGE_DPI ==> !#[trigger] nearest(num, den, bits),
{
    let bound = (MAX_IMAGE_DPI + 1) as nat;
    lemma2_to64();
    lemma_pow2_adds(12, 137);
    let p = pow2(137);
    assert(bound / (BINADE as nat) == 138 && bound % (BINADE as nat) == 0x16_0001);
    assert(units(bound) == 0x96_0001 * p);
    assert(units(bound) * den <= num * (4096 * p)) by (nonlinear_arith)
        requires
            units(bound) == 0x96_0001 * p,
            num >= 10_000 * den,
    ;
    none_nearest_below(num, den, bound);
}

/// Numbers below one tenth are nearest to no accepted resolution.
proof fn too_small(num: nat, den: nat)
    requires
        den > 0,
        10 * num < den,
    ensures
        forall|bits: nat| bits >= MIN_IMAGE_DPI ==> !#[trigger] nearest(num, den, bits),
{
    let bound = (MIN_IMAGE_DPI - 1) as nat;
    lemma2_to64();
    lemma_pow2_adds(24, 125);
    let p = pow2(125);
    assert(bound / (BINADE as nat) == 126 && bound % (BINADE as nat) == 0x7F_FFFF);
    assert(units(bound) == 0xFF_FFFF * p);
    assert(num * (0x100_0000 * p) <= units(bound) * den) by (nonlinear_arith)
        requires
            units(bound) == 0xFF_FFFF * p,
            10 * num < den,
    ;
    none_nearest_above(num, den, bound);
}

/// Rounds what was read, where the result is an accepted resolution.
fn round_scanned(scanned: &Scanned, Ghost(text): Ghost<Seq<char>>, Ghost(exponent): Ghost<int>) -> (dpi: Option<
    ImageDpi,
>)
    requires
        scanned.reads(scanned.negative, text, exponent),
    ensures
        dpi matches Some(d) ==> MIN_IMAGE_DPI <= d@ <= MAX_IMAGE_DPI && nearest(
            numerator(text, exponent),
            denominator(exponent),
            d@ as nat,
        ),
        dpi is None ==> forall|bits: nat|
            MIN_IMAGE_DPI <= bits <= MAX_IMAGE_DPI ==> !#[trigger] nearest(
                numerator(text, exponent),
                denominator(exponent),
                bits,
            ),
{
    let ghost num = numerator(text, exponent);
    let ghost den = denominator(exponent);
    let digits: &Vec<u8> = &scanned.digits;
    let len: usize = digits.len();
    proof {
        values_agree(text, digits@);
        small_powers_of_ten();
        if exponent < 0 {
            ten_to_step((-exponent) as nat);
        }
    }
    let mut first: usize = 0;
    while first < len && digits[first] == 0
        invariant
            first <= len,
            len == digits@.len(),
            forall|i: int| 0 <= i < first ==> #[trigger] digits@[i] == 0,
        decreases len - first,
    {
        first = first + 1;
    }
    let ghost sig = digits@.skip(first as int);
    proof {
        leading_zeros(digits@, first as int);
        assert(are_digits(sig)) by {
            assert forall|i: int| 0 <= i < sig.len() implies #[trigger] sig[i] < 10 by {
                assert(sig[i] == digits@[first + i]);
            }
        }
    }
    if first == len {
        proof {
            assert(sig =~= Seq::<u8>::empty());
            assert(0 * ten_to(exponent as nat) == 0) by (nonlinear_arith);
            too_small(num, den);
        }
        return None;
    }
    proof {
        value_floor(sig);
        value_bound(sig);
    }
    let significant: usize = len - first;
    // Place of the decimal point, counted from the first significant digit.
    let point: i128 = significant as i128 + scanned.stated_exponent - scanned.fraction_len as i128;
    let ghost exact_point = significant + exponent;
    if point > 4 {
        proof {
            assert(exact_point > 4);
            if exponent >= 0 {
                ten_to_adds((significant - 1) as nat, exponent as nat);
                ten_to_grows(4, (exact_point - 1) as nat);
                let a = ten_to((significant - 1) as nat);
                let b = ten_to(exponent as nat);
                assert(value(sig) * b >= a * b) by (nonlinear_arith)
                    requires
                        value(sig) >= a,
                ;
            } else {
                ten_to_adds((exact_point - 1) as nat, (-exponent) as nat);
                ten_to_grows(4, (exact_point - 1) as nat);
                let a = ten_to((exact_point - 1) as nat);
                assert(a * den >= 10_000 * den) by (nonlinear_arith)
                    requires
                        a >= 10_000,
                ;
            }
            too_large(num, den);
        }
        return None;
    }
    if point < 0 {
        proof {
            assert(exact_point < 0);
            ten_to_grows(significant as nat + 1, (-exponent) as nat);
            ten_to_step(significant as nat);
            too_small(num, den);
        }
        return None;
    }
    assert(scanned.stated_exponent == exponent + scanned.fraction_len);
    let places: usize = point as usize;
    let mut whole: u32 = 0;
    let mut i: usize = 0;
    proof {
        assert(sig.take(0) =~= Seq::<u8>::empty());
    }
    while i < places
        invariant
            places <= 4,
            i <= places,
            len == digits@.len(),
            first <= len,
            significant == len - first,
            sig == digits@.skip(first as int),
            are_digits(sig),
            whole < ten_to(i as nat),
            i <= significant ==> whole == value(sig.take(i as int)),
            i > significant ==> whole == value(sig) * ten_to((i - significant) as nat),
        decreases places - i,
    {
        proof {
            small_powers_of_ten();
            assert(sig.take(significant as int) =~= sig);
            ten_to_step(i as nat);
        }
        if i < significant {
            let d: u8 = digits[first + i];
            assert(sig[i as int] == d);
            whole = whole * 10 + d as u32;
            proof {
                assert(sig.take(i + 1).drop_last() =~= sig.take(i as int));
            }
        } else {
            proof {
                ten_to_step((i - significant) as nat);
                let p = ten_to((i - significant) as nat);
                assert((value(sig) * p) * 10 == value(sig) * (10 * p)) by (nonlinear_arith);
                if i == significant {
                    assert(value(sig) * 1 == value(sig));
                }
            }
            whole = whole * 10;
        }
        i = i + 1;
    }
    let mut rest: Vec<u8> = Vec::new();
    let mut at: usize = places;
    while at < significant
        invariant
            len == digits@.len(),
            first <= len,
            significant == len - first,
            sig == digits@.skip(first as int),
            are_digits(sig),
            places <= significant ==> places <= at <= significant,
            places > significant ==> at == places,
            rest@.len() == at - places,
            forall|j: int| 0 <= j < rest@.len() ==> #[trigger] rest@[j] == sig[places + j],
        decreases significant - at,
    {
        rest.push(digits[first + at]);
        at = at + 1;
    }
    proof {
        assert(are_digits(rest@)) by {
            assert forall|j: int| 0 <= j < rest@.len() implies #[trigger] rest@[j] < 10 by {
                assert(rest@[j] == sig[places + j]);
            }
        }
        assert(sig.take(significant as int) =~= sig);
        if exponent >= 0 {
            assert(rest@ =~= Seq::<u8>::empty());
            assert(value(sig) * 1 == value(sig));
            assert(places - significant == exponent);
            assert(whole == num);
            let b = ten_to(exponent as nat);
            ten_to_step(exponent as nat);
            assert(value(sig) * b >= 1) by (nonlinear_arith)
                requires
                    value(sig) >= 1,
                    b >= 1,
            ;
            ten_to_grows(0, (significant - 1) as nat);
        } else {
            assert(rest@ =~= sig.skip(places as int));
            assert(sig =~= sig.take(places as int) + rest@);
            value_concat(sig.take(places as int), rest@);
            assert(rest@.len() == -exponent);
            // num >= 10^(significant - 1) and den == 10^(significant - places)
            ten_to_grows((significant - places) as nat, significant as nat);
            ten_to_step((significant - 1) as nat);
        }
        small_powers_of_ten();
        if places < 4 {
            ten_to_grows(places as nat, 4);
        }
    }
    let bits: u32 = round_to_binary32(whole, rest);
    if MIN_IMAGE_DPI <= bits && bits <= MAX_IMAGE_DPI {
        Some(ImageDpi { bits })
    } else {
        proof {
            assert forall|other: nat|
                MIN_IMAGE_DPI <= other <= MAX_IMAGE_DPI implies !#[trigger] nearest(num, den, other) by {
                if nearest(num, den, other) {
                    nearest_is_unique(num, den, other, bits as nat);
                }
            }
        }
        None
    }
}

/// Reads one requested resolution.
fn read_dpi(raw: &str) -> (dpi: Result<ImageDpi, String>)
    ensures
        dpi matches Ok(d) ==> denotes_dpi(raw@, d@),
        dpi matches Err(message) ==> {
            &&& forall|bits: u32| !denotes_dpi(raw@, bits)
            &&& message@ == if read_float(raw@) is None {
                not_a_number_message(raw@)
            } else {
                out_of_range_message(raw@)
            }
        },
{
    match scan_float(raw) {
        Reading::NotANumber => {
            return Err(String::from_str("image-dpi: `").concat(raw).concat("` is not a valid number"));
        },
        Reading::NotFinite => {},
        Reading::Finite(scanned) => {
            if !scanned.negative {
                let ghost literal = read_float(raw@)->0;
                if let Some(dpi) = round_scanned(
                    &scanned,
                    Ghost(literal->digits),
                    Ghost(literal->exponent),
                ) {
                    return Ok(dpi);
                }
                proof {
                    assert forall|bits: u32| !denotes_dpi(raw@, bits) by {
                        let _ = nearest(
                            numerator(literal->digits, literal->exponent),
                            denominator(literal->exponent),
                            bits as nat,
                        );
                    }
                }
            }
        },
    }
    Err(String::from_str("image-dpi: must be between 1 and 2400 (got `").concat(raw).concat("`)"))
}

/// The resolution that a request asks for in `image-dpi` (`image_dpi` is
/// accepted too), 220 where it names none. Text that is not a number, and
/// numbers outside 1 to 2400, are rejected with a message, never clamped.
pub fn parse_image_dpi(params: &StringHashMap<String>) -> (dpi: Result<ImageDpi, String>)
    ensures
        match dpi {
            Ok(d) => dpi_rejection(params@) is None && dpi_granted(params@, d@),
            Err(message) => dpi_rejection(params@) == Some(message@),
        },
{
    match params.get("image-dpi") {
        Some(raw) => read_dpi(raw.as_str()),
        None => match params.get("image_dpi") {
            Some(raw) => read_dpi(raw.as_str()),
            None => Ok(ImageDpi { bits: DEFAULT_IMAGE_DPI }),
        },
    }
}

/// A request is converted at one resolution or rejected with one message,
/// never both and never neither.
pub proof fn dpi_granted_or_rejected(params: Map<Seq<char>, String>)
    ensures
        dpi_rejection(params) is None <==> exists|bits: u32| dpi_granted(params, bits),
        forall|a: u32, b: u32|
            #[trigger] dpi_granted(params, a) && #[trigger] dpi_granted(params, b) ==> a == b,
{
    match requested_dpi(params) {
        None => {
            assert(dpi_granted(params, DEFAULT_IMAGE_DPI));
        },
        Some(raw) => {
            if exists|bits: u32| denotes_dpi(raw, bits) {
                let bits = choose|bits: u32| denotes_dpi(raw, bits);
                assert(dpi_granted(params, bits));
            }
            assert forall|a: u32, b: u32| #[trigger]
                dpi_granted(params, a) && #[trigger] dpi_granted(params, b) implies a == b by {
                denoted_dpi_is_unique(raw, a, b);
            }
        },
    }
}

/// A text denotes at most one resolution.
pub proof fn denoted_dpi_is_unique(text: Seq<char>, a: u32, b: u32)
    requires
        denotes_dpi(text, a),
        denotes_dpi(text, b),
    ensures
        a == b,
{
    let literal = read_float(text)->0;
    let exponent = literal->exponent;
    if exponent < 0 {
        ten_to_step((-exponent) as nat);
    }
    nearest_is_unique(
        numerator(literal->digits, exponent),
        denominator(exponent),
        a as nat,
        b as nat,
    );
}

/// The limits and the default are the numbers 1, 2400 and 220.
pub proof fn limits_are_exact()
    ensures
        units(MIN_IMAGE_DPI as nat) == 1 * pow2(149),
        units(MAX_IMAGE_DPI as nat) == 2400 * pow2(149),
        units(DEFAULT_IMAGE_DPI as nat) == 220 * pow2(149),
{
    lemma2_to64();
    lemma_pow2_adds(23, 126);
    lemma_pow2_adds(12, 137);
    lemma_pow2_adds(16, 133);
    assert(units(MIN_IMAGE_DPI as nat) == 0x80_0000 * pow2(126));
    assert(units(MAX_IMAGE_DPI as nat) == 0x96_0000 * pow2(137));
    assert(units(DEFAULT_IMAGE_DPI as nat) == 0xDC_0000 * pow2(133));
}

/// The encodings next to the limits are those of `1 - 2^-24` and `2400 + 2^-12`.
proof fn limits_in_units()
    ensures
        pow2(149) == 0x200_0000 * pow2(124),
        pow2(149) == 0x2000 * pow2(136),
        pow2(124) > 0,
        pow2(136) > 0,
        units((MIN_IMAGE_DPI - 1) as nat) == 0x1FF_FFFE * pow2(124),
        units(MIN_IMAGE_DPI as nat) == 0x200_0000 * pow2(124),
        units(MAX_IMAGE_DPI as nat) == 0x12C_0000 * pow2(136),
        units((MAX_IMAGE_DPI + 1) as nat) == 0x12C_0002 * pow2(136),
{
    lemma2_to64();
    lemma_pow2_adds(25, 124);
    lemma_pow2_adds(13, 136);
    lemma_pow2_pos(124);
    lemma_pow2_pos(136);
    lemma_pow2_adds(1, 124);
    lemma_pow2_adds(2, 124);
    lemma_pow2_adds(1, 136);
    assert(units((MIN_IMAGE_DPI - 1) as nat) == 0xFF_FFFF * pow2(125));
    assert(units(MIN_IMAGE_DPI as nat) == 0x80_0000 * pow2(126));
    assert(units(MAX_IMAGE_DPI as nat) == 0x96_0000 * pow2(137));
    assert(units((MAX_IMAGE_DPI + 1) as nat) == 0x96_0001 * pow2(137));
}

/// Just below 1, a number rounds to 1 or to less, as it is above or below `1 - 2^-25`.
proof fn rounds_to_lower_limit(num: nat, den: nat)
    requires
        den > 0,
        num < den,
    ensures
        0x200_0000 * num >= 0x1FF_FFFF * den ==> nearest(num, den, MIN_IMAGE_DPI as nat),
        0x200_0000 * num < 0x1FF_FFFF * den ==> forall|bits: nat|
            bits >= MIN_IMAGE_DPI ==> !#[trigger] nearest(num, den, bits),
{
    limits_in_units();
    let p = pow2(124);
    let low = (MIN_IMAGE_DPI - 1) as nat;
    let limit = MIN_IMAGE_DPI as nat;
    let exact = num * pow2(149);
    let n = num * p;
    let d = den * p;
    assert(exact == 0x200_0000 * n) by (nonlinear_arith)
        requires
            exact == num * (0x200_0000 * p),
            n == num * p,
    ;
    assert(units(low) * den == 0x1FF_FFFE * d && units(limit) * den == 0x200_0000 * d)
        by (nonlinear_arith)
        requires
            units(low) == 0x1FF_FFFE * p,
            units(limit) == 0x200_0000 * p,
            d == den * p,
    ;
    assert(n < d) by (nonlinear_arith)
        requires
            num < den,
            p > 0,
            n == num * p,
            d == den * p,
    ;
    if 0x200_0000 * num >= 0x1FF_FFFF * den {
        assert(0x200_0000 * n >= 0x1FF_FFFF * d) by (nonlinear_arith)
            requires
                0x200_0000 * num >= 0x1FF_FFFF * den,
                n == num * p,
                d == den * p,
        ;
        assert forall|other: nat|
            #![trigger units(other)]
            other < FIRST_NON_FINITE && other != limit implies distance(num, den, limit) <= distance(
            num,
            den,
            other,
        ) by {
            if other < limit {
                if other < low {
                    encodings_ordered_as_values(other, low);
                }
                assert(units(other) * den <= units(low) * den) by (nonlinear_arith)
                    requires
                        units(other) <= units(low),
                ;
            } else {
                encodings_ordered_as_values(limit, other);
                assert(units(limit) * den <= units(other) * den) by (nonlinear_arith)
                    requires
                        units(limit) <= units(other),
                ;
            }
        }
    } else {
        assert(0x200_0000 * n < 0x1FF_FFFF * d) by (nonlinear_arith)
            requires
                0x200_0000 * num < 0x1FF_FFFF * den,
                p > 0,
                n == num * p,
                d == den * p,
        ;
        assert forall|bits: nat| bits >= limit implies !#[trigger] nearest(num, den, bits) by {
            if bits > limit {
                encodings_ordered_as_values(limit, bits);
            }
            assert(units(limit) * den <= units(bits) * den) by (nonlinear_arith)
                requires
                    units(limit) <= units(bits),
            ;
            assert(distance(num, den, low) < distance(num, den, bits));
        }
    }
}

/// Just above 2400, a number rounds to 2400 or to more, as it is below or above `2400 + 2^-13`.
proof fn rounds_to_upper_limit(num: nat, den: nat)
    requires
        den > 0,
        num > 2400 * den,
    ensures
        0x2000 * num <= 0x12C_0001 * den ==> nearest(num, den, MAX_IMAGE_DPI as nat),
        0x2000 * num > 0x12C_0001 * den ==> forall|bits: nat|
            bits <= MAX_IMAGE_DPI ==> !#[trigger] nearest(num, den, bits),
{
    limits_in_units();
    let p = pow2(136);
    let high = (MAX_IMAGE_DPI + 1) as nat;
    let limit = MAX_IMAGE_DPI as nat;
    let exact = num * pow2(149);
    let n = num * p;
    let d = den * p;
    assert(exact == 0x2000 * n) by (nonlinear_arith)
        requires
            exact == num * (0x2000 * p),
            n == num * p,
    ;
    assert(units(high) * den == 0x12C_0002 * d && units(limit) * den == 0x12C_0000 * d)
        by (nonlinear_arith)
        requires
            units(high) == 0x12C_0002 * p,
            units(limit) == 0x12C_0000 * p,
            d == den * p,
    ;
    assert(0x2000 * n > 0x12C_0000 * d && d > 0) by (nonlinear_arith)
        requires
            num > 2400 * den,
            den > 0,
            p > 0,
            n == num * p,
            d == den * p,
    ;
    if 0x2000 * num <= 0x12C_0001 * den {
        assert(0x2000 * n <= 0x12C_0001 * d) by (nonlinear_arith)
            requires
                0x2000 * num <= 0x12C_0001 * den,
                n == num * p,
                d == den * p,
        ;
        assert forall|other: nat|
            #![trigger units(other)]
            other < FIRST_NON_FINITE && other != limit implies distance(num, den, limit) <= distance(
            num,
            den,
            other,
        ) by {
            if other > limit {
                if other > high {
                    encodings_ordered_as_values(high, other);
                }
                assert(units(other) * den >= units(high) * den) by (nonlinear_arith)
                    requires
                        units(other) >= units(high),
                ;
            } else {
                encodings_ordered_as_values(other, limit);
                assert(units(limit) * den >= units(other) * den) by (nonlinear_arith)
                    requires
                        units(limit) >= units(other),
                ;
            }
        }
    } else {
        assert(0x2000 * n > 0x12C_0001 * d) by (nonlinear_arith)
            requires
                0x2000 * num > 0x12C_0001 * den,
                p > 0,
                n == num * p,
                d == den * p,
        ;
        assert forall|bits: nat| bits <= limit implies !#[trigger] nearest(num, den, bits) by {
            if bits < limit {
                encodings_ordered_as_values(bits, limit);
            }
            assert(units(limit) * den >= units(bits) * den) by (nonlinear_arith)
                requires
                    units(limit) >= units(bits),
            ;
            assert(distance(num, den, high) < distance(num, den, bits));
        }
    }
}

/// A number is accepted exactly if it is not negative and lies between 1 and
/// 2400, give or take half a step of rounding: from `1 - 2^-25` to
/// `2400 + 2^-13`, both included.
pub proof fn accepted_range(text: Seq<char>, negative: bool, digits: Seq<char>, exponent: int)
    requires
        read_float(text) == Some(Literal::Finite { negative, digits, exponent }),
    ensures
        (exists|bits: u32| denotes_dpi(text, bits)) <==> !negative && 0x1FF_FFFF * denominator(
            exponent,
        ) <= 0x200_0000 * numerator(digits, exponent) && 0x2000 * numerator(digits, exponent)
            <= 0x12C_0001 * denominator(exponent),
{
    let num = numerator(digits, exponent);
    let den = denominator(exponent);
    if exponent < 0 {
        ten_to_step((-exponent) as nat);
    }
    if num < den {
        rounds_to_lower_limit(num, den);
        if !negative && 0x200_0000 * num >= 0x1FF_FFFF * den {
            assert(denotes_dpi(text, MIN_IMAGE_DPI));
        }
    } else if num > 2400 * den {
        rounds_to_upper_limit(num, den);
        if !negative && 0x2000 * num <= 0x12C_0001 * den {
            assert(denotes_dpi(text, MAX_IMAGE_DPI));
        }
    } else {
        let bits = nearest_exists(num, den);
        limits_are_exact();
        assert(units(MIN_IMAGE_DPI as nat) * den <= num * pow2(149)) by (nonlinear_arith)
            requires
                units(MIN_IMAGE_DPI as nat) == 1 * pow2(149),
                den <= num,
        ;
        assert(num * pow2(149) <= units(MAX_IMAGE_DPI as nat) * den) by (nonlinear_arith)
            requires
                units(MAX_IMAGE_DPI as nat) == 2400 * pow2(149),
                num <= 2400 * den,
        ;
        none_nearest_below(num, den, MIN_IMAGE_DPI as nat);
        none_nearest_above(num, den, MAX_IMAGE_DPI as nat);
        if !negative {
            assert(denotes_dpi(text, bits as u32));
        }
    }
}

/// Every whole number from 1 to 2400 is accepted, and taken as exactly that number.
pub proof fn whole_dpi_is_taken_exactly(n: nat) -> (bits: u32)
    requires
        1 <= n <= 2400,
    ensures
        denotes_dpi(decimal(n), bits),
        units(bits as nat) == n * pow2(149),
{
    let text = decimal(n);
    decimal_reads_back(n);
    let parts = NumberParts { whole: text, fraction: None, exponent: None };
    assert(parts.text() =~= text);
    written_numbers_read_back(parts);
    assert(parts.whole + parts.fraction_digits() =~= text);
    assert(is_digit(text[0]));
    reveal_strlit("inf");
    reveal_strlit("infinity");
    reveal_strlit("nan");
    assert(!is_word(text, "inf"@) && !is_word(text, "infinity"@) && !is_word(text, "nan"@)) by {
        assert(!is_letter(text[0], 'i') && !is_letter(text[0], 'n'));
    }
    assert(without_sign(text) == text);
    assert(read_float(text) == Some(
        Literal::Finite { negative: false, digits: text, exponent: 0 },
    ));
    ten_to_step(0);
    assert(n * ten_to(0) == n) by (nonlinear_arith)
        requires
            ten_to(0) == 1,
    ;
    assert(numerator(text, 0) == n);
    let bits = whole_numbers_are_exact(n);
    limits_are_exact();
    assert(units(MIN_IMAGE_DPI as nat) * 1 <= n * pow2(149) <= units(MAX_IMAGE_DPI as nat) * 1)
        by (nonlinear_arith)
        requires
            units(MIN_IMAGE_DPI as nat) == 1 * pow2(149),
            units(MAX_IMAGE_DPI as nat) == 2400 * pow2(149),
            1 <= n <= 2400,
    ;
    none_nearest_below(n, 1, MIN_IMAGE_DPI as nat);
    none_nearest_above(n, 1, MAX_IMAGE_DPI as nat);
    bits as u32
}

/// A request is judged by the text of `image-dpi`, or without it by that of
/// `image_dpi`: it is granted the resolution that this text denotes, and rejected,
/// with the text in the message, exactly if it denotes none. A request with
/// neither is granted 220.
pub proof fn both_spellings_are_read(params: &StringHashMap<String>, dpi: Result<ImageDpi, String>)
    requires
        call_ensures(parse_image_dpi, (params,), dpi),
    ensures
        forall|key: Seq<char>|
            (key == "image-dpi"@ || (key == "image_dpi"@ && !params@.contains_key("image-dpi"@)))
                && #[trigger] params@.contains_key(key) ==> {
                let text = params@[key]@;
                &&& dpi is Ok <==> exists|bits: u32| denotes_dpi(text, bits)
                &&& dpi matches Ok(d) ==> forall|bits: u32|
                    #[trigger] denotes_dpi(text, bits) <==> bits == d@
                &&& dpi matches Err(message) ==> message@ == if read_float(text) is None {
                    "image-dpi: `"@ + text + "` is not a valid number"@
                } else {
                    "image-dpi: must be between 1 and 2400 (got `"@ + text + "`)"@
                }
            },
        !params@.contains_key("image-dpi"@) && !params@.contains_key("image_dpi"@) ==> (dpi matches Ok(
            d,
        ) && d@ == 0x435C_0000 && units(d@ as nat) == 220 * pow2(149)),
{
    limits_are_exact();
    spellings_differ();
    assert forall|key: Seq<char>|
        (key == "image-dpi"@ || (key == "image_dpi"@ && !params@.contains_key("image-dpi"@)))
            && #[trigger] params@.contains_key(key) implies {
        let text = params@[key]@;
        &&& dpi is Ok <==> exists|bits: u32| denotes_dpi(text, bits)
        &&& dpi matches Ok(d) ==> forall|bits: u32|
            #[trigger] denotes_dpi(text, bits) <==> bits == d@
        &&& dpi matches Err(message) ==> message@ == if read_float(text) is None {
            "image-dpi: `"@ + text + "` is not a valid number"@
        } else {
            "image-dpi: must be between 1 and 2400 (got `"@ + text + "`)"@
        }
    } by {
        let text = params@[key]@;
        assert(requested_dpi(params@) == Some(text));
        if let Ok(d) = dpi {
            assert(denotes_dpi(text, d@));
            assert forall|bits: u32| #[trigger] denotes_dpi(text, bits) implies bits == d@ by {
                denoted_dpi_is_unique(text, bits, d@);
            }
        }
    }
}

proof fn spellings_differ()
    ensures
        "image-dpi"@ != "image_dpi"@,
{
    reveal_strlit("image-dpi");
    reveal_strlit("image_dpi");
    assert("image-dpi"@[5] == '-' && "image_dpi"@[5] == '_');
}

/// Two requests that ask for a resolution in the same words, in whichever
/// spelling, are answered alike.
pub proof fn same_words_same_resolution(
    a: &StringHashMap<String>,
    b: &StringHashMap<String>,
    key: Seq<char>,
    other_key: Seq<char>,
    first: Result<ImageDpi, String>,
    second: Result<ImageDpi, String>,
)
    requires
        call_ensures(parse_image_dpi, (a,), first),
        call_ensures(parse_image_dpi, (b,), second),
        key == "image-dpi"@ || (key == "image_dpi"@ && !a@.contains_key("image-dpi"@)),
        other_key == "image-dpi"@ || (other_key == "image_dpi"@ && !b@.contains_key("image-dpi"@)),
        a@.contains_key(key),
        b@.contains_key(other_key),
        a@[key]@ == b@[other_key]@,
    ensures
        first is Ok <==> second is Ok,
        first is Ok ==> first->Ok_0@ == second->Ok_0@,
        first is Err ==> first->Err_0@ == second->Err_0@,
{
    both_spellings_are_read(a, first);
    both_spellings_are_read(b, second);
    if first is Ok {
        assert(denotes_dpi(a@[key]@, first->Ok_0@));
    }
}

/// A number, written with or without a sign, a fraction and an exponent, is
/// granted exactly if it is not negative and lies between 1 and 2400, give or
/// take half a step of rounding. The resolution is then a binary32 that none is
/// closer than, and of two as close the even one; a number that is not granted
/// is out of range.
pub proof fn requested_number_is_rounded(
    params: &StringHashMap<String>,
    key: Seq<char>,
    sign: Option<char>,
    parts: NumberParts,
    dpi: Result<ImageDpi, String>,
    num: int,
    den: int,
    other: nat,
)
    requires
        call_ensures(parse_image_dpi, (params,), dpi),
        key == "image-dpi"@ || (key == "image_dpi"@ && !params@.contains_key("image-dpi"@)),
        params@.contains_key(key),
        parts.well_formed(),
        is_signed(params@[key]@, sign, parts.text()),
        num == digits_value(parts.whole + parts.fraction_digits()) * if parts.power() > 0 {
            pow(10, parts.power() as nat)
        } else {
            1
        },
        den == if parts.power() < 0 {
            pow(10, (-parts.power()) as nat)
        } else {
            1
        },
        other < 0x7F80_0000,
    ensures
        dpi is Ok <==> sign != Some('-') && 0x1FF_FFFF * den <= 0x200_0000 * num && 0x2000 * num
            <= 0x12C_0001 * den,
        dpi matches Ok(d) ==> {
            let error = num * pow2(149) - units(d@ as nat) * den;
            let other_error = num * pow2(149) - units(other) * den;
            let a = if error < 0 {
                -error
            } else {
                error
            };
            let b = if other_error < 0 {
                -other_error
            } else {
                other_error
            };
            &&& 0x3F80_0000 <= d@ <= 0x4516_0000
            &&& a <= b
            &&& a == b && other != d@ ==> d@ % 2 == 0
        },
        dpi matches Err(message) ==> message@ == "image-dpi: must be between 1 and 2400 (got `"@
            + params@[key]@ + "`)"@,
{
    let text = params@[key]@;
    let digits = parts.whole + parts.fraction_digits();
    let exponent = parts.power();
    both_spellings_are_read(params, dpi);
    signed_numbers_read_back(text, sign, parts);
    accepted_range(text, sign == Some('-'), digits, exponent);
    ten_to_step(0);
    if exponent > 0 {
        lemma_pow_positive(10, exponent as nat);
    } else if exponent < 0 {
        lemma_pow_positive(10, (-exponent) as nat);
    } else {
        assert(digits_value(digits) * ten_to(0) == digits_value(digits)) by (nonlinear_arith)
            requires
                ten_to(0) == 1,
        ;
    }
    assert(numerator(digits, exponent) == num);
    assert(denominator(exponent) == den);
    if let Ok(d) = dpi {
        assert(denotes_dpi(text, d@));
        nearest_is_closest(num as nat, den as nat, d@ as nat, other);
    }
}

/// Infinities and what is no number, in letters of either case and with or
/// without a sign, are out of range.
pub proof fn requested_words_are_out_of_range(
    params: &StringHashMap<String>,
    key: Seq<char>,
    dpi: Result<ImageDpi, String>,
)
    requires
        call_ensures(parse_image_dpi, (params,), dpi),
        key == "image-dpi"@ || (key == "image_dpi"@ && !params@.contains_key("image-dpi"@)),
        params@.contains_key(key),
        read_float(params@[key]@) == Some(Literal::NotFinite),
    ensures
        dpi matches Err(message) && message@ == "image-dpi: must be between 1 and 2400 (got `"@
            + params@[key]@ + "`)"@,
{
    both_spellings_are_read(params, dpi);
}

/// Text that is no number is rejected as such, and so is any text with a
/// character in it that no number has.
pub proof fn requested_nonsense_is_rejected(
    params: &StringHashMap<String>,
    key: Seq<char>,
    dpi: Result<ImageDpi, String>,
)
    requires
        call_ensures(parse_image_dpi, (params,), dpi),
        key == "image-dpi"@ || (key == "image_dpi"@ && !params@.contains_key("image-dpi"@)),
        params@.contains_key(key),
        read_float(params@[key]@) is None || exists|i: int|
            0 <= i < params@[key]@.len() && !#[trigger] occurs_in_numbers(params@[key]@[i]),
    ensures
        dpi matches Err(message) && message@ == "image-dpi: `"@ + params@[key]@
            + "` is not a valid number"@,
{
    let text = params@[key]@;
    if exists|i: int| 0 <= i < text.len() && !#[trigger] occurs_in_numbers(text[i]) {
        let i = choose|i: int| 0 <= i < text.len() && !#[trigger] occurs_in_numbers(text[i]);
        foreign_characters_make_no_number(text, i);
    }
    both_spellings_are_read(params, dpi);
}

/// Every whole number from 1 to 2400 is granted as exactly that number, under
/// either spelling.
pub proof fn whole_numbers_are_granted(
    params: &StringHashMap<String>,
    key: Seq<char>,
    n: nat,
    dpi: Result<ImageDpi, String>,
)
    requires
        call_ensures(parse_image_dpi, (params,), dpi),
        key == "image-dpi"@ || (key == "image_dpi"@ && !params@.contains_key("image-dpi"@)),
        params@.contains_key(key),
        params@[key]@ == decimal(n),
        1 <= n <= 2400,
    ensures
        dpi matches Ok(d) && units(d@ as nat) == n * pow2(149),
{
    let bits = whole_dpi_is_taken_exactly(n);
    both_spellings_are_read(params, dpi);
}

/// A granted resolution is handed on as it was granted, and lies from 1 to 2400.
pub proof fn resolution_is_handed_on(dpi: &ImageDpi, bits: u32)
    requires
        call_ensures(ImageDpi::bits, (dpi,), bits),
    ensures
        bits == dpi@,
        0x3F80_0000 <= bits <= 0x4516_0000,
{
}

} // verus!
