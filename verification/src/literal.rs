//! The text of floating-point numbers.
//!
//! ```text
//! Float  ::= Sign? ( 'inf' | 'infinity' | 'nan' | Number )
//! Number ::= ( Digit+ | Digit+ '.' Digit* | Digit* '.' Digit+ ) Exp?
//! Exp    ::= 'e' Sign? Digit+
//! ```
//!
//! Letters may be in either case.

use crate::text::{all_digits, chars_of, digits_value, is_digit};
use vstd::prelude::*;

verus! {

/// What a piece of text denotes as a floating-point number.
pub enum Literal {
    /// An infinity or a NaN.
    NotFinite,
    /// The number `digits * 10^exponent`, negated if `negative`.
    Finite { negative: bool, digits: Seq<char>, exponent: int },
}

/// End of the longest run of digits that starts at `from`.
pub open spec fn digit_run(s: Seq<char>, from: int) -> int
    decreases s.len() - from,
{
    if 0 <= from < s.len() && is_digit(s[from]) {
        digit_run(s, from + 1)
    } else {
        from
    }
}

pub open spec fn is_sign(c: char) -> bool {
    c == '+' || c == '-'
}

pub open spec fn has_minus(s: Seq<char>) -> bool {
    s.len() > 0 && s[0] == '-'
}

/// `s` without the sign that it may start with.
pub open spec fn without_sign(s: Seq<char>) -> Seq<char> {
    if s.len() > 0 && is_sign(s[0]) {
        s.skip(1)
    } else {
        s
    }
}

/// `Exp?`: the power of ten that the tail of a number asks for.
pub open spec fn read_exponent(s: Seq<char>) -> Option<int> {
    if s.len() == 0 {
        Some(0)
    } else if s[0] == 'e' || s[0] == 'E' {
        let magnitude = without_sign(s.skip(1));
        if magnitude.len() > 0 && all_digits(magnitude) {
            Some(
                if has_minus(s.skip(1)) {
                    -(digits_value(magnitude) as int)
                } else {
                    digits_value(magnitude) as int
                },
            )
        } else {
            None
        }
    } else {
        None
    }
}

/// `Number`: its digits, and the power of ten that scales them.
pub open spec fn read_number(s: Seq<char>) -> Option<(Seq<char>, int)> {
    let whole_end = digit_run(s, 0);
    let has_point = whole_end < s.len() && s[whole_end] == '.';
    let fraction_start = if has_point {
        whole_end + 1
    } else {
        whole_end
    };
    let end = if has_point {
        digit_run(s, fraction_start)
    } else {
        whole_end
    };
    let digits = s.subrange(0, whole_end) + s.subrange(fraction_start, end);
    if digits.len() == 0 {
        None
    } else {
        match read_exponent(s.skip(end)) {
            Some(exponent) => Some((digits, exponent - (end - fraction_start))),
            None => None,
        }
    }
}

/// `c` is the lower-case ASCII letter `lower`, in either case.
pub open spec fn is_letter(c: char, lower: char) -> bool {
    c == lower || c as int == lower as int - 32
}

/// `s` is `word`, in letters of either case.
pub open spec fn is_word(s: Seq<char>, word: Seq<char>) -> bool {
    &&& s.len() == word.len()
    &&& forall|i: int| 0 <= i < s.len() ==> is_letter(#[trigger] s[i], word[i])
}

/// `Float`: what `s` denotes, if it is a floating-point number at all.
pub open spec fn read_float(s: Seq<char>) -> Option<Literal> {
    let body = without_sign(s);
    if is_word(body, "inf"@) || is_word(body, "infinity"@) || is_word(body, "nan"@) {
        Some(Literal::NotFinite)
    } else {
        match read_number(body) {
            Some((digits, exponent)) => Some(
                Literal::Finite { negative: has_minus(s), digits, exponent },
            ),
            None => None,
        }
    }
}

/// Exponents of this size or more are not told apart.
pub const EXPONENT_LIMIT: i128 = 1_000_000_000_000_000_000_000_000_000_000;

/// `clipped` is `exact`, brought into the range of the exponent limit.
pub open spec fn is_clipped(exact: int, clipped: i128) -> bool {
    if exact >= EXPONENT_LIMIT {
        clipped == EXPONENT_LIMIT
    } else if exact <= -EXPONENT_LIMIT {
        clipped == -EXPONENT_LIMIT
    } else {
        clipped == exact
    }
}

/// A finite number as read: its digits, the power of ten that the text states,
/// and how many of the digits stood behind the point.
pub struct Scanned {
    pub negative: bool,
    pub digits: Vec<u8>,
    pub stated_exponent: i128,
    pub fraction_len: usize,
}

/// `digits` are the values of the digit characters `text`.
pub open spec fn digit_values(text: Seq<char>, digits: Seq<u8>) -> bool {
    &&& text.len() == digits.len()
    &&& forall|i: int|
        0 <= i < text.len() ==> is_digit(#[trigger] text[i]) && digits[i] == text[i] as int - '0' as int
}

impl Scanned {
    /// This is a reading of the finite literal with these parts.
    pub open spec fn reads(&self, negative: bool, digits: Seq<char>, exponent: int) -> bool {
        &&& self.negative == negative
        &&& digits.len() > 0
        &&& digit_values(digits, self.digits@)
        &&& self.fraction_len <= digits.len()
        &&& is_clipped(exponent + self.fraction_len, self.stated_exponent)
    }
}

/// The outcome of reading a floating-point number.
pub enum Reading {
    NotANumber,
    NotFinite,
    Finite(Scanned),
}

pub proof fn digit_run_extent(s: Seq<char>, from: int)
    requires
        0 <= from <= s.len(),
    ensures
        from <= digit_run(s, from) <= s.len(),
        forall|i: int| from <= i < digit_run(s, from) ==> is_digit(#[trigger] s[i]),
        digit_run(s, from) < s.len() ==> !is_digit(s[digit_run(s, from)]),
    decreases s.len() - from,
{
    if from < s.len() && is_digit(s[from]) {
        digit_run_extent(s, from + 1);
    }
}

fn is_digit_char(c: char) -> (b: bool)
    ensures
        b == is_digit(c),
{
    '0' <= c && c <= '9'
}

/// Appends the run of digits that starts at `from` and returns where it ends.
fn scan_digits(s: &Vec<char>, from: usize, digits: &mut Vec<u8>) -> (end: usize)
    requires
        from <= s@.len(),
    ensures
        end == digit_run(s@, from as int),
        from <= end <= s@.len(),
        final(digits)@.len() == old(digits)@.len() + (end - from),
        forall|i: int| 0 <= i < old(digits)@.len() ==> final(digits)@[i] == old(digits)@[i],
        digit_values(
            s@.subrange(from as int, end as int),
            final(digits)@.skip(old(digits)@.len() as int),
        ),
{
    let ghost before = digits@;
    let mut i: usize = from;
    while i < s.len() && is_digit_char(s[i])
        invariant
            from <= i <= s@.len(),
            digit_run(s@, from as int) == digit_run(s@, i as int),
            digits@.len() == before.len() + (i - from),
            forall|j: int| 0 <= j < before.len() ==> digits@[j] == before[j],
            forall|j: int|
                from <= j < i ==> is_digit(#[trigger] s@[j]) && digits@[before.len() + j - from]
                    == s@[j] as int - '0' as int,
        decreases s.len() - i,
    {
        let c: char = s[i];
        let ghost current = digits@;
        digits.push((c as u32 - '0' as u32) as u8);
        proof {
            assert forall|j: int| from <= j < i + 1 implies is_digit(#[trigger] s@[j]) && digits@[before.len()
                + j - from] == s@[j] as int - '0' as int by {
                if j < i {
                    assert(digits@[before.len() + j - from] == current[before.len() + j - from]);
                }
            }
        }
        i = i + 1;
    }
    proof {
        let text = s@.subrange(from as int, i as int);
        let tail = digits@.skip(before.len() as int);
        assert forall|j: int| 0 <= j < text.len() implies is_digit(#[trigger] text[j]) && tail[j]
            == text[j] as int - '0' as int by {
            assert(text[j] == s@[from + j]);
        }
    }
    i
}

/// Reads the digits from `from` to the end of `s`, clipped.
fn scan_magnitude(s: &Vec<char>, from: usize) -> (m: Option<i128>)
    requires
        from <= s@.len(),
    ensures
        m is Some <==> from < s@.len() && all_digits(s@.skip(from as int)),
        m matches Some(v) ==> 0 <= v && is_clipped(digits_value(s@.skip(from as int)) as int, v),
{
    if from == s.len() {
        return None;
    }
    let mut i: usize = from;
    let mut v: i128 = 0;
    proof {
        assert(s@.subrange(from as int, from as int) =~= Seq::<char>::empty());
    }
    while i < s.len()
        invariant
            from <= i <= s@.len(),
            forall|j: int| from <= j < i ==> is_digit(#[trigger] s@[j]),
            0 <= v <= EXPONENT_LIMIT,
            is_clipped(digits_value(s@.subrange(from as int, i as int)) as int, v),
        decreases s.len() - i,
    {
        let c: char = s[i];
        if !is_digit_char(c) {
            proof {
                assert(s@.skip(from as int)[i - from] == c);
            }
            return None;
        }
        v = v * 10 + (c as u32 - '0' as u32) as i128;
        if v > EXPONENT_LIMIT {
            v = EXPONENT_LIMIT;
        }
        proof {
            let text = s@.subrange(from as int, i + 1);
            assert(text.drop_last() =~= s@.subrange(from as int, i as int));
            assert(text.last() == c);
        }
        i = i + 1;
    }
    proof {
        assert(s@.subrange(from as int, s@.len() as int) =~= s@.skip(from as int));
    }
    Some(v)
}

/// Reads what follows the digits of a number, from `from` on.
fn scan_exponent(s: &Vec<char>, from: usize) -> (e: Option<i128>)
    requires
        from <= s@.len(),
    ensures
        e is Some <==> read_exponent(s@.skip(from as int)) is Some,
        e matches Some(v) ==> is_clipped(read_exponent(s@.skip(from as int))->0, v),
{
    let ghost tail = s@.skip(from as int);
    if from == s.len() {
        return Some(0);
    }
    if s[from] != 'e' && s[from] != 'E' {
        return None;
    }
    let ghost after = tail.skip(1);
    let mut at: usize = from + 1;
    let mut negative: bool = false;
    if at < s.len() && (s[at] == '+' || s[at] == '-') {
        negative = s[at] == '-';
        at = at + 1;
    }
    proof {
        assert(after =~= s@.skip(from + 1));
        assert(without_sign(after) =~= s@.skip(at as int));
    }
    match scan_magnitude(s, at) {
        Some(m) => if negative {
            Some(-m)
        } else {
            Some(m)
        },
        None => None,
    }
}

fn scan_number(s: &Vec<char>, from: usize, negative: bool) -> (number: Option<Scanned>)
    requires
        from <= s@.len(),
    ensures
        number is Some <==> read_number(s@.skip(from as int)) is Some,
        number matches Some(n) ==> {
            let parts = read_number(s@.skip(from as int))->0;
            n.reads(negative, parts.0, parts.1)
        },
{
    let ghost body = s@.skip(from as int);
    let mut digits: Vec<u8> = Vec::new();
    let whole_end: usize = scan_digits(s, from, &mut digits);
    let ghost whole_digits = digits@;
    let mut fraction_start: usize = whole_end;
    let mut end: usize = whole_end;
    if whole_end < s.len() && s[whole_end] == '.' {
        fraction_start = whole_end + 1;
        end = scan_digits(s, fraction_start, &mut digits);
    }
    proof {
        digit_run_shift(s@, from as int, from as int);
        digit_run_shift(s@, from as int, fraction_start as int);
        assert(whole_digits.skip(0) =~= whole_digits);
        assert(s@.subrange(from as int, whole_end as int) =~= body.subrange(0, whole_end - from));
        assert(s@.subrange(fraction_start as int, end as int) =~= body.subrange(
            fraction_start - from,
            end - from,
        ));
        let text = body.subrange(0, whole_end - from) + body.subrange(
            fraction_start - from,
            end - from,
        );
        assert(digit_values(text, digits@)) by {
            let whole = s@.subrange(from as int, whole_end as int);
            let fraction = s@.subrange(fraction_start as int, end as int);
            assert forall|i: int| 0 <= i < text.len() implies is_digit(#[trigger] text[i]) && digits@[i]
                == text[i] as int - '0' as int by {
                if i < whole.len() {
                    assert(text[i] == whole[i]);
                    assert(digits@[i] == whole_digits[i]);
                } else {
                    let j = i - whole.len();
                    assert(text[i] == fraction[j]);
                    assert(digits@.skip(whole_digits.len() as int)[j] == digits@[i]);
                }
            }
        }
        assert(s@.skip(end as int) =~= body.skip(end - from));
    }
    if digits.len() == 0 {
        return None;
    }
    match scan_exponent(s, end) {
        Some(stated_exponent) => Some(
            Scanned { negative, digits, stated_exponent, fraction_len: end - fraction_start },
        ),
        None => None,
    }
}

proof fn digit_run_shift(s: Seq<char>, offset: int, from: int)
    requires
        0 <= offset <= from <= s.len(),
    ensures
        digit_run(s.skip(offset), from - offset) == digit_run(s, from) - offset,
    decreases s.len() - from,
{
    if from < s.len() && is_digit(s[from]) {
        digit_run_shift(s, offset, from + 1);
    }
}

fn word_from(s: &Vec<char>, from: usize, word: &str) -> (b: bool)
    requires
        from <= s@.len(),
        forall|i: int| 0 <= i < word@.len() ==> 'a' <= #[trigger] word@[i] <= 'z',
    ensures
        b == is_word(s@.skip(from as int), word@),
{
    let letters: Vec<char> = chars_of(word);
    if s.len() - from != letters.len() {
        return false;
    }
    let mut i: usize = 0;
    while i < letters.len()
        invariant
            letters@ == word@,
            from + letters.len() == s.len(),
            i <= letters.len(),
            forall|j: int| 0 <= j < word@.len() ==> 'a' <= #[trigger] word@[j] <= 'z',
            forall|j: int| 0 <= j < i ==> is_letter(#[trigger] s@.skip(from as int)[j], word@[j]),
        decreases letters.len() - i,
    {
        let c: char = s[from + i];
        let lower: char = letters[i];
        assert(s@.skip(from as int)[i as int] == c);
        assert('a' <= word@[i as int] <= 'z');
        let upper: char = (lower as u8 - 32) as char;
        if c != lower && c != upper {
            return false;
        }
        i = i + 1;
    }
    true
}

/// Reads `text` as a floating-point number.
pub fn scan_float(text: &str) -> (reading: Reading)
    ensures
        match read_float(text@) {
            None => reading is NotANumber,
            Some(Literal::NotFinite) => reading is NotFinite,
            Some(Literal::Finite { negative, digits, exponent }) => reading matches Reading::Finite(
                scanned,
            ) && scanned.reads(negative, digits, exponent),
        },
{
    let s: Vec<char> = chars_of(text);
    let mut from: usize = 0;
    let mut negative: bool = false;
    if s.len() > 0 && (s[0] == '+' || s[0] == '-') {
        negative = s[0] == '-';
        from = 1;
    }
    proof {
        assert(without_sign(text@) =~= s@.skip(from as int));
        reveal_strlit("inf");
        reveal_strlit("infinity");
        reveal_strlit("nan");
    }
    if word_from(&s, from, "inf") || word_from(&s, from, "infinity") || word_from(&s, from, "nan") {
        return Reading::NotFinite;
    }
    match scan_number(&s, from, negative) {
        Some(scanned) => Reading::Finite(scanned),
        None => Reading::NotANumber,
    }
}

/// The parts of `Exp`.
pub struct ExponentParts {
    pub mark: char,
    pub sign: Option<char>,
    pub digits: Seq<char>,
}

/// The parts of `Number`: the digits before and behind the point, if it has
/// one, and its exponent, if it has one.
pub struct NumberParts {
    pub whole: Seq<char>,
    pub fraction: Option<Seq<char>>,
    pub exponent: Option<ExponentParts>,
}

impl ExponentParts {
    pub open spec fn well_formed(self) -> bool {
        &&& self.mark == 'e' || self.mark == 'E'
        &&& self.sign matches Some(sign) ==> is_sign(sign)
        &&& self.digits.len() > 0
        &&& all_digits(self.digits)
    }

    pub open spec fn signed_digits(self) -> Seq<char> {
        match self.sign {
            Some(sign) => seq![sign] + self.digits,
            None => self.digits,
        }
    }

    pub open spec fn text(self) -> Seq<char> {
        seq![self.mark] + self.signed_digits()
    }

    pub open spec fn power(self) -> int {
        if self.sign == Some('-') {
            -(digits_value(self.digits) as int)
        } else {
            digits_value(self.digits) as int
        }
    }
}

impl NumberParts {
    pub open spec fn fraction_digits(self) -> Seq<char> {
        match self.fraction {
            Some(fraction) => fraction,
            None => Seq::empty(),
        }
    }

    pub open spec fn well_formed(self) -> bool {
        &&& all_digits(self.whole)
        &&& all_digits(self.fraction_digits())
        &&& self.whole.len() + self.fraction_digits().len() > 0
        &&& self.exponent matches Some(exponent) ==> exponent.well_formed()
    }

    pub open spec fn mantissa(self) -> Seq<char> {
        match self.fraction {
            Some(fraction) => self.whole + seq!['.'] + fraction,
            None => self.whole,
        }
    }

    pub open spec fn tail(self) -> Seq<char> {
        match self.exponent {
            Some(exponent) => exponent.text(),
            None => Seq::empty(),
        }
    }

    /// The number as written.
    pub open spec fn text(self) -> Seq<char> {
        self.mantissa() + self.tail()
    }

    /// The power of ten that scales the digits.
    pub open spec fn power(self) -> int {
        (match self.exponent {
            Some(exponent) => exponent.power(),
            None => 0,
        }) - self.fraction_digits().len()
    }
}

proof fn digit_run_is(s: Seq<char>, from: int, end: int)
    requires
        0 <= from <= end <= s.len(),
        forall|i: int| from <= i < end ==> is_digit(#[trigger] s[i]),
        end < s.len() ==> !is_digit(s[end]),
    ensures
        digit_run(s, from) == end,
    decreases end - from,
{
    if from < end {
        assert(is_digit(s[from]));
        digit_run_is(s, from + 1, end);
    }
}

proof fn exponent_reads(parts: ExponentParts)
    requires
        parts.well_formed(),
    ensures
        read_exponent(parts.text()) == Some(parts.power()),
{
    let text = parts.text();
    let after = text.skip(1);
    assert(after =~= parts.signed_digits());
    match parts.sign {
        Some(sign) => {
            assert(after[0] == sign);
            assert(after.skip(1) =~= parts.digits);
        },
        None => {
            assert(is_digit(parts.digits[0]));
        },
    }
    assert(without_sign(after) =~= parts.digits);
}

/// Whatever is written as the grammar says reads as the number it writes.
pub proof fn written_numbers_read_back(parts: NumberParts)
    requires
        parts.well_formed(),
    ensures
        read_number(parts.text()) == Some((parts.whole + parts.fraction_digits(), parts.power())),
{
    let s = parts.text();
    let w = parts.whole.len() as int;
    let f = parts.fraction_digits().len() as int;
    let tail = parts.tail();
    if let Some(exponent) = parts.exponent {
        exponent_reads(exponent);
    }
    assert(tail.len() > 0 ==> tail[0] == 'e' || tail[0] == 'E');
    assert forall|i: int| 0 <= i < w implies is_digit(#[trigger] s[i]) by {
        assert(s[i] == parts.whole[i]);
    }
    if parts.fraction is Some {
        assert(s[w] == '.');
        digit_run_is(s, 0, w);
        assert forall|i: int| w + 1 <= i < w + 1 + f implies is_digit(#[trigger] s[i]) by {
            assert(s[i] == parts.fraction_digits()[i - w - 1]);
        }
        if w + 1 + f < s.len() {
            assert(s[w + 1 + f] == tail[0]);
        }
        digit_run_is(s, w + 1, w + 1 + f);
        assert(s.subrange(0, w) + s.subrange(w + 1, w + 1 + f) =~= parts.whole
            + parts.fraction_digits());
        assert(s.skip(w + 1 + f) =~= tail);
    } else {
        if w < s.len() {
            assert(s[w] == tail[0]);
        }
        digit_run_is(s, 0, w);
        assert(s.subrange(0, w) + s.subrange(w, w) =~= parts.whole + parts.fraction_digits());
        assert(s.skip(w) =~= tail);
    }
}

/// Whatever reads as a number is written as the grammar says.
pub proof fn numbers_follow_grammar(s: Seq<char>) -> (parts: NumberParts)
    requires
        read_number(s) is Some,
    ensures
        parts.well_formed(),
        parts.text() == s,
{
    digit_run_extent(s, 0);
    let w = digit_run(s, 0);
    let has_point = w < s.len() && s[w] == '.';
    let start = if has_point {
        w + 1
    } else {
        w
    };
    if has_point {
        digit_run_extent(s, w + 1);
    }
    let end = if has_point {
        digit_run(s, start)
    } else {
        w
    };
    let tail = s.skip(end);
    let exponent = if tail.len() == 0 {
        None
    } else {
        let after = tail.skip(1);
        Some(
            ExponentParts {
                mark: tail[0],
                sign: if after.len() > 0 && is_sign(after[0]) {
                    Some(after[0])
                } else {
                    None
                },
                digits: without_sign(after),
            },
        )
    };
    let parts = NumberParts {
        whole: s.subrange(0, w),
        fraction: if has_point {
            Some(s.subrange(start, end))
        } else {
            None
        },
        exponent,
    };
    if tail.len() > 0 {
        assert(exponent->0.text() =~= tail);
    }
    assert(parts.text() =~= s);
    parts
}

/// `text` is `body`, with a sign in front if there is one.
pub open spec fn is_signed(text: Seq<char>, sign: Option<char>, body: Seq<char>) -> bool {
    match sign {
        Some(sign) => (sign == '+' || sign == '-') && text == seq![sign] + body,
        None => text == body,
    }
}

/// A number as the grammar says, with or without a sign, reads as that number.
pub proof fn signed_numbers_read_back(text: Seq<char>, sign: Option<char>, parts: NumberParts)
    requires
        parts.well_formed(),
        is_signed(text, sign, parts.text()),
    ensures
        read_float(text) == Some(
            Literal::Finite {
                negative: sign == Some('-'),
                digits: parts.whole + parts.fraction_digits(),
                exponent: parts.power(),
            },
        ),
{
    let body = parts.text();
    written_numbers_read_back(parts);
    assert(body.len() > 0 && (is_digit(body[0]) || body[0] == '.')) by {
        if parts.whole.len() > 0 {
            assert(body[0] == parts.whole[0]);
        } else {
            assert(parts.fraction is Some);
            assert(body[0] == '.');
        }
    }
    assert(without_sign(text) =~= body);
    reveal_strlit("inf");
    reveal_strlit("infinity");
    reveal_strlit("nan");
    assert(!is_letter(body[0], 'i') && !is_letter(body[0], 'n'));
    assert(!is_word(body, "inf"@) && !is_word(body, "infinity"@) && !is_word(body, "nan"@)) by {
        if is_word(body, "inf"@) || is_word(body, "infinity"@) || is_word(body, "nan"@) {
            assert(is_letter(body[0], 'i') || is_letter(body[0], 'n'));
        }
    }
}

/// The words for infinity and for no number, in letters of either case and with or
/// without a sign, read as numbers that are not finite.
pub proof fn words_are_not_finite(text: Seq<char>, sign: Option<char>, body: Seq<char>)
    requires
        is_signed(text, sign, body),
        ({
            ||| body.len() == 3 && (body[0] == 'i' || body[0] == 'I') && (body[1] == 'n' || body[1]
                == 'N') && (body[2] == 'f' || body[2] == 'F')
            ||| body.len() == 3 && (body[0] == 'n' || body[0] == 'N') && (body[1] == 'a' || body[1]
                == 'A') && (body[2] == 'n' || body[2] == 'N')
            ||| body.len() == 8 && (body[0] == 'i' || body[0] == 'I') && (body[1] == 'n' || body[1]
                == 'N') && (body[2] == 'f' || body[2] == 'F') && (body[3] == 'i' || body[3] == 'I')
                && (body[4] == 'n' || body[4] == 'N') && (body[5] == 'i' || body[5] == 'I') && (
            body[6] == 't' || body[6] == 'T') && (body[7] == 'y' || body[7] == 'Y')
        }),
    ensures
        read_float(text) == Some(Literal::NotFinite),
{
    reveal_strlit("inf");
    reveal_strlit("infinity");
    reveal_strlit("nan");
    assert(without_sign(text) =~= body);
}

/// Text that the grammar does not have reads as no number at all.
pub proof fn all_else_is_no_number(text: Seq<char>, sign: Option<char>, body: Seq<char>)
    requires
        is_signed(text, sign, body),
        sign is None ==> body.len() == 0 || (body[0] != '+' && body[0] != '-'),
        forall|parts: NumberParts| parts.well_formed() ==> #[trigger] parts.text() != body,
        !is_word(body, "inf"@),
        !is_word(body, "infinity"@),
        !is_word(body, "nan"@),
    ensures
        read_float(text) is None,
{
    assert(without_sign(text) =~= body);
    if read_number(body) is Some {
        let parts = numbers_follow_grammar(body);
        assert(parts.text() == body);
    }
}

/// `c` occurs in some number: a digit, a sign, a point, the mark of an exponent,
/// or a letter of one of the words.
pub open spec fn occurs_in_numbers(c: char) -> bool {
    "0123456789+-.eEinftyaINFTYA"@.contains(c)
}

/// Text with any other character in it reads as no number.
pub proof fn foreign_characters_make_no_number(text: Seq<char>, at: int)
    requires
        0 <= at < text.len(),
        !occurs_in_numbers(text[at]),
    ensures
        read_float(text) is None,
{
    let c = text[at];
    let body = without_sign(text);
    let all = "0123456789+-.eEinftyaINFTYA"@;
    reveal_strlit("0123456789+-.eEinftyaINFTYA");
    reveal_strlit("inf");
    reveal_strlit("infinity");
    reveal_strlit("nan");
    assert(all[0] == '0' && all[1] == '1' && all[2] == '2' && all[3] == '3' && all[4] == '4'
        && all[5] == '5' && all[6] == '6' && all[7] == '7' && all[8] == '8' && all[9] == '9' && all[10]
        == '+' && all[11] == '-' && all[12] == '.' && all[13] == 'e' && all[14] == 'E' && all[15]
        == 'i' && all[16] == 'n' && all[17] == 'f' && all[18] == 't' && all[19] == 'y' && all[20]
        == 'a' && all[21] == 'I' && all[22] == 'N' && all[23] == 'F' && all[24] == 'T' && all[25]
        == 'Y' && all[26] == 'A');
    let i = if body.len() < text.len() {
        at - 1
    } else {
        at
    };
    assert(!is_sign(c));
    assert(0 <= i < body.len() && body[i] == c);
    assert(!is_word(body, "inf"@) && !is_word(body, "infinity"@) && !is_word(body, "nan"@)) by {
        if is_word(body, "inf"@) {
            assert(is_letter(body[i], "inf"@[i]));
        }
        if is_word(body, "infinity"@) {
            assert(is_letter(body[i], "infinity"@[i]));
        }
        if is_word(body, "nan"@) {
            assert(is_letter(body[i], "nan"@[i]));
        }
    }
    if read_number(body) is Some {
        let parts = numbers_follow_grammar(body);
        let m = parts.mantissa();
        if i < m.len() {
            assert(c == m[i]);
            if i < parts.whole.len() {
                assert(is_digit(parts.whole[i]));
            } else if i > parts.whole.len() {
                assert(is_digit(parts.fraction_digits()[i - parts.whole.len() - 1]));
            }
        } else {
            let exponent = parts.exponent->0;
            let j = i - m.len();
            assert(c == exponent.text()[j]);
            if j > 0 {
                assert(c == exponent.signed_digits()[j - 1]);
                if exponent.sign is Some {
                    if j > 1 {
                        assert(is_digit(exponent.digits[j - 2]));
                    }
                } else {
                    assert(is_digit(exponent.digits[j - 1]));
                }
            }
        }
    }
}

/// Nothing but the words for infinity and for no number reads as a number that is
/// not finite.
pub proof fn only_words_are_not_finite(text: Seq<char>, sign: Option<char>, body: Seq<char>)
    requires
        is_signed(text, sign, body),
        sign is None ==> body.len() == 0 || (body[0] != '+' && body[0] != '-'),
        read_float(text) == Some(Literal::NotFinite),
    ensures
        body.len() == 3 || body.len() == 8,
        body.len() == 8 || body[2] == 'f' || body[2] == 'F' ==> {
            &&& body[0] == 'i' || body[0] == 'I'
            &&& body[1] == 'n' || body[1] == 'N'
            &&& body[2] == 'f' || body[2] == 'F'
        },
        body.len() == 3 && !(body[2] == 'f' || body[2] == 'F') ==> {
            &&& body[0] == 'n' || body[0] == 'N'
            &&& body[1] == 'a' || body[1] == 'A'
            &&& body[2] == 'n' || body[2] == 'N'
        },
        body.len() == 8 ==> {
            &&& body[3] == 'i' || body[3] == 'I'
            &&& body[4] == 'n' || body[4] == 'N'
            &&& body[5] == 'i' || body[5] == 'I'
            &&& body[6] == 't' || body[6] == 'T'
            &&& body[7] == 'y' || body[7] == 'Y'
        },
{
    reveal_strlit("inf");
    reveal_strlit("infinity");
    reveal_strlit("nan");
    assert(without_sign(text) =~= body);
    if is_word(body, "infinity"@) {
        assert(is_letter(body[0], 'i') && is_letter(body[1], 'n') && is_letter(body[2], 'f')
            && is_letter(body[3], 'i') && is_letter(body[4], 'n') && is_letter(body[5], 'i')
            && is_letter(body[6], 't') && is_letter(body[7], 'y'));
    } else if is_word(body, "inf"@) {
        assert(is_letter(body[0], 'i') && is_letter(body[1], 'n') && is_letter(body[2], 'f'));
    } else {
        assert(is_letter(body[0], 'n') && is_letter(body[1], 'a') && is_letter(body[2], 'n'));
    }
}

} // verus!
