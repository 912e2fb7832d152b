//! Decimal numbers and other small pieces of text.

use vstd::prelude::*;

verus! {

/// The ASCII decimal digits.
pub open spec fn is_digit(c: char) -> bool {
    '0' <= c <= '9'
}

pub open spec fn all_digits(s: Seq<char>) -> bool {
    forall|i: int| 0 <= i < s.len() ==> is_digit(#[trigger] s[i])
}

/// The number that a sequence of decimal digits writes, most significant first.
pub open spec fn digits_value(s: Seq<char>) -> nat
    decreases s.len(),
{
    if s.len() == 0 {
        0
    } else {
        digits_value(s.drop_last()) * 10 + (s.last() as nat - '0' as nat) as nat
    }
}

pub open spec fn digit_char(d: nat) -> char {
    ('0' as nat + d) as char
}

/// `n` in decimal, without leading zeros.
pub open spec fn decimal(n: nat) -> Seq<char>
    decreases n,
{
    if n < 10 {
        seq![digit_char(n)]
    } else {
        decimal(n / 10).push(digit_char(n % 10))
    }
}

/// Decimal text reads back as the number it was written from.
pub proof fn decimal_reads_back(n: nat)
    ensures
        all_digits(decimal(n)),
        decimal(n).len() >= 1,
        digits_value(decimal(n)) == n,
    decreases n,
{
    if n < 10 {
        let s = decimal(n);
        assert(s.drop_last() =~= Seq::<char>::empty());
        assert(digits_value(s.drop_last()) == 0);
    } else {
        decimal_reads_back(n / 10);
        let s = decimal(n);
        assert(s.drop_last() =~= decimal(n / 10));
    }
}

/// The characters of `s`, one per element.
pub fn chars_of(s: &str) -> (chars: Vec<char>)
    ensures
        chars@ == s@,
{
    let mut chars: Vec<char> = Vec::new();
    for c in it: s.chars()
        invariant
            chars@ == it.seq().take(it.index()),
    {
        chars.push(c);
    }
    chars
}

fn digit_str(d: u8) -> (s: &'static str)
    requires
        d < 10,
    ensures
        s@ == seq![digit_char(d as nat)],
{
    proof {
        reveal_strlit("0");
        reveal_strlit("1");
        reveal_strlit("2");
        reveal_strlit("3");
        reveal_strlit("4");
        reveal_strlit("5");
        reveal_strlit("6");
        reveal_strlit("7");
        reveal_strlit("8");
        reveal_strlit("9");
    }
    match d {
        0 => "0",
        1 => "1",
        2 => "2",
        3 => "3",
        4 => "4",
        5 => "5",
        6 => "6",
        7 => "7",
        8 => "8",
        _ => "9",
    }
}

/// Writes `n` in decimal.
pub fn decimal_string(n: u64) -> (s: String)
    ensures
        s@ == decimal(n as nat),
    decreases n,
{
    let last: u8 = (n % 10) as u8;
    if n < 10 {
        String::from_str(digit_str(last))
    } else {
        decimal_string(n / 10).concat(digit_str(last))
    }
}

/// Putting a digit behind a numeral makes it ten times as large, and adds the digit.
pub proof fn numerals_are_positional(a: Seq<char>, c: char)
    requires
        '0' <= c <= '9',
    ensures
        digits_value(Seq::empty()) == 0,
        digits_value(a.push(c)) == 10 * digits_value(a) + (c as int - 48),
        all_digits(a.push(c)) <==> all_digits(a),
{
    assert(a.push(c).drop_last() =~= a);
    if all_digits(a.push(c)) {
        assert forall|i: int| 0 <= i < a.len() implies is_digit(#[trigger] a[i]) by {
            assert(a.push(c)[i] == a[i]);
        }
    }
}

proof fn numeral_floor(s: Seq<char>)
    requires
        s.len() > 0,
        forall|i: int| 0 <= i < s.len() ==> '0' <= #[trigger] s[i] <= '9',
        s[0] != '0',
    ensures
        digits_value(s) > 0,
    decreases s.len(),
{
    if s.len() > 1 {
        let head = s.drop_last();
        assert forall|i: int| 0 <= i < head.len() implies '0' <= #[trigger] head[i] <= '9' by {
            assert(head[i] == s[i]);
        }
        numeral_floor(head);
    } else {
        assert(s.drop_last() =~= Seq::<char>::empty());
        assert('0' <= s[0] <= '9');
        assert(digits_value(s.drop_last()) == 0);
    }
}

/// A numeral without needless zeros in front is the one that its number is
/// written as.
pub proof fn numeral_is_written_back(s: Seq<char>)
    requires
        s.len() > 0,
        forall|i: int| 0 <= i < s.len() ==> '0' <= #[trigger] s[i] <= '9',
        s[0] == '0' ==> s.len() == 1,
    ensures
        decimal(digits_value(s)) == s,
    decreases s.len(),
{
    let head = s.drop_last();
    let d = (s.last() as nat - '0' as nat) as nat;
    assert('0' <= s[s.len() - 1] <= '9');
    if s.len() == 1 {
        assert(head =~= Seq::<char>::empty());
        assert(digits_value(head) == 0);
        assert(decimal(d) =~= s);
    } else {
        assert forall|i: int| 0 <= i < head.len() implies '0' <= #[trigger] head[i] <= '9' by {
            assert(head[i] == s[i]);
        }
        assert(head[0] == s[0]);
        numeral_floor(head);
        numeral_is_written_back(head);
        let n = digits_value(s);
        assert(n / 10 == digits_value(head) && n % 10 == d);
        assert(decimal(n) =~= s);
    }
}

/// A number is written in the digits 0 to 9, without needless zeros in front,
/// and reads back as what it was.
pub proof fn numbers_are_written_in_decimal(n: u64, s: String)
    requires
        call_ensures(decimal_string, (n,), s),
    ensures
        s@.len() > 0,
        forall|i: int| 0 <= i < s@.len() ==> '0' <= #[trigger] s@[i] <= '9',
        s@[0] == '0' <==> n == 0,
        digits_value(s@) == n,
{
    decimal_reads_back(n as nat);
    assert forall|i: int| 0 <= i < s@.len() implies '0' <= #[trigger] s@[i] <= '9' by {
        assert(is_digit(s@[i]));
    }
    decimal_has_no_zero_in_front(n as nat);
}

/// Only zero is written with a zero in front.
pub proof fn decimal_has_no_zero_in_front(n: nat)
    ensures
        decimal(n).len() > 0,
        decimal(n)[0] == '0' <==> n == 0,
    decreases n,
{
    if n >= 10 {
        decimal_has_no_zero_in_front(n / 10);
    }
}

/// The characters of a text are taken as they are, in their order.
pub proof fn characters_are_kept(s: &str, chars: Vec<char>)
    requires
        call_ensures(chars_of, (s,), chars),
    ensures
        chars@.len() == s@.len(),
        forall|i: int| 0 <= i < s@.len() ==> #[trigger] chars@[i] == s@[i],
{
}

} // verus!
