//! Decimal numbers in text.

use vstd::prelude::*;
use crate::text;

verus! {

/// A double, as its bit pattern.
#[derive(Debug, Clone, Copy, PartialEq, Eq, Structural, Default)]
pub struct Double {
    pub bits: u64,
}

/// The bit pattern of one.
pub const ONE_BITS: u64 = 0x3ff0_0000_0000_0000;

/// The bit pattern of positive infinity, the greatest of all positive doubles.
pub const INFINITY_BITS: u64 = 0x7ff0_0000_0000_0000;

impl Double {
    /// The double is greater than zero. Not a number is not.
    pub open spec fn positive(self) -> bool {
        0 < self.bits <= INFINITY_BITS
    }

    /// One.
    pub fn one() -> (r: Double)
        ensures
            r == (Double { bits: ONE_BITS }),
    {
        Double { bits: ONE_BITS }
    }

    /// Whether the double is greater than zero.
    pub fn is_positive(self) -> (r: bool)
        ensures
            r == self.positive(),
    {
        0 < self.bits && self.bits <= INFINITY_BITS
    }
}

/// `c` is one of `0` to `9`.
pub open spec fn is_digit(c: char) -> bool {
    '0' <= c <= '9'
}

/// The digit for `d`.
pub open spec fn digit(d: int) -> char {
    ('0' as u32 + d) as char
}

/// What the digit `c` stands for.
pub open spec fn digit_value(c: char) -> int {
    c as int - '0' as int
}

/// Every character of `s` is a digit.
pub open spec fn all_digits(s: Seq<char>) -> bool {
    forall|i: int| 0 <= i < s.len() ==> is_digit(#[trigger] s[i])
}

/// The number that the digits `s` stand for.
pub open spec fn digits_value(s: Seq<char>) -> int
    decreases s.len(),
{
    if s.len() == 0 {
        0
    } else {
        10 * digits_value(s.drop_last()) + digit_value(s.last())
    }
}

/// `n` in decimal, without leading zeros.
pub open spec fn nat_text(n: nat) -> Seq<char>
    decreases n,
{
    if n < 10 {
        seq![digit(n as int)]
    } else {
        nat_text(n / 10).push(digit((n % 10) as int))
    }
}

/// `n` in decimal, with a minus sign where it is negative.
pub open spec fn int_text(n: int) -> Seq<char> {
    if n < 0 {
        seq!['-'] + nat_text((-n) as nat)
    } else {
        nat_text(n as nat)
    }
}

/// The number that `s` stands for, where it is at least one digit, perhaps
/// after a plus sign.
pub open spec fn parse_nat(s: Seq<char>) -> Option<int> {
    let digits = if s.len() > 0 && s[0] == '+' {
        s.skip(1)
    } else {
        s
    };
    if digits.len() > 0 && all_digits(digits) {
        Some(digits_value(digits))
    } else {
        None
    }
}

/// The number that `s` stands for, where it is at least one digit, perhaps
/// after a sign.
pub open spec fn parse_int(s: Seq<char>) -> Option<int> {
    if s.len() > 0 && s[0] == '-' {
        let digits = s.skip(1);
        if digits.len() > 0 && all_digits(digits) {
            Some(-digits_value(digits))
        } else {
            None
        }
    } else {
        parse_nat(s)
    }
}

/// `s` is a number that an `i32` holds.
pub open spec fn parse_i32(s: Seq<char>) -> Option<i32> {
    match parse_int(s) {
        Some(n) => if i32::MIN <= n <= i32::MAX {
            Some(n as i32)
        } else {
            None
        },
        None => None,
    }
}

/// `s` is a number without a minus sign that a `u32` holds.
pub open spec fn parse_u32(s: Seq<char>) -> Option<u32> {
    match parse_nat(s) {
        Some(n) => if n <= u32::MAX {
            Some(n as u32)
        } else {
            None
        },
        None => None,
    }
}

proof fn lemma_nat_text(n: nat)
    ensures
        nat_text(n).len() > 0,
        all_digits(nat_text(n)),
        digits_value(nat_text(n)) == n,
    decreases n,
{
    if n < 10 {
        let s = nat_text(n);
        assert(s.drop_last() == Seq::<char>::empty());
        assert(digits_value(s.drop_last()) == 0);
        assert(s.last() == digit(n as int));
    } else {
        lemma_nat_text(n / 10);
        let s = nat_text(n);
        assert(s.drop_last() == nat_text(n / 10));
        assert(s.last() == digit((n % 10) as int));
    }
}

/// The text of a number holds digits and a minus sign, nothing else.
pub proof fn lemma_int_text_chars(n: int)
    ensures
        int_text(n).len() > 0,
        forall|i: int|
            0 <= i < int_text(n).len() ==> is_digit(#[trigger] int_text(n)[i]) || int_text(n)[i]
                == '-',
{
    if n < 0 {
        lemma_nat_text((-n) as nat);
        let digits = nat_text((-n) as nat);
        assert forall|i: int| 0 <= i < int_text(n).len() implies is_digit(#[trigger] int_text(n)[i])
            || int_text(n)[i] == '-' by {
            if i > 0 {
                assert(int_text(n)[i] == digits[i - 1]);
            }
        }
    } else {
        lemma_nat_text(n as nat);
    }
}

/// Reading back the text of a number gives that number.
pub proof fn int_text_round_trip(n: int)
    ensures
        parse_int(int_text(n)) == Some(n),
        i32::MIN <= n <= i32::MAX ==> parse_i32(int_text(n)) == Some(n as i32),
        0 <= n <= u32::MAX ==> parse_u32(int_text(n)) == Some(n as u32),
{
    if n < 0 {
        lemma_nat_text((-n) as nat);
        assert(int_text(n).skip(1) == nat_text((-n) as nat));
    } else {
        lemma_nat_text(n as nat);
        assert(is_digit(nat_text(n as nat)[0]));
    }
}

/// The digit for `d`.
fn digit_char(d: u64) -> (c: char)
    requires
        d < 10,
    ensures
        c == digit(d as int),
{
    let code: u8 = 48 + d as u8;
    code as char
}

/// `n` in decimal.
pub fn u64_text(n: u64) -> (r: String)
    ensures
        r@ == nat_text(n as nat),
    decreases n,
{
    if n < 10 {
        let mut s = String::new();
        s.push(digit_char(n));
        s
    } else {
        let mut s = u64_text(n / 10);
        s.push(digit_char(n % 10));
        s
    }
}

/// `n` in decimal.
pub fn i64_text(n: i64) -> (r: String)
    ensures
        r@ == int_text(n as int),
{
    if n < 0 {
        let magnitude: u64 = (-(n as i128)) as u64;
        let mut s = String::new();
        s.push('-');
        s.append(u64_text(magnitude).as_str());
        s
    } else {
        u64_text(n as u64)
    }
}

proof fn lemma_digits_value_grows(s: Seq<char>, k: int)
    requires
        0 <= k <= s.len(),
        all_digits(s),
    ensures
        0 <= digits_value(s.take(k)) <= digits_value(s),
    decreases s.len(),
{
    if k == s.len() {
        assert(s.take(k) == s);
        if s.len() > 0 {
            lemma_digits_value_grows(s.drop_last(), k - 1);
            assert(s.drop_last().take(k - 1) == s.drop_last());
        }
    } else {
        lemma_digits_value_grows(s.drop_last(), k);
        assert(s.drop_last().take(k) == s.take(k));
        assert(is_digit(s.last()));
    }
}

/// The number that the digits `s` stand for, where there is at least one and
/// nothing else, and the number is at most `limit`.
fn read_digits(s: &[char], limit: u64) -> (r: Option<u64>)
    requires
        limit <= u32::MAX,
    ensures
        match r {
            Some(n) => s@.len() > 0 && all_digits(s@) && n == digits_value(s@) && n <= limit,
            None => s@.len() == 0 || !all_digits(s@) || digits_value(s@) > limit,
        },
{
    if s.len() == 0 {
        return None;
    }
    let mut value: u64 = 0;
    let mut i: usize = 0;
    while i < s.len()
        invariant
            i <= s@.len(),
            limit <= u32::MAX,
            value <= limit,
            all_digits(s@.take(i as int)),
            value == digits_value(s@.take(i as int)),
        decreases s@.len() - i,
    {
        let c = s[i];
        if !('0' <= c && c <= '9') {
            assert(!is_digit(s@[i as int]));
            return None;
        }
        let d: u64 = c as u64 - 48;
        let ghost next = s@.take(i as int + 1);
        assert(next.drop_last() == s@.take(i as int));
        assert(next.last() == c);
        assert(all_digits(next)) by {
            assert forall|k: int| 0 <= k < next.len() implies is_digit(#[trigger] next[k]) by {
                if k < i {
                    assert(next[k] == s@.take(i as int)[k]);
                }
            }
        }
        value = value * 10 + d;
        if value > limit {
            proof {
                if all_digits(s@) {
                    lemma_digits_value_grows(s@, i as int + 1);
                }
            }
            return None;
        }
        i += 1;
    }
    assert(s@.take(i as int) == s@);
    Some(value)
}

/// Reads `s` as an `i32`.
pub fn to_i32(s: &[char]) -> (r: Option<i32>)
    ensures
        r == parse_i32(s@),
{
    if s.len() > 0 && s[0] == '-' {
        match read_digits(text::skip(s, 1), 2147483648) {
            Some(n) => Some((-(n as i64)) as i32),
            None => None,
        }
    } else {
        let digits = if s.len() > 0 && s[0] == '+' {
            text::skip(s, 1)
        } else {
            s
        };
        match read_digits(digits, 2147483647) {
            Some(n) => Some(n as i32),
            None => None,
        }
    }
}

/// Reads `s` as a `u32`.
pub fn to_u32(s: &[char]) -> (r: Option<u32>)
    ensures
        r == parse_u32(s@),
{
    let digits = if s.len() > 0 && s[0] == '+' {
        text::skip(s, 1)
    } else {
        s
    };
    match read_digits(digits, 4294967295) {
        Some(n) => Some(n as u32),
        None => None,
    }
}

/// A number is at least one digit, perhaps behind a sign, and nothing else. A plus
/// sign changes nothing, nor do zeros in front; a number that the type cannot hold
/// is none.
pub proof fn numbers_are_digits_behind_a_sign(s: Seq<char>, digits: Seq<char>)
    requires
        digits.len() > 0,
        all_digits(digits),
    ensures
        parse_i32(s) is Some ==> s.len() > 0 && is_digit(s.last()) && all_digits(s.skip(1)) && (
        is_digit(s[0]) || s[0] == '+' || s[0] == '-'),
        parse_u32(s) is Some ==> s.len() > 0 && is_digit(s.last()) && all_digits(s.skip(1)) && (
        is_digit(s[0]) || s[0] == '+'),
        parse_int(seq!['+'] + digits) == parse_int(digits),
        parse_int(seq!['0'] + digits) == parse_int(digits),
        parse_int(seq!['-'] + digits) == Some(-(parse_int(digits)->0)),
        parse_int(digits) is Some,
        parse_u32(digits) is Some <==> parse_int(digits)->0 <= u32::MAX,
        parse_i32(digits) is Some <==> parse_int(digits)->0 <= i32::MAX,
        parse_u32(digits) is Some ==> parse_u32(digits)->0 == parse_int(digits)->0,
        parse_i32(digits) is Some ==> parse_i32(digits)->0 == parse_int(digits)->0,
{
    assert(is_digit(digits[0]));
    lemma_digits_value_grows(digits, 0);
    let plus = seq!['+'] + digits;
    let zero = seq!['0'] + digits;
    let minus = seq!['-'] + digits;
    assert(plus.skip(1) == digits && minus.skip(1) == digits);
    assert(all_digits(zero)) by {
        assert forall|i: int| 0 <= i < zero.len() implies is_digit(#[trigger] zero[i]) by {
            if i > 0 {
                assert(zero[i] == digits[i - 1]);
            }
        }
    }
    lemma_zero_in_front(digits);
    if s.len() > 0 {
        let rest = s.skip(1);
        if parse_nat(s) is Some && s[0] != '+' {
            assert(is_digit(s[0]));
            assert(is_digit(s[s.len() - 1]));
            assert forall|i: int| 0 <= i < rest.len() implies is_digit(#[trigger] rest[i]) by {
                assert(is_digit(s[i + 1]));
            }
        }
        if rest.len() > 0 && all_digits(rest) {
            assert(is_digit(rest[rest.len() - 1]));
            assert(rest[rest.len() - 1] == s.last());
        }
    }
}

proof fn lemma_zero_in_front(s: Seq<char>)
    ensures
        digits_value(seq!['0'] + s) == digits_value(s),
    decreases s.len(),
{
    let longer = seq!['0'] + s;
    if s.len() == 0 {
        assert(longer == seq!['0']);
        assert(longer.drop_last().len() == 0);
        assert(digits_value(longer.drop_last()) == 0);
    } else {
        assert(longer.drop_last() == seq!['0'] + s.drop_last());
        assert(longer.last() == s.last());
        lemma_zero_in_front(s.drop_last());
    }
}

/// The text of a number has no zero in front, but for zero itself.
pub proof fn texts_have_no_zero_in_front(n: nat)
    ensures
        n > 0 ==> nat_text(n)[0] != '0',
        n == 0 ==> nat_text(n) == seq!['0'],
    decreases n,
{
    if n >= 10 {
        lemma_nat_text(n / 10);
        texts_have_no_zero_in_front(n / 10);
        assert(nat_text(n)[0] == nat_text(n / 10)[0]);
    }
}

/// A number is positive where its bits, read as those of a double, are neither zero
/// nor have the sign set, and are no greater than those of infinity, so that it is
/// no NaN. One is positive.
pub proof fn positive_numbers_by_their_bits(d: Double)
    ensures
        d.positive() <==> 1 <= d.bits <= 0x7ff0_0000_0000_0000,
        ONE_BITS == 0x3ff0_0000_0000_0000,
{
}

} // verus!
