//! Decimal integers as text: an optional sign followed by one or more ASCII
//! digits, and nothing else.

use crate::text::chars_of;
use vstd::prelude::*;

verus! {

/// `c` is one of the ten ASCII digits.
pub open spec fn is_digit(c: char) -> bool {
    '0' <= c <= '9'
}

/// The number that the digit `c` stands for.
pub open spec fn digit_value(c: char) -> int {
    c as int - '0' as int
}

/// The digit that stands for `d`, for `d` below ten.
pub open spec fn digit_char(d: int) -> char {
    if d == 0 {
        '0'
    } else if d == 1 {
        '1'
    } else if d == 2 {
        '2'
    } else if d == 3 {
        '3'
    } else if d == 4 {
        '4'
    } else if d == 5 {
        '5'
    } else if d == 6 {
        '6'
    } else if d == 7 {
        '7'
    } else if d == 8 {
        '8'
    } else {
        '9'
    }
}

/// Every character of `s` is a digit.
pub open spec fn all_digits(s: Seq<char>) -> bool {
    forall|i: int| 0 <= i < s.len() ==> is_digit(#[trigger] s[i])
}

/// The number that the digits `s` write, most significant digit first.
pub open spec fn digits_value(s: Seq<char>) -> int
    decreases s.len(),
{
    if s.len() == 0 {
        0
    } else {
        digits_value(s.drop_last()) * 10 + digit_value(s.last())
    }
}

/// The integer that `s` writes: digits, after a `+` or, where `signed`, a `-`.
/// `None` where `s` is not of that form.
pub open spec fn decimal(s: Seq<char>, signed: bool) -> Option<int> {
    if s.len() > 0 && s[0] == '+' {
        if s.len() > 1 && all_digits(s.skip(1)) {
            Some(digits_value(s.skip(1)))
        } else {
            None
        }
    } else if signed && s.len() > 0 && s[0] == '-' {
        if s.len() > 1 && all_digits(s.skip(1)) {
            Some(-digits_value(s.skip(1)))
        } else {
            None
        }
    } else if s.len() > 0 && all_digits(s) {
        Some(digits_value(s))
    } else {
        None
    }
}

/// The integer that `s` writes, where it lies between `min` and `max`.
pub open spec fn decimal_in(s: Seq<char>, signed: bool, min: int, max: int) -> Option<int> {
    match decimal(s, signed) {
        Some(n) => if min <= n <= max {
            Some(n)
        } else {
            None
        },
        None => None,
    }
}

/// What `s` is as a 32-bit signed integer.
pub open spec fn as_i32(s: Seq<char>) -> Option<i32> {
    match decimal_in(s, true, i32::MIN as int, i32::MAX as int) {
        Some(n) => Some(n as i32),
        None => None,
    }
}

/// What `s` is as a 64-bit signed integer.
pub open spec fn as_i64(s: Seq<char>) -> Option<i64> {
    match decimal_in(s, true, i64::MIN as int, i64::MAX as int) {
        Some(n) => Some(n as i64),
        None => None,
    }
}

/// What `s` is as a 32-bit unsigned integer.
pub open spec fn as_u32(s: Seq<char>) -> Option<u32> {
    match decimal_in(s, false, 0, u32::MAX as int) {
        Some(n) => Some(n as u32),
        None => None,
    }
}

/// The digits of `n`, without leading zeros.
pub open spec fn digits_text(n: nat) -> Seq<char>
    decreases n,
{
    if n < 10 {
        seq![digit_char(n as int)]
    } else {
        digits_text(n / 10).push(digit_char((n % 10) as int))
    }
}

/// `n` in decimal: its digits, after a `-` where it is negative.
pub open spec fn decimal_text(n: int) -> Seq<char> {
    if n < 0 {
        seq!['-'] + digits_text((-n) as nat)
    } else {
        digits_text(n as nat)
    }
}

/// A longer run of digits writes no smaller number than its beginning.
pub proof fn lemma_digits_value_grows(s: Seq<char>, k: int)
    requires
        all_digits(s),
        0 <= k <= s.len(),
    ensures
        0 <= digits_value(s.take(k)) <= digits_value(s),
    decreases s.len() - k,
{
    lemma_digits_value_nonnegative(s.take(k));
    if k < s.len() {
        lemma_digits_value_grows(s, k + 1);
        assert(s.take(k + 1).drop_last() =~= s.take(k));
        assert(is_digit(s[k]));
        assert(s.take(k + 1).last() == s[k]);
    } else {
        assert(s.take(k) =~= s);
    }
}

/// Digits write a number that is not negative.
pub proof fn lemma_digits_value_nonnegative(s: Seq<char>)
    requires
        all_digits(s),
    ensures
        0 <= digits_value(s),
    decreases s.len(),
{
    if s.len() > 0 {
        lemma_digits_value_nonnegative(s.drop_last());
        assert(is_digit(s[s.len() - 1]));
    }
}

/// The digits of a number are digits, and write that number.
pub proof fn lemma_digits_text(n: nat)
    ensures
        digits_text(n).len() >= 1,
        all_digits(digits_text(n)),
        digits_value(digits_text(n)) == n,
    decreases n,
{
    let text = digits_text(n);
    if n < 10 {
        assert(text.drop_last() =~= Seq::<char>::empty());
        assert(digits_value(text.drop_last()) == 0);
        assert(text.last() == digit_char(n as int));
    } else {
        lemma_digits_text(n / 10);
        let head = digits_text(n / 10);
        assert(text.drop_last() =~= head);
        assert(text.last() == digit_char((n % 10) as int));
        assert forall|i: int| 0 <= i < text.len() implies is_digit(#[trigger] text[i]) by {
            if i < head.len() {
                assert(text[i] == head[i]);
            }
        }
    }
}

/// Reading back what was written gives the number: the decimal text of `n`
/// writes `n`.
pub proof fn lemma_decimal_round_trip(n: int)
    ensures
        decimal(decimal_text(n), true) == Some(n),
{
    if n < 0 {
        let digits = digits_text((-n) as nat);
        lemma_digits_text((-n) as nat);
        let text = decimal_text(n);
        assert(text.skip(1) =~= digits);
        assert(text[0] == '-');
    } else {
        lemma_digits_text(n as nat);
        let text = decimal_text(n);
        assert(is_digit(text[0]));
    }
}

/// Reads `s` as a decimal integer between `min` and `max`.
fn parse_decimal(s: &str, signed: bool, min: i64, max: i64) -> (r: Option<i64>)
    requires
        min <= 0 <= max,
    ensures
        match r {
            Some(n) => decimal_in(s@, signed, min as int, max as int) == Some(n as int),
            None => decimal_in(s@, signed, min as int, max as int) is None,
        },
{
    let chars = chars_of(s);
    let n: usize = chars.len();
    if n == 0 {
        return None;
    }
    let negative: bool = signed && chars[0] == '-';
    let start: usize = if negative || chars[0] == '+' {
        1
    } else {
        0
    };
    if start == n {
        return None;
    }
    let ghost body = s@.skip(start as int);
    let bound: u128 = if negative {
        (0 - (min as i128)) as u128
    } else {
        max as u128
    };
    let mut acc: u128 = 0;
    let mut i: usize = start;
    assert(body.take(0) =~= Seq::<char>::empty());
    while i < n
        invariant
            start <= i <= n,
            n == chars.len(),
            chars@ == s@,
            body == s@.skip(start as int),
            all_digits(body.take(i - start)),
            acc == digits_value(body.take(i - start)),
            acc <= bound,
            min <= 0 <= max,
            bound == (if negative {
                -(min as int)
            } else {
                max as int
            }),
            n > start,
            negative == (signed && s@[0] == '-'),
            start == (if negative || s@[0] == '+' {
                1int
            } else {
                0int
            }),
        decreases n - i,
    {
        let c = chars[i];
        assert(body[i - start] == c);
        assert(body.take(i - start + 1).drop_last() =~= body.take(i - start));
        assert(body.take(i - start + 1).last() == c);
        if !(c >= '0' && c <= '9') {
            assert(!is_digit(body[i - start]));
            assert(s@.skip(0) =~= s@);
            return None;
        }
        let d: u128 = (c as u32 - '0' as u32) as u128;
        acc = acc * 10 + d;
        assert forall|j: int| 0 <= j < i - start + 1 implies is_digit(
            #[trigger] body.take(i - start + 1)[j],
        ) by {
            if j < i - start {
                assert(body.take(i - start)[j] == body[j]);
            }
        }
        if acc > bound {
            proof {
                assert(s@.skip(0) =~= s@);
                if all_digits(body) {
                    lemma_digits_value_grows(body, i - start + 1);
                }
            }
            return None;
        }
        i += 1;
    }
    assert(body.take(n - start) =~= body);
    assert(s@.skip(0) =~= s@);
    if negative {
        Some((0 - (acc as i128)) as i64)
    } else {
        Some(acc as i64)
    }
}

/// Reads `s` as a 32-bit signed integer.
pub fn parse_i32(s: &str) -> (r: Option<i32>)
    ensures
        r == as_i32(s@),
{
    match parse_decimal(s, true, i32::MIN as i64, i32::MAX as i64) {
        Some(n) => Some(n as i32),
        None => None,
    }
}

/// Reads `s` as a 64-bit signed integer.
pub fn parse_i64(s: &str) -> (r: Option<i64>)
    ensures
        r == as_i64(s@),
{
    parse_decimal(s, true, i64::MIN, i64::MAX)
}

/// Reads `s` as a 32-bit unsigned integer.
pub fn parse_u32(s: &str) -> (r: Option<u32>)
    ensures
        r == as_u32(s@),
{
    match parse_decimal(s, false, 0, u32::MAX as i64) {
        Some(n) => Some(n as u32),
        None => None,
    }
}

fn digit_of(d: u64) -> (c: char)
    requires
        d < 10,
    ensures
        c == digit_char(d as int),
{
    if d == 0 {
        '0'
    } else if d == 1 {
        '1'
    } else if d == 2 {
        '2'
    } else if d == 3 {
        '3'
    } else if d == 4 {
        '4'
    } else if d == 5 {
        '5'
    } else if d == 6 {
        '6'
    } else if d == 7 {
        '7'
    } else if d == 8 {
        '8'
    } else {
        '9'
    }
}

/// Writes `n` in decimal.
pub fn decimal_string(n: i64) -> (s: String)
    ensures
        s@ == decimal_text(n as int),
{
    let mut s = String::new();
    let magnitude: u64 = if n < 0 {
        s.push('-');
        (0 - (n as i128)) as u64
    } else {
        n as u64
    };
    let mut reversed: Vec<char> = Vec::new();
    let mut rest: u64 = magnitude;
    reversed.push(digit_of(rest % 10));
    rest = rest / 10;
    assert(digits_text(magnitude as nat) =~= (if rest > 0 {
        digits_text(rest as nat)
    } else {
        Seq::<char>::empty()
    }) + reversed@.reverse());
    while rest > 0
        invariant
            digits_text(magnitude as nat) == (if rest > 0 {
                digits_text(rest as nat)
            } else {
                Seq::<char>::empty()
            }) + reversed@.reverse(),
        decreases rest,
    {
        let ghost before = reversed@;
        let ghost c = digit_char((rest % 10) as int);
        reversed.push(digit_of(rest % 10));
        assert(reversed@.reverse() =~= seq![c] + before.reverse());
        assert(digits_text(rest as nat) =~= (if rest / 10 > 0 {
            digits_text((rest / 10) as nat)
        } else {
            Seq::<char>::empty()
        }) + seq![c]);
        rest = rest / 10;
        assert(digits_text(magnitude as nat) =~= (if rest > 0 {
            digits_text(rest as nat)
        } else {
            Seq::<char>::empty()
        }) + reversed@.reverse());
    }
    let ghost sign = s@;
    let mut k: usize = reversed.len();
    assert(reversed@.reverse().take(0) =~= Seq::<char>::empty());
    assert(s@ =~= sign + reversed@.reverse().take(0));
    while k > 0
        invariant
            k <= reversed.len(),
            s@ == sign + reversed@.reverse().take(reversed.len() - k),
        decreases k,
    {
        k -= 1;
        s.push(reversed[k]);
        assert(reversed@.reverse().take(reversed.len() - k) =~= reversed@.reverse().take(
            reversed.len() - k - 1,
        ).push(reversed@[k as int]));
    }
    assert(reversed@.reverse().take(reversed.len() as int) =~= reversed@.reverse());
    assert(Seq::<char>::empty() + reversed@.reverse() =~= reversed@.reverse());
    s
}

} // verus!
