//! Decimal numbers as text, both ways, and the integer arithmetic that the
//! counters use.

use vstd::prelude::*;
use vstd::slice::slice_subrange;

verus! {

/// The decimal digit for a value below ten.
pub open spec fn digit(d: int) -> char {
    (48 + d) as char
}

/// A natural number in decimal, without leading zeros.
pub open spec fn decimal(n: int) -> Seq<char>
    decreases n,
{
    if n < 10 {
        seq![digit(n)]
    } else {
        decimal(n / 10).push(digit(n % 10))
    }
}

fn digit_char(d: u64) -> (r: char)
    requires
        d < 10,
    ensures
        r == digit(d as int),
{
    (48 + d as u8) as char
}

/// Appends a number in decimal.
pub fn push_decimal(out: &mut String, n: u64)
    ensures
        final(out)@ == old(out)@ + decimal(n as int),
    decreases n,
{
    if n >= 10 {
        push_decimal(out, n / 10);
    }
    out.push(digit_char(n % 10));
    assert(out@ =~= old(out)@ + decimal(n as int));
}

/// A number in decimal.
pub fn to_decimal(n: u64) -> (r: String)
    ensures
        r@ == decimal(n as int),
{
    let mut out = String::new();
    push_decimal(&mut out, n);
    out
}

pub open spec fn all_digits(s: Seq<char>) -> bool {
    forall|i: int| 0 <= i < s.len() ==> crate::text::is_digit(#[trigger] s[i])
}

/// The value of a run of decimal digits.
pub open spec fn digits_value(s: Seq<char>) -> int
    decreases s.len(),
{
    if s.len() == 0 {
        0
    } else {
        digits_value(s.take(s.len() - 1)) * 10 + (s[s.len() - 1] as int - 48)
    }
}

/// A non-empty run of digits, by its value where that is at most `max`.
pub open spec fn parse_digits(s: Seq<char>, max: int) -> Option<int> {
    if s.len() > 0 && all_digits(s) && digits_value(s) <= max {
        Some(digits_value(s))
    } else {
        None
    }
}

/// An unsigned number of at most `max`: digits, with at most one leading `+`.
pub open spec fn parse_unsigned(s: Seq<char>, max: int) -> Option<int> {
    if s.len() > 0 && s[0] == '+' {
        parse_digits(s.skip(1), max)
    } else {
        parse_digits(s, max)
    }
}

/// A number that fits in 64 bits with a sign: digits, with at most one leading
/// `+` or `-`.
pub open spec fn parse_signed(s: Seq<char>) -> Option<int> {
    if s.len() > 0 && s[0] == '-' {
        match parse_digits(s.skip(1), 0x8000_0000_0000_0000) {
            Some(n) => Some(-n),
            None => None,
        }
    } else {
        parse_unsigned(s, 0x7fff_ffff_ffff_ffff)
    }
}

pub proof fn lemma_digits_value_grows(s: Seq<char>, n: int)
    requires
        all_digits(s),
        0 <= n <= s.len(),
    ensures
        0 <= digits_value(s.take(n)) <= digits_value(s),
    decreases s.len(),
{
    if n == s.len() {
        assert(s.take(n) =~= s);
        if n > 0 {
            let t = s.take(n - 1);
            assert forall|i: int| 0 <= i < t.len() implies crate::text::is_digit(#[trigger] t[i]) by {
                assert(crate::text::is_digit(s[i]));
            }
            lemma_digits_value_grows(t, n - 1);
            assert(crate::text::is_digit(s[n - 1]));
        }
    } else {
        let t = s.take(s.len() - 1);
        assert forall|i: int| 0 <= i < t.len() implies crate::text::is_digit(#[trigger] t[i]) by {
            assert(crate::text::is_digit(s[i]));
        }
        lemma_digits_value_grows(t, n);
        assert(t.take(n) =~= s.take(n));
        assert(crate::text::is_digit(s[s.len() - 1]));
    }
}

fn read_digits(v: &[char], max: u64) -> (r: Option<u64>)
    ensures
        (match r {
            Some(n) => parse_digits(v@, max as int) == Some(n as int) && n <= max,
            None => parse_digits(v@, max as int) is None,
        }),
{
    if v.len() == 0 {
        return None;
    }
    let mut acc: u64 = 0;
    let mut i: usize = 0;
    while i < v.len()
        invariant
            i <= v@.len(),
            forall|k: int| 0 <= k < i ==> crate::text::is_digit(#[trigger] v@[k]),
            acc == digits_value(v@.take(i as int)),
            acc <= max,
        decreases v@.len() - i,
    {
        let c = v[i];
        if !('0' <= c && c <= '9') {
            return None;
        }
        let d: u64 = (c as u32 - 48) as u64;
        assert(v@.take(i + 1).take(i as int) =~= v@.take(i as int));
        if acc as u128 * 10 + d as u128 > max as u128 {
            proof {
                if all_digits(v@) {
                    lemma_digits_value_grows(v@, i + 1);
                }
            }
            return None;
        }
        acc = acc * 10 + d;
        i = i + 1;
    }
    assert(v@.take(i as int) =~= v@);
    Some(acc)
}

/// Reads an unsigned number of at most `max`.
pub fn read_unsigned(v: &[char], max: u64) -> (r: Option<u64>)
    ensures
        (match r {
            Some(n) => parse_unsigned(v@, max as int) == Some(n as int) && n <= max,
            None => parse_unsigned(v@, max as int) is None,
        }),
{
    if v.len() > 0 && v[0] == '+' {
        assert(v@.subrange(1, v@.len() as int) =~= v@.skip(1));
        read_digits(slice_subrange(v, 1, v.len()), max)
    } else {
        read_digits(v, max)
    }
}

/// Reads a number that fits in a `u32`.
pub fn read_u32(v: &[char]) -> (r: Option<u32>)
    ensures
        (match r {
            Some(n) => parse_unsigned(v@, u32::MAX as int) == Some(n as int),
            None => parse_unsigned(v@, u32::MAX as int) is None,
        }),
{
    match read_unsigned(v, 0xffff_ffff) {
        Some(n) => Some(n as u32),
        None => None,
    }
}

/// Reads a number that fits in an `i64`.
pub fn read_i64(v: &[char]) -> (r: Option<i64>)
    ensures
        (match r {
            Some(n) => parse_signed(v@) == Some(n as int),
            None => parse_signed(v@) is None,
        }),
{
    if v.len() > 0 && v[0] == '-' {
        assert(v@.subrange(1, v@.len() as int) =~= v@.skip(1));
        match read_digits(slice_subrange(v, 1, v.len()), 0x8000_0000_0000_0000) {
            Some(n) => {
                if n == 0x8000_0000_0000_0000 {
                    Some(i64::MIN)
                } else {
                    Some(-(n as i64))
                }
            },
            None => None,
        }
    } else {
        match read_unsigned(v, 0x7fff_ffff_ffff_ffff) {
            Some(n) => Some(n as i64),
            None => None,
        }
    }
}

/// The value, or zero where there is none.
pub open spec fn or_zero(n: Option<int>) -> int {
    match n {
        Some(v) => v,
        None => 0,
    }
}

// ---------------------------------------------------------------------------
// Fixed-width arithmetic
// ---------------------------------------------------------------------------

/// What a 32-bit counter holds after counting to `n`.
pub open spec fn wrap32(n: int) -> int {
    n % 0x1_0000_0000
}

/// The value of a 64-bit signed difference.
pub open spec fn wrap64(n: int) -> int {
    (n + 0x8000_0000_0000_0000) % 0x1_0000_0000_0000_0000 - 0x8000_0000_0000_0000
}

/// Adding to a counter that has wrapped is adding to the count itself.
pub proof fn lemma_wrap32_add(a: int, b: int)
    ensures
        wrap32(wrap32(a) + b) == wrap32(a + b),
{
}

/// The sum of two counters.
pub fn add32(a: u32, b: u32) -> (r: u32)
    ensures
        r == wrap32(a + b),
{
    a.wrapping_add(b)
}

/// What a counter of the machine's own width holds for the sum of two.
pub open spec fn wrap_size(n: int) -> int {
    if n > usize::MAX {
        n - usize::MAX - 1
    } else {
        n
    }
}

/// The sum of two counters of the machine's own width.
pub fn add_size(a: usize, b: usize) -> (r: usize)
    ensures
        r == wrap_size(a + b),
{
    a.wrapping_add(b)
}

/// The difference of two timestamps.
pub fn sub64(a: i64, b: i64) -> (r: i64)
    ensures
        r == wrap64(a - b),
{
    a.wrapping_sub(b)
}

/// A difference kept within what 64 bits hold.
pub open spec fn clamp64(n: int) -> int {
    if n > i64::MAX {
        i64::MAX as int
    } else if n < i64::MIN {
        i64::MIN as int
    } else {
        n
    }
}

/// The difference of two timestamps, kept within bounds.
pub fn clamped_sub(a: i64, b: i64) -> (r: i64)
    ensures
        r == clamp64(a - b),
{
    let d: i128 = a as i128 - b as i128;
    if d > i64::MAX as i128 {
        i64::MAX
    } else if d < i64::MIN as i128 {
        i64::MIN
    } else {
        d as i64
    }
}

/// An unsigned number read as a signed one of the same width.
pub fn as_signed(n: u64) -> (r: i64)
    ensures
        r == wrap64(n as int),
{
    if n <= 0x7fff_ffff_ffff_ffff {
        n as i64
    } else {
        let over: i64 = (n - 0x8000_0000_0000_0000) as i64;
        i64::MIN + over
    }
}

/// A number is written with its last digit last: the digits in front are those of a tenth
/// of it, and a number below ten is a single digit.
pub proof fn law_a_number_is_written_in_tens(n: int)
    requires
        0 <= n,
    ensures
        decimal(n).len() > 0,
        decimal(n)[decimal(n).len() - 1] as int == '0' as int + n % 10,
        n < 10 ==> decimal(n).len() == 1,
        n >= 10 ==> decimal(n).take(decimal(n).len() - 1) == decimal(n / 10),
{
    if n >= 10 {
        assert(decimal(n).take(decimal(n).len() - 1) =~= decimal(n / 10));
    }
}

/// A number that is written down reads back as itself, and is told apart from any other.
pub proof fn law_a_number_reads_back(n: int, max: int)
    requires
        0 <= n,
    ensures
        all_digits(decimal(n)),
        digits_value(decimal(n)) == n,
        n <= max ==> parse_digits(decimal(n), max) == Some(n),
        n > max ==> parse_digits(decimal(n), max) is None,
        n <= max ==> parse_unsigned(decimal(n), max) == Some(n),
        n <= i64::MAX ==> parse_signed(decimal(n)) == Some(n),
        n <= i64::MAX ==> parse_signed(seq!['-'] + decimal(n)) == Some(-n),
    decreases n,
{
    let s = decimal(n);
    if n >= 10 {
        law_a_number_reads_back(n / 10, max);
        let rest = decimal(n / 10);
        assert(s.take(s.len() - 1) =~= rest);
        assert forall|i: int| 0 <= i < s.len() implies crate::text::is_digit(#[trigger] s[i]) by {
            if i < rest.len() {
                assert(s[i] == rest[i]);
            }
        }
    } else {
        assert(s.take(0) =~= Seq::empty());
        reveal_with_fuel(digits_value, 2);
    }
    assert(crate::text::is_digit(s[0]));
    assert((seq!['-'] + s).skip(1) =~= s);
}

/// Digits are worth ten times what stands in front of the last, and the last.
pub proof fn law_digits_are_worth_their_place(s: Seq<char>, d: int)
    requires
        0 <= d < 10,
    ensures
        digits_value(s.push((48 + d) as char)) == 10 * digits_value(s) + d,
        digits_value(Seq::<char>::empty()) == 0,
{
    assert(s.push((48 + d) as char).take(s.len() as int) =~= s);
}

/// Only a text of digits is a number; a plus in front is allowed where signs are read.
pub proof fn law_only_digits_are_a_number(s: Seq<char>, max: int, i: int)
    ensures
        parse_digits(s, max) is Some ==> s.len() > 0 && parse_digits(s, max)->0 <= max,
        0 <= i < s.len() && !('0' <= s[i] <= '9') ==> parse_digits(s, max) is None,
        s.len() == 0 ==> parse_digits(s, max) is None && parse_unsigned(s, max) is None
            && parse_signed(s) is None,
        s.len() > 0 && s[0] == '+' ==> parse_unsigned(s, max) == parse_digits(s.skip(1), max),
        s.len() > 0 && s[0] != '+' ==> parse_unsigned(s, max) == parse_digits(s, max),
        parse_signed(s) matches Some(v) ==> i64::MIN <= v <= i64::MAX,
{
    if 0 <= i < s.len() && all_digits(s) {
        assert(crate::text::is_digit(s[i]));
    }
    lemma_not_negative(s);
    lemma_not_negative(s.skip(1));
}

proof fn lemma_not_negative(s: Seq<char>)
    ensures
        all_digits(s) ==> digits_value(s) >= 0,
{
    if all_digits(s) {
        lemma_digits_value_grows(s, 0);
    }
}

/// A counter that starts over keeps what fits, and loses its whole width at a time.
pub proof fn law_a_counter_starts_over(n: int)
    ensures
        0 <= n <= u32::MAX ==> wrap32(n) == n,
        wrap32(n + 0x1_0000_0000) == wrap32(n),
        i64::MIN <= n <= i64::MAX ==> wrap64(n) == n,
        wrap64(n + 0x1_0000_0000_0000_0000) == wrap64(n),
        0 <= n <= usize::MAX ==> wrap_size(n) == n,
        wrap_size(usize::MAX + 1) == 0,
        i64::MIN <= n <= i64::MAX ==> clamp64(n) == n,
        i64::MIN <= clamp64(n) <= i64::MAX,
        n > i64::MAX ==> clamp64(n) == i64::MAX,
        n < i64::MIN ==> clamp64(n) == i64::MIN,
{
}

} // verus!
