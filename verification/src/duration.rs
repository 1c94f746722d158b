//! Spans of time as the configuration writes them.

use vstd::prelude::*;
use vstd::slice::slice_subrange;

use crate::number::read_unsigned;
use crate::text::{from_chars, same, to_chars, to_lowercase, trimmed};

verus! {

/// A span of time, to the millisecond.
#[derive(Clone, Copy, Debug, PartialEq, Eq, Structural)]
pub struct Duration {
    pub secs: u64,
    /// Below a thousand.
    pub millis: u64,
}

impl Duration {
    pub fn from_secs(secs: u64) -> (r: Self)
        ensures
            r == (Duration { secs, millis: 0 }),
    {
        Duration { secs, millis: 0 }
    }

    pub fn from_millis(millis: u64) -> (r: Self)
        ensures
            r.secs == millis / 1000,
            r.millis == millis % 1000,
    {
        Duration { secs: millis / 1000, millis: millis % 1000 }
    }

    /// Whole seconds.
    pub fn as_secs(&self) -> (r: u64)
        ensures
            r == self.secs,
    {
        self.secs
    }
}

/// Length of the leading run of digits.
pub open spec fn digit_run(s: Seq<char>) -> int
    decreases s.len(),
{
    if s.len() == 0 || !crate::text::is_digit(s[0]) {
        0
    } else {
        1 + digit_run(s.skip(1))
    }
}

/// How many seconds a unit stands for.
pub open spec fn unit_seconds(unit: Seq<char>) -> Option<int> {
    if unit.len() == 0 || unit == "s"@ || unit == "sec"@ || unit == "secs"@ {
        Some(1)
    } else if unit == "m"@ || unit == "min"@ || unit == "mins"@ {
        Some(60)
    } else if unit == "h"@ || unit == "hr"@ || unit == "hrs"@ {
        Some(3_600)
    } else if unit == "d"@ || unit == "day"@ || unit == "days"@ {
        Some(86_400)
    } else if unit == "w"@ || unit == "wk"@ || unit == "week"@ || unit == "weeks"@ {
        Some(604_800)
    } else if unit == "mo"@ || unit == "month"@ || unit == "months"@ {
        Some(2_592_000)
    } else if unit == "y"@ || unit == "yr"@ || unit == "year"@ || unit == "years"@ {
        Some(31_536_000)
    } else {
        None
    }
}

/// What a span in words means: a number, then a unit. The seconds are counted in
/// 64 bits.
pub open spec fn duration_meaning(s: Seq<char>) -> Option<Duration> {
    let t = crate::text::trim(s);
    let k = digit_run(t);
    let unit = crate::text::lowercase(crate::text::trim(t.skip(k)));
    match crate::number::parse_digits(t.take(k), u64::MAX as int) {
        None => None,
        Some(n) => if unit == "ms"@ {
            Some(Duration { secs: (n / 1000) as u64, millis: (n % 1000) as u64 })
        } else {
            match unit_seconds(unit) {
                Some(f) => Some(
                    Duration { secs: ((n * f) % 0x1_0000_0000_0000_0000) as u64, millis: 0 },
                ),
                None => None,
            }
        },
    }
}

fn run_length(v: &[char]) -> (r: usize)
    ensures
        r == digit_run(v@),
        r <= v@.len(),
        r < v@.len() ==> !crate::text::is_digit(v@[r as int]),
        forall|k: int| 0 <= k < r ==> crate::text::is_digit(#[trigger] v@[k]),
{
    let mut i: usize = 0;
    assert(v@.skip(0) =~= v@);
    while i < v.len() && '0' <= v[i] && v[i] <= '9'
        invariant
            i <= v@.len(),
            digit_run(v@) == i + digit_run(v@.skip(i as int)),
            forall|k: int| 0 <= k < i ==> crate::text::is_digit(#[trigger] v@[k]),
        decreases v@.len() - i,
    {
        assert(v@.skip(i as int).skip(1) =~= v@.skip(i + 1));
        i = i + 1;
    }
    i
}

fn seconds_of(unit: &str) -> (r: Option<u64>)
    ensures
        (match r {
            Some(n) => unit_seconds(unit@) == Some(n as int),
            None => unit_seconds(unit@) is None,
        }),
{
    if to_chars(unit).len() == 0 || same(unit, "s") || same(unit, "sec") || same(unit, "secs") {
        Some(1)
    } else if same(unit, "m") || same(unit, "min") || same(unit, "mins") {
        Some(60)
    } else if same(unit, "h") || same(unit, "hr") || same(unit, "hrs") {
        Some(3_600)
    } else if same(unit, "d") || same(unit, "day") || same(unit, "days") {
        Some(86_400)
    } else if same(unit, "w") || same(unit, "wk") || same(unit, "week") || same(unit, "weeks") {
        Some(604_800)
    } else if same(unit, "mo") || same(unit, "month") || same(unit, "months") {
        Some(2_592_000)
    } else if same(unit, "y") || same(unit, "yr") || same(unit, "year") || same(unit, "years") {
        Some(31_536_000)
    } else {
        None
    }
}

/// Parse a short duration like `500ms`, `30s`, `5m`, `2h`, `7d`. A bare number
/// is seconds.
pub fn parse_duration(input: &str) -> (r: Option<Duration>)
    ensures
        r == duration_meaning(input@),
{
    let v = to_chars(input);
    let t = trimmed(v.as_slice());
    let k: usize = run_length(t);
    let digits = slice_subrange(t, 0, k);
    let tail = slice_subrange(t, k, t.len());
    assert(digits@ =~= t@.take(k as int));
    assert(tail@ =~= t@.skip(k as int));
    let unit = from_chars(to_lowercase(trimmed(tail)).as_slice());
    let n: u64 = match read_unsigned(digits, u64::MAX) {
        Some(n) => {
            proof {
                if digits@.len() > 0 {
                    assert(crate::text::is_digit(t@[0]));
                    assert(digits@[0] == t@[0]);
                }
            }
            n
        },
        None => {
            proof {
                if digits@.len() > 0 {
                    assert(crate::text::is_digit(t@[0]));
                    assert(digits@[0] == t@[0]);
                }
            }
            return None;
        },
    };
    // Milliseconds are the one sub-second case worth having: the watcher's
    // debounce window is naturally expressed that way.
    if same(unit.as_str(), "ms") {
        return Some(Duration::from_millis(n));
    }
    match seconds_of(unit.as_str()) {
        Some(f) => Some(Duration::from_secs(n.wrapping_mul(f))),
        None => None,
    }
}

/// Units are worth each other: a minute sixty seconds, an hour sixty minutes, a day
/// twenty-four hours, a week seven days, a month thirty and a year three hundred and
/// sixty-five; a number alone is in seconds.
pub proof fn law_units_are_worth_each_other()
    ensures
        unit_seconds("s"@) == Some(1int),
        unit_seconds("m"@) == Some(60 * unit_seconds("s"@)->0),
        unit_seconds("h"@) == Some(60 * unit_seconds("m"@)->0),
        unit_seconds("d"@) == Some(24 * unit_seconds("h"@)->0),
        unit_seconds("w"@) == Some(7 * unit_seconds("d"@)->0),
        unit_seconds("mo"@) == Some(30 * unit_seconds("d"@)->0),
        unit_seconds("y"@) == Some(365 * unit_seconds("d"@)->0),
        unit_seconds(Seq::empty()) == unit_seconds("s"@),
        unit_seconds("sec"@) == unit_seconds("s"@) && unit_seconds("secs"@) == unit_seconds("s"@),
        unit_seconds("min"@) == unit_seconds("m"@) && unit_seconds("mins"@) == unit_seconds("m"@),
        unit_seconds("hr"@) == unit_seconds("h"@) && unit_seconds("hrs"@) == unit_seconds("h"@),
        unit_seconds("day"@) == unit_seconds("d"@) && unit_seconds("days"@) == unit_seconds("d"@),
        unit_seconds("wk"@) == unit_seconds("w"@) && unit_seconds("week"@) == unit_seconds("w"@)
            && unit_seconds("weeks"@) == unit_seconds("w"@),
        unit_seconds("month"@) == unit_seconds("mo"@) && unit_seconds("months"@) == unit_seconds(
            "mo"@,
        ),
        unit_seconds("yr"@) == unit_seconds("y"@) && unit_seconds("year"@) == unit_seconds("y"@)
            && unit_seconds("years"@) == unit_seconds("y"@),
{
    reveal_strlit("s");
    reveal_strlit("sec");
    reveal_strlit("secs");
    reveal_strlit("m");
    reveal_strlit("min");
    reveal_strlit("mins");
    reveal_strlit("h");
    reveal_strlit("hr");
    reveal_strlit("hrs");
    reveal_strlit("d");
    reveal_strlit("day");
    reveal_strlit("days");
    reveal_strlit("w");
    reveal_strlit("wk");
    reveal_strlit("week");
    reveal_strlit("weeks");
    reveal_strlit("mo");
    reveal_strlit("month");
    reveal_strlit("months");
    reveal_strlit("y");
    reveal_strlit("yr");
    reveal_strlit("year");
    reveal_strlit("years");
    lemma_apart("m"@);
    lemma_apart("h"@);
    lemma_apart("d"@);
    lemma_apart("w"@);
    lemma_apart("mo"@);
    lemma_apart("y"@);
    lemma_apart("min"@);
    lemma_apart("mins"@);
    lemma_apart("hr"@);
    lemma_apart("hrs"@);
    lemma_apart("day"@);
    lemma_apart("days"@);
    lemma_apart("wk"@);
    lemma_apart("week"@);
    lemma_apart("weeks"@);
    lemma_apart("month"@);
    lemma_apart("months"@);
    lemma_apart("yr"@);
    lemma_apart("year"@);
    lemma_apart("years"@);
}

/// Words that differ in length or in a letter are different words.
proof fn lemma_apart(u: Seq<char>)
    requires
        u.len() > 0,
    ensures
        u[0] != 's' ==> u != "s"@ && u != "sec"@ && u != "secs"@,
        u[0] != 'm' ==> u != "m"@ && u != "min"@ && u != "mins"@ && u != "mo"@ && u != "month"@ && u
            != "months"@,
        u[0] != 'h' ==> u != "h"@ && u != "hr"@ && u != "hrs"@,
        u[0] != 'd' ==> u != "d"@ && u != "day"@ && u != "days"@,
        u[0] != 'w' ==> u != "w"@ && u != "wk"@ && u != "week"@ && u != "weeks"@,
        u[0] != 'y' ==> u != "y"@ && u != "yr"@ && u != "year"@ && u != "years"@,
        u.len() >= 2 && u[1] == 'o' ==> u != "m"@ && u != "min"@ && u != "mins"@,
{
    reveal_strlit("s");
    reveal_strlit("sec");
    reveal_strlit("secs");
    reveal_strlit("m");
    reveal_strlit("min");
    reveal_strlit("mins");
    reveal_strlit("h");
    reveal_strlit("hr");
    reveal_strlit("hrs");
    reveal_strlit("d");
    reveal_strlit("day");
    reveal_strlit("days");
    reveal_strlit("w");
    reveal_strlit("wk");
    reveal_strlit("week");
    reveal_strlit("weeks");
    reveal_strlit("mo");
    reveal_strlit("month");
    reveal_strlit("months");
    reveal_strlit("y");
    reveal_strlit("yr");
    reveal_strlit("year");
    reveal_strlit("years");
}

/// A duration is its number times its unit, in whatever case and with blanks between; in
/// thousandths it keeps what is left of a second. What has no number or no known unit is no
/// duration.
pub proof fn law_a_duration_is_number_times_unit(n: int, unit: Seq<char>, blanks: Seq<char>)
    requires
        0 <= n <= u64::MAX,
        unit.len() > 0,
        forall|i: int|
            0 <= i < unit.len() ==> 'a' <= #[trigger] unit[i] <= 'z' || 'A' <= unit[i] <= 'Z',
        forall|i: int| 0 <= i < blanks.len() ==> #[trigger] blanks[i] == ' ',
    ensures
        ({
            let d = duration_meaning(crate::number::decimal(n) + blanks + unit);
            let low = crate::text::lowercase(unit);
            &&& low == "ms"@ ==> d is Some && d->0.secs * 1000 + d->0.millis == n && d->0.millis
                < 1000
            &&& low != "ms"@ && unit_seconds(low) is Some && n * unit_seconds(low)->0 <= u64::MAX
                ==> d is Some && d->0.secs == n * unit_seconds(low)->0 && d->0.millis == 0
            &&& low != "ms"@ && unit_seconds(low) is None ==> d is None
            &&& duration_meaning(unit) is None
            &&& duration_meaning(crate::number::decimal(n)) == Some(
                Duration { secs: n as u64, millis: 0 },
            )
        }),
{
    let digits = crate::number::decimal(n);
    crate::number::law_a_number_reads_back(n, u64::MAX as int);
    crate::number::law_a_number_is_written_in_tens(n);
    assert(crate::text::is_digit(digits[0]));
    let tail = blanks + unit;
    let s = digits + blanks + unit;
    assert(s =~= digits + tail);
    let last = unit[unit.len() - 1];
    assert('a' <= last <= 'z' || 'A' <= last <= 'Z');
    assert(s[0] == digits[0] && s[s.len() - 1] == last);
    crate::text::lemma_trim_is(s);
    assert(!crate::text::is_digit(tail[0])) by {
        if blanks.len() > 0 {
            assert(tail[0] == blanks[0]);
        } else {
            assert(tail[0] == unit[0]);
        }
    }
    lemma_run(digits, tail);
    assert(s.take(digits.len() as int) =~= digits);
    assert(s.skip(digits.len() as int) =~= tail);
    assert('a' <= unit[0] <= 'z' || 'A' <= unit[0] <= 'Z');
    assert forall|i: int| 0 <= i < blanks.len() implies crate::text::is_whitespace(
        #[trigger] blanks[i],
    ) by {
        assert(blanks[i] == ' ');
    }
    crate::text::lemma_trim_around(blanks, unit, Seq::empty());
    assert(blanks + unit + Seq::<char>::empty() =~= tail);
    crate::text::lemma_trim_is(unit);
    lemma_run(Seq::empty(), unit);
    assert(Seq::<char>::empty() + unit =~= unit);
    assert(unit.take(0).len() == 0);
    let none = Seq::<char>::empty();
    assert(crate::text::is_digit(digits[digits.len() - 1]));
    crate::text::lemma_trim_is(digits);
    lemma_run(digits, none);
    assert(digits + none =~= digits);
    assert(digits.take(digits.len() as int) =~= digits);
    assert(digits.skip(digits.len() as int) =~= none);
    assert(crate::text::lowercase(crate::text::trim(none)) =~= none);
    reveal_strlit("ms");
    if let Some(f) = unit_seconds(crate::text::lowercase(unit)) {
        assert(0 <= n * f) by (nonlinear_arith)
            requires
                0 <= n,
                0 <= f,
        ;
        if n * f <= u64::MAX {
            assert((n * f) % 0x1_0000_0000_0000_0000 == n * f);
        }
    }
    assert(unit_seconds(none) == Some(1int));
    assert(n * 1 == n);
}

proof fn lemma_run(digits: Seq<char>, tail: Seq<char>)
    requires
        crate::number::all_digits(digits),
        tail.len() > 0 ==> !crate::text::is_digit(tail[0]),
    ensures
        digit_run(digits + tail) == digits.len(),
    decreases digits.len(),
{
    let s = digits + tail;
    if digits.len() > 0 {
        assert(crate::text::is_digit(digits[0]));
        assert(s[0] == digits[0]);
        let rest = digits.skip(1);
        assert forall|i: int| 0 <= i < rest.len() implies crate::text::is_digit(
            #[trigger] rest[i],
        ) by {
            assert(rest[i] == digits[i + 1]);
        }
        lemma_run(rest, tail);
        assert(s.skip(1) =~= rest + tail);
    } else {
        assert(s =~= tail);
    }
}

} // verus!
