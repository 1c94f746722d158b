//! Small formatting helpers shared by the tables and the detail view.

use vstd::prelude::*;

use crate::number::{push_decimal, sub64, to_decimal};
use crate::text::{join_texts, push_chars, to_chars};

use vstd::slice::slice_subrange;

verus! {

/// How long ago `then` was: never before, and nothing before the clock started.
pub open spec fn elapsed(then: int, now: int) -> int {
    let d = crate::number::wrap64(now - then);
    if d < 0 {
        0
    } else {
        d
    }
}

/// A span in its largest unit, rounded down. Weeks run to five; months, of thirty
/// days, take over from the sixth week on.
pub open spec fn span_text(secs: int) -> Seq<char> {
    if secs < 60 {
        "now"@
    } else if secs < 3_600 {
        crate::number::decimal(secs / 60) + "m"@
    } else if secs < 86_400 {
        crate::number::decimal(secs / 3_600) + "h"@
    } else if secs < 604_800 {
        crate::number::decimal(secs / 86_400) + "d"@
    } else if secs < 3_628_800 {
        crate::number::decimal(secs / 604_800) + "w"@
    } else if secs < 31_536_000 {
        crate::number::decimal(secs / 2_592_000) + "mo"@
    } else {
        crate::number::decimal(secs / 31_536_000) + "y"@
    }
}

pub open spec fn age_text(then: int, now: int) -> Seq<char> {
    if then <= 0 {
        "-"@
    } else {
        span_text(elapsed(then, now))
    }
}

fn with_unit(n: i64, unit: &str) -> (r: String)
    requires
        n >= 0,
    ensures
        r@ == crate::number::decimal(n as int) + unit@,
{
    let mut out = to_decimal(n as u64);
    out.append(unit);
    out
}

/// Compact relative age: `4m`, `3h`, `6d`, `5w`, `2y`. Deliberately short,
/// because it lives in a narrow column next to 500 other rows.
pub fn age(then: i64, now: i64) -> (r: String)
    ensures
        r@ == age_text(then as int, now as int),
{
    if then <= 0 {
        return "-".to_owned();
    }
    let d: i64 = sub64(now, then);
    let secs: i64 = if d < 0 {
        0
    } else {
        d
    };
    if secs < 60 {
        "now".to_owned()
    } else if secs < 3_600 {
        with_unit(secs / 60, "m")
    } else if secs < 86_400 {
        with_unit(secs / 3_600, "h")
    } else if secs < 604_800 {
        with_unit(secs / 86_400, "d")
    } else if secs < 3_628_800 {
        with_unit(secs / 604_800, "w")
    } else if secs < 31_536_000 {
        with_unit(secs / 2_592_000, "mo")
    } else {
        with_unit(secs / 31_536_000, "y")
    }
}

/// A sign and a count, where there is anything to count.
pub open spec fn change_part(sign: Seq<char>, n: int) -> Seq<Seq<char>> {
    if n > 0 {
        seq![sign + crate::number::decimal(n)]
    } else {
        Seq::empty()
    }
}

pub open spec fn changes_text(staged: int, unstaged: int, untracked: int, conflicts: int) -> Seq<
    char,
> {
    let parts = change_part("!"@, conflicts) + change_part("+"@, staged) + change_part(
        "~"@,
        unstaged,
    ) + change_part("?"@, untracked);
    if parts.len() == 0 {
        "·"@
    } else {
        crate::text::join(parts, " "@)
    }
}

fn push_part(parts: &mut Vec<String>, sign: &str, n: u32)
    ensures
        crate::text::texts(final(parts)@) == crate::text::texts(old(parts)@) + change_part(
            sign@,
            n as int,
        ),
{
    if n > 0 {
        let mut part = sign.to_owned();
        push_decimal(&mut part, n as u64);
        parts.push(part);
    }
    assert(crate::text::texts(parts@) =~= crate::text::texts(old(parts)@) + change_part(
        sign@,
        n as int,
    ));
}

/// Render the change counts the way git users read them: `+2 ~5 ?1`, with
/// staged, unstaged and untracked. Empty stays visually quiet.
pub fn changes(staged: u32, unstaged: u32, untracked: u32, conflicts: u32) -> (r: String)
    ensures
        r@ == changes_text(staged as int, unstaged as int, untracked as int, conflicts as int),
{
    let mut parts: Vec<String> = Vec::new();
    push_part(&mut parts, "!", conflicts);
    push_part(&mut parts, "+", staged);
    push_part(&mut parts, "~", unstaged);
    push_part(&mut parts, "?", untracked);
    proof {
        assert(Seq::<Seq<char>>::empty() + change_part("!"@, conflicts as int) =~= change_part(
            "!"@,
            conflicts as int,
        ));
    }
    assert(crate::text::texts(parts@).len() == parts@.len());
    if parts.len() == 0 {
        "·".to_owned()
    } else {
        join_texts(parts.as_slice(), " ")
    }
}

/// The text where it fits; as much of it as fits in front of an ellipsis where
/// it does not.
pub open spec fn truncated(s: Seq<char>, width: int) -> Seq<char> {
    if width <= 0 {
        Seq::empty()
    } else if s.len() <= width {
        s
    } else {
        s.take(width - 1).push('…')
    }
}

/// Truncate to a display width, with an ellipsis when it doesn't fit.
pub fn truncate(text: &str, width: usize) -> (r: String)
    ensures
        r@ == truncated(text@, width as int),
{
    if width == 0 {
        return String::new();
    }
    let v = to_chars(text);
    if v.len() <= width {
        return text.to_owned();
    }
    let mut out = String::new();
    push_chars(&mut out, slice_subrange(v.as_slice(), 0, width - 1));
    out.push('…');
    out
}

/// A truncated text is never wider than asked for, and keeps the text itself
/// where that fits.
pub proof fn law_truncation_keeps_width(s: Seq<char>, width: int)
    requires
        width >= 0,
    ensures
        truncated(s, width).len() <= width,
        s.len() <= width ==> truncated(s, width) == s,
        s.len() > width ==> truncated(s, width).len() == width,
        truncated(truncated(s, width), width) == truncated(s, width),
{
    if width == 0 && s.len() == 0 {
        assert(s =~= Seq::empty());
    }
}

pub open spec fn count_text(n: int) -> Seq<char> {
    if n == 0 {
        "·"@
    } else {
        crate::number::decimal(n)
    }
}

/// A count, or a quiet marker when it's zero.
pub fn count(n: u32) -> (r: String)
    ensures
        r@ == count_text(n as int),
{
    if n == 0 {
        "·".to_owned()
    } else {
        to_decimal(n as u64)
    }
}

pub open spec fn marked_text(cell: Seq<char>, starred: bool) -> Seq<char> {
    if starred {
        cell + "*"@
    } else {
        cell
    }
}

/// A cell with a trailing `*` where there is more to it than it shows.
pub fn marked(cell: String, starred: bool) -> (r: String)
    ensures
        r@ == marked_text(cell@, starred),
{
    let mut out = cell;
    if starred {
        out.append("*");
    }
    out
}

/// A measured span of time: whole milliseconds, and its length in seconds
/// rounded to one decimal place, as text.
#[derive(Clone, Debug)]
pub struct Elapsed {
    pub millis: u64,
    pub seconds: String,
}

impl Elapsed {
    pub open spec fn text(&self) -> Seq<char> {
        if self.millis < 1_000 {
            crate::number::decimal(self.millis as int) + "ms"@
        } else {
            self.seconds@ + "s"@
        }
    }
}

/// `840ms`, or `12.3s` from one second on.
pub fn duration(d: &Elapsed) -> (r: String)
    ensures
        r@ == d.text(),
{
    let mut out = if d.millis < 1_000 {
        to_decimal(d.millis)
    } else {
        d.seconds.clone()
    };
    if d.millis < 1_000 {
        out.append("ms");
    } else {
        out.append("s");
    }
    out
}

/// An age is given in its largest unit, rounded down: what it names is no longer than the
/// time that went by, and one more would be.
pub proof fn law_an_age_is_rounded_down(then: int, now: int, k: int)
    requires
        0 < then <= now <= i64::MAX,
        0 <= k,
    ensures
        ({
            let e = now - then;
            &&& e < 60 ==> age_text(then, now) == "now"@
            &&& 60 <= e < 3_600 && k * 60 <= e < k * 60 + 60 ==> age_text(then, now)
                == crate::number::decimal(k) + "m"@
            &&& 3_600 <= e < 86_400 && k * 3_600 <= e < k * 3_600 + 3_600 ==> age_text(then, now)
                == crate::number::decimal(k) + "h"@
            &&& 86_400 <= e < 604_800 && k * 86_400 <= e < k * 86_400 + 86_400 ==> age_text(
                then,
                now,
            ) == crate::number::decimal(k) + "d"@
            &&& 604_800 <= e < 3_628_800 && k * 604_800 <= e < k * 604_800 + 604_800 ==> age_text(
                then,
                now,
            ) == crate::number::decimal(k) + "w"@
            &&& 3_628_800 <= e < 31_536_000 && k * 2_592_000 <= e < k * 2_592_000 + 2_592_000
                ==> age_text(then, now) == crate::number::decimal(k) + "mo"@
            &&& 31_536_000 <= e && k * 31_536_000 <= e < k * 31_536_000 + 31_536_000 ==> age_text(
                then,
                now,
            ) == crate::number::decimal(k) + "y"@
        }),
{
    assert(elapsed(then, now) == now - then);
}

/// What never happened has a dash for its age, and what is yet to come happens now.
pub proof fn law_an_age_needs_a_time(then: int, now: int)
    ensures
        then <= 0 ==> age_text(then, now) == "-"@,
        0 < now < then <= i64::MAX ==> age_text(then, now) == "now"@,
{
}

/// Changes are counted by kind behind a mark of their own: conflicts first, then staged,
/// unstaged and untracked, a space between them; a kind that has none is left out, and a
/// dot stands for nothing at all.
pub proof fn law_changes_are_told_by_kind(s: int, u: int, n: int, c: int)
    requires
        0 <= s,
        0 <= u,
        0 <= n,
        0 <= c,
    ensures
        s == 0 && u == 0 && n == 0 && c == 0 ==> changes_text(s, u, n, c) == "·"@,
        c > 0 ==> changes_text(s, u, n, c) == seq!['!'] + crate::number::decimal(c) + (if s + u + n
            > 0 {
            seq![' '] + changes_text(s, u, n, 0)
        } else {
            Seq::empty()
        }),
        c == 0 && s > 0 ==> changes_text(s, u, n, c) == seq!['+'] + crate::number::decimal(s) + (
        if u + n > 0 {
            seq![' '] + changes_text(0, u, n, 0)
        } else {
            Seq::empty()
        }),
        c == 0 && s == 0 && u > 0 ==> changes_text(s, u, n, c) == seq!['~']
            + crate::number::decimal(u) + (if n > 0 {
            seq![' '] + changes_text(0, 0, n, 0)
        } else {
            Seq::empty()
        }),
        c == 0 && s == 0 && u == 0 && n > 0 ==> changes_text(s, u, n, c) == seq!['?']
            + crate::number::decimal(n),
{
    reveal_strlit("!");
    reveal_strlit("+");
    reveal_strlit("~");
    reveal_strlit("?");
    reveal_strlit(" ");
    assert("!"@ =~= seq!['!']);
    assert("+"@ =~= seq!['+']);
    assert("~"@ =~= seq!['~']);
    assert("?"@ =~= seq!['?']);
    assert(" "@ =~= seq![' ']);
    let none = Seq::<Seq<char>>::empty();
    let (pc, ps, pu, pn) = (
        change_part("!"@, c),
        change_part("+"@, s),
        change_part("~"@, u),
        change_part("?"@, n),
    );
    let parts = pc + ps + pu + pn;
    if c > 0 {
        let rest = change_part("!"@, 0) + ps + pu + pn;
        assert(parts =~= pc + rest);
        lemma_join_front("!"@ + crate::number::decimal(c), rest, " "@);
        assert(rest.len() > 0 <==> s + u + n > 0);
    } else if s > 0 {
        let rest = change_part("!"@, 0) + change_part("+"@, 0) + pu + pn;
        assert(parts =~= ps + rest);
        lemma_join_front("+"@ + crate::number::decimal(s), rest, " "@);
        assert(rest.len() > 0 <==> u + n > 0);
    } else if u > 0 {
        let rest = change_part("!"@, 0) + change_part("+"@, 0) + change_part("~"@, 0) + pn;
        assert(parts =~= pu + rest);
        lemma_join_front("~"@ + crate::number::decimal(u), rest, " "@);
        assert(rest.len() > 0 <==> n > 0);
    } else if n > 0 {
        assert(parts =~= pn);
    }
}

proof fn lemma_join_front(first: Seq<char>, rest: Seq<Seq<char>>, sep: Seq<char>)
    ensures
        crate::text::join(seq![first] + rest, sep) =~= first + (if rest.len() > 0 {
            sep + crate::text::join(rest, sep)
        } else {
            Seq::empty()
        }),
    decreases rest.len(),
{
    let all = seq![first] + rest;
    if rest.len() == 0 {
        assert(all =~= seq![first]);
    } else {
        let fewer = rest.take(rest.len() - 1);
        let last = rest[rest.len() - 1];
        assert(all.take(all.len() - 1) =~= seq![first] + fewer);
        assert(all[all.len() - 1] == last);
        lemma_join_front(first, fewer, sep);
        if fewer.len() > 0 {
            assert(crate::text::join(rest, sep) == crate::text::join(fewer, sep) + sep + last);
        } else {
            assert(crate::text::join(rest, sep) == last);
        }
    }
}

/// What is cut keeps its start and says with an ellipsis that there was more.
pub proof fn law_what_is_cut_keeps_its_start(s: Seq<char>, width: int)
    ensures
        0 <= s.len() <= width ==> truncated(s, width) == s,
        0 < width < s.len() ==> truncated(s, width) == s.take(width - 1) + seq!['…'],
        width <= 0 ==> truncated(s, width).len() == 0,
{
    if 0 < width < s.len() {
        assert(truncated(s, width) =~= s.take(width - 1) + seq!['…']);
    }
}

/// A count is its number, but a dot for none; and a star says that there is more
/// elsewhere.
pub proof fn law_a_count_stays_quiet_about_none(n: int, cell: Seq<char>)
    requires
        0 <= n,
    ensures
        n == 0 ==> count_text(n) == "·"@,
        n > 0 ==> count_text(n) == crate::number::decimal(n),
        marked_text(cell, true) == cell + seq!['*'],
        marked_text(cell, false) == cell,
{
    reveal_strlit("*");
    assert("*"@ =~= seq!['*']);
}

} // verus!
