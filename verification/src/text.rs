//! Text as sequences of characters.
//!
//! Every parser and every table in this crate works on `[char]` slices; this
//! module holds the spec functions that say what trimming, splitting, searching,
//! number parsing and number rendering mean, and the executable functions that
//! are proved against them.

use vstd::prelude::*;
use vstd::slice::slice_subrange;

verus! {

/// `String::push`: the character goes to the end of the string.
pub assume_specification[ String::push ](s: &mut String, c: char)
    ensures
        final(s)@ == old(s)@.push(c),
;

// ---------------------------------------------------------------------------
// Conversions
// ---------------------------------------------------------------------------

/// The character sequences held by a vector of character vectors.
pub open spec fn views(v: Seq<Vec<char>>) -> Seq<Seq<char>> {
    v.map_values(|x: Vec<char>| x@)
}

/// The character sequences held by a vector of strings.
pub open spec fn texts(v: Seq<String>) -> Seq<Seq<char>> {
    v.map_values(|x: String| x@)
}

/// The characters of a string, in order.
pub fn to_chars(s: &str) -> (r: Vec<char>)
    ensures
        r@ == s@,
{
    let mut out: Vec<char> = Vec::new();
    for c in it: s.chars()
        invariant
            out@ == it.seq().take(it.index() as int),
            it.seq() == s@,
    {
        out.push(c);
    }
    out
}

/// A string holding exactly these characters.
pub fn from_chars(v: &[char]) -> (r: String)
    ensures
        r@ == v@,
{
    let mut out = String::new();
    push_chars(&mut out, v);
    out
}

/// Appends these characters to a string.
pub fn push_chars(out: &mut String, v: &[char])
    ensures
        final(out)@ == old(out)@ + v@,
{
    let mut i: usize = 0;
    while i < v.len()
        invariant
            i <= v@.len(),
            out@ == old(out)@ + v@.take(i as int),
        decreases v@.len() - i,
    {
        out.push(v[i]);
        i = i + 1;
    }
}

pub fn copy_chars(v: &[char]) -> (r: Vec<char>)
    ensures
        r@ == v@,
{
    let mut out: Vec<char> = Vec::new();
    let mut i: usize = 0;
    while i < v.len()
        invariant
            i <= v@.len(),
            out@ == v@.take(i as int),
        decreases v@.len() - i,
    {
        out.push(v[i]);
        i = i + 1;
    }
    out
}

/// Whether two character slices hold the same text.
pub fn same_chars(a: &[char], b: &[char]) -> (r: bool)
    ensures
        r == (a@ == b@),
{
    if a.len() != b.len() {
        return false;
    }
    let mut i: usize = 0;
    while i < a.len()
        invariant
            i <= a@.len(),
            a@.len() == b@.len(),
            forall|k: int| 0 <= k < i ==> a@[k] == b@[k],
        decreases a@.len() - i,
    {
        if a[i] != b[i] {
            return false;
        }
        i = i + 1;
    }
    assert(a@ =~= b@);
    true
}

/// Whether two strings hold the same text.
pub fn same(a: &str, b: &str) -> (r: bool)
    ensures
        r == (a@ == b@),
{
    let x = to_chars(a);
    let y = to_chars(b);
    same_chars(x.as_slice(), y.as_slice())
}

// ---------------------------------------------------------------------------
// Characters
// ---------------------------------------------------------------------------

/// Unicode `White_Space`.
pub open spec fn is_whitespace(c: char) -> bool {
    let n = c as u32;
    ||| 0x09 <= n <= 0x0d
    ||| n == 0x20
    ||| n == 0x85
    ||| n == 0xa0
    ||| n == 0x1680
    ||| 0x2000 <= n <= 0x200a
    ||| n == 0x2028
    ||| n == 0x2029
    ||| n == 0x202f
    ||| n == 0x205f
    ||| n == 0x3000
}

pub fn whitespace(c: char) -> (r: bool)
    ensures
        r == is_whitespace(c),
{
    let n: u32 = c as u32;
    (0x09 <= n && n <= 0x0d) || n == 0x20 || n == 0x85 || n == 0xa0 || n == 0x1680
        || (0x2000 <= n && n <= 0x200a) || n == 0x2028 || n == 0x2029 || n == 0x202f || n == 0x205f
        || n == 0x3000
}

pub open spec fn is_digit(c: char) -> bool {
    '0' <= c <= '9'
}

pub open spec fn is_alphanumeric(c: char) -> bool {
    is_digit(c) || 'a' <= c <= 'z' || 'A' <= c <= 'Z'
}

/// ASCII lower case; every other character stays itself.
pub open spec fn lower(c: char) -> char {
    if 'A' <= c <= 'Z' {
        (c as u32 + 32) as char
    } else {
        c
    }
}

/// ASCII upper case; every other character stays itself.
pub open spec fn upper(c: char) -> char {
    if 'a' <= c <= 'z' {
        (c as u32 - 32) as char
    } else {
        c
    }
}

pub fn lower_char(c: char) -> (r: char)
    ensures
        r == lower(c),
{
    if 'A' <= c && c <= 'Z' {
        (c as u8 + 32) as char
    } else {
        c
    }
}

pub fn upper_char(c: char) -> (r: char)
    ensures
        r == upper(c),
{
    if 'a' <= c && c <= 'z' {
        (c as u8 - 32) as char
    } else {
        c
    }
}

/// The text in ASCII lower case.
pub open spec fn lowercase(s: Seq<char>) -> Seq<char> {
    s.map_values(|c: char| lower(c))
}

/// The text in ASCII upper case.
pub open spec fn uppercase(s: Seq<char>) -> Seq<char> {
    s.map_values(|c: char| upper(c))
}

/// Every `from` turned into `to`.
pub open spec fn replaced(s: Seq<char>, from: char, to: char) -> Seq<char> {
    s.map_values(|c: char| if c == from { to } else { c })
}

pub fn to_lowercase(v: &[char]) -> (r: Vec<char>)
    ensures
        r@ == lowercase(v@),
{
    let mut out: Vec<char> = Vec::new();
    let mut i: usize = 0;
    while i < v.len()
        invariant
            i <= v@.len(),
            out@ == lowercase(v@.take(i as int)),
        decreases v@.len() - i,
    {
        out.push(lower_char(v[i]));
        i = i + 1;
    }
    assert(v@.take(i as int) =~= v@);
    out
}

pub fn to_uppercase(v: &[char]) -> (r: Vec<char>)
    ensures
        r@ == uppercase(v@),
{
    let mut out: Vec<char> = Vec::new();
    let mut i: usize = 0;
    while i < v.len()
        invariant
            i <= v@.len(),
            out@ == uppercase(v@.take(i as int)),
        decreases v@.len() - i,
    {
        out.push(upper_char(v[i]));
        i = i + 1;
    }
    assert(v@.take(i as int) =~= v@);
    out
}

pub fn replace_char(v: &[char], from: char, to: char) -> (r: Vec<char>)
    ensures
        r@ == replaced(v@, from, to),
{
    let mut out: Vec<char> = Vec::new();
    let mut i: usize = 0;
    while i < v.len()
        invariant
            i <= v@.len(),
            out@ == replaced(v@.take(i as int), from, to),
        decreases v@.len() - i,
    {
        out.push(
            if v[i] == from {
                to
            } else {
                v[i]
            },
        );
        i = i + 1;
    }
    assert(v@.take(i as int) =~= v@);
    out
}

/// Whether two texts are equal up to ASCII case.
pub fn same_ignoring_case(a: &str, b: &str) -> (r: bool)
    ensures
        r == (lowercase(a@) == lowercase(b@)),
{
    let x = to_lowercase(to_chars(a).as_slice());
    let y = to_lowercase(to_chars(b).as_slice());
    same_chars(x.as_slice(), y.as_slice())
}

// ---------------------------------------------------------------------------
// Trimming
// ---------------------------------------------------------------------------

pub open spec fn trim_start(s: Seq<char>) -> Seq<char>
    decreases s.len(),
{
    if s.len() > 0 && is_whitespace(s[0]) {
        trim_start(s.skip(1))
    } else {
        s
    }
}

pub open spec fn trim_end(s: Seq<char>) -> Seq<char>
    decreases s.len(),
{
    if s.len() > 0 && is_whitespace(s[s.len() - 1]) {
        trim_end(s.take(s.len() - 1))
    } else {
        s
    }
}

/// Leading and trailing white space removed.
pub open spec fn trim(s: Seq<char>) -> Seq<char> {
    trim_end(trim_start(s))
}

/// A text that neither starts nor ends with white space is not trimmed.
pub proof fn lemma_trim_is(s: Seq<char>)
    requires
        s.len() > 0 ==> !is_whitespace(s[0]) && !is_whitespace(s[s.len() - 1]),
    ensures
        trim(s) == s,
{
}

/// White space around a text is all that trimming takes away.
pub proof fn lemma_trim_around(front: Seq<char>, s: Seq<char>, back: Seq<char>)
    requires
        s.len() > 0,
        !is_whitespace(s[0]),
        !is_whitespace(s[s.len() - 1]),
        forall|i: int| 0 <= i < front.len() ==> is_whitespace(#[trigger] front[i]),
        forall|i: int| 0 <= i < back.len() ==> is_whitespace(#[trigger] back[i]),
    ensures
        trim(front + s + back) == s,
    decreases front.len() + back.len(),
{
    let whole = front + s + back;
    if front.len() > 0 {
        assert(whole[0] == front[0]);
        assert(whole.skip(1) =~= front.skip(1) + s + back);
        lemma_trim_around(front.skip(1), s, back);
    } else {
        assert(whole[0] == s[0]);
        if back.len() > 0 {
            let less = back.take(back.len() - 1);
            assert(whole[whole.len() - 1] == back[back.len() - 1]);
            assert(whole.take(whole.len() - 1) =~= front + s + less);
            lemma_trim_around(front, s, less);
            assert((front + s + less)[0] == s[0]);
        } else {
            assert(whole =~= s);
        }
    }
}

/// Every leading `c` removed.
pub open spec fn trim_start_char(s: Seq<char>, c: char) -> Seq<char>
    decreases s.len(),
{
    if s.len() > 0 && s[0] == c {
        trim_start_char(s.skip(1), c)
    } else {
        s
    }
}

/// Every trailing `c` removed.
pub open spec fn trim_end_char(s: Seq<char>, c: char) -> Seq<char>
    decreases s.len(),
{
    if s.len() > 0 && s[s.len() - 1] == c {
        trim_end_char(s.take(s.len() - 1), c)
    } else {
        s
    }
}

pub open spec fn trim_char(s: Seq<char>, c: char) -> Seq<char> {
    trim_end_char(trim_start_char(s, c), c)
}

pub fn trimmed_start<'a>(v: &'a [char]) -> (r: &'a [char])
    ensures
        r@ == trim_start(v@),
{
    let mut i: usize = 0;
    assert(v@.skip(0) =~= v@);
    while i < v.len() && whitespace(v[i])
        invariant
            i <= v@.len(),
            trim_start(v@) == trim_start(v@.skip(i as int)),
        decreases v@.len() - i,
    {
        assert(v@.skip(i as int).skip(1) =~= v@.skip(i + 1));
        i = i + 1;
    }
    assert(v@.subrange(i as int, v@.len() as int) =~= v@.skip(i as int));
    slice_subrange(v, i, v.len())
}

pub fn trimmed_end<'a>(v: &'a [char]) -> (r: &'a [char])
    ensures
        r@ == trim_end(v@),
{
    let mut n: usize = v.len();
    assert(v@.take(n as int) =~= v@);
    while n > 0 && whitespace(v[n - 1])
        invariant
            n <= v@.len(),
            trim_end(v@) == trim_end(v@.take(n as int)),
        decreases n,
    {
        assert(v@.take(n as int).take(n - 1) =~= v@.take(n - 1));
        n = n - 1;
    }
    slice_subrange(v, 0, n)
}

pub fn trimmed<'a>(v: &'a [char]) -> (r: &'a [char])
    ensures
        r@ == trim(v@),
{
    trimmed_end(trimmed_start(v))
}

pub fn trimmed_start_char<'a>(v: &'a [char], c: char) -> (r: &'a [char])
    ensures
        r@ == trim_start_char(v@, c),
{
    let mut i: usize = 0;
    assert(v@.skip(0) =~= v@);
    while i < v.len() && v[i] == c
        invariant
            i <= v@.len(),
            trim_start_char(v@, c) == trim_start_char(v@.skip(i as int), c),
        decreases v@.len() - i,
    {
        assert(v@.skip(i as int).skip(1) =~= v@.skip(i + 1));
        i = i + 1;
    }
    assert(v@.subrange(i as int, v@.len() as int) =~= v@.skip(i as int));
    slice_subrange(v, i, v.len())
}

pub fn trimmed_end_char<'a>(v: &'a [char], c: char) -> (r: &'a [char])
    ensures
        r@ == trim_end_char(v@, c),
{
    let mut n: usize = v.len();
    assert(v@.take(n as int) =~= v@);
    while n > 0 && v[n - 1] == c
        invariant
            n <= v@.len(),
            trim_end_char(v@, c) == trim_end_char(v@.take(n as int), c),
        decreases n,
    {
        assert(v@.take(n as int).take(n - 1) =~= v@.take(n - 1));
        n = n - 1;
    }
    slice_subrange(v, 0, n)
}

pub fn trimmed_char<'a>(v: &'a [char], c: char) -> (r: &'a [char])
    ensures
        r@ == trim_char(v@, c),
{
    trimmed_end_char(trimmed_start_char(v, c), c)
}

// ---------------------------------------------------------------------------
// Prefixes and suffixes
// ---------------------------------------------------------------------------

pub open spec fn starts_with(s: Seq<char>, p: Seq<char>) -> bool {
    s.len() >= p.len() && s.take(p.len() as int) == p
}

pub open spec fn ends_with(s: Seq<char>, p: Seq<char>) -> bool {
    s.len() >= p.len() && s.skip(s.len() - p.len()) == p
}

/// What follows the prefix, where there is one.
pub open spec fn strip_prefix(s: Seq<char>, p: Seq<char>) -> Option<Seq<char>> {
    if starts_with(s, p) {
        Some(s.skip(p.len() as int))
    } else {
        None
    }
}

/// What stands before the suffix, where there is one.
pub open spec fn strip_suffix(s: Seq<char>, p: Seq<char>) -> Option<Seq<char>> {
    if ends_with(s, p) {
        Some(s.take(s.len() - p.len()))
    } else {
        None
    }
}

pub fn has_prefix(v: &[char], p: &str) -> (r: bool)
    ensures
        r == starts_with(v@, p@),
{
    let q = to_chars(p);
    if v.len() < q.len() {
        return false;
    }
    assert(v@.subrange(0, q@.len() as int) =~= v@.take(q@.len() as int));
    same_chars(slice_subrange(v, 0, q.len()), q.as_slice())
}

pub fn has_suffix(v: &[char], p: &str) -> (r: bool)
    ensures
        r == ends_with(v@, p@),
{
    let q = to_chars(p);
    if v.len() < q.len() {
        return false;
    }
    assert(v@.subrange(v@.len() - q@.len(), v@.len() as int) =~= v@.skip(v@.len() - q@.len()));
    same_chars(slice_subrange(v, v.len() - q.len(), v.len()), q.as_slice())
}

/// The view of an optional slice.
pub open spec fn opt_view(v: Option<&[char]>) -> Option<Seq<char>> {
    match v {
        Some(x) => Some(x@),
        None => None,
    }
}

pub fn stripped_prefix<'a>(v: &'a [char], p: &str) -> (r: Option<&'a [char]>)
    ensures
        opt_view(r) == strip_prefix(v@, p@),
{
    if has_prefix(v, p) {
        let n: usize = to_chars(p).len();
        assert(v@.subrange(n as int, v@.len() as int) =~= v@.skip(n as int));
        Some(slice_subrange(v, n, v.len()))
    } else {
        None
    }
}

pub fn stripped_suffix<'a>(v: &'a [char], p: &str) -> (r: Option<&'a [char]>)
    ensures
        opt_view(r) == strip_suffix(v@, p@),
{
    if has_suffix(v, p) {
        let n: usize = to_chars(p).len();
        assert(v@.subrange(0, v@.len() - n) =~= v@.take(v@.len() - n));
        Some(slice_subrange(v, 0, v.len() - n))
    } else {
        None
    }
}

// ---------------------------------------------------------------------------
// Searching and splitting
// ---------------------------------------------------------------------------

/// Index of the first `c`, or the length where there is none.
pub open spec fn pos(s: Seq<char>, c: char) -> int
    decreases s.len(),
{
    if s.len() == 0 || s[0] == c {
        0
    } else {
        1 + pos(s.skip(1), c)
    }
}

pub proof fn lemma_pos(s: Seq<char>, c: char)
    ensures
        0 <= pos(s, c) <= s.len(),
        pos(s, c) < s.len() ==> s[pos(s, c)] == c,
        forall|i: int| 0 <= i < pos(s, c) ==> s[i] != c,
    decreases s.len(),
{
    if s.len() > 0 && s[0] != c {
        lemma_pos(s.skip(1), c);
        assert forall|i: int| 0 <= i < pos(s, c) implies s[i] != c by {
            if i > 0 {
                assert(s[i] == s.skip(1)[i - 1]);
            }
        }
    }
}

/// `pos` is the only index with these properties.
pub proof fn lemma_pos_is(s: Seq<char>, c: char, n: int)
    requires
        0 <= n <= s.len(),
        n < s.len() ==> s[n] == c,
        forall|i: int| 0 <= i < n ==> s[i] != c,
    ensures
        pos(s, c) == n,
{
    lemma_pos(s, c);
}

/// Index of the first `c` at or after `from`.
pub fn find_char(v: &[char], c: char, from: usize) -> (r: usize)
    requires
        from <= v@.len(),
    ensures
        from <= r <= v@.len(),
        r == from + pos(v@.skip(from as int), c),
{
    let mut i: usize = from;
    while i < v.len() && v[i] != c
        invariant
            from <= i <= v@.len(),
            forall|k: int| from <= k < i ==> v@[k] != c,
        decreases v@.len() - i,
    {
        i = i + 1;
    }
    proof {
        lemma_pos_is(v@.skip(from as int), c, i - from);
    }
    i
}

/// The pieces between the `c`s: one more piece than there are `c`s.
pub open spec fn split(s: Seq<char>, c: char) -> Seq<Seq<char>>
    decreases s.len(),
    via split_decreases
{
    let i = pos(s, c);
    if i >= s.len() {
        seq![s]
    } else {
        seq![s.take(i)] + split(s.skip(i + 1), c)
    }
}

#[via_fn]
proof fn split_decreases(s: Seq<char>, c: char) {
    lemma_pos(s, c);
}

/// No piece holds what the text was split at.
pub proof fn lemma_split_pieces(s: Seq<char>, c: char)
    ensures
        split(s, c).len() > 0,
        forall|i: int| 0 <= i < split(s, c).len() ==> !(#[trigger] split(s, c)[i]).contains(c),
    decreases s.len(),
{
    lemma_pos(s, c);
    let n = pos(s, c);
    if n < s.len() {
        lemma_split_pieces(s.skip(n + 1), c);
        let rest = split(s.skip(n + 1), c);
        assert forall|i: int| 0 <= i < split(s, c).len() implies !(#[trigger] split(s, c)[i]).contains(
            c,
        ) by {
            if i > 0 {
                assert(split(s, c)[i] == rest[i - 1]);
            }
        }
    }
}

/// Two texts around a separator split on their own.
pub proof fn lemma_split_around(a: Seq<char>, b: Seq<char>, c: char)
    ensures
        split(a + seq![c] + b, c) == split(a, c) + split(b, c),
    decreases a.len(),
{
    let whole = a + seq![c] + b;
    lemma_pos(a, c);
    let n = pos(a, c);
    lemma_pos_is(whole, c, n);
    if n >= a.len() {
        assert(whole.take(n) =~= a);
        assert(whole.skip(n + 1) =~= b);
        assert(split(whole, c) =~= split(a, c) + split(b, c));
    } else {
        let rest = a.skip(n + 1);
        lemma_split_around(rest, b, c);
        assert(whole.take(n) =~= a.take(n));
        assert(whole.skip(n + 1) =~= rest + seq![c] + b);
        assert(split(whole, c) =~= split(a, c) + split(b, c));
    }
}

/// A text without the separator is its only piece.
pub proof fn lemma_split_whole(s: Seq<char>, c: char)
    requires
        !s.contains(c),
    ensures
        split(s, c) == seq![s],
{
    lemma_pos(s, c);
    if pos(s, c) < s.len() {
        assert(s.contains(s[pos(s, c)]));
    }
}

/// Pieces that hold no separator come back when they are joined and split.
pub proof fn lemma_split_joined(parts: Seq<Seq<char>>, c: char)
    requires
        parts.len() > 0,
        forall|i: int| 0 <= i < parts.len() ==> !(#[trigger] parts[i]).contains(c),
    ensures
        split(join(parts, seq![c]), c) == parts,
    decreases parts.len(),
{
    let n = parts.len() - 1;
    lemma_split_whole(parts[n], c);
    if n == 0 {
        assert(seq![parts[0]] =~= parts);
    } else {
        let front = parts.take(n);
        assert forall|i: int| 0 <= i < front.len() implies !(#[trigger] front[i]).contains(c) by {
            assert(front[i] == parts[i]);
        }
        lemma_split_joined(front, c);
        lemma_split_around(join(front, seq![c]), parts[n], c);
        assert(front + seq![parts[n]] =~= parts);
    }
}

pub fn split_at_char(v: &[char], c: char) -> (r: Vec<Vec<char>>)
    ensures
        views(r@) == split(v@, c),
        r@.len() > 0,
{
    let mut out: Vec<Vec<char>> = Vec::new();
    let mut from: usize = 0;
    assert(v@.skip(0) =~= v@);
    assert(views(out@) + split(v@.skip(0), c) =~= split(v@, c));
    loop
        invariant
            from <= v@.len(),
            views(out@) + split(v@.skip(from as int), c) == split(v@, c),
        decreases v@.len() - from,
    {
        let i: usize = find_char(v, c, from);
        let ghost rest = v@.skip(from as int);
        let piece = copy_chars(slice_subrange(v, from, i));
        if i >= v.len() {
            assert(piece@ =~= rest);
            let ghost before = out@;
            out.push(piece);
            assert(views(out@) =~= views(before) + seq![rest]);
            return out;
        }
        assert(piece@ =~= rest.take(i - from));
        let ghost before = out@;
        out.push(piece);
        proof {
            assert(rest.skip(i - from + 1) =~= v@.skip(i + 1));
            assert(views(out@) =~= views(before) + seq![rest.take(i - from)]);
            assert(views(out@) + split(v@.skip(i + 1), c) =~= views(before) + split(rest, c));
        }
        from = i + 1;
    }
}

/// At most `n` pieces, the last of them holding whatever is left.
pub open spec fn splitn(s: Seq<char>, n: nat, c: char) -> Seq<Seq<char>>
    decreases n,
{
    let i = pos(s, c);
    if n == 0 {
        Seq::empty()
    } else if n == 1 || i >= s.len() {
        seq![s]
    } else {
        seq![s.take(i)] + splitn(s.skip(i + 1), (n - 1) as nat, c)
    }
}

pub fn splitn_at_char(v: &[char], n: usize, c: char) -> (r: Vec<Vec<char>>)
    ensures
        views(r@) == splitn(v@, n as nat, c),
{
    let mut out: Vec<Vec<char>> = Vec::new();
    let mut from: usize = 0;
    let mut left: usize = n;
    assert(v@.skip(0) =~= v@);
    assert(views(out@) + splitn(v@, n as nat, c) =~= splitn(v@, n as nat, c));
    while left > 0
        invariant
            from <= v@.len(),
            views(out@) + splitn(v@.skip(from as int), left as nat, c) == splitn(v@, n as nat, c),
        decreases left,
    {
        let i: usize = find_char(v, c, from);
        let ghost rest = v@.skip(from as int);
        let ghost before = out@;
        if left == 1 || i >= v.len() {
            let piece = copy_chars(slice_subrange(v, from, v.len()));
            assert(piece@ =~= rest);
            out.push(piece);
            assert(views(out@) =~= views(before) + seq![rest]);
            return out;
        }
        let piece = copy_chars(slice_subrange(v, from, i));
        assert(piece@ =~= rest.take(i - from));
        out.push(piece);
        proof {
            assert(rest.skip(i - from + 1) =~= v@.skip(i + 1));
            assert(views(out@) =~= views(before) + seq![rest.take(i - from)]);
            assert(views(out@) + splitn(v@.skip(i + 1), (left - 1) as nat, c) =~= views(before)
                + splitn(rest, left as nat, c));
        }
        from = i + 1;
        left = left - 1;
    }
    assert(views(out@) + splitn(v@.skip(from as int), 0, c) =~= views(out@));
    out
}

/// What stands before and after the first `c`.
pub open spec fn split_once(s: Seq<char>, c: char) -> Option<(Seq<char>, Seq<char>)> {
    let i = pos(s, c);
    if i >= s.len() {
        None
    } else {
        Some((s.take(i), s.skip(i + 1)))
    }
}

pub open spec fn opt_pair_view(v: Option<(&[char], &[char])>) -> Option<(Seq<char>, Seq<char>)> {
    match v {
        Some((a, b)) => Some((a@, b@)),
        None => None,
    }
}

pub fn split_once_at<'a>(v: &'a [char], c: char) -> (r: Option<(&'a [char], &'a [char])>)
    ensures
        opt_pair_view(r) == split_once(v@, c),
{
    let i: usize = find_char(v, c, 0);
    assert(v@.skip(0) =~= v@);
    if i >= v.len() {
        None
    } else {
        assert(v@.subrange(0, i as int) =~= v@.take(i as int));
        assert(v@.subrange(i + 1, v@.len() as int) =~= v@.skip(i + 1));
        Some((slice_subrange(v, 0, i), slice_subrange(v, i + 1, v.len())))
    }
}

/// The text after the last `c`; all of it where there is none.
pub open spec fn after_last(s: Seq<char>, c: char) -> Seq<char> {
    split(s, c).last()
}

pub fn past_last(v: &[char], c: char) -> (r: Vec<char>)
    ensures
        r@ == after_last(v@, c),
{
    let parts = split_at_char(v, c);
    let ghost all = split(v@, c);
    assert(all.len() == parts@.len());
    assert(all.len() > 0);
    assert(all.last() == parts@[parts@.len() - 1]@);
    copy_chars(parts[parts.len() - 1].as_slice())
}

/// One line break removed from the end of a line: a carriage return counts only
/// in front of the line feed that ended the line.
pub open spec fn chomp(s: Seq<char>) -> Seq<char> {
    if s.len() > 0 && s[s.len() - 1] == '\r' {
        s.take(s.len() - 1)
    } else {
        s
    }
}

/// The lines of a text, each ended by a line feed or by the end of the text.
pub open spec fn lines(s: Seq<char>) -> Seq<Seq<char>>
    decreases s.len(),
    via lines_decreases
{
    let i = pos(s, '\n');
    if s.len() == 0 {
        Seq::empty()
    } else if i >= s.len() {
        seq![s]
    } else {
        seq![chomp(s.take(i))] + lines(s.skip(i + 1))
    }
}

#[via_fn]
proof fn lines_decreases(s: Seq<char>) {
    lemma_pos(s, '\n');
}

pub fn split_lines(v: &[char]) -> (r: Vec<Vec<char>>)
    ensures
        views(r@) == lines(v@),
{
    let mut out: Vec<Vec<char>> = Vec::new();
    let mut from: usize = 0;
    assert(v@.skip(0) =~= v@);
    assert(views(out@) + lines(v@.skip(0)) =~= lines(v@));
    while from < v.len()
        invariant
            from <= v@.len(),
            views(out@) + lines(v@.skip(from as int)) == lines(v@),
        decreases v@.len() - from,
    {
        let i: usize = find_char(v, '\n', from);
        let ghost rest = v@.skip(from as int);
        let ghost before = out@;
        if i >= v.len() {
            let piece = copy_chars(slice_subrange(v, from, i));
            assert(piece@ =~= rest);
            out.push(piece);
            assert(views(out@) =~= views(before) + seq![rest]);
            return out;
        }
        let end: usize = if i > from && v[i - 1] == '\r' {
            i - 1
        } else {
            i
        };
        let piece = copy_chars(slice_subrange(v, from, end));
        assert(piece@ =~= chomp(rest.take(i - from)));
        out.push(piece);
        proof {
            assert(rest.skip(i - from + 1) =~= v@.skip(i + 1));
            assert(views(out@) =~= views(before) + seq![chomp(rest.take(i - from))]);
            assert(views(out@) + lines(v@.skip(i + 1)) =~= views(before) + lines(rest));
        }
        from = i + 1;
    }
    assert(views(out@) + lines(v@.skip(from as int)) =~= views(out@));
    out
}

/// Length of the leading run without white space.
pub open spec fn word_len(s: Seq<char>) -> int
    decreases s.len(),
{
    if s.len() == 0 || is_whitespace(s[0]) {
        0
    } else {
        1 + word_len(s.skip(1))
    }
}

pub proof fn lemma_word_len(s: Seq<char>)
    ensures
        0 <= word_len(s) <= s.len(),
    decreases s.len(),
{
    if s.len() > 0 && !is_whitespace(s[0]) {
        lemma_word_len(s.skip(1));
    }
}

pub proof fn lemma_trim_start_len(s: Seq<char>)
    ensures
        trim_start(s).len() <= s.len(),
        trim_start(s).len() > 0 ==> !is_whitespace(trim_start(s)[0]),
    decreases s.len(),
{
    if s.len() > 0 && is_whitespace(s[0]) {
        lemma_trim_start_len(s.skip(1));
    }
}

/// The runs of characters between white space.
pub open spec fn words(s: Seq<char>) -> Seq<Seq<char>>
    decreases s.len(),
    via words_decreases
{
    let t = trim_start(s);
    if t.len() == 0 {
        Seq::empty()
    } else {
        seq![t.take(word_len(t))] + words(t.skip(word_len(t)))
    }
}

#[via_fn]
proof fn words_decreases(s: Seq<char>) {
    lemma_trim_start_len(s);
    lemma_word_len(trim_start(s));
    lemma_word_len(trim_start(s).skip(1));
}

fn word_length(v: &[char]) -> (r: usize)
    ensures
        r == word_len(v@),
        r <= v@.len(),
{
    let mut i: usize = 0;
    assert(v@.skip(0) =~= v@);
    while i < v.len() && !whitespace(v[i])
        invariant
            i <= v@.len(),
            word_len(v@) == i + word_len(v@.skip(i as int)),
        decreases v@.len() - i,
    {
        assert(v@.skip(i as int).skip(1) =~= v@.skip(i + 1));
        i = i + 1;
    }
    i
}

pub fn split_words(v: &[char]) -> (r: Vec<Vec<char>>)
    ensures
        views(r@) == words(v@),
{
    let mut out: Vec<Vec<char>> = Vec::new();
    let mut rest: &[char] = v;
    assert(views(out@) + words(v@) =~= words(v@));
    loop
        invariant
            views(out@) + words(rest@) == words(v@),
        decreases rest@.len(),
    {
        let t = trimmed_start(rest);
        if t.len() == 0 {
            assert(views(out@) + words(rest@) =~= views(out@));
            return out;
        }
        let n: usize = word_length(t);
        let ghost before = out@;
        out.push(copy_chars(slice_subrange(t, 0, n)));
        proof {
            lemma_trim_start_len(rest@);
            lemma_word_len(t@.skip(1));
            assert(t@.subrange(0, n as int) =~= t@.take(n as int));
            assert(t@.subrange(n as int, t@.len() as int) =~= t@.skip(n as int));
            assert(views(out@) =~= views(before) + seq![t@.take(n as int)]);
            assert(views(out@) + words(t@.skip(n as int)) =~= views(before) + words(rest@));
        }
        rest = slice_subrange(t, n, t.len());
    }
}

/// Whether `p` stands in `s` at `i`.
pub open spec fn occurs_at(s: Seq<char>, p: Seq<char>, i: int) -> bool {
    0 <= i && i + p.len() <= s.len() && s.subrange(i, i + p.len()) == p
}

/// The first place at or after `i` where `p` stands in `s`.
pub open spec fn find_from(s: Seq<char>, p: Seq<char>, i: int) -> Option<int>
    decreases s.len() + 1 - i,
{
    if i + p.len() > s.len() {
        None
    } else if occurs_at(s, p, i) {
        Some(i)
    } else {
        find_from(s, p, i + 1)
    }
}

/// The first place where `p` stands in `s`.
pub open spec fn find(s: Seq<char>, p: Seq<char>) -> Option<int> {
    find_from(s, p, 0)
}

pub open spec fn contains(s: Seq<char>, p: Seq<char>) -> bool {
    find(s, p) is Some
}

/// The last place before `n` where `p` stands in `s`.
pub open spec fn rfind_before(s: Seq<char>, p: Seq<char>, n: int) -> Option<int>
    decreases n,
{
    if n <= 0 {
        None
    } else if occurs_at(s, p, n - 1) {
        Some(n - 1)
    } else {
        rfind_before(s, p, n - 1)
    }
}

/// The last place where `p` stands in `s`.
pub open spec fn rfind(s: Seq<char>, p: Seq<char>) -> Option<int> {
    rfind_before(s, p, s.len() - p.len() + 1)
}

pub open spec fn opt_int(r: Option<usize>) -> Option<int> {
    match r {
        Some(i) => Some(i as int),
        None => None,
    }
}

/// `find` gives an index inside the text.
pub proof fn lemma_find_from(s: Seq<char>, p: Seq<char>, i: int)
    requires
        i >= 0,
    ensures
        find_from(s, p, i) matches Some(k) ==> i <= k && occurs_at(s, p, k),
        forall|k: int| i <= k && occurs_at(s, p, k) ==> find_from(s, p, i) is Some
            && find_from(s, p, i)->0 <= k,
    decreases s.len() + 1 - i,
{
    if i + p.len() <= s.len() && !occurs_at(s, p, i) {
        lemma_find_from(s, p, i + 1);
    }
}

pub fn find_chars(v: &[char], p: &[char], from: usize) -> (r: Option<usize>)
    requires
        from <= v@.len(),
    ensures
        opt_int(r) == find_from(v@, p@, from as int),
        r matches Some(k) ==> from <= k && k + p@.len() <= v@.len(),
{
    let mut i: usize = from;
    while i <= v.len() && p.len() <= v.len() - i
        invariant
            from <= i <= v@.len() + 1,
            v@.len() <= usize::MAX - 1 || i <= v@.len(),
            find_from(v@, p@, from as int) == find_from(v@, p@, i as int),
        decreases v@.len() + 1 - i,
    {
        if same_chars(slice_subrange(v, i, i + p.len()), p) {
            return Some(i);
        }
        if i == v.len() {
            assert(find_from(v@, p@, i + 1) is None);
            return None;
        }
        i = i + 1;
    }
    None
}

pub fn find_str(v: &[char], p: &str) -> (r: Option<usize>)
    ensures
        opt_int(r) == find(v@, p@),
        r matches Some(k) ==> k + p@.len() <= v@.len(),
{
    let q = to_chars(p);
    find_chars(v, q.as_slice(), 0)
}

pub fn has(v: &[char], p: &str) -> (r: bool)
    ensures
        r == contains(v@, p@),
{
    find_str(v, p).is_some()
}

pub fn has_char(v: &[char], c: char) -> (r: bool)
    ensures
        r == v@.contains(c),
{
    let i: usize = find_char(v, c, 0);
    proof {
        assert(v@.skip(0) =~= v@);
        lemma_pos(v@, c);
        if v@.contains(c) {
            let k = choose|k: int| 0 <= k < v@.len() && v@[k] == c;
            assert(k >= pos(v@, c));
        }
    }
    i < v.len()
}

pub fn rfind_str(v: &[char], p: &str) -> (r: Option<usize>)
    ensures
        opt_int(r) == rfind(v@, p@),
        r matches Some(k) ==> k + p@.len() <= v@.len(),
{
    let q = to_chars(p);
    if q.len() > v.len() {
        return None;
    }
    let total: usize = v.len();
    let mut n: usize = total - q.len();
    loop
        invariant
            q@ == p@,
            n + q@.len() <= v@.len() == total,
            rfind(v@, p@) == rfind_before(v@, p@, n + 1),
        decreases n,
    {
        if same_chars(slice_subrange(v, n, n + q.len()), q.as_slice()) {
            return Some(n);
        }
        if n == 0 {
            assert(rfind_before(v@, p@, 0) is None);
            return None;
        }
        n = n - 1;
    }
}

/// The pieces between occurrences of `sep`.
pub open spec fn split_str(s: Seq<char>, sep: Seq<char>) -> Seq<Seq<char>>
    decreases s.len(),
    when sep.len() > 0
    via split_str_decreases
{
    match find(s, sep) {
        None => seq![s],
        Some(i) => seq![s.take(i)] + split_str(s.skip(i + sep.len()), sep),
    }
}

#[via_fn]
proof fn split_str_decreases(s: Seq<char>, sep: Seq<char>) {
    lemma_find_from(s, sep, 0);
}

pub fn split_at_str(v: &[char], sep: &str) -> (r: Vec<Vec<char>>)
    requires
        sep@.len() > 0,
    ensures
        views(r@) == split_str(v@, sep@),
{
    let mut out: Vec<Vec<char>> = Vec::new();
    let mut rest: &[char] = v;
    let n: usize = to_chars(sep).len();
    assert(views(out@) + split_str(v@, sep@) =~= split_str(v@, sep@));
    loop
        invariant
            n == sep@.len() > 0,
            views(out@) + split_str(rest@, sep@) == split_str(v@, sep@),
        decreases rest@.len(),
    {
        let ghost before = out@;
        let total: usize = rest.len();
        match find_str(rest, sep) {
            None => {
                out.push(copy_chars(rest));
                assert(views(out@) =~= views(before) + seq![rest@]);
                return out;
            },
            Some(i) => {
                out.push(copy_chars(slice_subrange(rest, 0, i)));
                proof {
                    assert(rest@.subrange(0, i as int) =~= rest@.take(i as int));
                    assert(rest@.subrange(i + n, rest@.len() as int) =~= rest@.skip(i + n));
                    assert(views(out@) =~= views(before) + seq![rest@.take(i as int)]);
                    assert(views(out@) + split_str(rest@.skip(i + n), sep@) =~= views(before)
                        + split_str(rest@, sep@));
                }
                rest = slice_subrange(rest, i + n, total);
            },
        }
    }
}

/// Every leading `p` removed.
pub open spec fn trim_start_str(s: Seq<char>, p: Seq<char>) -> Seq<char>
    decreases s.len(),
{
    if p.len() > 0 && starts_with(s, p) {
        trim_start_str(s.skip(p.len() as int), p)
    } else {
        s
    }
}

pub fn trimmed_start_str<'a>(v: &'a [char], p: &str) -> (r: &'a [char])
    requires
        p@.len() > 0,
    ensures
        r@ == trim_start_str(v@, p@),
{
    let mut rest: &'a [char] = v;
    loop
        invariant
            p@.len() > 0,
            trim_start_str(v@, p@) == trim_start_str(rest@, p@),
        decreases rest@.len(),
    {
        match stripped_prefix(rest, p) {
            Some(next) => {
                rest = next;
            },
            None => {
                return rest;
            },
        }
    }
}

/// What stands before the first `c`; all of it where there is none.
pub open spec fn before_char(s: Seq<char>, c: char) -> Seq<char> {
    s.take(pos(s, c))
}

pub fn up_to_char<'a>(v: &'a [char], c: char) -> (r: &'a [char])
    ensures
        r@ == before_char(v@, c),
{
    let i: usize = find_char(v, c, 0);
    assert(v@.skip(0) =~= v@);
    assert(v@.subrange(0, i as int) =~= v@.take(i as int));
    slice_subrange(v, 0, i)
}

/// Whether a character slice spells this text.
pub fn spells(v: &[char], s: &str) -> (r: bool)
    ensures
        r == (v@ == s@),
{
    let w = to_chars(s);
    same_chars(v, w.as_slice())
}

/// The pieces that are not empty, of the first `n`.
pub open spec fn nonempty_upto(pieces: Seq<Seq<char>>, n: int) -> Seq<Seq<char>>
    decreases n,
{
    if n <= 0 {
        Seq::empty()
    } else if pieces[n - 1].len() > 0 {
        nonempty_upto(pieces, n - 1).push(pieces[n - 1])
    } else {
        nonempty_upto(pieces, n - 1)
    }
}

/// What stands between the `c`s, but for empty pieces.
pub open spec fn tokens(s: Seq<char>, c: char) -> Seq<Seq<char>> {
    nonempty_upto(split(s, c), split(s, c).len() as int)
}

pub fn split_tokens(v: &[char], c: char) -> (r: Vec<Vec<char>>)
    ensures
        views(r@) == tokens(v@, c),
{
    let all = split_at_char(v, c);
    let ghost ps = split(v@, c);
    let mut out: Vec<Vec<char>> = Vec::new();
    let mut i: usize = 0;
    assert(views(out@) =~= nonempty_upto(ps, 0));
    while i < all.len()
        invariant
            i <= all@.len(),
            views(all@) == ps,
            views(out@) == nonempty_upto(ps, i as int),
        decreases all@.len() - i,
    {
        assert(ps[i as int] == all@[i as int]@);
        if all[i].len() > 0 {
            let ghost before = out@;
            let piece = copy_chars(all[i].as_slice());
            out.push(piece);
            assert(views(out@) =~= views(before).push(piece@));
        }
        i = i + 1;
    }
    out
}

// ---------------------------------------------------------------------------
// Joining and padding
// ---------------------------------------------------------------------------

/// The parts, with `sep` between each two.
pub open spec fn join(parts: Seq<Seq<char>>, sep: Seq<char>) -> Seq<char>
    decreases parts.len(),
{
    if parts.len() == 0 {
        Seq::empty()
    } else if parts.len() == 1 {
        parts[0]
    } else {
        join(parts.take(parts.len() - 1), sep) + sep + parts[parts.len() - 1]
    }
}

pub fn join_chars(parts: &[Vec<char>], sep: &str) -> (r: String)
    ensures
        r@ == join(views(parts@), sep@),
{
    let mut out = String::new();
    let ghost all = views(parts@);
    let mut i: usize = 0;
    while i < parts.len()
        invariant
            i <= parts@.len(),
            all == views(parts@),
            out@ == join(all.take(i as int), sep@),
        decreases parts@.len() - i,
    {
        if i > 0 {
            out.append(sep);
        }
        push_chars(&mut out, parts[i].as_slice());
        proof {
            assert(all.take(i + 1).take(i as int) =~= all.take(i as int));
            assert(all.take(i + 1)[i as int] == parts@[i as int]@);
            assert(out@ =~= join(all.take(i + 1), sep@));
        }
        i = i + 1;
    }
    assert(all.take(i as int) =~= all);
    out
}

pub fn join_texts(parts: &[String], sep: &str) -> (r: String)
    ensures
        r@ == join(texts(parts@), sep@),
{
    let mut out = String::new();
    let ghost all = texts(parts@);
    let mut i: usize = 0;
    while i < parts.len()
        invariant
            i <= parts@.len(),
            all == texts(parts@),
            out@ == join(all.take(i as int), sep@),
        decreases parts@.len() - i,
    {
        if i > 0 {
            out.append(sep);
        }
        out.append(parts[i].as_str());
        proof {
            assert(all.take(i + 1).take(i as int) =~= all.take(i as int));
            assert(all.take(i + 1)[i as int] == parts@[i as int]@);
            assert(out@ =~= join(all.take(i + 1), sep@));
        }
        i = i + 1;
    }
    assert(all.take(i as int) =~= all);
    out
}

/// Appends a copy of a text to a list.
pub fn push_text(list: &mut Vec<String>, s: &str)
    ensures
        texts(final(list)@) == texts(old(list)@).push(s@),
{
    let ghost before = list@;
    let item: String = s.to_owned();
    list.push(item);
    assert(texts(list@) =~= texts(before).push(item@));
}

/// `n` spaces; none where `n` is negative.
pub open spec fn spaces(n: int) -> Seq<char> {
    Seq::new(if n > 0 { n as nat } else { 0 }, |i: int| ' ')
}

pub fn push_spaces(out: &mut String, n: usize)
    ensures
        final(out)@ == old(out)@ + spaces(n as int),
{
    let mut i: usize = 0;
    while i < n
        invariant
            i <= n,
            out@ == old(out)@ + spaces(i as int),
        decreases n - i,
    {
        out.push(' ');
        i = i + 1;
        assert(out@ =~= old(out)@ + spaces(i as int));
    }
}

/// How many bytes a character takes in UTF-8.
pub open spec fn utf8_len(c: char) -> int {
    if (c as u32) < 0x80 {
        1
    } else if (c as u32) < 0x800 {
        2
    } else if (c as u32) < 0x10000 {
        3
    } else {
        4
    }
}

/// How many bytes a text takes in UTF-8.
pub open spec fn byte_len(s: Seq<char>) -> int
    decreases s.len(),
{
    if s.len() == 0 {
        0
    } else {
        byte_len(s.take(s.len() - 1)) + utf8_len(s[s.len() - 1])
    }
}

pub fn utf8_length(c: char) -> (r: u64)
    ensures
        r == utf8_len(c),
        1 <= r <= 4,
{
    let n: u32 = c as u32;
    if n < 0x80 {
        1
    } else if n < 0x800 {
        2
    } else if n < 0x10000 {
        3
    } else {
        4
    }
}

/// How many characters from `i` on take exactly `n` bytes, counted from the start
/// of the text; none where a character crosses that boundary or the text is
/// shorter.
pub open spec fn boundary_from(s: Seq<char>, i: int, n: int) -> Option<int>
    decreases s.len() - i,
{
    if n == 0 {
        Some(i)
    } else if n < 0 || i < 0 || i >= s.len() {
        None
    } else {
        boundary_from(s, i + 1, n - utf8_len(s[i]))
    }
}

/// The first `n` bytes of a text, where they are whole characters.
pub open spec fn byte_prefix(s: Seq<char>, n: int) -> Option<Seq<char>> {
    match boundary_from(s, 0, n) {
        Some(k) => Some(s.take(k)),
        None => None,
    }
}

pub fn first_bytes<'a>(v: &'a [char], n: u64) -> (r: Option<&'a [char]>)
    ensures
        opt_view(r) == byte_prefix(v@, n as int),
{
    let mut left: u64 = n;
    let mut i: usize = 0;
    loop
        invariant
            i <= v@.len(),
            boundary_from(v@, 0, n as int) == boundary_from(v@, i as int, left as int),
        decreases v@.len() - i,
    {
        if left == 0 {
            assert(v@.subrange(0, i as int) =~= v@.take(i as int));
            return Some(slice_subrange(v, 0, i));
        }
        if i >= v.len() {
            return None;
        }
        let size: u64 = utf8_length(v[i]);
        if size > left {
            assert(boundary_from(v@, i + 1, left - size) is None);
            return None;
        }
        left = left - size;
        i = i + 1;
    }
}

proof fn lemma_byte_len_split(s: Seq<char>, k: int)
    requires
        0 <= k <= s.len(),
    ensures
        0 <= byte_len(s.take(k)) <= byte_len(s),
    decreases s.len(),
{
    if k == s.len() {
        assert(s.take(k) =~= s);
        if k > 0 {
            lemma_byte_len_split(s.take(k - 1), k - 1);
        }
    } else {
        lemma_byte_len_split(s.take(s.len() - 1), k);
        assert(s.take(s.len() - 1).take(k) =~= s.take(k));
    }
}

/// Whether a text takes at least `n` bytes.
pub fn takes_bytes(v: &[char], n: u64) -> (r: bool)
    requires
        n <= 1000,
    ensures
        r == (byte_len(v@) >= n),
{
    let mut total: u64 = 0;
    let mut i: usize = 0;
    while i < v.len()
        invariant
            i <= v@.len(),
            n <= 1000,
            total == byte_len(v@.take(i as int)),
            total < n || i == 0,
            total <= 1000,
        decreases v@.len() - i,
    {
        assert(v@.take(i + 1).take(i as int) =~= v@.take(i as int));
        let size: u64 = utf8_length(v[i]);
        total = total + size;
        if total >= n {
            proof {
                lemma_byte_len_split(v@, i + 1);
            }
            return true;
        }
        i = i + 1;
    }
    assert(v@.take(i as int) =~= v@);
    total >= n
}

/// The first line of a text; none where there is no line.
pub open spec fn first_line(s: Seq<char>) -> Seq<char> {
    let ls = lines(s);
    if ls.len() > 0 {
        ls[0]
    } else {
        Seq::empty()
    }
}

pub fn first_line_of(v: &[char]) -> (r: String)
    ensures
        r@ == first_line(v@),
{
    let ls = split_lines(v);
    assert(views(ls@).len() == ls@.len());
    if ls.len() > 0 {
        assert(views(ls@)[0] == ls@[0]@);
        from_chars(ls[0].as_slice())
    } else {
        String::new()
    }
}

/// How a text is written as a Rust string literal.
pub uninterp spec fn debug_quoted(s: Seq<char>) -> Seq<char>;

/// `str`'s `Debug` format: the text in double quotes, with what is not printable
/// escaped. Which characters those are is the standard library's to say.
#[verifier::external_body]
pub(crate) fn quoted(s: &str) -> (r: String)
    ensures
        r@ == debug_quoted(s@),
{
    format!("{:?}", s)
}

/// Splitting once goes by the first separator: what stands in front of it and all that
/// follows; and there is nothing to split where there is none.
pub proof fn law_split_once_goes_by_the_first(a: Seq<char>, b: Seq<char>, c: char)
    requires
        !a.contains(c),
    ensures
        split_once(a + seq![c] + b, c) == Some((a, b)),
        split_once(a, c) is None,
        before_char(a + seq![c] + b, c) == a,
        before_char(a, c) == a,
{
    let whole = a + seq![c] + b;
    lemma_pos_is(whole, c, a.len() as int);
    assert forall|i: int| 0 <= i < a.len() implies a[i] != c by {
        assert(a.contains(a[i]));
    }
    lemma_pos_is(whole, c, a.len() as int);
    assert(whole.take(a.len() as int) =~= a);
    assert(whole.skip(a.len() as int + 1) =~= b);
    lemma_pos_is(a, c, a.len() as int);
    assert(a.take(a.len() as int) =~= a);
}

/// Splitting into so many at most leaves all that follows in the last.
pub proof fn law_splitn_leaves_the_rest_whole(a: Seq<char>, b: Seq<char>, n: nat, c: char)
    requires
        !a.contains(c),
    ensures
        n >= 2 ==> splitn(a + seq![c] + b, n, c) == seq![a] + splitn(b, (n - 1) as nat, c),
        splitn(b, 1, c) == seq![b],
        n >= 1 ==> splitn(a, n, c) == seq![a],
        splitn(b, 0, c).len() == 0,
{
    law_split_once_goes_by_the_first(a, b, c);
    let whole = a + seq![c] + b;
    assert forall|i: int| 0 <= i < a.len() implies a[i] != c by {
        assert(a.contains(a[i]));
    }
    lemma_pos_is(whole, c, a.len() as int);
    lemma_pos_is(a, c, a.len() as int);
    assert(whole.take(a.len() as int) =~= a);
    assert(whole.skip(a.len() as int + 1) =~= b);
}

/// A letter changes its case there and back, and nothing but a letter has one.
pub proof fn law_letters_change_their_case(c: char)
    ensures
        'A' <= c <= 'Z' ==> 'a' <= lower(c) <= 'z' && upper(lower(c)) == c && upper(c) == c,
        'a' <= c <= 'z' ==> 'A' <= upper(c) <= 'Z' && lower(upper(c)) == c && lower(c) == c,
        !('A' <= c <= 'Z') && !('a' <= c <= 'z') ==> lower(c) == c && upper(c) == c,
        lower('A') == 'a',
        upper('z') == 'Z',
{
}

/// The blanks are white space; letters, digits and punctuation are not.
pub proof fn law_blanks_are_white_space(c: char)
    ensures
        is_whitespace(' '),
        is_whitespace('\t'),
        is_whitespace('\n'),
        is_whitespace('\r'),
        '!' <= c <= '~' ==> !is_whitespace(c),
        (c as u32) < 0x80 ==> (is_whitespace(c) <==> c == ' ' || c == '\t' || c == '\n' || c == '\r'
            || c as u32 == 0x0b || c as u32 == 0x0c),
{
}

/// What is trimmed neither starts nor ends with white space, and of white space alone
/// nothing is left.
pub proof fn law_trimming_leaves_no_ends(s: Seq<char>)
    ensures
        trim(s).len() > 0 ==> !is_whitespace(trim(s)[0]) && !is_whitespace(
            trim(s)[trim(s).len() - 1],
        ),
        (forall|i: int| 0 <= i < s.len() ==> is_whitespace(#[trigger] s[i])) ==> trim(s).len() == 0,
        trim(trim(s)) == trim(s),
{
    lemma_trim_start_len(s);
    lemma_trim_end_ends(trim_start(s));
    if forall|i: int| 0 <= i < s.len() ==> is_whitespace(#[trigger] s[i]) {
        lemma_all_blank(s);
    }
    lemma_trim_is(trim(s));
}

proof fn lemma_trim_end_ends(s: Seq<char>)
    ensures
        trim_end(s).len() <= s.len(),
        trim_end(s) == s.take(trim_end(s).len() as int),
        trim_end(s).len() > 0 ==> !is_whitespace(trim_end(s)[trim_end(s).len() - 1]),
    decreases s.len(),
{
    if s.len() > 0 && is_whitespace(s[s.len() - 1]) {
        let less = s.take(s.len() - 1);
        lemma_trim_end_ends(less);
        assert(less.take(trim_end(less).len() as int) =~= s.take(trim_end(less).len() as int));
    } else {
        assert(s.take(s.len() as int) =~= s);
    }
}

proof fn lemma_all_blank(s: Seq<char>)
    requires
        forall|i: int| 0 <= i < s.len() ==> is_whitespace(#[trigger] s[i]),
    ensures
        trim_start(s).len() == 0,
        trim(s).len() == 0,
    decreases s.len(),
{
    if s.len() > 0 {
        let rest = s.skip(1);
        assert forall|i: int| 0 <= i < rest.len() implies is_whitespace(#[trigger] rest[i]) by {
            assert(rest[i] == s[i + 1]);
        }
        lemma_all_blank(rest);
    }
}

/// What stands in front or behind is known and taken off: a text starts with what was put
/// in front of it, and ends with what was put behind it.
pub proof fn law_what_was_put_around_comes_off(p: Seq<char>, s: Seq<char>)
    ensures
        starts_with(p + s, p),
        strip_prefix(p + s, p) == Some(s),
        ends_with(s + p, p),
        strip_suffix(s + p, p) == Some(s),
        strip_prefix(s, p) matches Some(r) ==> s == p + r,
        strip_suffix(s, p) matches Some(r) ==> s == r + p,
        strip_prefix(s, p) is Some <==> starts_with(s, p),
        strip_suffix(s, p) is Some <==> ends_with(s, p),
{
    assert((p + s).take(p.len() as int) =~= p);
    assert((p + s).skip(p.len() as int) =~= s);
    assert((s + p).skip((s + p).len() - p.len()) =~= p);
    assert((s + p).take((s + p).len() - p.len()) =~= s);
    if starts_with(s, p) {
        assert(s =~= s.take(p.len() as int) + s.skip(p.len() as int));
    }
    if ends_with(s, p) {
        assert(s =~= s.take(s.len() - p.len()) + s.skip(s.len() - p.len()));
    }
}

/// What is looked for is found wherever it stands: the first place from the front, the
/// last from the back.
pub proof fn law_what_is_there_is_found(a: Seq<char>, p: Seq<char>, b: Seq<char>)
    ensures
        contains(a + p + b, p),
        find(a + p + b, p) is Some,
        find(a + p + b, p)->0 <= a.len(),
        rfind(a + p + b, p) is Some,
        rfind(a + p + b, p)->0 >= a.len(),
        find(b, p) matches Some(i) ==> b == b.take(i) + p + b.skip(i + p.len()),
        rfind(b, p) matches Some(i) ==> b == b.take(i) + p + b.skip(i + p.len()),
{
    let s = a + p + b;
    let n = a.len() as int;
    assert(s.subrange(n, n + p.len()) =~= p);
    lemma_found(s, p, n);
    lemma_found_apart(b, p);
}

proof fn lemma_found(s: Seq<char>, p: Seq<char>, n: int)
    requires
        occurs_at(s, p, n),
    ensures
        find(s, p) is Some,
        0 <= find(s, p)->0 <= n,
        occurs_at(s, p, find(s, p)->0),
        rfind(s, p) is Some,
        rfind(s, p)->0 >= n,
{
    lemma_find_from(s, p, 0);
    lemma_rfind(s, p, s.len() - p.len() + 1);
}

proof fn lemma_found_apart(s: Seq<char>, p: Seq<char>)
    ensures
        find(s, p) matches Some(i) ==> s == s.take(i) + p + s.skip(i + p.len()),
        rfind(s, p) matches Some(i) ==> s == s.take(i) + p + s.skip(i + p.len()),
{
    if let Some(i) = find(s, p) {
        lemma_find_from(s, p, 0);
        assert(s =~= s.take(i) + s.subrange(i, i + p.len()) + s.skip(i + p.len()));
    }
    if let Some(i) = rfind(s, p) {
        lemma_rfind(s, p, s.len() - p.len() + 1);
        assert(s =~= s.take(i) + s.subrange(i, i + p.len()) + s.skip(i + p.len()));
    }
}

proof fn lemma_rfind(s: Seq<char>, p: Seq<char>, n: int)
    ensures
        rfind_before(s, p, n) matches Some(k) ==> 0 <= k < n && occurs_at(s, p, k),
        forall|k: int|
            0 <= k < n && #[trigger] occurs_at(s, p, k) ==> rfind_before(s, p, n) is Some
                && rfind_before(s, p, n)->0 >= k,
    decreases n,
{
    if n > 0 && !occurs_at(s, p, n - 1) {
        lemma_rfind(s, p, n - 1);
    }
}

/// A joined text has its parts in order with the separator between each and the next.
pub proof fn law_parts_are_joined_in_order(parts: Seq<Seq<char>>, last: Seq<char>, sep: Seq<char>)
    ensures
        join(Seq::empty(), sep).len() == 0,
        join(seq![last], sep) == last,
        parts.len() > 0 ==> join(parts.push(last), sep) == join(parts, sep) + sep + last,
{
    let all = parts.push(last);
    assert(all.take(all.len() - 1) =~= parts);
}

/// A replaced text is as long as before, with one character for the other.
pub proof fn law_a_character_is_replaced(s: Seq<char>, from: char, to: char, i: int)
    requires
        0 <= i < s.len(),
    ensures
        replaced(s, from, to).len() == s.len(),
        s[i] == from ==> replaced(s, from, to)[i] == to,
        s[i] != from ==> replaced(s, from, to)[i] == s[i],
{
}

/// A text is read line by line: a line ends at its line feed, without the carriage return
/// in front of it, and the last needs neither.
pub proof fn law_a_text_is_read_by_line(a: Seq<char>, b: Seq<char>)
    requires
        !a.contains('\n'),
    ensures
        lines(Seq::empty()).len() == 0,
        a.len() > 0 ==> lines(a) == seq![a],
        (a.len() == 0 || a[a.len() - 1] != '\r') ==> lines(a + seq!['\n'] + b) == seq![a] + lines(b),
        lines(a + seq!['\r', '\n'] + b) == seq![a] + lines(b),
{
    let whole = a + seq!['\n'] + b;
    assert forall|i: int| 0 <= i < a.len() implies a[i] != '\n' by {
        assert(a.contains(a[i]));
    }
    lemma_pos_is(whole, '\n', a.len() as int);
    lemma_pos_is(a, '\n', a.len() as int);
    assert(whole.take(a.len() as int) =~= a);
    assert(whole.skip(a.len() as int + 1) =~= b);
    let other = a + seq!['\r', '\n'] + b;
    lemma_pos_is(other, '\n', a.len() as int + 1);
    assert(other.take(a.len() as int + 1) =~= a.push('\r'));
    assert(other.skip(a.len() as int + 2) =~= b);
    assert(a.push('\r').take(a.len() as int) =~= a);
}

/// A text is read word by word: a word ends at white space, and more of it is skipped.
pub proof fn law_a_text_is_read_by_word(a: Seq<char>, c: char, b: Seq<char>)
    requires
        forall|i: int| 0 <= i < a.len() ==> !is_whitespace(#[trigger] a[i]),
        is_whitespace(c),
    ensures
        words(Seq::empty()).len() == 0,
        words(seq![c] + b) == words(b),
        a.len() > 0 ==> words(a) == seq![a],
        a.len() > 0 ==> words(a + seq![c] + b) == seq![a] + words(b),
{
    assert((seq![c] + b).skip(1) =~= b);
    if a.len() > 0 {
        let whole = a + seq![c] + b;
        lemma_word_ends(a, seq![c] + b);
        lemma_word_ends(a, Seq::empty());
        assert(whole =~= a + (seq![c] + b));
        assert(a =~= a + Seq::<char>::empty());
        assert(whole[0] == a[0]);
        assert(whole.take(a.len() as int) =~= a);
        assert(whole.skip(a.len() as int) =~= seq![c] + b);
        assert(a.take(a.len() as int) =~= a);
        assert(a.skip(a.len() as int) =~= Seq::empty());
        assert(words(a.skip(a.len() as int)) =~= Seq::empty());
        assert(words(a) =~= seq![a]);
        assert((seq![c] + b)[0] == c);
        assert(trim_start(seq![c] + b) == trim_start(b));
    }
}

proof fn lemma_word_ends(a: Seq<char>, b: Seq<char>)
    requires
        forall|i: int| 0 <= i < a.len() ==> !is_whitespace(#[trigger] a[i]),
        b.len() > 0 ==> is_whitespace(b[0]),
    ensures
        word_len(a + b) == a.len(),
    decreases a.len(),
{
    let whole = a + b;
    if a.len() == 0 {
        assert(whole =~= b);
    } else {
        assert(whole[0] == a[0]);
        let rest = a.skip(1);
        assert forall|i: int| 0 <= i < rest.len() implies !is_whitespace(#[trigger] rest[i]) by {
            assert(rest[i] == a[i + 1]);
        }
        assert(whole.skip(1) =~= rest + b);
        lemma_word_ends(rest, b);
    }
}

/// What follows the last separator is the last piece, and all where there is none.
pub proof fn law_the_last_piece_follows_the_last_separator(a: Seq<char>, b: Seq<char>, c: char)
    requires
        !b.contains(c),
    ensures
        after_last(a + seq![c] + b, c) == b,
        after_last(b, c) == b,
{
    lemma_split_around(a, b, c);
    lemma_split_whole(b, c);
}

/// The pieces that are not empty are all that counts, in their order.
pub proof fn law_empty_pieces_do_not_count(a: Seq<char>, b: Seq<char>, c: char)
    requires
        !a.contains(c),
    ensures
        a.len() > 0 ==> tokens(a, c) == seq![a],
        a.len() == 0 ==> tokens(a, c).len() == 0,
        tokens(b + seq![c] + a, c) == tokens(b, c) + tokens(a, c),
{
    reveal_with_fuel(nonempty_upto, 2);
    lemma_split_whole(a, c);
    lemma_split_around(b, a, c);
    let pieces = split(b, c);
    let all = pieces + seq![a];
    lemma_nonempty_front(pieces, seq![a], pieces.len() as int);
    assert(all[all.len() - 1] == a);
    assert(tokens(b, c) + Seq::<Seq<char>>::empty() =~= tokens(b, c));
    if a.len() > 0 {
        assert(tokens(b, c).push(a) =~= tokens(b, c) + seq![a]);
        assert(tokens(a, c) =~= seq![a]);
    } else {
        assert(tokens(a, c) =~= Seq::empty());
    }
}

proof fn lemma_nonempty_front(a: Seq<Seq<char>>, b: Seq<Seq<char>>, n: int)
    requires
        0 <= n <= a.len(),
    ensures
        nonempty_upto(a + b, n) == nonempty_upto(a, n),
    decreases n,
{
    if n > 0 {
        lemma_nonempty_front(a, b, n - 1);
        assert((a + b)[n - 1] == a[n - 1]);
    }
}

/// A character is trimmed off either end as often as it stands there, and nowhere else.
pub proof fn law_a_character_is_trimmed(s: Seq<char>, c: char)
    ensures
        trim_start_char(seq![c] + s, c) == trim_start_char(s, c),
        trim_end_char(s.push(c), c) == trim_end_char(s, c),
        s.len() == 0 || s[0] != c ==> trim_start_char(s, c) == s,
        s.len() == 0 || s[s.len() - 1] != c ==> trim_end_char(s, c) == s,
        s.len() == 0 || (s[0] != c && s[s.len() - 1] != c) ==> trim_char(s, c) == s,
        trim_char(seq![c] + s, c) == trim_char(s, c),
{
    assert((seq![c] + s).skip(1) =~= s);
    assert(s.push(c).take(s.len() as int) =~= s);
}

/// A text is trimmed off the front as often as it stands there.
pub proof fn law_a_text_is_trimmed_off_the_front(s: Seq<char>, p: Seq<char>)
    requires
        p.len() > 0,
    ensures
        trim_start_str(p + s, p) == trim_start_str(s, p),
        !starts_with(s, p) ==> trim_start_str(s, p) == s,
{
    law_what_was_put_around_comes_off(p, s);
}

/// Bytes add up, plain characters take one each, and none takes more than four.
pub proof fn law_bytes_add_up(a: Seq<char>, b: Seq<char>, c: char)
    ensures
        byte_len(a + b) == byte_len(a) + byte_len(b),
        byte_len(seq![c]) == utf8_len(c),
        (c as u32) < 0x80 <==> utf8_len(c) == 1,
        0x80 <= (c as u32) < 0x800 <==> utf8_len(c) == 2,
        0x800 <= (c as u32) < 0x10000 <==> utf8_len(c) == 3,
        0x10000 <= (c as u32) <==> utf8_len(c) == 4,
        byte_len(Seq::<char>::empty()) == 0,
    decreases b.len(),
{
    reveal_with_fuel(byte_len, 2);
    assert(seq![c].take(0) =~= Seq::empty());
    let whole = a + b;
    if b.len() == 0 {
        assert(whole =~= a);
    } else {
        assert(whole.take(whole.len() - 1) =~= a + b.take(b.len() - 1));
        law_bytes_add_up(a, b.take(b.len() - 1), c);
    }
}

/// The front of a text by its bytes ends where a character ends, or there is none.
pub proof fn law_a_front_is_cut_between_characters(a: Seq<char>, b: Seq<char>, n: int)
    ensures
        byte_prefix(a + b, byte_len(a)) == Some(a),
        byte_prefix(b, n) matches Some(f) ==> byte_len(f) == n && f.len() <= b.len() && f == b.take(
            f.len() as int,
        ),
{
    lemma_boundary(a + b, 0, a.len() as int);
    assert((a + b).subrange(0, a.len() as int) =~= a);
    assert((a + b).take(a.len() as int) =~= a);
    lemma_boundary_back(b, 0, n);
    if let Some(k) = boundary_from(b, 0, n) {
        assert(b.subrange(0, k) =~= b.take(k));
    }
}

proof fn lemma_boundary(s: Seq<char>, i: int, k: int)
    requires
        0 <= i <= k <= s.len(),
    ensures
        byte_len(s.subrange(i, k)) >= 0,
        i < k ==> byte_len(s.subrange(i, k)) > 0,
        boundary_from(s, i, byte_len(s.subrange(i, k))) == Some(k),
    decreases k - i,
{
    if i < k {
        lemma_boundary(s, i + 1, k);
        law_bytes_add_up(seq![s[i]], s.subrange(i + 1, k), s[i]);
        assert(s.subrange(i, k) =~= seq![s[i]] + s.subrange(i + 1, k));
    } else {
        assert(s.subrange(i, k) =~= Seq::empty());
    }
}

proof fn lemma_boundary_back(s: Seq<char>, i: int, n: int)
    requires
        0 <= i <= s.len(),
    ensures
        boundary_from(s, i, n) matches Some(k) ==> i <= k <= s.len() && byte_len(s.subrange(i, k))
            == n,
    decreases s.len() - i,
{
    if n == 0 {
        assert(s.subrange(i, i) =~= Seq::empty());
    } else if n > 0 && i < s.len() {
        lemma_boundary_back(s, i + 1, n - utf8_len(s[i]));
        if let Some(k) = boundary_from(s, i, n) {
            law_bytes_add_up(seq![s[i]], s.subrange(i + 1, k), s[i]);
            assert(s.subrange(i, k) =~= seq![s[i]] + s.subrange(i + 1, k));
        }
    }
}

/// The first line of a text is what stands in front of its first line feed.
pub proof fn law_the_first_line_comes_first(a: Seq<char>, b: Seq<char>)
    requires
        !a.contains('\n'),
        a.len() == 0 || a[a.len() - 1] != '\r',
    ensures
        first_line(a) == a,
        first_line(a + seq!['\n'] + b) == a,
{
    law_a_text_is_read_by_line(a, b);
}

/// Fields with a separator behind each, and then what follows them.
pub open spec fn parted(fields: Seq<Seq<char>>, tail: Seq<char>, c: char) -> Seq<char>
    decreases fields.len(),
{
    if fields.len() == 0 {
        tail
    } else {
        fields[0] + seq![c] + parted(fields.skip(1), tail, c)
    }
}

/// Fields come back as they were put together, and what follows them stays whole.
pub proof fn law_fields_come_back(fields: Seq<Seq<char>>, tail: Seq<char>, c: char)
    requires
        forall|i: int| 0 <= i < fields.len() ==> !(#[trigger] fields[i]).contains(c),
    ensures
        splitn(parted(fields, tail, c), (fields.len() + 1) as nat, c) == fields.push(tail),
    decreases fields.len(),
{
    let n = fields.len();
    if n == 0 {
        law_splitn_leaves_the_rest_whole(Seq::empty(), tail, 1, c);
        assert(fields.push(tail) =~= seq![tail]);
    } else {
        let rest = fields.skip(1);
        assert forall|i: int| 0 <= i < rest.len() implies !(#[trigger] rest[i]).contains(c) by {
            assert(rest[i] == fields[i + 1]);
        }
        law_fields_come_back(rest, tail, c);
        assert(!fields[0].contains(c));
        law_splitn_leaves_the_rest_whole(fields[0], parted(rest, tail, c), (n + 1) as nat, c);
        assert(seq![fields[0]] + rest.push(tail) =~= fields.push(tail));
    }
}

/// A text split at a longer separator gives the pieces between: here where a piece does
/// not hold its first character.
pub proof fn law_a_text_is_split_at_a_text(a: Seq<char>, sep: Seq<char>, b: Seq<char>)
    requires
        sep.len() > 0,
        !a.contains(sep[0]),
    ensures
        split_str(a, sep) == seq![a],
        split_str(a + sep + b, sep) == seq![a] + split_str(b, sep),
{
    let s = a + sep + b;
    lemma_not_found(a, sep);
    lemma_found_behind(a, sep, b);
    let n = a.len() as int;
    assert(s.take(n) =~= a);
    assert(s.skip(n + sep.len()) =~= b);
    assert(split_str(a, sep) =~= seq![a]);
    assert(split_str(s, sep) =~= seq![a] + split_str(b, sep));
}

proof fn lemma_not_found(a: Seq<char>, sep: Seq<char>)
    requires
        sep.len() > 0,
        !a.contains(sep[0]),
    ensures
        find(a, sep) is None,
{
    if let Some(k) = find(a, sep) {
        lemma_find_from(a, sep, 0);
        lemma_starts_there(a, sep, k);
        assert(a.contains(a[k]));
    }
}

pub proof fn lemma_found_behind(a: Seq<char>, sep: Seq<char>, b: Seq<char>)
    requires
        sep.len() > 0,
        !a.contains(sep[0]),
    ensures
        find(a + sep + b, sep) == Some(a.len() as int),
{
    let n = a.len() as int;
    assert((a + sep + b).subrange(n, n + sep.len()) =~= sep);
    assert forall|k: int| 0 <= k < n implies !#[trigger] occurs_at(a + sep + b, sep, k) by {
        lemma_not_before(a, sep, b, k);
    }
    lemma_found_first(a + sep + b, sep, n, 0);
}

proof fn lemma_found_first(s: Seq<char>, p: Seq<char>, n: int, from: int)
    requires
        0 <= from <= n,
        occurs_at(s, p, n),
        forall|k: int| 0 <= k < n ==> !#[trigger] occurs_at(s, p, k),
    ensures
        find_from(s, p, from) == Some(n),
    decreases n - from,
{
    if from < n {
        lemma_found_first(s, p, n, from + 1);
    }
}

proof fn lemma_not_before(a: Seq<char>, sep: Seq<char>, b: Seq<char>, k: int)
    requires
        sep.len() > 0,
        !a.contains(sep[0]),
        0 <= k < a.len(),
    ensures
        !occurs_at(a + sep + b, sep, k),
{
    if occurs_at(a + sep + b, sep, k) {
        lemma_starts_there(a + sep + b, sep, k);
        assert((a + sep + b)[k] == a[k]);
        assert(a.contains(a[k]));
    }
}

proof fn lemma_starts_there(s: Seq<char>, p: Seq<char>, k: int)
    requires
        p.len() > 0,
        occurs_at(s, p, k),
    ensures
        s[k] == p[0],
{
    assert(s.subrange(k, k + p.len())[0] == s[k]);
}

/// The pieces of a text make it up again.
pub proof fn law_pieces_make_up_the_text(s: Seq<char>, c: char)
    ensures
        join(split(s, c), seq![c]) == s,
    decreases s.len(),
{
    lemma_pos(s, c);
    let i = pos(s, c);
    if i >= s.len() {
        assert(split(s, c) =~= seq![s]);
    } else {
        let rest = s.skip(i + 1);
        law_pieces_make_up_the_text(rest, c);
        lemma_split_pieces(rest, c);
        lemma_join_in_front(s.take(i), split(rest, c), seq![c]);
        assert(s =~= s.take(i) + seq![c] + rest);
    }
}

pub proof fn lemma_join_in_front(first: Seq<char>, rest: Seq<Seq<char>>, sep: Seq<char>)
    requires
        rest.len() > 0,
    ensures
        join(seq![first] + rest, sep) == first + sep + join(rest, sep),
    decreases rest.len(),
{
    let all = seq![first] + rest;
    let fewer = rest.take(rest.len() - 1);
    let last = rest[rest.len() - 1];
    assert(all.take(all.len() - 1) =~= seq![first] + fewer);
    assert(all[all.len() - 1] == last);
    if fewer.len() > 0 {
        lemma_join_in_front(first, fewer, sep);
        assert(join(all, sep) =~= first + sep + (join(fewer, sep) + sep + last));
    } else {
        assert(seq![first] + fewer =~= seq![first]);
        assert(join(all, sep) =~= first + sep + last);
    }
}

} // verus!
