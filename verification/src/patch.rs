//! Unified diffs, line by line.

use vstd::prelude::*;
use vstd::slice::slice_subrange;

use crate::number::{add32, read_u32};
use crate::text::{
    from_chars, has_prefix, rfind_str, spells, split_lines, split_words, stripped_prefix, to_chars,
    trimmed_start_str, up_to_char,
};

verus! {

#[derive(Debug, Clone, Copy, PartialEq, Eq, Structural)]
pub enum LineKind {
    /// The start of one file's diff. Its text is the path.
    File,
    /// `@@ -1,5 +1,6 @@`, with whatever context git put after it.
    Hunk,
    Added,
    Removed,
    Context,
    /// Something git said about the file rather than a line of it: a binary
    /// file, a mode change, a missing newline.
    Note,
}

#[derive(Debug, Clone, PartialEq, Eq)]
pub struct PatchLine {
    pub kind: LineKind,
    pub text: String,
    /// Line numbers in the old and new file, where the line has one.
    pub old: Option<u32>,
    pub new: Option<u32>,
}

/// A line of a patch, by its contents.
pub struct PatchText {
    pub kind: LineKind,
    pub text: Seq<char>,
    pub old: Option<u32>,
    pub new: Option<u32>,
}

impl View for PatchLine {
    type V = PatchText;

    open spec fn view(&self) -> PatchText {
        PatchText { kind: self.kind, text: self.text@, old: self.old, new: self.new }
    }
}

pub open spec fn patch_texts(lines: Seq<PatchLine>) -> Seq<PatchText> {
    lines.map_values(|l: PatchLine| l@)
}

/// A line without numbers.
pub open spec fn plain(kind: LineKind, text: Seq<char>) -> PatchText {
    PatchText { kind, text, old: None, new: None }
}

/// `a/x b/x` from a `diff --git` line. Only a fallback: the `+++` and `---`
/// lines that follow replace it, and only a binary file or a pure rename or
/// mode change goes without them.
pub open spec fn diff_line_path(rest: Seq<char>) -> Seq<char> {
    match crate::text::rfind(rest, " b/"@) {
        Some(at) => rest.skip(at + 3),
        None => rest,
    }
}

/// The number in front of the comma; zero where it cannot be read.
pub open spec fn hunk_number(s: Seq<char>) -> int {
    crate::number::or_zero(
        crate::number::parse_unsigned(crate::text::before_char(s, ','), u32::MAX as int),
    )
}

/// Where a hunk starts in each file, from the words of `-12,7 +12,9 @@`: the last
/// numbers given before the closing `@@`.
pub open spec fn hunk_start(words: Seq<Seq<char>>, old: int, new: int) -> (int, int)
    decreases words.len(),
{
    if words.len() == 0 {
        (old, new)
    } else {
        let w = words[0];
        if crate::text::starts_with(w, "-"@) {
            hunk_start(words.skip(1), hunk_number(w.skip(1)), new)
        } else if crate::text::starts_with(w, "+"@) {
            hunk_start(words.skip(1), old, hunk_number(w.skip(1)))
        } else if w == "@@"@ && (old > 0 || new > 0) {
            (old, new)
        } else {
            hunk_start(words.skip(1), old, new)
        }
    }
}

/// How far the reading of a patch has got: the lines so far, whether the next
/// line belongs to a hunk and what it is numbered, and the file whose name is not
/// settled yet, with what was noted of it.
pub struct PatchState {
    pub out: Seq<PatchText>,
    pub in_hunk: bool,
    pub old: int,
    pub new: int,
    pub pending: Option<(Seq<char>, Seq<PatchText>)>,
}

/// The lines once the pending file is settled.
pub open spec fn flushed(st: PatchState) -> Seq<PatchText> {
    match st.pending {
        Some((path, notes)) => st.out.push(plain(LineKind::File, path)) + notes,
        None => st.out,
    }
}

/// A line inside a hunk: a line of the file, or a remark about it. Anything else
/// ends the hunk.
pub open spec fn hunk_step(st: PatchState, text: Seq<char>) -> Option<PatchState> {
    let old = Some(st.old as u32);
    let new = Some(st.new as u32);
    if text.len() == 0 || text[0] == ' ' {
        let content = if text.len() == 0 {
            text
        } else {
            text.skip(1)
        };
        Some(
            PatchState {
                out: st.out.push(
                    PatchText { kind: LineKind::Context, text: content, old, new },
                ),
                old: crate::number::wrap32(st.old + 1),
                new: crate::number::wrap32(st.new + 1),
                ..st
            },
        )
    } else if text[0] == '+' {
        Some(
            PatchState {
                out: st.out.push(
                    PatchText { kind: LineKind::Added, text: text.skip(1), old: None, new },
                ),
                new: crate::number::wrap32(st.new + 1),
                ..st
            },
        )
    } else if text[0] == '-' {
        Some(
            PatchState {
                out: st.out.push(
                    PatchText { kind: LineKind::Removed, text: text.skip(1), old, new: None },
                ),
                old: crate::number::wrap32(st.old + 1),
                ..st
            },
        )
    } else if text[0] == '\\' {
        Some(
            PatchState {
                out: st.out.push(
                    plain(LineKind::Note, crate::text::trim_start_str(text, "\\ "@)),
                ),
                ..st
            },
        )
    } else {
        None
    }
}

/// The name a `+++` or `---` line gives a file, if it gives one.
pub open spec fn named_path(p: Seq<char>, prefix: Seq<char>, before: Seq<char>) -> Seq<char> {
    if p == "/dev/null"@ {
        before
    } else {
        match crate::text::strip_prefix(p, prefix) {
            Some(rest) => rest,
            None => p,
        }
    }
}

/// What a line between the hunks says about the file at hand.
pub open spec fn file_step(path: Seq<char>, notes: Seq<PatchText>, text: Seq<char>) -> (
    Seq<char>,
    Seq<PatchText>,
) {
    if crate::text::starts_with(text, "+++ "@) {
        (named_path(text.skip(4), "b/"@, path), notes)
    } else if crate::text::starts_with(text, "--- "@) {
        (named_path(text.skip(4), "a/"@, path), notes)
    } else if crate::text::starts_with(text, "rename to "@) {
        (text.skip(10), notes)
    } else if crate::text::starts_with(text, "Binary files "@) {
        (path, notes.push(plain(LineKind::Note, "binary file, not shown"@)))
    } else if crate::text::starts_with(text, "new mode "@) {
        (path, notes.push(plain(LineKind::Note, "mode changed to "@ + text.skip(9))))
    } else {
        (path, notes)
    }
}

/// A line outside a hunk: the start of one, or something about the file.
pub open spec fn header_step(st: PatchState, text: Seq<char>) -> PatchState {
    if crate::text::starts_with(text, "@@"@) {
        let starts = hunk_start(crate::text::words(text.skip(2)), 0, 0);
        PatchState {
            out: flushed(st).push(plain(LineKind::Hunk, text)),
            in_hunk: true,
            old: starts.0,
            new: starts.1,
            pending: None,
        }
    } else {
        PatchState {
            in_hunk: false,
            pending: match st.pending {
                None => None,
                Some((path, notes)) => Some(file_step(path, notes, text)),
            },
            ..st
        }
    }
}

/// What one line does to the reading.
pub open spec fn patch_step(st: PatchState, text: Seq<char>) -> PatchState {
    if crate::text::starts_with(text, "diff --git "@) {
        PatchState {
            out: flushed(st),
            in_hunk: false,
            pending: Some((diff_line_path(text.skip(11)), Seq::empty())),
            ..st
        }
    } else {
        match (if st.in_hunk {
            hunk_step(st, text)
        } else {
            None
        }) {
            Some(next) => next,
            None => header_step(st, text),
        }
    }
}

pub open spec fn patch_start() -> PatchState {
    PatchState { out: Seq::empty(), in_hunk: false, old: 0, new: 0, pending: None }
}

/// The reading after these lines.
pub open spec fn patch_read(lines: Seq<Seq<char>>) -> PatchState
    decreases lines.len(),
{
    if lines.len() == 0 {
        patch_start()
    } else {
        patch_step(patch_read(lines.take(lines.len() - 1)), lines[lines.len() - 1])
    }
}

/// The lines of a patch worth drawing.
pub open spec fn patch_lines(raw: Seq<char>) -> Seq<PatchText> {
    flushed(patch_read(crate::text::lines(raw)))
}

// ---------------------------------------------------------------------------
// Reading
// ---------------------------------------------------------------------------

struct Reader {
    out: Vec<PatchLine>,
    in_hunk: bool,
    old: u32,
    new: u32,
    pending: Option<(String, Vec<PatchLine>)>,
}

impl Reader {
    spec fn state(&self) -> PatchState {
        PatchState {
            out: patch_texts(self.out@),
            in_hunk: self.in_hunk,
            old: self.old as int,
            new: self.new as int,
            pending: match self.pending {
                Some((path, notes)) => Some((path@, patch_texts(notes@))),
                None => None,
            },
        }
    }

    fn push(&mut self, kind: LineKind, text: String, left: Option<u32>, right: Option<u32>)
        ensures
            final(self).state() == (PatchState {
                out: old(self).state().out.push(
                    PatchText { kind, text: text@, old: left, new: right },
                ),
                ..old(self).state()
            }),
    {
        let ghost before = self.out@;
        let ghost entry = PatchText { kind, text: text@, old: left, new: right };
        self.out.push(PatchLine { kind, text, old: left, new: right });
        assert(patch_texts(self.out@) =~= patch_texts(before).push(entry));
    }

    fn flush(&mut self)
        ensures
            final(self).state() == (PatchState {
                out: flushed(old(self).state()),
                pending: None,
                ..old(self).state()
            }),
    {
        let ghost start = self.state();
        match self.pending.take() {
            Some((path, notes)) => {
                let ghost before = self.out@;
                let ghost file = path@;
                let mut more = notes;
                let ghost extra = more@;
                self.out.push(PatchLine { kind: LineKind::File, text: path, old: None, new: None });
                self.out.append(&mut more);
                assert(patch_texts(self.out@) =~= patch_texts(before).push(
                    plain(LineKind::File, file),
                ) + patch_texts(extra));
            },
            None => {},
        }
    }

    /// A line inside a hunk; `false` where it is none.
    fn hunk_line(&mut self, text: &[char]) -> (r: bool)
        ensures
            (match hunk_step(old(self).state(), text@) {
                Some(next) => r && final(self).state() == next,
                None => !r && *final(self) == *old(self),
            }),
    {
        let left: u32 = self.old;
        let right: u32 = self.new;
        if text.len() == 0 {
            // An empty context line, from a tool that trimmed the space.
            let empty = String::new();
            assert(empty@ =~= text@);
            self.push(LineKind::Context, empty, Some(left), Some(right));
            self.old = add32(left, 1);
            self.new = add32(right, 1);
            return true;
        }
        let first = text[0];
        let rest = slice_subrange(text, 1, text.len());
        assert(rest@ =~= text@.skip(1));
        if first == ' ' {
            self.push(LineKind::Context, from_chars(rest), Some(left), Some(right));
            self.old = add32(left, 1);
            self.new = add32(right, 1);
            true
        } else if first == '+' {
            self.push(LineKind::Added, from_chars(rest), None, Some(right));
            self.new = add32(right, 1);
            true
        } else if first == '-' {
            self.push(LineKind::Removed, from_chars(rest), Some(left), None);
            self.old = add32(left, 1);
            true
        } else if first == '\\' {
            proof {
                reveal_strlit("\\ ");
            }
            self.push(LineKind::Note, from_chars(trimmed_start_str(text, "\\ ")), None, None);
            true
        } else {
            false
        }
    }

    fn header_line(&mut self, text: &[char])
        ensures
            final(self).state() == header_step(old(self).state(), text@),
    {
        let ghost start = self.state();
        self.in_hunk = false;
        match stripped_prefix(text, "@@") {
            Some(rest) => {
                proof {
                    reveal_strlit("@@");
                }
                self.flush();
                let starts = hunk_starts(rest);
                self.old = starts.0;
                self.new = starts.1;
                self.in_hunk = true;
                self.push(LineKind::Hunk, from_chars(text), None, None);
            },
            None => {
                match self.pending.take() {
                    Some((path, notes)) => {
                        let ghost before = (path@, patch_texts(notes@));
                        let next = file_line(path, notes, text);
                        self.pending = Some(next);
                    },
                    None => {},
                }
            },
        }
    }

    fn feed(&mut self, text: &[char])
        ensures
            final(self).state() == patch_step(old(self).state(), text@),
    {
        if let Some(rest) = stripped_prefix(text, "diff --git ") {
            proof {
                reveal_strlit("diff --git ");
            }
            self.flush();
            self.in_hunk = false;
            let notes: Vec<PatchLine> = Vec::new();
            assert(patch_texts(notes@) =~= Seq::empty());
            self.pending = Some((path_from_diff_line(rest), notes));
            return ;
        }
        if self.in_hunk && self.hunk_line(text) {
            return ;
        }
        self.header_line(text);
    }
}

fn push_note(notes: &mut Vec<PatchLine>, text: String)
    ensures
        patch_texts(final(notes)@) == patch_texts(old(notes)@).push(plain(LineKind::Note, text@)),
{
    let ghost before = notes@;
    let ghost entry = plain(LineKind::Note, text@);
    notes.push(PatchLine { kind: LineKind::Note, text, old: None, new: None });
    assert(patch_texts(notes@) =~= patch_texts(before).push(entry));
}

fn named(p: &[char], prefix: &str, before: String) -> (r: String)
    ensures
        r@ == named_path(p@, prefix@, before@),
{
    if spells(p, "/dev/null") {
        return before;
    }
    match stripped_prefix(p, prefix) {
        Some(rest) => from_chars(rest),
        None => from_chars(p),
    }
}

fn file_line(path: String, notes: Vec<PatchLine>, text: &[char]) -> (r: (String, Vec<PatchLine>))
    ensures
        (r.0@, patch_texts(r.1@)) == file_step(path@, patch_texts(notes@), text@),
{
    proof {
        reveal_strlit("+++ ");
        reveal_strlit("--- ");
        reveal_strlit("rename to ");
        reveal_strlit("new mode ");
    }
    let mut notes = notes;
    if let Some(p) = stripped_prefix(text, "+++ ") {
        (named(p, "b/", path), notes)
    } else if let Some(p) = stripped_prefix(text, "--- ") {
        // A deleted file only has its old path.
        (named(p, "a/", path), notes)
    } else if let Some(p) = stripped_prefix(text, "rename to ") {
        (from_chars(p), notes)
    } else if has_prefix(text, "Binary files ") {
        push_note(&mut notes, "binary file, not shown".to_owned());
        (path, notes)
    } else if let Some(mode) = stripped_prefix(text, "new mode ") {
        let mut note = "mode changed to ".to_owned();
        note.append(from_chars(mode).as_str());
        push_note(&mut notes, note);
        (path, notes)
    } else {
        (path, notes)
    }
}

fn path_from_diff_line(rest: &[char]) -> (r: String)
    ensures
        r@ == diff_line_path(rest@),
{
    match rfind_str(rest, " b/") {
        Some(at) => {
            proof {
                reveal_strlit(" b/");
            }
            assert(rest@.subrange(at + 3, rest@.len() as int) =~= rest@.skip(at + 3));
            let n: usize = rest.len();
            from_chars(slice_subrange(rest, at + 3, n))
        },
        None => from_chars(rest),
    }
}

fn read_hunk_number(s: &[char]) -> (r: u32)
    ensures
        r == hunk_number(s@),
{
    match read_u32(up_to_char(s, ',')) {
        Some(n) => n,
        None => 0,
    }
}

fn hunk_starts(rest: &[char]) -> (r: (u32, u32))
    ensures
        (r.0 as int, r.1 as int) == hunk_start(crate::text::words(rest@), 0, 0),
{
    let parts = split_words(rest);
    let ghost all = crate::text::words(rest@);
    let mut left: u32 = 0;
    let mut right: u32 = 0;
    let mut i: usize = 0;
    proof {
        reveal_strlit("-");
        reveal_strlit("+");
        assert(all.skip(0) =~= all);
    }
    while i < parts.len()
        invariant
            i <= parts@.len(),
            all == crate::text::views(parts@),
            all == crate::text::words(rest@),
            "-"@.len() == 1,
            "+"@.len() == 1,
            hunk_start(all, 0, 0) == hunk_start(all.skip(i as int), left as int, right as int),
        decreases parts@.len() - i,
    {
        let part = &parts[i];
        proof {
            assert(all.skip(i as int)[0] == part@);
            assert(all.skip(i as int).skip(1) =~= all.skip(i + 1));
        }
        if let Some(n) = stripped_prefix(part.as_slice(), "-") {
            left = read_hunk_number(n);
        } else if let Some(n) = stripped_prefix(part.as_slice(), "+") {
            right = read_hunk_number(n);
        } else if spells(part.as_slice(), "@@") && (left > 0 || right > 0) {
            return (left, right);
        }
        i = i + 1;
    }
    (left, right)
}

/// Parse a unified diff into lines worth drawing, numbering each one in the
/// old and new file as it goes.
pub fn parse_patch(raw: &str) -> (r: Vec<PatchLine>)
    ensures
        patch_texts(r@) == patch_lines(raw@),
{
    let v = to_chars(raw);
    let ls = split_lines(v.as_slice());
    let ghost all = crate::text::lines(raw@);
    let mut reader = Reader { out: Vec::new(), in_hunk: false, old: 0, new: 0, pending: None };
    assert(reader.state().out =~= Seq::empty());
    let mut i: usize = 0;
    while i < ls.len()
        invariant
            i <= ls@.len(),
            all == crate::text::views(ls@),
            reader.state() == patch_read(all.take(i as int)),
        decreases ls@.len() - i,
    {
        assert(all.take(i + 1).take(i as int) =~= all.take(i as int));
        assert(all.take(i + 1)[i as int] == ls@[i as int]@);
        reader.feed(ls[i].as_slice());
        i = i + 1;
    }
    assert(all.take(i as int) =~= all);
    reader.flush();
    reader.out
}

/// Inside a hunk, a line that starts with `+`, `-` or a space is a line of the
/// file, whatever it looks like after that: a removed line `-- x` is no file
/// header. It is numbered in every file it stands in, and moves that file's number
/// on by one.
pub proof fn law_hunk_lines_are_content(st: PatchState, text: Seq<char>)
    requires
        st.in_hunk,
        text.len() > 0,
        text[0] == '+' || text[0] == '-' || text[0] == ' ',
    ensures
        ({
            let next = patch_step(st, text);
            let line = next.out[next.out.len() - 1];
            &&& next.out.len() == st.out.len() + 1
            &&& next.out.take(st.out.len() as int) == st.out
            &&& line.text == text.skip(1)
            &&& line.kind == (if text[0] == '+' {
                LineKind::Added
            } else if text[0] == '-' {
                LineKind::Removed
            } else {
                LineKind::Context
            })
            &&& next.in_hunk
            &&& next.pending == st.pending
            &&& line.old == (if text[0] == '+' {
                None
            } else {
                Some(st.old as u32)
            })
            &&& line.new == (if text[0] == '-' {
                None
            } else {
                Some(st.new as u32)
            })
            &&& next.old == (if text[0] == '+' {
                st.old
            } else {
                crate::number::wrap32(st.old + 1)
            })
            &&& next.new == (if text[0] == '-' {
                st.new
            } else {
                crate::number::wrap32(st.new + 1)
            })
        }),
{
    reveal_strlit("diff --git ");
    assert(!crate::text::starts_with(text, "diff --git "@)) by {
        if crate::text::starts_with(text, "diff --git "@) {
            assert(text.take(11)[0] == text[0]);
        }
    }
    assert(patch_step(st, text).out.take(st.out.len() as int) =~= st.out);
}

/// A hunk starts where its header says: at the old line behind the minus and the new one
/// behind the plus, lengths and all that follows left out.
pub proof fn law_a_hunk_starts_where_it_says(n: int, m: int, a: Seq<char>, b: Seq<char>, rest: Seq<Seq<char>>)
    requires
        0 <= n <= u32::MAX,
        0 <= m <= u32::MAX,
        n > 0 || m > 0,
        a.len() == 0 || a[0] == ',',
        b.len() == 0 || b[0] == ',',
    ensures
        hunk_start(
            seq![
                seq!['-'] + crate::number::decimal(n) + a,
                seq!['+'] + crate::number::decimal(m) + b,
                "@@"@,
            ] + rest,
            0,
            0,
        ) == (n, m),
{
    reveal_strlit("-");
    reveal_strlit("+");
    reveal_strlit("@@");
    assert("-"@ =~= seq!['-']);
    assert("+"@ =~= seq!['+']);
    let x = seq!['-'] + crate::number::decimal(n) + a;
    let y = seq!['+'] + crate::number::decimal(m) + b;
    let ws = seq![x, y, "@@"@] + rest;
    lemma_hunk_number(n, a);
    lemma_hunk_number(m, b);
    assert(x.take(1) =~= seq!['-']);
    assert(y.take(1) =~= seq!['+']);
    assert(x.skip(1) =~= crate::number::decimal(n) + a);
    assert(y.skip(1) =~= crate::number::decimal(m) + b);
    assert(!crate::text::starts_with(y, "-"@)) by {
        assert(y.take(1)[0] == '+' && "-"@[0] == '-');
    }
    assert("@@"@.take(1)[0] == '@');
    let one = ws.skip(1);
    let two = one.skip(1);
    assert(ws[0] == x && one[0] == y && two[0] == "@@"@);
    assert(hunk_start(two, n, m) == (n, m));
    assert(hunk_start(one, n, 0) == hunk_start(two, n, m));
    assert(hunk_start(ws, 0, 0) == hunk_start(one, n, 0));
}

proof fn lemma_hunk_number(n: int, a: Seq<char>)
    requires
        0 <= n <= u32::MAX,
        a.len() == 0 || a[0] == ',',
    ensures
        hunk_number(crate::number::decimal(n) + a) == n,
{
    let d = crate::number::decimal(n);
    crate::number::law_a_number_reads_back(n, u32::MAX as int);
    assert(!d.contains(',')) by {
        if d.contains(',') {
            let i = choose|i: int| 0 <= i < d.len() && d[i] == ',';
            assert(crate::text::is_digit(d[i]));
        }
    }
    if a.len() == 0 {
        assert(d + a =~= d);
        crate::text::law_split_once_goes_by_the_first(d, a, ',');
    } else {
        crate::text::law_split_once_goes_by_the_first(d, a.skip(1), ',');
        assert(d + a =~= d + seq![','] + a.skip(1));
    }
}

/// In a hunk every line is shown, without its mark: what stays with both its numbers, what
/// was added with its new one, what was removed with its old one; and each side counts its
/// own lines.
pub proof fn law_a_hunk_counts_both_sides(st: PatchState, text: Seq<char>)
    requires
        st.in_hunk,
        0 <= st.old < u32::MAX,
        0 <= st.new < u32::MAX,
    ensures
        ({
            let stays = hunk_step(st, seq![' '] + text);
            let added = hunk_step(st, seq!['+'] + text);
            let removed = hunk_step(st, seq!['-'] + text);
            let (o, n) = (Some(st.old as u32), Some(st.new as u32));
            &&& stays is Some && added is Some && removed is Some
            &&& stays->0.out == st.out.push(
                PatchText { kind: LineKind::Context, text, old: o, new: n },
            )
            &&& added->0.out == st.out.push(
                PatchText { kind: LineKind::Added, text, old: None, new: n },
            )
            &&& removed->0.out == st.out.push(
                PatchText { kind: LineKind::Removed, text, old: o, new: None },
            )
            &&& stays->0.old == st.old + 1 && stays->0.new == st.new + 1
            &&& added->0.old == st.old && added->0.new == st.new + 1
            &&& removed->0.old == st.old + 1 && removed->0.new == st.new
            &&& stays->0.in_hunk && added->0.in_hunk && removed->0.in_hunk
        }),
{
    assert((seq![' '] + text).skip(1) =~= text);
    assert((seq!['+'] + text).skip(1) =~= text);
    assert((seq!['-'] + text).skip(1) =~= text);
}

/// A hunk holds only lines with such a mark, and the note on a missing line feed.
pub proof fn law_a_hunk_ends_at_another_mark(st: PatchState, text: Seq<char>)
    ensures
        hunk_step(st, text) is None <==> text.len() > 0 && text[0] != ' ' && text[0] != '+'
            && text[0] != '-' && text[0] != '\\',
        text.len() > 0 && text[0] == '\\' ==> hunk_step(st, text)->0.old == st.old && hunk_step(
            st,
            text,
        )->0.new == st.new && hunk_step(st, text)->0.out.len() == st.out.len() + 1,
{
}

/// The path of a file is what its new side is called, its old side where the new is gone,
/// and what it is renamed to.
pub proof fn law_a_file_has_its_path(path: Seq<char>, p: Seq<char>, notes: Seq<PatchText>)
    ensures
        file_step(path, notes, "+++ b/"@ + p) == (p, notes),
        file_step(path, notes, "--- a/"@ + p) == (p, notes),
        file_step(path, notes, "+++ /dev/null"@) == (path, notes),
        file_step(path, notes, "--- /dev/null"@) == (path, notes),
        file_step(path, notes, "rename to "@ + p) == (p, notes),
{
    reveal_strlit("+++ ");
    reveal_strlit("--- ");
    reveal_strlit("+++ b/");
    reveal_strlit("--- a/");
    reveal_strlit("b/");
    reveal_strlit("a/");
    reveal_strlit("+++ /dev/null");
    reveal_strlit("--- /dev/null");
    reveal_strlit("/dev/null");
    reveal_strlit("rename to ");
    let new = "+++ b/"@ + p;
    assert(new.take(4) =~= "+++ "@);
    assert(new.skip(4) =~= "b/"@ + p);
    crate::text::law_what_was_put_around_comes_off("b/"@, p);
    assert(("b/"@ + p)[0] == 'b');
    let before = "--- a/"@ + p;
    assert(before.take(4) =~= "--- "@);
    assert(before.skip(4) =~= "a/"@ + p);
    crate::text::law_what_was_put_around_comes_off("a/"@, p);
    assert(("a/"@ + p)[0] == 'a');
    assert(before.take(4)[0] == '-' && "+++ "@[0] == '+');
    let gone = "+++ /dev/null"@;
    assert(gone.take(4) =~= "+++ "@);
    assert(gone.skip(4) =~= "/dev/null"@);
    let made = "--- /dev/null"@;
    assert(made.take(4) =~= "--- "@);
    assert(made.skip(4) =~= "/dev/null"@);
    let renamed = "rename to "@ + p;
    crate::text::law_what_was_put_around_comes_off("rename to "@, p);
    assert(renamed.take(4)[0] == 'r');
    assert(renamed.skip(10) =~= p);
}

/// A binary file and a change of mode are told in a note, and nothing else of a header is.
pub proof fn law_a_header_is_told_in_notes(path: Seq<char>, p: Seq<char>, notes: Seq<PatchText>)
    ensures
        file_step(path, notes, "Binary files "@ + p).0 == path,
        file_step(path, notes, "Binary files "@ + p).1 == notes.push(
            plain(LineKind::Note, "binary file, not shown"@),
        ),
        file_step(path, notes, "new mode "@ + p).0 == path,
        file_step(path, notes, "new mode "@ + p).1 == notes.push(
            plain(LineKind::Note, "mode changed to "@ + p),
        ),
        file_step(path, notes, "index "@ + p) == (path, notes),
{
    reveal_strlit("+++ ");
    reveal_strlit("--- ");
    reveal_strlit("rename to ");
    reveal_strlit("Binary files ");
    reveal_strlit("new mode ");
    reveal_strlit("index ");
    let binary = "Binary files "@ + p;
    crate::text::law_what_was_put_around_comes_off("Binary files "@, p);
    assert(binary[0] == 'B' && binary.take(4)[0] == 'B');
    assert(!crate::text::starts_with(binary, "rename to "@)) by {
        assert(binary.take(10)[0] == 'B');
    }
    let mode = "new mode "@ + p;
    crate::text::law_what_was_put_around_comes_off("new mode "@, p);
    assert(mode[0] == 'n' && mode.take(4)[0] == 'n');
    assert(!crate::text::starts_with(mode, "rename to "@)) by {
        if mode.len() >= 10 {
            assert(mode.take(10)[0] == 'n');
        }
    }
    assert(!crate::text::starts_with(mode, "Binary files "@)) by {
        if mode.len() >= 13 {
            assert(mode.take(13)[0] == 'n');
        }
    }
    assert(mode.skip(9) =~= p);
    let index = "index "@ + p;
    assert(index[0] == 'i' && index.take(4)[0] == 'i');
    assert(!crate::text::starts_with(index, "rename to "@)) by {
        if index.len() >= 10 {
            assert(index.take(10)[0] == 'i');
        }
    }
    assert(!crate::text::starts_with(index, "Binary files "@)) by {
        if index.len() >= 13 {
            assert(index.take(13)[0] == 'i');
        }
    }
    assert(!crate::text::starts_with(index, "new mode "@)) by {
        if index.len() >= 9 {
            assert(index.take(9)[0] == 'i');
        }
    }
}

/// A file that starts shows the one before it, and waits for its own path and notes, which
/// come in front of its first hunk.
pub proof fn law_a_file_is_shown_before_its_hunks(st: PatchState, rest: Seq<char>, hunk: Seq<char>)
    requires
        !st.in_hunk,
    ensures
        ({
            let next = patch_step(st, "diff --git "@ + rest);
            &&& next.out == flushed(st)
            &&& !next.in_hunk
            &&& next.pending == Some((diff_line_path(rest), Seq::<PatchText>::empty()))
        }),
        ({
            let next = patch_step(st, "@@"@ + hunk);
            &&& next.in_hunk
            &&& next.pending is None
            &&& next.out == flushed(st).push(plain(LineKind::Hunk, "@@"@ + hunk))
            &&& (next.old, next.new) == hunk_start(crate::text::words(hunk), 0, 0)
        }),
        st.pending is None ==> flushed(st) == st.out,
        st.pending matches Some((path, notes)) ==> flushed(st) == st.out + seq![
            plain(LineKind::File, path),
        ] + notes,
{
    reveal_strlit("diff --git ");
    reveal_strlit("@@");
    crate::text::law_what_was_put_around_comes_off("diff --git "@, rest);
    assert(("diff --git "@ + rest).skip(11) =~= rest);
    let line = "@@"@ + hunk;
    crate::text::law_what_was_put_around_comes_off("@@"@, hunk);
    assert(line.skip(2) =~= hunk);
    assert(!crate::text::starts_with(line, "diff --git "@)) by {
        if line.len() >= 11 {
            assert(line.take(11)[0] == '@');
        }
    }
    if let Some((path, notes)) = st.pending {
        assert(st.out.push(plain(LineKind::File, path)) =~= st.out + seq![
            plain(LineKind::File, path),
        ]);
    }
}

/// A file is first called by the last name on its line.
pub proof fn law_a_file_is_called_by_its_last_name(front: Seq<char>, p: Seq<char>)
    requires
        !p.contains(' '),
    ensures
        diff_line_path(front + " b/"@ + p) == p,
{
    reveal_strlit(" b/");
    let rest = front + " b/"@ + p;
    let n = front.len() as int;
    crate::text::law_what_is_there_is_found(front, " b/"@, p);
    crate::text::law_what_is_there_is_found(front, " b/"@, rest);
    let at = crate::text::rfind(rest, " b/"@)->0;
    let shown = rest.take(at) + " b/"@ + rest.skip(at + 3);
    assert(rest == shown);
    assert(at + 3 <= rest.len()) by {
        lemma_last_place(rest);
    }
    assert(shown[at] == ' ');
    if at > n {
        if at >= n + 3 {
            assert(rest[at] == p[at - n - 3]);
            assert(p.contains(p[at - n - 3]));
        } else {
            assert(rest[at] == " b/"@[at - n]);
        }
    }
    assert(rest.skip(n + 3) =~= p);
}

proof fn lemma_last_place(rest: Seq<char>)
    ensures
        crate::text::rfind(rest, " b/"@) matches Some(at) ==> 0 <= at && at + " b/"@.len()
            <= rest.len(),
{
    lemma_place_before(rest, rest.len() - " b/"@.len() + 1);
}

proof fn lemma_place_before(rest: Seq<char>, n: int)
    ensures
        crate::text::rfind_before(rest, " b/"@, n) matches Some(at) ==> 0 <= at && at
            + " b/"@.len() <= rest.len(),
    decreases n,
{
    if n > 0 && !crate::text::occurs_at(rest, " b/"@, n - 1) {
        lemma_place_before(rest, n - 1);
    }
}

/// A patch is read line by line, from nothing, and ends by showing what waits.
pub proof fn law_a_patch_is_read_by_line(lines: Seq<Seq<char>>, line: Seq<char>, raw: Seq<char>)
    ensures
        patch_read(lines.push(line)) == patch_step(patch_read(lines), line),
        patch_read(Seq::empty()).out.len() == 0,
        patch_read(Seq::empty()).pending is None,
        !patch_read(Seq::empty()).in_hunk,
        patch_read(Seq::empty()).old == 0 && patch_read(Seq::empty()).new == 0,
        patch_lines(raw) == flushed(patch_read(crate::text::lines(raw))),
{
    let all = lines.push(line);
    assert(all.take(all.len() - 1) =~= lines);
}

/// What is read of a line is what it holds, field by field; a line of its own has no
/// numbers.
pub proof fn law_a_patch_text_is_its_value(
    lines: Seq<PatchLine>,
    i: int,
    kind: LineKind,
    text: Seq<char>,
)
    ensures
        patch_texts(lines).len() == lines.len(),
        0 <= i < lines.len() ==> {
            let (t, l) = (patch_texts(lines)[i], lines[i]);
            t.kind == l.kind && t.text == l.text@ && t.old == l.old && t.new == l.new
        },
        plain(kind, text).kind == kind && plain(kind, text).text == text,
        plain(kind, text).old is None && plain(kind, text).new is None,
{
}

} // verus!
