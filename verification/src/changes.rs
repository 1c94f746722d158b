//! What one commit, or the uncommitted work, changed.

use vstd::prelude::*;

use crate::commits::{parse_refs, RefLabel, FS, RS, UNTRACKED_LIMIT};
use crate::config::strings;
use crate::number::{add32, read_i64, read_u32};
use crate::patch::{parse_patch, PatchLine};
use crate::text::{
    from_chars, push_text, split_once_at, split_tokens, split_words, splitn_at_char,
    stripped_prefix, to_chars, trimmed_end, trimmed_start_char,
};

verus! {

#[derive(Debug, Clone, PartialEq, Eq)]
pub struct Header {
    pub sha: String,
    pub parents: Vec<String>,
    pub author: String,
    pub author_email: String,
    pub author_date: String,
    pub author_at: i64,
    pub committer: String,
    pub committer_email: String,
    pub committer_date: String,
    pub refs: Vec<RefLabel>,
    pub message: String,
}

#[derive(Debug, Clone, Copy, PartialEq, Eq, Structural)]
pub enum FileStatus {
    Added,
    Modified,
    Deleted,
    Renamed,
    Copied,
    TypeChanged,
    Untracked,
}

impl FileStatus {
    pub open spec fn letter_text(&self) -> Seq<char> {
        match self {
            FileStatus::Added => "A"@,
            FileStatus::Modified => "M"@,
            FileStatus::Deleted => "D"@,
            FileStatus::Renamed => "R"@,
            FileStatus::Copied => "C"@,
            FileStatus::TypeChanged => "T"@,
            FileStatus::Untracked => "?"@,
        }
    }

    pub fn letter(self) -> (r: &'static str)
        ensures
            r@ == self.letter_text(),
    {
        match self {
            FileStatus::Added => "A",
            FileStatus::Modified => "M",
            FileStatus::Deleted => "D",
            FileStatus::Renamed => "R",
            FileStatus::Copied => "C",
            FileStatus::TypeChanged => "T",
            FileStatus::Untracked => "?",
        }
    }
}

#[derive(Debug, Clone, PartialEq, Eq)]
pub struct FileChange {
    pub path: String,
    /// Where a rename or copy came from.
    pub from: Option<String>,
    pub status: FileStatus,
    /// Line counts, or `None` for a binary file.
    pub lines: Option<(u32, u32)>,
}

/// A changed file, by its contents.
pub struct FileText {
    pub path: Seq<char>,
    pub from: Option<Seq<char>>,
    pub status: FileStatus,
    pub lines: Option<(u32, u32)>,
}

impl View for FileChange {
    type V = FileText;

    open spec fn view(&self) -> FileText {
        FileText {
            path: self.path@,
            from: crate::pathname::opt_text(self.from),
            status: self.status,
            lines: self.lines,
        }
    }
}

pub open spec fn file_texts(v: Seq<FileChange>) -> Seq<FileText> {
    v.map_values(|f: FileChange| f@)
}

/// What one entry in the list changed. The uncommitted entry has no header,
/// and lists untracked files as well as the diff.
#[derive(Debug, Clone)]
pub struct Changes {
    pub header: Option<Header>,
    pub files: Vec<FileChange>,
    pub patch: Vec<PatchLine>,
    /// The patch stopped at [`crate::commits::DIFF_CAP`].
    pub truncated: bool,
}

impl Default for Changes {
    fn default() -> (r: Self)
        ensures
            r.header is None,
            r.files@.len() == 0,
            r.patch@.len() == 0,
            !r.truncated,
    {
        Changes { header: None, files: Vec::new(), patch: Vec::new(), truncated: false }
    }
}

/// How many lines these files gained and lost; binary files count for nothing.
pub open spec fn line_totals(files: Seq<FileChange>) -> (int, int)
    decreases files.len(),
{
    if files.len() == 0 {
        (0, 0)
    } else {
        let rest = line_totals(files.take(files.len() - 1));
        match files[files.len() - 1].lines {
            Some((a, r)) => (rest.0 + a, rest.1 + r),
            None => rest,
        }
    }
}

impl Changes {
    pub fn totals(&self) -> (r: (u32, u32))
        ensures
            r.0 == crate::number::wrap32(line_totals(self.files@).0),
            r.1 == crate::number::wrap32(line_totals(self.files@).1),
    {
        let mut added: u32 = 0;
        let mut removed: u32 = 0;
        let mut i: usize = 0;
        while i < self.files.len()
            invariant
                i <= self.files@.len(),
                added == crate::number::wrap32(line_totals(self.files@.take(i as int)).0),
                removed == crate::number::wrap32(line_totals(self.files@.take(i as int)).1),
            decreases self.files@.len() - i,
        {
            let ghost rest = line_totals(self.files@.take(i as int));
            assert(self.files@.take(i + 1).take(i as int) =~= self.files@.take(i as int));
            if let Some((a, r)) = self.files[i].lines {
                proof {
                    crate::number::lemma_wrap32_add(rest.0, a as int);
                    crate::number::lemma_wrap32_add(rest.1, r as int);
                }
                added = add32(added, a);
                removed = add32(removed, r);
            }
            i = i + 1;
        }
        assert(self.files@.take(i as int) =~= self.files@);
        (added, removed)
    }
}

// ---------------------------------------------------------------------------
// What git is asked
// ---------------------------------------------------------------------------

/// A merge is shown against its first parent, the way it reads from the
/// branch it landed on: what merging brought in. The default combined diff
/// shows only conflict resolutions, which is usually nothing at all.
pub open spec fn diff_args() -> Seq<Seq<char>> {
    seq!["--no-color"@, "--no-ext-diff"@, "-M"@, "--src-prefix=a/"@, "--dst-prefix=b/"@]
}

fn with_diff_args(start: &[&str], end: &[&str]) -> (r: Vec<String>)
    ensures
        crate::text::texts(r@) == crate::table::strs(start@) + diff_args() + crate::table::strs(
            end@,
        ),
{
    let mut args = strings(start);
    push_text(&mut args, "--no-color");
    push_text(&mut args, "--no-ext-diff");
    push_text(&mut args, "-M");
    push_text(&mut args, "--src-prefix=a/");
    push_text(&mut args, "--dst-prefix=b/");
    assert(crate::text::texts(args@) =~= crate::table::strs(start@) + diff_args());
    let ghost first = args@;
    let mut tail = strings(end);
    let ghost rest = tail@;
    args.append(&mut tail);
    assert(crate::text::texts(args@) =~= crate::text::texts(first) + crate::text::texts(rest));
    args
}

/// The arguments for one commit's header and patch.
pub fn show_args(sha: &str) -> (r: Vec<String>)
    ensures
        crate::text::texts(r@) == seq![
            "show"@,
            "-m"@,
            "--first-parent"@,
            "--decorate=full"@,
            "--date=format-local:%Y-%m-%d %H:%M"@,
            "--format=%H\x1f%P\x1f%an\x1f%ae\x1f%ad\x1f%at\x1f%cn\x1f%ce\x1f%cd\x1f%D\x1f%B\x1e"@,
            "--patch"@,
        ] + diff_args() + seq![sha@, "--"@],
{
    let start: [&str; 7] = [
        "show",
        "-m",
        "--first-parent",
        "--decorate=full",
        "--date=format-local:%Y-%m-%d %H:%M",
        "--format=%H\x1f%P\x1f%an\x1f%ae\x1f%ad\x1f%at\x1f%cn\x1f%ce\x1f%cd\x1f%D\x1f%B\x1e",
        "--patch",
    ];
    let end: [&str; 2] = [sha, "--"];
    assert(crate::table::strs(start@) =~= seq![
        "show"@,
        "-m"@,
        "--first-parent"@,
        "--decorate=full"@,
        "--date=format-local:%Y-%m-%d %H:%M"@,
        "--format=%H\x1f%P\x1f%an\x1f%ae\x1f%ad\x1f%at\x1f%cn\x1f%ce\x1f%cd\x1f%D\x1f%B\x1e"@,
        "--patch"@,
    ]);
    assert(crate::table::strs(end@) =~= seq![sha@, "--"@]);
    with_diff_args(&start, &end)
}

/// The arguments for one commit's files.
pub fn show_stat_args(sha: &str) -> (r: Vec<String>)
    ensures
        crate::text::texts(r@) == seq![
            "show"@,
            "-m"@,
            "--first-parent"@,
            "--format="@,
            "--raw"@,
            "--numstat"@,
            "-z"@,
        ] + diff_args() + seq![sha@, "--"@],
{
    let start: [&str; 7] = [
        "show",
        "-m",
        "--first-parent",
        "--format=",
        "--raw",
        "--numstat",
        "-z",
    ];
    let end: [&str; 2] = [sha, "--"];
    assert(crate::table::strs(start@) =~= seq![
        "show"@,
        "-m"@,
        "--first-parent"@,
        "--format="@,
        "--raw"@,
        "--numstat"@,
        "-z"@,
    ]);
    assert(crate::table::strs(end@) =~= seq![sha@, "--"@]);
    with_diff_args(&start, &end)
}

/// The arguments for the patch of everything not committed yet.
pub fn uncommitted_args() -> (r: Vec<String>)
    ensures
        crate::text::texts(r@) == seq!["diff"@, "HEAD"@, "--patch"@] + diff_args() + seq!["--"@],
{
    let start: [&str; 3] = ["diff", "HEAD", "--patch"];
    let end: [&str; 1] = ["--"];
    assert(crate::table::strs(start@) =~= seq!["diff"@, "HEAD"@, "--patch"@]);
    assert(crate::table::strs(end@) =~= seq!["--"@]);
    with_diff_args(&start, &end)
}

/// The arguments for the files of everything not committed yet.
pub fn uncommitted_stat_args() -> (r: Vec<String>)
    ensures
        crate::text::texts(r@) == seq!["diff"@, "HEAD"@, "--raw"@, "--numstat"@, "-z"@]
            + diff_args() + seq!["--"@],
{
    let start: [&str; 5] = ["diff", "HEAD", "--raw", "--numstat", "-z"];
    let end: [&str; 1] = ["--"];
    assert(crate::table::strs(start@) =~= seq!["diff"@, "HEAD"@, "--raw"@, "--numstat"@, "-z"@]);
    assert(crate::table::strs(end@) =~= seq!["--"@]);
    with_diff_args(&start, &end)
}

// ---------------------------------------------------------------------------
// The header
// ---------------------------------------------------------------------------

/// The fields of a header, where all of them are there.
pub open spec fn header_fields(raw: Seq<char>) -> Option<Seq<Seq<char>>> {
    let f = crate::text::splitn(crate::text::trim_start_char(raw, '\n'), 11, FS);
    if f.len() < 11 {
        None
    } else {
        Some(f)
    }
}

impl Header {
    /// Whether these fields say what this header says.
    pub open spec fn of(&self, f: Seq<Seq<char>>) -> bool {
        &&& self.sha@ == f[0]
        &&& crate::text::texts(self.parents@) == crate::text::words(f[1])
        &&& self.author@ == f[2]
        &&& self.author_email@ == f[3]
        &&& self.author_date@ == f[4]
        &&& self.author_at == crate::number::or_zero(crate::number::parse_signed(f[5]))
        &&& self.committer@ == f[6]
        &&& self.committer_email@ == f[7]
        &&& self.committer_date@ == f[8]
        &&& crate::commits::label_views(self.refs@) == crate::commits::ref_labels(f[9])
        &&& self.message@ == crate::text::trim_end(f[10])
    }
}

/// The words of a text as strings.
pub fn word_list(v: &[char]) -> (r: Vec<String>)
    ensures
        crate::text::texts(r@) == crate::text::words(v@),
{
    let ws = split_words(v);
    let ghost all = crate::text::words(v@);
    let mut out: Vec<String> = Vec::new();
    let mut i: usize = 0;
    while i < ws.len()
        invariant
            i <= ws@.len(),
            all == crate::text::views(ws@),
            out@.len() == i,
            forall|k: int| 0 <= k < i ==> (#[trigger] out@[k])@ == all[k],
        decreases ws@.len() - i,
    {
        out.push(from_chars(ws[i].as_slice()));
        i = i + 1;
    }
    assert(crate::text::texts(out@) =~= all);
    out
}

pub fn parse_header(raw: &str) -> (r: Option<Header>)
    ensures
        (match header_fields(raw@) {
            Some(f) => r is Some && r->0.of(f),
            None => r is None,
        }),
{
    let v = to_chars(raw);
    let f = splitn_at_char(trimmed_start_char(v.as_slice(), '\n'), 11, FS);
    let ghost fs = crate::text::views(f@);
    assert(fs.len() == f@.len());
    assert(forall|k: int| 0 <= k < f@.len() ==> fs[k] == f@[k]@);
    if f.len() < 11 {
        return None;
    }
    let refs_text = from_chars(f[9].as_slice());
    Some(
        Header {
            sha: from_chars(f[0].as_slice()),
            parents: word_list(f[1].as_slice()),
            author: from_chars(f[2].as_slice()),
            author_email: from_chars(f[3].as_slice()),
            author_date: from_chars(f[4].as_slice()),
            author_at: match read_i64(f[5].as_slice()) {
                Some(n) => n,
                None => 0,
            },
            committer: from_chars(f[6].as_slice()),
            committer_email: from_chars(f[7].as_slice()),
            committer_date: from_chars(f[8].as_slice()),
            refs: parse_refs(refs_text.as_str()),
            message: from_chars(trimmed_end(f[10].as_slice())),
        },
    )
}

// ---------------------------------------------------------------------------
// The files
// ---------------------------------------------------------------------------

/// The status a raw record's letter stands for: the first character of its last
/// word.
pub open spec fn status_of(meta: Seq<char>) -> FileStatus {
    let ws = crate::text::words(meta);
    let letter = if ws.len() > 0 && ws[ws.len() - 1].len() > 0 {
        ws[ws.len() - 1][0]
    } else {
        'M'
    };
    if letter == 'A' {
        FileStatus::Added
    } else if letter == 'D' {
        FileStatus::Deleted
    } else if letter == 'R' {
        FileStatus::Renamed
    } else if letter == 'C' {
        FileStatus::Copied
    } else if letter == 'T' {
        FileStatus::TypeChanged
    } else {
        FileStatus::Modified
    }
}

/// A token, or nothing where there are no more.
pub open spec fn token_at(tokens: Seq<Seq<char>>, i: int) -> Seq<char> {
    if 0 <= i < tokens.len() {
        tokens[i]
    } else {
        Seq::empty()
    }
}

/// Whether a status comes with two paths.
pub open spec fn is_move(status: FileStatus) -> bool {
    status == FileStatus::Renamed || status == FileStatus::Copied
}

/// The file a raw record describes, and the token after it.
pub open spec fn raw_record(tokens: Seq<Seq<char>>, i: int) -> (FileText, int) {
    let status = status_of(tokens[i].skip(1));
    if is_move(status) {
        (
            FileText {
                path: token_at(tokens, i + 2),
                from: Some(token_at(tokens, i + 1)),
                status,
                lines: None,
            },
            i + 3,
        )
    } else {
        (FileText { path: token_at(tokens, i + 1), from: None, status, lines: None }, i + 2)
    }
}

/// The raw records from token `i` on, added to `files`, and the token after them.
pub open spec fn raw_records(tokens: Seq<Seq<char>>, i: int, files: Seq<FileText>) -> (
    Seq<FileText>,
    int,
)
    decreases tokens.len() + 3 - i,
{
    if i < 0 || i >= tokens.len() || !crate::text::starts_with(tokens[i], ":"@) {
        (files, i)
    } else {
        let record = raw_record(tokens, i);
        raw_records(tokens, record.1, files.push(record.0))
    }
}

/// The line counts of a numstat record; `-` stands for a binary file.
pub open spec fn record_lines(record: Seq<char>) -> Option<(u32, u32)> {
    let parts = crate::text::splitn(record, 3, '\t');
    if parts.len() < 2 {
        None
    } else {
        match (
            crate::number::parse_unsigned(parts[0], u32::MAX as int),
            crate::number::parse_unsigned(parts[1], u32::MAX as int),
        ) {
            (Some(a), Some(r)) => Some((a as u32, r as u32)),
            _ => None,
        }
    }
}

/// Whether a numstat record leaves its paths to the two tokens after it.
pub open spec fn record_moved(record: Seq<char>) -> bool {
    let parts = crate::text::splitn(record, 3, '\t');
    parts.len() < 3 || parts[2].len() == 0
}

/// The numstat records from token `i` on, the first of them for file `k`.
pub open spec fn num_records(
    tokens: Seq<Seq<char>>,
    i: int,
    k: int,
    files: Seq<FileText>,
) -> Seq<FileText>
    decreases tokens.len() + 3 - i,
{
    if i < 0 || i >= tokens.len() {
        files
    } else {
        let next = if record_moved(tokens[i]) {
            i + 3
        } else {
            i + 1
        };
        let filled = if 0 <= k < files.len() {
            files.update(k, FileText { lines: record_lines(tokens[i]), ..files[k] })
        } else {
            files
        };
        num_records(tokens, next, k + 1, filled)
    }
}

/// The files in `--raw --numstat -z` output: the raw records first, which carry
/// the status letter, then the numstat records in the same order, which carry the
/// counts.
pub open spec fn stat_files(raw: Seq<char>) -> Seq<FileText> {
    let tokens = crate::text::tokens(raw, '\0');
    let records = raw_records(tokens, 0, Seq::empty());
    num_records(tokens, records.1, 0, records.0)
}

fn read_status(meta: &[char]) -> (r: FileStatus)
    ensures
        r == status_of(meta@),
{
    let ws = split_words(meta);
    let ghost all = crate::text::words(meta@);
    let mut letter: char = 'M';
    assert(all.len() == ws@.len());
    if ws.len() > 0 {
        let last = &ws[ws.len() - 1];
        assert(all[all.len() - 1] == last@);
        if last.len() > 0 {
            letter = last[0];
        }
    }
    if letter == 'A' {
        FileStatus::Added
    } else if letter == 'D' {
        FileStatus::Deleted
    } else if letter == 'R' {
        FileStatus::Renamed
    } else if letter == 'C' {
        FileStatus::Copied
    } else if letter == 'T' {
        FileStatus::TypeChanged
    } else {
        FileStatus::Modified
    }
}

fn read_token(tokens: &Vec<Vec<char>>, i: usize) -> (r: String)
    ensures
        r@ == token_at(crate::text::views(tokens@), i as int),
{
    if i < tokens.len() {
        assert(crate::text::views(tokens@)[i as int] == tokens@[i as int]@);
        from_chars(tokens[i].as_slice())
    } else {
        String::new()
    }
}

/// One index on, as long as there are tokens left.
fn skip_by(i: usize, by: usize, len: usize) -> (r: usize)
    requires
        i < len,
        by <= 3,
    ensures
        r == (if i + by <= len {
            i + by
        } else {
            len as int
        }),
{
    if by <= len - i {
        i + by
    } else {
        len
    }
}

proof fn lemma_past_the_end(tokens: Seq<Seq<char>>, i: int, k: int, files: Seq<FileText>)
    requires
        i >= tokens.len(),
    ensures
        num_records(tokens, i, k, files) == files,
        raw_records(tokens, i, files).0 == files,
        raw_records(tokens, i, files).1 == i,
{
}

/// Parse `--raw --numstat -z` output.
pub fn parse_stat(raw: &str) -> (r: Vec<FileChange>)
    ensures
        file_texts(r@) == stat_files(raw@),
{
    let v = to_chars(raw);
    let tokens = split_tokens(v.as_slice(), '\0');
    let ghost ts = crate::text::tokens(raw@, '\0');
    let len: usize = tokens.len();
    let mut files: Vec<FileChange> = Vec::new();
    let mut i: usize = 0;
    let ghost mut at: int = 0;
    assert(file_texts(files@) =~= Seq::empty());
    proof {
        reveal_strlit(":");
    }
    loop
        invariant_except_break
            ts == crate::text::views(tokens@),
            len == tokens@.len(),
            ":"@.len() == 1,
            i <= len,
            i < len ==> at == i,
            i == len ==> at >= len,
            raw_records(ts, 0, Seq::empty()) == raw_records(ts, at, file_texts(files@)),
        ensures
            ts == crate::text::views(tokens@),
            len == tokens@.len(),
            i <= len,
            i < len ==> at == i,
            i == len ==> at >= len,
            raw_records(ts, 0, Seq::empty()) == (file_texts(files@), at),
        decreases len - i,
    {
        if i >= len {
            break ;
        }
        assert(ts[i as int] == tokens@[i as int]@);
        let status = match stripped_prefix(tokens[i].as_slice(), ":") {
            Some(meta) => read_status(meta),
            None => {
                break ;
            },
        };
        let ghost before = files@;
        let ghost record = raw_record(ts, i as int);
        let two = matches!(status, FileStatus::Renamed | FileStatus::Copied);
        let first: usize = skip_by(i, 1, len);
        let second: usize = skip_by(i, 2, len);
        let entry = if two {
            FileChange {
                path: read_token(&tokens, second),
                from: Some(read_token(&tokens, first)),
                status,
                lines: None,
            }
        } else {
            FileChange { path: read_token(&tokens, first), from: None, status, lines: None }
        };
        assert(entry@ == record.0);
        files.push(entry);
        i = skip_by(
            i,
            if two {
                3
            } else {
                2
            },
            len,
        );
        proof {
            at = record.1;
            assert(file_texts(files@) =~= file_texts(before).push(record.0));
        }
    }
    // Numstat: `added\tremoved\tpath`, or `added\tremoved\t` followed by the old
    // and new paths as tokens of their own for a rename. `-` for binary.
    let ghost records = raw_records(ts, 0, Seq::empty());
    let mut k: usize = 0;
    while i < len
        invariant
            ts == crate::text::views(tokens@),
            len == tokens@.len(),
            i <= len,
            k <= i,
            i < len ==> at == i,
            i == len ==> at >= len,
            num_records(ts, records.1, 0, records.0) == num_records(
                ts,
                at,
                k as int,
                file_texts(files@),
            ),
        decreases len - i,
    {
        let record = &tokens[i];
        assert(ts[i as int] == record@);
        let parts = splitn_at_char(record.as_slice(), 3, '\t');
        let ghost ps = crate::text::splitn(record@, 3, '\t');
        assert(ps.len() == parts@.len());
        assert(forall|m: int| 0 <= m < parts@.len() ==> ps[m] == parts@[m]@);
        // The rename form: two more tokens carry the paths.
        let moved = parts.len() < 3 || parts[2].len() == 0;
        let counts: Option<(u32, u32)> = if parts.len() < 2 {
            None
        } else {
            match (read_u32(parts[0].as_slice()), read_u32(parts[1].as_slice())) {
                (Some(a), Some(r)) => Some((a, r)),
                _ => None,
            }
        };
        assert(counts == record_lines(record@));
        let ghost before = file_texts(files@);
        if k < files.len() {
            files[k].lines = counts;
            assert(file_texts(files@) =~= before.update(
                k as int,
                FileText { lines: counts, ..before[k as int] },
            ));
        }
        proof {
            at = if moved {
                i + 3
            } else {
                i + 1
            };
        }
        i = skip_by(
            i,
            if moved {
                3
            } else {
                1
            },
            len,
        );
        k = k + 1;
    }
    proof {
        lemma_past_the_end(ts, at, k as int, file_texts(files@));
    }
    files
}

// ---------------------------------------------------------------------------
// Putting it together
// ---------------------------------------------------------------------------

/// What `git show` printed before and after the record separator.
pub open spec fn show_parts(raw: Seq<char>) -> (Seq<char>, Seq<char>) {
    match crate::text::split_once(raw, RS) {
        Some(parts) => parts,
        None => (raw, Seq::empty()),
    }
}

/// One commit's changes: the header and the patch from what `git show` printed,
/// and the files from its stat.
pub fn load_commit(raw: &str, truncated: bool, stat: &str) -> (r: Changes)
    ensures
        (match header_fields(show_parts(raw@).0) {
            Some(f) => r.header is Some && r.header->0.of(f),
            None => r.header is None,
        }),
        file_texts(r.files@) == stat_files(stat@),
        crate::patch::patch_texts(r.patch@) == crate::patch::patch_lines(show_parts(raw@).1),
        r.truncated == truncated,
{
    let v = to_chars(raw);
    let (header, patch): (String, String) = match split_once_at(v.as_slice(), RS) {
        Some((a, b)) => (from_chars(a), from_chars(b)),
        None => (raw.to_owned(), String::new()),
    };
    Changes {
        header: parse_header(header.as_str()),
        files: parse_stat(stat),
        patch: parse_patch(patch.as_str()),
        truncated,
    }
}

/// An untracked file.
pub open spec fn untracked_file(path: Seq<char>) -> FileText {
    FileText { path, from: None, status: FileStatus::Untracked, lines: None }
}

/// The untracked files that are listed: the first of them, up to the limit.
pub open spec fn untracked_files(raw: Seq<char>) -> Seq<FileText> {
    let ts = crate::text::tokens(raw, '\0');
    Seq::new(
        if ts.len() < UNTRACKED_LIMIT {
            ts.len()
        } else {
            UNTRACKED_LIMIT as nat
        },
        |i: int| untracked_file(ts[i]),
    )
}

/// Everything not committed yet: staged and unstaged together, against HEAD,
/// then the untracked files by name.
pub fn load_uncommitted(raw: &str, truncated: bool, stat: &str, untracked: &str) -> (r: Changes)
    ensures
        r.header is None,
        file_texts(r.files@) == stat_files(stat@) + untracked_files(untracked@),
        crate::patch::patch_texts(r.patch@) == crate::patch::patch_lines(raw@),
        r.truncated == truncated,
{
    let mut files = parse_stat(stat);
    let v = to_chars(untracked);
    let names = split_tokens(v.as_slice(), '\0');
    let ghost ts = crate::text::tokens(untracked@, '\0');
    let ghost start = file_texts(files@);
    assert(ts.len() == names@.len());
    let n: usize = if names.len() < UNTRACKED_LIMIT {
        names.len()
    } else {
        UNTRACKED_LIMIT
    };
    let mut i: usize = 0;
    assert(file_texts(files@) =~= start + untracked_files(untracked@).take(0));
    while i < n
        invariant
            i <= n <= names@.len(),
            ts == crate::text::views(names@),
            n == untracked_files(untracked@).len(),
            ts == crate::text::tokens(untracked@, '\0'),
            file_texts(files@) == start + untracked_files(untracked@).take(i as int),
        decreases n - i,
    {
        let ghost before = files@;
        let entry = FileChange {
            path: from_chars(names[i].as_slice()),
            from: None,
            status: FileStatus::Untracked,
            lines: None,
        };
        proof {
            assert(ts[i as int] == names@[i as int]@);
            assert(entry@ == untracked_file(ts[i as int]));
        }
        files.push(entry);
        proof {
            assert(file_texts(files@) =~= file_texts(before).push(entry@));
            assert(untracked_files(untracked@).take(i + 1) =~= untracked_files(untracked@).take(
                i as int,
            ).push(entry@));
            assert(file_texts(files@) =~= start + untracked_files(untracked@).take(i + 1));
        }
        i = i + 1;
    }
    assert(untracked_files(untracked@).take(i as int) =~= untracked_files(untracked@));
    Changes { header: None, files, patch: parse_patch(raw), truncated }
}

/// A status is known by its letter: what was listed under it reads back as it.
pub proof fn law_a_status_goes_by_its_letter(status: FileStatus, other: FileStatus)
    ensures
        status.letter_text().len() == 1,
        status.letter_text() == other.letter_text() <==> status == other,
        status != FileStatus::Untracked ==> status_of(status.letter_text()) == status,
        status_of(Seq::empty()) == FileStatus::Modified,
{
    reveal_strlit("A");
    reveal_strlit("M");
    reveal_strlit("D");
    reveal_strlit("R");
    reveal_strlit("C");
    reveal_strlit("T");
    reveal_strlit("?");
    let (a, b) = (status.letter_text(), other.letter_text());
    assert(a[0] == b[0] <==> status == other);
    assert(!crate::text::is_whitespace(a[0]));
    crate::text::law_a_text_is_read_by_word(a, ' ', Seq::empty());
    assert(seq![a][0] == a);
}

/// A status reads as the letter that its last word starts with, whatever follows it.
pub proof fn law_a_score_does_not_count(front: Seq<char>, word: Seq<char>)
    requires
        front.len() > 0,
        word.len() > 0,
        forall|i: int| 0 <= i < front.len() ==> !crate::text::is_whitespace(#[trigger] front[i]),
        forall|i: int| 0 <= i < word.len() ==> !crate::text::is_whitespace(#[trigger] word[i]),
    ensures
        ({
            let s = status_of(front + seq![' '] + word);
            &&& s == FileStatus::Added <==> word[0] == 'A'
            &&& s == FileStatus::Deleted <==> word[0] == 'D'
            &&& s == FileStatus::Renamed <==> word[0] == 'R'
            &&& s == FileStatus::Copied <==> word[0] == 'C'
            &&& s == FileStatus::TypeChanged <==> word[0] == 'T'
            &&& s != FileStatus::Untracked
        }),
{
    crate::text::law_a_text_is_read_by_word(front, ' ', word);
    crate::text::law_a_text_is_read_by_word(word, ' ', Seq::empty());
    let ws = crate::text::words(front + seq![' '] + word);
    assert(ws =~= seq![front, word]);
    assert(ws[ws.len() - 1] == word);
}

/// The lines of a change add up file by file; a file without counts adds none.
pub proof fn law_lines_add_up(files: Seq<FileChange>, file: FileChange)
    ensures
        line_totals(Seq::empty()) == (0int, 0int),
        file.lines matches Some((a, r)) ==> line_totals(files.push(file)).0 == line_totals(files).0
            + a && line_totals(files.push(file)).1 == line_totals(files).1 + r,
        file.lines is None ==> line_totals(files.push(file)) == line_totals(files),
{
    let all = files.push(file);
    assert(all.take(all.len() - 1) =~= files);
}

/// A record of a file is its status and its path; that of a moved file its path before
/// and its path now. Records end at the first that has no colon in front.
pub proof fn law_a_record_names_its_file(
    tokens: Seq<Seq<char>>,
    i: int,
    meta: Seq<char>,
    files: Seq<FileText>,
)
    requires
        0 <= i,
        i + 2 < tokens.len(),
        tokens[i] == seq![':'] + meta,
    ensures
        ({
            let moved = status_of(meta) == FileStatus::Renamed || status_of(meta)
                == FileStatus::Copied;
            let file = FileText {
                path: if moved {
                    tokens[i + 2]
                } else {
                    tokens[i + 1]
                },
                from: if moved {
                    Some(tokens[i + 1])
                } else {
                    None
                },
                status: status_of(meta),
                lines: None,
            };
            raw_records(tokens, i, files) == raw_records(
                tokens,
                if moved {
                    i + 3
                } else {
                    i + 2
                },
                files.push(file),
            )
        }),
{
    reveal_strlit(":");
    assert(":"@ =~= seq![':']);
    crate::text::law_what_was_put_around_comes_off(":"@, meta);
    assert(tokens[i].skip(1) =~= meta);
}

/// What has no colon in front is no record.
pub proof fn law_records_end(tokens: Seq<Seq<char>>, i: int, files: Seq<FileText>)
    requires
        0 <= i < tokens.len(),
        tokens[i].len() == 0 || tokens[i][0] != ':',
    ensures
        raw_records(tokens, i, files) == (files, i),
{
    reveal_strlit(":");
    assert(":"@ =~= seq![':']);
    if crate::text::starts_with(tokens[i], ":"@) {
        assert(tokens[i].take(1)[0] == ':');
    }
}

/// The counts of a file read back as they are written, and a binary file has none; a
/// record without a path is that of a moved file.
pub proof fn law_counts_read_back(a: int, r: int, path: Seq<char>)
    requires
        0 <= a <= u32::MAX,
        0 <= r <= u32::MAX,
    ensures
        ({
            let (x, y) = (crate::number::decimal(a), crate::number::decimal(r));
            let record = x + seq!['\t'] + y + seq!['\t'] + path;
            &&& record_lines(record) == Some((a as u32, r as u32))
            &&& record_moved(record) <==> path.len() == 0
            &&& record_lines(seq!['-', '\t', '-', '\t'] + path) is None
        }),
{
    let (x, y) = (crate::number::decimal(a), crate::number::decimal(r));
    crate::number::law_a_number_reads_back(a, u32::MAX as int);
    crate::number::law_a_number_reads_back(r, u32::MAX as int);
    lemma_digits_have_no_tab(x);
    lemma_digits_have_no_tab(y);
    lemma_three_fields(x, y, path);
    let dash = seq!['-'];
    assert(!dash.contains('\t')) by {
        if dash.contains('\t') {
            assert(dash[0] == '\t');
        }
    }
    lemma_three_fields(dash, dash, path);
    assert(dash + seq!['\t'] + dash + seq!['\t'] + path =~= seq!['-', '\t', '-', '\t'] + path);
    assert(!crate::number::all_digits(dash)) by {
        if crate::number::all_digits(dash) {
            assert(crate::text::is_digit(dash[0]));
        }
    }
}

proof fn lemma_digits_have_no_tab(s: Seq<char>)
    requires
        crate::number::all_digits(s),
    ensures
        !s.contains('\t'),
{
    if s.contains('\t') {
        let i = choose|i: int| 0 <= i < s.len() && s[i] == '\t';
        assert(crate::text::is_digit(s[i]));
    }
}

proof fn lemma_three_fields(x: Seq<char>, y: Seq<char>, z: Seq<char>)
    requires
        !x.contains('\t'),
        !y.contains('\t'),
    ensures
        crate::text::splitn(x + seq!['\t'] + y + seq!['\t'] + z, 3, '\t') == seq![x, y, z],
{
    let rest = y + seq!['\t'] + z;
    assert(x + seq!['\t'] + y + seq!['\t'] + z =~= x + seq!['\t'] + rest);
    crate::text::law_splitn_leaves_the_rest_whole(x, rest, 3, '\t');
    crate::text::law_splitn_leaves_the_rest_whole(y, z, 2, '\t');
    assert(seq![x] + (seq![y] + seq![z]) =~= seq![x, y, z]);
}

/// Counts go to the files in their order, one record each, and change nothing else: the
/// first record to the first file, and the rest to those behind it.
pub proof fn law_counts_go_to_their_files(
    tokens: Seq<Seq<char>>,
    i: int,
    k: int,
    files: Seq<FileText>,
    j: int,
)
    requires
        0 <= i,
        0 <= k,
        0 <= j < files.len(),
    ensures
        ({
            let out = num_records(tokens, i, k, files);
            &&& out.len() == files.len()
            &&& out[j].path == files[j].path
            &&& out[j].from == files[j].from
            &&& out[j].status == files[j].status
            &&& j < k ==> out[j].lines == files[j].lines
            &&& i < tokens.len() && j == k ==> out[j].lines == record_lines(tokens[i])
        }),
    decreases tokens.len() + 3 - i,
{
    if i < tokens.len() {
        let next = if record_moved(tokens[i]) {
            i + 3
        } else {
            i + 1
        };
        let filled = if k < files.len() {
            files.update(k, FileText { lines: record_lines(tokens[i]), ..files[k] })
        } else {
            files
        };
        if next <= tokens.len() {
            law_counts_go_to_their_files(tokens, next, k + 1, filled, j);
        } else {
            lemma_past_the_end(tokens, next, k + 1, filled);
        }
    }
}

/// What is shown of a commit is its header up to the mark, and its patch behind it.
pub proof fn law_a_header_ends_at_its_mark(header: Seq<char>, patch: Seq<char>)
    requires
        !header.contains(crate::commits::RS),
    ensures
        show_parts(header + seq![crate::commits::RS] + patch) == (header, patch),
        show_parts(header) == (header, Seq::<char>::empty()),
{
    crate::text::law_split_once_goes_by_the_first(header, patch, crate::commits::RS);
}

/// A header gives back its eleven fields, the message last.
pub proof fn law_a_header_gives_back_its_fields(fields: Seq<Seq<char>>, message: Seq<char>)
    requires
        fields.len() == 10,
        forall|i: int|
            0 <= i < fields.len() ==> !(#[trigger] fields[i]).contains(crate::commits::FS),
        fields[0].len() > 0,
        fields[0][0] != '\n',
    ensures
        ({
            let raw = crate::text::parted(fields, message, crate::commits::FS);
            &&& header_fields(raw) == Some(fields.push(message))
            &&& header_fields(seq!['\n'] + raw) == Some(fields.push(message))
        }),
{
    let raw = crate::text::parted(fields, message, crate::commits::FS);
    assert(raw[0] == fields[0][0]);
    crate::text::law_fields_come_back(fields, message, crate::commits::FS);
    crate::text::law_a_character_is_trimmed(raw, '\n');
}

/// A header says of a commit what its fields say.
pub proof fn law_a_header_says_what_its_fields_say(h: &Header, f: Seq<Seq<char>>, n: int)
    requires
        f.len() == 11,
        h.of(f),
        0 <= n <= i64::MAX,
    ensures
        h.sha@ == f[0],
        crate::text::texts(h.parents@) == crate::text::words(f[1]),
        h.author@ == f[2] && h.author_email@ == f[3] && h.author_date@ == f[4],
        f[5] == crate::number::decimal(n) ==> h.author_at == n,
        h.committer@ == f[6] && h.committer_email@ == f[7] && h.committer_date@ == f[8],
        crate::commits::label_views(h.refs@) == crate::commits::ref_labels(f[9]),
        h.message@ == crate::text::trim_end(f[10]),
{
    crate::number::law_a_number_reads_back(n, i64::MAX as int);
}

/// Untracked files are listed by their paths, two hundred at most.
pub proof fn law_untracked_files_are_listed(raw: Seq<char>, i: int)
    ensures
        ({
            let ts = crate::text::tokens(raw, '\0');
            let files = untracked_files(raw);
            &&& ts.len() <= 200 ==> files.len() == ts.len()
            &&& ts.len() > 200 ==> files.len() == 200
            &&& 0 <= i < files.len() ==> files[i].path == ts[i] && files[i].from is None
                && files[i].status == FileStatus::Untracked && files[i].lines is None
        }),
{
}

/// A diff is asked for without colour or helpers, with moves told, and with the prefixes
/// that it is read by.
pub proof fn law_a_diff_is_asked_for_plainly()
    ensures
        diff_args().contains("--no-color"@),
        diff_args().contains("--no-ext-diff"@),
        diff_args().contains("-M"@),
        diff_args().contains("--src-prefix=a/"@),
        diff_args().contains("--dst-prefix=b/"@),
        diff_args().len() == 5,
{
    let d = diff_args();
    assert(d[0] == "--no-color"@ && d[1] == "--no-ext-diff"@ && d[2] == "-M"@ && d[3]
        == "--src-prefix=a/"@ && d[4] == "--dst-prefix=b/"@);
}

/// What is read of a file is what it holds, field by field.
pub proof fn law_a_file_text_is_its_value(files: Seq<FileChange>, i: int)
    ensures
        file_texts(files).len() == files.len(),
        0 <= i < files.len() ==> {
            let (t, f) = (file_texts(files)[i], files[i]);
            &&& t.path == f.path@
            &&& t.from is Some <==> f.from is Some
            &&& f.from is Some ==> t.from->0 == f.from->0@
            &&& t.status == f.status
            &&& t.lines == f.lines
        },
{
}

/// A listing of two parts gives each file its counts: here of one file, and of one that
/// was moved.
pub proof fn law_a_listing_gives_a_file_its_counts(
    raw: Seq<char>,
    meta: Seq<char>,
    counts: Seq<char>,
    path: Seq<char>,
)
    requires
        crate::text::tokens(raw, '\0') == seq![seq![':'] + meta, path, counts],
        status_of(meta) != FileStatus::Renamed && status_of(meta) != FileStatus::Copied,
        counts.len() > 0 && counts[0] != ':',
    ensures
        stat_files(raw) == seq![
            FileText { path, from: None, status: status_of(meta), lines: record_lines(counts) },
        ],
{
    let tokens = crate::text::tokens(raw, '\0');
    let none = Seq::<FileText>::empty();
    law_a_record_names_its_file(tokens, 0, meta, none);
    let file = FileText { path, from: None, status: status_of(meta), lines: None };
    let one = none.push(file);
    law_records_end(tokens, 2, one);
    assert(raw_records(tokens, 0, none) == (one, 2int));
    let out = num_records(tokens, 2, 0, one);
    law_counts_go_to_their_files(tokens, 2, 0, one, 0);
    assert(out =~= seq![
        FileText { path, from: None, status: status_of(meta), lines: record_lines(counts) },
    ]);
}

/// A record that is cut short has an empty path for what is missing.
pub proof fn law_a_record_cut_short_has_no_path(
    tokens: Seq<Seq<char>>,
    meta: Seq<char>,
    files: Seq<FileText>,
)
    requires
        tokens.len() > 0,
        tokens[tokens.len() - 1] == seq![':'] + meta,
    ensures
        ({
            let moved = status_of(meta) == FileStatus::Renamed || status_of(meta)
                == FileStatus::Copied;
            let out = raw_records(tokens, tokens.len() - 1, files).0;
            &&& out.len() == files.len() + 1
            &&& out[files.len() as int].path.len() == 0
            &&& out[files.len() as int].status == status_of(meta)
            &&& moved ==> out[files.len() as int].from == Some(Seq::<char>::empty())
            &&& !moved ==> out[files.len() as int].from is None
        }),
{
    reveal_strlit(":");
    assert(":"@ =~= seq![':']);
    let i = tokens.len() - 1;
    crate::text::law_what_was_put_around_comes_off(":"@, meta);
    assert(tokens[i].skip(1) =~= meta);
    let record = raw_record(tokens, i);
    lemma_past_the_end(tokens, record.1, 0, files.push(record.0));
}

} // verus!
