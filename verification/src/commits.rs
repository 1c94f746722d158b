//! Recent history for the quick view: the commit list, and what one commit
//! (or the uncommitted work on top of them) changed.
//!
//! Everything here is read on demand for one repo at a time, when someone asks
//! to look, so none of it goes near a sweep or the cache.

use vstd::prelude::*;

use crate::config::strings;
use crate::number::read_i64;
use crate::text::{
    from_chars, has, has_suffix, push_text, same, spells, split_at_str, split_lines, split_once_at,
    split_words, splitn_at_char, stripped_prefix, to_chars, trimmed, trimmed_end,
    trimmed_start_str,
};

pub use crate::changes::{
    load_commit, load_uncommitted, parse_header, parse_stat, Changes, FileChange, FileStatus, Header,
};
pub use crate::patch::{parse_patch, LineKind, PatchLine};

verus! {

/// How many commits the list loads. Enough to scroll back through a few
/// releases of a busy repo, few enough that `--graph` stays instant.
pub const LOG_LIMIT: usize = 400;

/// Where a diff stops. A couple of megabytes is tens of thousands of lines,
/// far past what anyone scrolls through in a terminal, and it keeps a commit
/// that vendored a dependency from costing a hundred megabytes of memory.
pub const DIFF_CAP: usize = 2 * 1024 * 1024;

/// How many untracked files the uncommitted entry lists.
pub const UNTRACKED_LIMIT: usize = 200;

// Field and record separators for `--format`. Control characters, because they
// are the only things a subject line or a ref name can't contain. The last one
// marks where git's graph drawing ends and the commit's own fields begin.
pub const FS: char = '\x1f';

pub const RS: char = '\x1e';

pub const START: char = '\x02';

// ---------------------------------------------------------------------------
// The commit list
// ---------------------------------------------------------------------------

/// A branch, tag or HEAD pointing at a commit.
#[derive(Debug, Clone, PartialEq, Eq)]
pub struct RefLabel {
    pub name: String,
    pub kind: RefKind,
}

#[derive(Debug, Clone, Copy, PartialEq, Eq, Structural)]
pub enum RefKind {
    Head,
    Local,
    Remote,
    Tag,
}

impl View for RefLabel {
    type V = (Seq<char>, RefKind);

    open spec fn view(&self) -> (Seq<char>, RefKind) {
        (self.name@, self.kind)
    }
}

pub open spec fn label_views(v: Seq<RefLabel>) -> Seq<(Seq<char>, RefKind)> {
    v.map_values(|l: RefLabel| l@)
}

/// Which side of the upstream a commit is on. The reason drydock looks at a
/// repo in the first place is that something is ahead, behind or unreleased,
/// so the list says which commits those are.
#[derive(Debug, Clone, Copy, PartialEq, Eq, Structural)]
pub enum Flow {
    /// On both sides, or there's no upstream to compare with.
    Shared,
    /// Committed here, not pushed yet.
    Unpushed,
    /// On the upstream, not pulled yet.
    Incoming,
}

#[derive(Debug, Clone)]
pub struct Commit {
    pub sha: String,
    pub short: String,
    pub author: String,
    pub at: i64,
    pub merge: bool,
    pub refs: Vec<RefLabel>,
    pub subject: String,
    pub flow: Flow,
}

/// A commit, by its contents.
pub struct CommitText {
    pub sha: Seq<char>,
    pub short: Seq<char>,
    pub author: Seq<char>,
    pub at: int,
    pub merge: bool,
    pub refs: Seq<(Seq<char>, RefKind)>,
    pub subject: Seq<char>,
    pub flow: Flow,
}

impl View for Commit {
    type V = CommitText;

    open spec fn view(&self) -> CommitText {
        CommitText {
            sha: self.sha@,
            short: self.short@,
            author: self.author@,
            at: self.at as int,
            merge: self.merge,
            refs: label_views(self.refs@),
            subject: self.subject@,
            flow: self.flow,
        }
    }
}

/// One line of the list: a commit with the graph drawn to its left, or a line
/// of graph on its own where branches fork and join between commits.
#[derive(Debug, Clone)]
pub enum LogRow {
    Commit { graph: String, index: usize },
    Graph(String),
}

/// A row, by its contents: the drawing, and the commit it belongs to, if any.
pub struct RowText {
    pub graph: Seq<char>,
    pub commit: Option<int>,
}

impl View for LogRow {
    type V = RowText;

    open spec fn view(&self) -> RowText {
        match self {
            LogRow::Commit { graph, index } => RowText { graph: graph@, commit: Some(*index as int) },
            LogRow::Graph(graph) => RowText { graph: graph@, commit: None },
        }
    }
}

#[derive(Debug, Clone)]
pub struct Log {
    pub rows: Vec<LogRow>,
    pub commits: Vec<Commit>,
    /// There were more commits than [`LOG_LIMIT`].
    pub truncated: bool,
}

/// A commit list, by its contents.
pub struct LogText {
    pub rows: Seq<RowText>,
    pub commits: Seq<CommitText>,
    pub truncated: bool,
}

impl View for Log {
    type V = LogText;

    open spec fn view(&self) -> LogText {
        LogText {
            rows: self.rows@.map_values(|r: LogRow| r@),
            commits: self.commits@.map_values(|c: Commit| c@),
            truncated: self.truncated,
        }
    }
}

impl Default for Log {
    fn default() -> (r: Self)
        ensures
            r@ == empty_log(),
    {
        let log = Log { rows: Vec::new(), commits: Vec::new(), truncated: false };
        assert(log@.rows =~= Seq::empty());
        assert(log@.commits =~= Seq::empty());
        log
    }
}

pub open spec fn empty_log() -> LogText {
    LogText { rows: Seq::empty(), commits: Seq::empty(), truncated: false }
}

/// Which history to list.
#[derive(Debug, Clone, Copy, PartialEq, Eq, Structural)]
pub enum Scope {
    /// What's checked out, plus its upstream so incoming commits show up.
    Branch,
    /// Every branch and tag.
    All,
}

/// What `git log` is asked for the commit list.
pub open spec fn log_arg_texts(upstream: Option<Seq<char>>, scope: Scope) -> Seq<Seq<char>> {
    seq![
        "log"@,
        "--graph"@,
        "--date-order"@,
        "--decorate=full"@,
        "--no-color"@,
        "--format=\x02%H\x1f%h\x1f%an\x1f%at\x1f%P\x1f%D\x1f%s"@,
        "-n401"@,
    ] + match scope {
        Scope::All => seq!["--exclude=refs/stash"@, "--all"@],
        Scope::Branch => match upstream {
            Some(up) => seq!["HEAD"@, up],
            None => seq!["HEAD"@],
        },
    } + seq!["--"@]
}

/// The arguments for the commit list. `upstream` is the checked-out branch's
/// upstream, as `origin/develop`, when it has one.
pub fn log_args(upstream: Option<&str>, scope: Scope) -> (r: Vec<String>)
    ensures
        crate::text::texts(r@) == log_arg_texts(crate::hold::opt_str(upstream), scope),
{
    let base: [&str; 7] = [
        "log",
        "--graph",
        "--date-order",
        "--decorate=full",
        "--no-color",
        "--format=\x02%H\x1f%h\x1f%an\x1f%at\x1f%P\x1f%D\x1f%s",
        "-n401",
    ];
    assert(crate::table::strs(base@) =~= seq![
        "log"@,
        "--graph"@,
        "--date-order"@,
        "--decorate=full"@,
        "--no-color"@,
        "--format=\x02%H\x1f%h\x1f%an\x1f%at\x1f%P\x1f%D\x1f%s"@,
        "-n401"@,
    ]);
    let mut args = strings(&base);
    match scope {
        Scope::All => {
            push_text(&mut args, "--exclude=refs/stash");
            push_text(&mut args, "--all");
        },
        Scope::Branch => {
            push_text(&mut args, "HEAD");
            if let Some(up) = upstream {
                push_text(&mut args, up);
            }
        },
    }
    push_text(&mut args, "--");
    assert(crate::text::texts(args@) =~= log_arg_texts(crate::hold::opt_str(upstream), scope));
    args
}

/// The arguments that list the commits of `to` that `from` does not have.
pub fn missing_args(from: &str, to: &str) -> (r: Vec<String>)
    ensures
        crate::text::texts(r@) == seq!["rev-list"@, "-n401"@, from@ + ".."@ + to@, "--"@],
{
    let mut range = from.to_owned();
    range.append("..");
    range.append(to);
    let mut args: Vec<String> = Vec::new();
    args.push("rev-list".to_owned());
    args.push("-n401".to_owned());
    args.push(range);
    args.push("--".to_owned());
    assert(crate::text::texts(args@) =~= seq!["rev-list"@, "-n401"@, from@ + ".."@ + to@, "--"@]);
    args
}

/// Whether an error says that there is nothing committed: a repo without history
/// is an answer rather than a failure.
pub fn unborn(message: &str) -> (r: bool)
    ensures
        r == (crate::text::contains(message@, "does not have any commits"@)
            || crate::text::contains(message@, "unknown revision"@)),
{
    let v = to_chars(message);
    has(v.as_slice(), "does not have any commits") || has(v.as_slice(), "unknown revision")
}

/// The shas of a `rev-list`, line by line.
pub open spec fn sha_list(raw: Option<Seq<char>>) -> Seq<Seq<char>> {
    match raw {
        Some(r) => crate::text::lines(r).map_values(|l: Seq<char>| crate::text::trim(l)),
        None => Seq::empty(),
    }
}

pub fn shas(raw: Option<&str>) -> (r: Vec<String>)
    ensures
        crate::text::texts(r@) == sha_list(crate::hold::opt_str(raw)),
{
    let mut out: Vec<String> = Vec::new();
    match raw {
        None => {},
        Some(text) => {
            let v = to_chars(text);
            let ls = split_lines(v.as_slice());
            let ghost all = crate::text::lines(text@);
            let mut i: usize = 0;
            while i < ls.len()
                invariant
                    i <= ls@.len(),
                    all == crate::text::views(ls@),
                    out@.len() == i,
                    forall|k: int| 0 <= k < i ==> (#[trigger] out@[k])@ == crate::text::trim(all[k]),
                decreases ls@.len() - i,
            {
                out.push(from_chars(trimmed(ls[i].as_slice())));
                i = i + 1;
            }
        },
    }
    assert(crate::text::texts(out@) =~= sha_list(crate::hold::opt_str(raw)));
    out
}

/// Parse `%D` under `--decorate=full`, which keeps the `refs/heads/` and
/// `refs/remotes/` prefixes -- the only reliable way to tell a local branch
/// called `origin/x` from a remote one.
pub open spec fn ref_label(name: Seq<char>) -> Option<(Seq<char>, RefKind)> {
    if crate::text::starts_with(name, "tag: "@) {
        Some((crate::text::trim_start_str(name.skip(5), "refs/tags/"@), RefKind::Tag))
    } else if crate::text::starts_with(name, "refs/heads/"@) {
        Some((name.skip(11), RefKind::Local))
    } else if crate::text::starts_with(name, "refs/remotes/"@) {
        // `origin/HEAD` says which branch the remote defaults to, and sits
        // beside that branch's own label saying nothing new.
        if crate::text::ends_with(name.skip(13), "/HEAD"@) {
            None
        } else {
            Some((name.skip(13), RefKind::Remote))
        }
    } else {
        Some((name, RefKind::Local))
    }
}

pub open spec fn opt_seq<T>(o: Option<T>) -> Seq<T> {
    match o {
        Some(x) => seq![x],
        None => Seq::empty(),
    }
}

/// The labels of one part of a decoration.
pub open spec fn part_labels(part: Seq<char>) -> Seq<(Seq<char>, RefKind)> {
    if crate::text::starts_with(part, "HEAD -> "@) {
        if part.skip(8) == "HEAD"@ {
            seq![("HEAD"@, RefKind::Head)]
        } else {
            seq![("HEAD"@, RefKind::Head)] + opt_seq(ref_label(part.skip(8)))
        }
    } else if part == "HEAD"@ {
        seq![("HEAD"@, RefKind::Head)]
    } else {
        opt_seq(ref_label(part))
    }
}

/// The labels of the first `n` parts; parts with nothing in them give none.
pub open spec fn parts_labels(parts: Seq<Seq<char>>, n: int) -> Seq<(Seq<char>, RefKind)>
    decreases n,
{
    if n <= 0 {
        Seq::empty()
    } else {
        let part = crate::text::trim(parts[n - 1]);
        if part.len() == 0 {
            parts_labels(parts, n - 1)
        } else {
            parts_labels(parts, n - 1) + part_labels(part)
        }
    }
}

/// The labels of a whole decoration.
pub open spec fn ref_labels(raw: Seq<char>) -> Seq<(Seq<char>, RefKind)> {
    let parts = crate::text::split_str(raw, ", "@);
    parts_labels(parts, parts.len() as int)
}

fn push_label(out: &mut Vec<RefLabel>, name: String, kind: RefKind)
    ensures
        label_views(final(out)@) == label_views(old(out)@).push((name@, kind)),
{
    let ghost before = out@;
    let ghost entry = (name@, kind);
    out.push(RefLabel { name, kind });
    assert(label_views(out@) =~= label_views(before).push(entry));
}

fn push_ref(out: &mut Vec<RefLabel>, name: &[char])
    ensures
        label_views(final(out)@) == label_views(old(out)@) + opt_seq(ref_label(name@)),
{
    proof {
        reveal_strlit("tag: ");
        reveal_strlit("refs/heads/");
        reveal_strlit("refs/remotes/");
        reveal_strlit("refs/tags/");
    }
    if let Some(tag) = stripped_prefix(name, "tag: ") {
        push_label(out, from_chars(trimmed_start_str(tag, "refs/tags/")), RefKind::Tag);
    } else if let Some(local) = stripped_prefix(name, "refs/heads/") {
        push_label(out, from_chars(local), RefKind::Local);
    } else if let Some(remote) = stripped_prefix(name, "refs/remotes/") {
        if !has_suffix(remote, "/HEAD") {
            push_label(out, from_chars(remote), RefKind::Remote);
        }
    } else {
        push_label(out, from_chars(name), RefKind::Local);
    }
    assert(label_views(out@) =~= label_views(old(out)@) + opt_seq(ref_label(name@)));
}

fn push_part(out: &mut Vec<RefLabel>, part: &[char])
    ensures
        label_views(final(out)@) == label_views(old(out)@) + part_labels(part@),
{
    proof {
        reveal_strlit("HEAD -> ");
    }
    match stripped_prefix(part, "HEAD -> ") {
        Some(rest) => {
            push_label(out, "HEAD".to_owned(), RefKind::Head);
            if !spells(rest, "HEAD") {
                push_ref(out, rest);
            }
        },
        None => {
            if spells(part, "HEAD") {
                push_label(out, "HEAD".to_owned(), RefKind::Head);
            } else {
                push_ref(out, part);
            }
        },
    }
    assert(label_views(out@) =~= label_views(old(out)@) + part_labels(part@));
}

/// Parse `%D` under `--decorate=full`.
pub fn parse_refs(raw: &str) -> (r: Vec<RefLabel>)
    ensures
        label_views(r@) == ref_labels(raw@),
{
    proof {
        reveal_strlit(", ");
    }
    let v = to_chars(raw);
    let parts = split_at_str(v.as_slice(), ", ");
    let ghost all = crate::text::split_str(raw@, ", "@);
    let mut out: Vec<RefLabel> = Vec::new();
    let mut i: usize = 0;
    assert(label_views(out@) =~= parts_labels(all, 0));
    while i < parts.len()
        invariant
            i <= parts@.len(),
            all == crate::text::views(parts@),
            label_views(out@) == parts_labels(all, i as int),
        decreases parts@.len() - i,
    {
        let part = trimmed(parts[i].as_slice());
        assert(all[i as int] == parts@[i as int]@);
        if part.len() > 0 {
            push_part(&mut out, part);
        }
        i = i + 1;
    }
    out
}

/// What the fields of a commit line hold.
pub open spec fn commit_fields(f: Seq<Seq<char>>) -> CommitText {
    CommitText {
        sha: f[0],
        short: f[1],
        author: f[2],
        at: crate::number::or_zero(crate::number::parse_signed(f[3])),
        merge: crate::text::words(f[4]).len() > 1,
        refs: ref_labels(f[5]),
        subject: f[6],
        flow: Flow::Shared,
    }
}

/// What one line adds to the list. A full list takes no more commits: it is
/// marked, and nothing after that counts.
pub open spec fn log_step(log: LogText, line: Seq<char>) -> LogText {
    match crate::text::split_once(line, START) {
        None => {
            // A line of graph with no commit on it: a fork or a join.
            let graph = crate::text::trim_end(line);
            if graph.len() == 0 {
                log
            } else {
                LogText { rows: log.rows.push(RowText { graph, commit: None }), ..log }
            }
        },
        Some((graph, fields)) => {
            let f = crate::text::splitn(fields, 7, FS);
            if log.commits.len() == LOG_LIMIT {
                LogText { truncated: true, ..log }
            } else if f.len() < 7 {
                log
            } else {
                LogText {
                    rows: log.rows.push(
                        RowText { graph, commit: Some(log.commits.len() as int) },
                    ),
                    commits: log.commits.push(commit_fields(f)),
                    ..log
                }
            }
        },
    }
}

/// The list after these lines.
pub open spec fn log_read(lines: Seq<Seq<char>>) -> LogText
    decreases lines.len(),
{
    if lines.len() == 0 {
        empty_log()
    } else {
        let log = log_read(lines.take(lines.len() - 1));
        if log.truncated {
            log
        } else {
            log_step(log, lines[lines.len() - 1])
        }
    }
}

/// The rows without the graph lines after the last commit: they belong to
/// commits that weren't loaded, and would dangle off the bottom of the list.
pub open spec fn without_tail(rows: Seq<RowText>) -> Seq<RowText>
    decreases rows.len(),
{
    if rows.len() > 0 && rows[rows.len() - 1].commit is None {
        without_tail(rows.take(rows.len() - 1))
    } else {
        rows
    }
}

/// The commit list in the output of `git log`.
pub open spec fn log_text(raw: Seq<char>) -> LogText {
    let log = log_read(crate::text::lines(raw));
    LogText { rows: without_tail(log.rows), ..log }
}

fn push_row(log: &mut Log, row: LogRow)
    ensures
        final(log)@ == (LogText { rows: old(log)@.rows.push(row@), ..old(log)@ }),
{
    let ghost before = log.rows@;
    let ghost entry = row@;
    log.rows.push(row);
    assert(log@.rows =~= old(log)@.rows.push(entry));
}

fn push_commit(log: &mut Log, commit: Commit)
    ensures
        final(log)@ == (LogText { commits: old(log)@.commits.push(commit@), ..old(log)@ }),
{
    let ghost entry = commit@;
    log.commits.push(commit);
    assert(log@.commits =~= old(log)@.commits.push(entry));
}

fn read_commit(f: &Vec<Vec<char>>) -> (r: Commit)
    requires
        f@.len() >= 7,
    ensures
        r@ == commit_fields(crate::text::views(f@)),
{
    let ghost fs = crate::text::views(f@);
    assert(forall|k: int| 0 <= k < f@.len() ==> fs[k] == f@[k]@);
    let refs_text = from_chars(f[5].as_slice());
    let words = split_words(f[4].as_slice());
    assert(crate::text::views(words@).len() == words@.len());
    Commit {
        sha: from_chars(f[0].as_slice()),
        short: from_chars(f[1].as_slice()),
        author: from_chars(f[2].as_slice()),
        at: match read_i64(f[3].as_slice()) {
            Some(n) => n,
            None => 0,
        },
        merge: words.len() > 1,
        refs: parse_refs(refs_text.as_str()),
        subject: from_chars(f[6].as_slice()),
        flow: Flow::Shared,
    }
}

fn log_line(log: &mut Log, line: &[char])
    ensures
        final(log)@ == log_step(old(log)@, line@),
{
    match split_once_at(line, START) {
        None => {
            let graph = trimmed_end(line);
            if graph.len() > 0 {
                push_row(log, LogRow::Graph(from_chars(graph)));
            }
        },
        Some((graph, fields)) => {
            assert(log@.commits.len() == log.commits@.len());
            if log.commits.len() == LOG_LIMIT {
                log.truncated = true;
                return ;
            }
            let f = splitn_at_char(fields, 7, FS);
            assert(crate::text::views(f@).len() == f@.len());
            if f.len() < 7 {
                return ;
            }
            let index: usize = log.commits.len();
            push_row(log, LogRow::Commit { graph: from_chars(graph), index });
            push_commit(log, read_commit(&f));
        },
    }
}

/// Parse `git log --graph` output in the format [`log_args`] asks for.
pub fn parse_log(raw: &str) -> (r: Log)
    ensures
        r@ == log_text(raw@),
{
    let v = to_chars(raw);
    let ls = split_lines(v.as_slice());
    let ghost all = crate::text::lines(raw@);
    let mut log = Log::default();
    let mut i: usize = 0;
    while i < ls.len()
        invariant
            i <= ls@.len(),
            all == crate::text::views(ls@),
            log@ == log_read(all.take(i as int)),
        decreases ls@.len() - i,
    {
        assert(all.take(i + 1).take(i as int) =~= all.take(i as int));
        assert(all.take(i + 1)[i as int] == ls@[i as int]@);
        if !log.truncated {
            log_line(&mut log, ls[i].as_slice());
        }
        i = i + 1;
    }
    assert(all.take(i as int) =~= all);
    let ghost read = log@;
    loop
        invariant
            log@.commits == read.commits,
            log@.truncated == read.truncated,
            without_tail(log@.rows) == without_tail(read.rows),
            read == log_read(all),
            all == crate::text::lines(raw@),
        decreases log.rows@.len(),
    {
        let n: usize = log.rows.len();
        let dangling = n > 0 && matches!(log.rows[n - 1], LogRow::Graph(_));
        proof {
            assert(log@.rows.len() == n);
            if n > 0 {
                assert(log@.rows[n - 1] == log.rows@[n - 1]@);
            }
        }
        if !dangling {
            return log;
        }
        let ghost before = log@.rows;
        let _row = log.rows.pop();
        assert(log@.rows =~= before.take(n - 1));
    }
}

/// Which side of the upstream a commit is on, for the commits that only one side
/// has.
pub open spec fn flow_of(sha: Seq<char>, unpushed: Seq<Seq<char>>, incoming: Seq<Seq<char>>) -> Flow {
    if unpushed.contains(sha) {
        Flow::Unpushed
    } else if incoming.contains(sha) {
        Flow::Incoming
    } else {
        Flow::Shared
    }
}

fn has_text(list: &Vec<String>, s: &str) -> (r: bool)
    ensures
        r == crate::text::texts(list@).contains(s@),
{
    let ghost all = crate::text::texts(list@);
    let mut i: usize = 0;
    while i < list.len()
        invariant
            i <= list@.len(),
            all == crate::text::texts(list@),
            forall|k: int| 0 <= k < i ==> all[k] != s@,
        decreases list@.len() - i,
    {
        assert(all[i as int] == list@[i as int]@);
        if same(list[i].as_str(), s) {
            return true;
        }
        i = i + 1;
    }
    false
}

/// The commit list, with each commit marked by the side of the upstream it is on.
/// `ahead` and `behind` are the `rev-list` answers, where there were any.
pub fn load_log(raw: &str, ahead: Option<&str>, behind: Option<&str>) -> (r: Log)
    ensures
        r@.rows == log_text(raw@).rows,
        r@.truncated == log_text(raw@).truncated,
        r@.commits.len() == log_text(raw@).commits.len(),
        forall|k: int|
            0 <= k < r@.commits.len() ==> #[trigger] r@.commits[k] == (CommitText {
                flow: flow_of(
                    log_text(raw@).commits[k].sha,
                    sha_list(crate::hold::opt_str(ahead)),
                    sha_list(crate::hold::opt_str(behind)),
                ),
                ..log_text(raw@).commits[k]
            }),
{
    let unpushed = shas(ahead);
    let incoming = shas(behind);
    let mut log = parse_log(raw);
    let ghost before = log@;
    let mut i: usize = 0;
    while i < log.commits.len()
        invariant
            i <= log.commits@.len(),
            log@.rows == before.rows,
            log@.truncated == before.truncated,
            log.commits@.len() == before.commits.len(),
            crate::text::texts(unpushed@) == sha_list(crate::hold::opt_str(ahead)),
            crate::text::texts(incoming@) == sha_list(crate::hold::opt_str(behind)),
            forall|k: int|
                0 <= k < i ==> (#[trigger] log.commits@[k])@ == (CommitText {
                    flow: flow_of(
                        before.commits[k].sha,
                        sha_list(crate::hold::opt_str(ahead)),
                        sha_list(crate::hold::opt_str(behind)),
                    ),
                    ..before.commits[k]
                }),
            forall|k: int|
                i <= k < log.commits@.len() ==> (#[trigger] log.commits@[k])@ == before.commits[k],
        decreases log.commits@.len() - i,
    {
        let flow = if has_text(&unpushed, log.commits[i].sha.as_str()) {
            Flow::Unpushed
        } else if has_text(&incoming, log.commits[i].sha.as_str()) {
            Flow::Incoming
        } else {
            Flow::Shared
        };
        assert(log.commits@[i as int]@ == before.commits[i as int]);
        log.commits[i].flow = flow;
        i = i + 1;
    }
    assert forall|k: int| 0 <= k < log@.commits.len() implies #[trigger] log@.commits[k]
        == log.commits@[k]@ by {}
    log
}

/// A ref is labelled by where it stands, with its short name: tags, branches, branches of
/// a remote; but for the default branch of a remote, which has no label.
pub proof fn law_a_ref_has_its_label(name: Seq<char>)
    ensures
        !crate::text::starts_with(name, "refs/tags/"@) ==> ref_label("tag: refs/tags/"@ + name)
            == Some((name, RefKind::Tag)),
        ref_label("refs/heads/"@ + name) == Some((name, RefKind::Local)),
        !crate::text::ends_with(name, "/HEAD"@) ==> ref_label("refs/remotes/"@ + name) == Some(
            (name, RefKind::Remote),
        ),
        crate::text::ends_with(name, "/HEAD"@) ==> ref_label("refs/remotes/"@ + name) is None,
{
    reveal_strlit("tag: ");
    reveal_strlit("refs/tags/");
    reveal_strlit("tag: refs/tags/");
    reveal_strlit("refs/heads/");
    reveal_strlit("refs/remotes/");
    let tag = "tag: refs/tags/"@ + name;
    let full = "refs/tags/"@ + name;
    assert(tag =~= "tag: "@ + full);
    crate::text::law_what_was_put_around_comes_off("tag: "@, full);
    assert(tag.skip(5) =~= full);
    crate::text::law_a_text_is_trimmed_off_the_front(name, "refs/tags/"@);
    let head = "refs/heads/"@ + name;
    crate::text::law_what_was_put_around_comes_off("refs/heads/"@, name);
    assert(head.skip(11) =~= name);
    assert(!crate::text::starts_with(head, "tag: "@)) by {
        assert(head.take(5)[0] == head[0]);
    }
    let remote = "refs/remotes/"@ + name;
    crate::text::law_what_was_put_around_comes_off("refs/remotes/"@, name);
    assert(remote.skip(13) =~= name);
    assert(!crate::text::starts_with(remote, "tag: "@)) by {
        assert(remote.take(5)[0] == remote[0]);
    }
    assert(!crate::text::starts_with(remote, "refs/heads/"@)) by {
        assert(remote.take(11)[5] == remote[5]);
        assert("refs/heads/"@[5] == 'h');
    }
}

/// The head is labelled as the head, and in front of the branch it is on.
pub proof fn law_the_head_comes_first(name: Seq<char>)
    requires
        name.len() > 0,
    ensures
        part_labels("HEAD"@) == seq![("HEAD"@, RefKind::Head)],
        part_labels("HEAD -> refs/heads/"@ + name) == seq![
            ("HEAD"@, RefKind::Head),
            (name, RefKind::Local),
        ],
        part_labels("refs/heads/"@ + name) == seq![(name, RefKind::Local)],
{
    reveal_strlit("HEAD");
    reveal_strlit("HEAD -> ");
    reveal_strlit("refs/heads/");
    reveal_strlit("HEAD -> refs/heads/");
    law_a_ref_has_its_label(name);
    let branch = "refs/heads/"@ + name;
    let part = "HEAD -> refs/heads/"@ + name;
    assert(part =~= "HEAD -> "@ + branch);
    crate::text::law_what_was_put_around_comes_off("HEAD -> "@, branch);
    assert(part.skip(8) =~= branch);
    assert(branch[0] == 'r' && "HEAD"@[0] == 'H');
    assert(seq![("HEAD"@, RefKind::Head)] + seq![(name, RefKind::Local)] =~= seq![
        ("HEAD"@, RefKind::Head),
        (name, RefKind::Local),
    ]);
    assert(!crate::text::starts_with(branch, "HEAD -> "@)) by {
        assert(branch.take(8)[0] == branch[0]);
    }
}

/// The labels of a list are those of its parts, in order.
pub proof fn law_labels_come_in_order(a: Seq<char>, b: Seq<char>)
    requires
        !a.contains(','),
        crate::text::trim(a).len() > 0,
    ensures
        ref_labels(a) == part_labels(crate::text::trim(a)),
        ref_labels(a + ", "@ + b) == part_labels(crate::text::trim(a)) + ref_labels(b),
        ref_labels(Seq::empty()).len() == 0,
{
    reveal_strlit(", ");
    reveal_with_fuel(parts_labels, 2);
    crate::text::law_a_text_is_split_at_a_text(a, ", "@, b);
    crate::text::law_a_text_is_split_at_a_text(Seq::empty(), ", "@, b);
    let rest = crate::text::split_str(b, ", "@);
    lemma_labels_behind(a, rest, rest.len() as int);
    assert(seq![a][0] == a);
    let none = Seq::<char>::empty();
    assert(seq![none][0] == none);
    assert(Seq::<(Seq<char>, RefKind)>::empty() + part_labels(crate::text::trim(a)) =~= part_labels(
        crate::text::trim(a),
    ));
}

proof fn lemma_labels_behind(a: Seq<char>, rest: Seq<Seq<char>>, n: int)
    requires
        crate::text::trim(a).len() > 0,
        0 <= n <= rest.len(),
    ensures
        parts_labels(seq![a] + rest, n + 1) == part_labels(crate::text::trim(a)) + parts_labels(
            rest,
            n,
        ),
    decreases n,
{
    let all = seq![a] + rest;
    let first = part_labels(crate::text::trim(a));
    if n > 0 {
        lemma_labels_behind(a, rest, n - 1);
        assert(all[n] == rest[n - 1]);
        assert(first + parts_labels(rest, n - 1) + part_labels(crate::text::trim(rest[n - 1]))
            =~= first + (parts_labels(rest, n - 1) + part_labels(crate::text::trim(rest[n - 1]))));
    } else {
        reveal_with_fuel(parts_labels, 2);
        assert(all[0] == a);
        assert(Seq::<(Seq<char>, RefKind)>::empty() + first =~= first);
        assert(first + parts_labels(rest, 0) =~= first);
    }
}

/// A commit says what its fields say, and is a merge where it has more than one parent.
pub proof fn law_a_commit_says_what_its_fields_say(
    f: Seq<Seq<char>>,
    parent: Seq<char>,
    other: Seq<char>,
    n: int,
)
    requires
        f.len() >= 7,
        parent.len() > 0,
        other.len() > 0,
        forall|i: int|
            0 <= i < parent.len() ==> !crate::text::is_whitespace(#[trigger] parent[i]),
        forall|i: int| 0 <= i < other.len() ==> !crate::text::is_whitespace(#[trigger] other[i]),
        0 <= n <= i64::MAX,
    ensures
        ({
            let c = commit_fields(f);
            &&& c.sha == f[0]
            &&& c.short == f[1]
            &&& c.author == f[2]
            &&& f[3] == crate::number::decimal(n) ==> c.at == n
            &&& f[4].len() == 0 || f[4] == parent ==> !c.merge
            &&& f[4] == parent + seq![' '] + other ==> c.merge
            &&& c.refs == ref_labels(f[5])
            &&& c.subject == f[6]
        }),
{
    crate::number::law_a_number_reads_back(n, i64::MAX as int);
    crate::text::law_a_text_is_read_by_word(parent, ' ', other);
    crate::text::law_a_text_is_read_by_word(other, ' ', Seq::empty());
    if f[4].len() == 0 {
        assert(f[4] =~= Seq::empty());
    }
}

/// A line with a commit on it adds the commit and a row that shows it; a line of graph
/// alone adds a row; a blank line adds nothing. At four hundred commits the log is cut.
pub proof fn law_a_log_grows_by_line(
    log: LogText,
    graph: Seq<char>,
    fields: Seq<Seq<char>>,
    subject: Seq<char>,
)
    requires
        !graph.contains(START),
        fields.len() == 6,
        forall|i: int| 0 <= i < fields.len() ==> !(#[trigger] fields[i]).contains(FS),
    ensures
        ({
            let line = graph + seq![START] + crate::text::parted(fields, subject, FS);
            let next = log_step(log, line);
            &&& log.commits.len() == 400 ==> next.truncated && next.commits == log.commits && next.rows
                == log.rows
            &&& log.commits.len() != 400 ==> {
                &&& next.truncated == log.truncated
                &&& next.commits == log.commits.push(commit_fields(fields.push(subject)))
                &&& next.rows == log.rows.push(
                    RowText { graph, commit: Some(log.commits.len() as int) },
                )
            }
        }),
        ({
            let next = log_step(log, graph);
            &&& next.commits == log.commits
            &&& next.truncated == log.truncated
            &&& crate::text::trim_end(graph).len() == 0 ==> next.rows == log.rows
            &&& crate::text::trim_end(graph).len() > 0 ==> next.rows == log.rows.push(
                RowText { graph: crate::text::trim_end(graph), commit: None },
            )
        }),
{
    let rest = crate::text::parted(fields, subject, FS);
    crate::text::law_split_once_goes_by_the_first(graph, rest, START);
    crate::text::law_fields_come_back(fields, subject, FS);
}

/// A log is read from the top, and nothing more once it is cut.
pub proof fn law_a_log_is_read_from_the_top(lines: Seq<Seq<char>>, line: Seq<char>)
    ensures
        log_read(Seq::empty()).rows.len() == 0,
        log_read(Seq::empty()).commits.len() == 0,
        !log_read(Seq::empty()).truncated,
        log_read(lines).truncated ==> log_read(lines.push(line)) == log_read(lines),
        !log_read(lines).truncated ==> log_read(lines.push(line)) == log_step(
            log_read(lines),
            line,
        ),
{
    let all = lines.push(line);
    assert(all.take(all.len() - 1) =~= lines);
}

/// A log ends with a commit: rows of graph behind the last are left out, and no other.
pub proof fn law_a_log_ends_with_a_commit(rows: Seq<RowText>, i: int)
    ensures
        ({
            let kept = without_tail(rows);
            &&& kept.len() <= rows.len()
            &&& kept == rows.take(kept.len() as int)
            &&& kept.len() > 0 ==> kept[kept.len() - 1].commit is Some
            &&& kept.len() <= i < rows.len() ==> rows[i].commit is None
        }),
    decreases rows.len(),
{
    if rows.len() > 0 && rows[rows.len() - 1].commit is None {
        let less = rows.take(rows.len() - 1);
        law_a_log_ends_with_a_commit(less, i);
        let n = without_tail(less).len() as int;
        assert(less.take(n) =~= rows.take(n));
        if i < rows.len() - 1 && n <= i {
            assert(less[i] == rows[i]);
        }
    } else {
        assert(rows.take(rows.len() as int) =~= rows);
    }
}

/// A commit that was not pushed is told so, one that was not pulled likewise, and every
/// other is shared.
pub proof fn law_a_commit_flows_by_its_lists(
    sha: Seq<char>,
    unpushed: Seq<Seq<char>>,
    incoming: Seq<Seq<char>>,
)
    ensures
        flow_of(sha, unpushed, incoming) == Flow::Unpushed <==> unpushed.contains(sha),
        flow_of(sha, unpushed, incoming) == Flow::Incoming <==> !unpushed.contains(sha)
            && incoming.contains(sha),
        flow_of(sha, unpushed, incoming) == Flow::Shared <==> !unpushed.contains(sha)
            && !incoming.contains(sha),
{
}

/// A list of commits is read by line, without the blanks around each; no answer lists none.
pub proof fn law_commits_are_listed_by_line(raw: Seq<char>, i: int)
    requires
        0 <= i < crate::text::lines(raw).len(),
    ensures
        sha_list(None).len() == 0,
        sha_list(Some(raw)).len() == crate::text::lines(raw).len(),
        sha_list(Some(raw))[i] == crate::text::trim(crate::text::lines(raw)[i]),
{
}

/// A log is asked for in one more than it shows, by date, with its graph: of all but the
/// stash, or of the branch and what it follows.
pub proof fn law_a_log_is_asked_for_by_scope(up: Seq<char>)
    ensures
        ({
            let all = log_arg_texts(Some(up), Scope::All);
            let followed = log_arg_texts(Some(up), Scope::Branch);
            let alone = log_arg_texts(None, Scope::Branch);
            &&& all.take(7) == followed.take(7) && all.take(7) == alone.take(7)
            &&& all[0] == "log"@ && all[1] == "--graph"@ && all[2] == "--date-order"@ && all[6]
                == "-n401"@
            &&& all.skip(7) == seq!["--exclude=refs/stash"@, "--all"@, "--"@]
            &&& followed.skip(7) == seq!["HEAD"@, up, "--"@]
            &&& alone.skip(7) == seq!["HEAD"@, "--"@]
        }),
{
    let all = log_arg_texts(Some(up), Scope::All);
    let followed = log_arg_texts(Some(up), Scope::Branch);
    let alone = log_arg_texts(None, Scope::Branch);
    assert(all.take(7) =~= followed.take(7));
    assert(all.take(7) =~= alone.take(7));
    assert(all.skip(7) =~= seq!["--exclude=refs/stash"@, "--all"@, "--"@]);
    assert(followed.skip(7) =~= seq!["HEAD"@, up, "--"@]);
    assert(alone.skip(7) =~= seq!["HEAD"@, "--"@]);
}

/// What is read of a log is what it holds, field by field.
pub proof fn law_a_log_text_is_its_value(label: RefLabel, c: Commit, log: Log, i: int)
    ensures
        label@ == (label.name@, label.kind),
        c@.sha == c.sha@ && c@.short == c.short@ && c@.author == c.author@ && c@.at == c.at
            && c@.merge == c.merge && c@.subject == c.subject@ && c@.flow == c.flow,
        c@.refs.len() == c.refs@.len(),
        0 <= i < c.refs@.len() ==> c@.refs[i] == (c.refs@[i].name@, c.refs@[i].kind),
        log@.truncated == log.truncated,
        log@.rows.len() == log.rows@.len() && log@.commits.len() == log.commits@.len(),
        0 <= i < log.commits@.len() ==> log@.commits[i] == log.commits@[i]@,
        0 <= i < log.rows@.len() ==> {
            &&& log.rows@[i] matches LogRow::Commit { graph, index } ==> log@.rows[i].graph == graph@
                && log@.rows[i].commit == Some(index as int)
            &&& log.rows@[i] matches LogRow::Graph(graph) ==> log@.rows[i].graph == graph@
                && log@.rows[i].commit is None
        },
{
}

/// A log is what its lines say, without the graph behind its last commit.
pub proof fn law_a_log_is_what_its_lines_say(raw: Seq<char>)
    ensures
        log_text(raw).commits == log_read(crate::text::lines(raw)).commits,
        log_text(raw).truncated == log_read(crate::text::lines(raw)).truncated,
        log_text(raw).rows == without_tail(log_read(crate::text::lines(raw)).rows),
{
}

} // verus!
