//! Talking to git.
//!
//! Two deliberate choices here.
//!
//! First, the program shells out to `git` rather than linking a library. Git's own
//! status has the untracked cache, index v4 and fsmonitor support, and it
//! honours whatever per-repo config is in play, so the numbers match exactly
//! what you see on the command line and in a GUI client.
//!
//! Second, every invocation passes `--no-optional-locks`. Without it, polling
//! hundreds of repos would take `index.lock` and rewrite indexes constantly,
//! fighting whatever else is open on the same repo and churning mtimes that
//! this tool then reads back as activity.
//!
//! Anything derivable by reading a file under `.git` directly is read directly:
//! stash count, index mtime, in-progress operations, shallowness, remote URL.
//!
//! This module says what to ask git and what its answers mean.

use vstd::prelude::*;

use crate::config::{strings, ReleaseConfig};
use crate::gitconfig::scan_git_config;
use crate::model::{
    BranchInfo, BranchText, ChangelogInfo, CommitInfo, CommitNote, Head, Operation,
    RefsInfo, TagInfo, TagText, WorkKey,
};
use crate::number::{add32, read_i64, read_u32, to_decimal};
use crate::pathname::{absolute, join_path};
use crate::paths::as_opt_str;
use crate::release::{read_changelog, release_tags};
use crate::text::{
    first_bytes, first_line_of, from_chars, join_texts, push_text, same, spells, split_at_char,
    split_lines, splitn_at_char, stripped_prefix, takes_bytes, to_chars, trimmed, trimmed_end_char,
    trimmed_start_char,
};

pub use crate::porcelain::{field_tail, probe_work, stat_changed_files, status_args};
pub use crate::release::{parse_changelog_version, tag_eq_version, TAG_LIMIT};

verus! {

/// Cap, in seconds, on how long any single git invocation may take. A repo on a
/// stalled network mount shouldn't be able to hold up a sweep.
pub const GIT_TIMEOUT: u64 = 30;

/// Single format string covering both branches and tags, so one
/// `for-each-ref` call answers most of tier 1. The leading full refname says
/// which kind of ref each line describes.
pub const REF_FORMAT: &'static str =
    "%(refname)\t%(upstream:short)\t%(upstream:track)\t%(committerdate:unix)\t%(creatordate:unix)\t%(objectname:short)\t%(contents:subject)";

// ---------------------------------------------------------------------------
// Invocations
// ---------------------------------------------------------------------------

/// What every invocation starts with.
pub open spec fn rails(root: Seq<char>) -> Seq<Seq<char>> {
    seq![
        "--no-optional-locks"@,
        "-c"@,
        "core.quotepath=false"@,
        "-c"@,
        "color.ui=false"@,
        "-C"@,
        root,
    ]
}

/// The arguments of one `git` invocation against a repo, with the safety rails
/// applied.
pub fn git_args(root: &str, args: &Vec<String>) -> (r: Vec<String>)
    ensures
        crate::text::texts(r@) == rails(root@) + crate::text::texts(args@),
{
    let start: [&str; 7] = [
        "--no-optional-locks",
        "-c",
        "core.quotepath=false",
        "-c",
        "color.ui=false",
        "-C",
        root,
    ];
    let mut out = strings(&start);
    assert(crate::table::strs(start@) =~= rails(root@));
    let mut i: usize = 0;
    assert(crate::text::texts(args@).take(0) =~= Seq::empty());
    assert(rails(root@) + Seq::<Seq<char>>::empty() =~= rails(root@));
    while i < args.len()
        invariant
            i <= args@.len(),
            crate::text::texts(out@) == rails(root@) + crate::text::texts(args@).take(i as int),
        decreases args@.len() - i,
    {
        push_text(&mut out, args[i].as_str());
        i = i + 1;
        assert(crate::text::texts(out@) =~= rails(root@) + crate::text::texts(args@).take(
            i as int,
        ));
    }
    assert(crate::text::texts(args@).take(i as int) =~= crate::text::texts(args@));
    out
}

/// The arguments of a fetch, which prompts for nothing and leaves tags alone.
pub open spec fn fetch_line(root: Seq<char>) -> Seq<Seq<char>> {
    seq![
        "--no-optional-locks"@,
        "-C"@,
        root,
        "-c"@,
        "credential.interactive=false"@,
        "fetch"@,
        "--all"@,
        "--prune"@,
        "--quiet"@,
        "--no-tags"@,
    ]
}

/// Fetch, so "behind" counts mean something.
///
/// Everything else in this module is local and free. This is not: it hits the
/// network, and against a few hundred repos that is real traffic. So it only
/// ever happens on request or on a long timer, credential prompts are refused
/// rather than left to block, and a hung remote is capped by its own timeout
/// instead of the general one.
pub fn fetch_args(root: &str) -> (r: Vec<String>)
    ensures
        crate::text::texts(r@) == fetch_line(root@),
{
    let args: [&str; 10] = [
        "--no-optional-locks",
        "-C",
        root,
        "-c",
        "credential.interactive=false",
        "fetch",
        "--all",
        "--prune",
        "--quiet",
        "--no-tags",
    ];
    assert(crate::table::strs(args@) =~= fetch_line(root@));
    strings(&args)
}

/// The arguments of a clone, which has no repo to run in yet.
pub open spec fn clone_line(url: Seq<char>, into: Seq<char>) -> Seq<Seq<char>> {
    seq!["--no-optional-locks"@, "clone"@, "--quiet"@, url, into]
}

/// Clone into a directory of its own.
pub fn clone_args(url: &str, into: &str) -> (r: Vec<String>)
    ensures
        crate::text::texts(r@) == clone_line(url@, into@),
{
    let args: [&str; 5] = ["--no-optional-locks", "clone", "--quiet", url, into];
    assert(crate::table::strs(args@) =~= clone_line(url@, into@));
    strings(&args)
}

/// The arguments of a pull.
pub open spec fn pull_line(root: Seq<char>) -> Seq<Seq<char>> {
    rails(root) + seq!["pull"@, "--ff-only"@]
}

/// Fast-forward a checkout, or leave it alone.
pub fn pull_args(root: &str) -> (r: Vec<String>)
    ensures
        crate::text::texts(r@) == pull_line(root@),
{
    let words: [&str; 2] = ["pull", "--ff-only"];
    assert(crate::table::strs(words@) =~= seq!["pull"@, "--ff-only"@]);
    git_args(root, &strings(&words))
}

/// What a failed command said, or that it said nothing.
pub open spec fn complaint(stderr: Seq<char>) -> Seq<char> {
    if crate::text::trim(stderr).len() == 0 {
        "no output"@
    } else {
        crate::text::trim(stderr)
    }
}

/// What to report of an invocation that exited with a failure.
pub fn git_failure(args: &Vec<String>, stderr: &str) -> (r: String)
    ensures
        r@ == "git "@ + crate::text::join(crate::text::texts(args@), " "@) + " failed: "@
            + complaint(stderr@),
{
    let mut out = "git ".to_owned();
    let line = join_texts(args.as_slice(), " ");
    out.append(line.as_str());
    out.append(" failed: ");
    let v = to_chars(stderr);
    let said = trimmed(v.as_slice());
    if said.len() == 0 {
        out.append("no output");
    } else {
        let text = from_chars(said);
        out.append(text.as_str());
    }
    out
}

/// What to report of an invocation that ran out of time.
pub fn git_timeout(args: &Vec<String>) -> (r: String)
    ensures
        r@ == "git "@ + crate::text::join(crate::text::texts(args@), " "@) + " timed out"@,
{
    let mut out = "git ".to_owned();
    let line = join_texts(args.as_slice(), " ");
    out.append(line.as_str());
    out.append(" timed out");
    out
}

/// What to report of a fetch that exited with a failure: the first line of what
/// git said.
pub fn fetch_failure(stderr: &str) -> (r: String)
    ensures
        r@ == "fetch failed: "@ + (if crate::text::trim(stderr@).len() == 0 {
            "no output"@
        } else {
            crate::text::first_line(crate::text::trim(stderr@))
        }),
{
    let mut out = "fetch failed: ".to_owned();
    let v = to_chars(stderr);
    let said = trimmed(v.as_slice());
    if said.len() == 0 {
        out.append("no output");
    } else {
        let line = first_line_of(said);
        out.append(line.as_str());
    }
    out
}

/// What to report of a fetch that ran out of time.
pub fn fetch_timeout(secs: u64) -> (r: String)
    ensures
        r@ == "fetch timed out after "@ + crate::number::decimal(secs as int) + "s"@,
{
    let mut out = "fetch timed out after ".to_owned();
    let n = to_decimal(secs);
    out.append(n.as_str());
    out.append("s");
    out
}

// ---------------------------------------------------------------------------
// The git directory
// ---------------------------------------------------------------------------

/// What stands at a checkout's `.git`.
#[derive(Debug)]
pub enum DotGit {
    /// Nothing, or nothing that can be looked at.
    Missing,
    Directory,
    /// A file whose contents could not be read.
    Unreadable,
    /// A file, and what it says.
    File(String),
}

/// What follows the first `gitdir:` that starts a line, from line `i` on.
pub open spec fn pointer_from(lines: Seq<Seq<char>>, i: int) -> Option<Seq<char>>
    decreases lines.len() - i,
{
    if i < 0 || i >= lines.len() {
        None
    } else {
        match crate::text::strip_prefix(lines[i], "gitdir:"@) {
            Some(rest) => Some(crate::text::trim(rest)),
            None => pointer_from(lines, i + 1),
        }
    }
}

/// The git directory of a checkout, or why it cannot be told.
pub open spec fn git_dir(root: Seq<char>, dot_git: DotGit) -> Result<Seq<char>, Seq<char>> {
    let at = crate::pathname::joined(root, ".git"@);
    match dot_git {
        DotGit::Missing => Err("No .git at "@ + root),
        DotGit::Directory => Ok(at),
        DotGit::Unreadable => Err("Reading "@ + at),
        DotGit::File(body) => match pointer_from(crate::text::lines(body@), 0) {
            None => Err(at + " has no gitdir pointer"@),
            Some(target) => Ok(
                if crate::pathname::is_absolute(target) {
                    target
                } else {
                    crate::pathname::joined(root, target)
                },
            ),
        },
    }
}

pub open spec fn text_result(r: Result<String, String>) -> Result<Seq<char>, Seq<char>> {
    match r {
        Ok(s) => Ok(s@),
        Err(e) => Err(e@),
    }
}

fn find_pointer(body: &str) -> (r: Option<String>)
    ensures
        crate::pathname::opt_text(r) == pointer_from(crate::text::lines(body@), 0),
{
    let v = to_chars(body);
    let ls = split_lines(v.as_slice());
    let ghost all = crate::text::lines(body@);
    assert(all.len() == ls@.len());
    let mut i: usize = 0;
    while i < ls.len()
        invariant
            i <= ls@.len(),
            all == crate::text::views(ls@),
            all == crate::text::lines(body@),
            pointer_from(all, 0) == pointer_from(all, i as int),
        decreases ls@.len() - i,
    {
        assert(all[i as int] == ls@[i as int]@);
        if let Some(rest) = stripped_prefix(ls[i].as_slice(), "gitdir:") {
            return Some(from_chars(trimmed(rest)));
        }
        i = i + 1;
    }
    None
}

/// Resolve the real git directory for a checkout, following the `gitdir:`
/// pointer that worktrees and submodules leave in a `.git` file.
pub fn resolve_git_dir(root: &str, dot_git: &DotGit) -> (r: Result<String, String>)
    ensures
        text_result(r) == git_dir(root@, *dot_git),
{
    let at = join_path(root, ".git");
    match dot_git {
        DotGit::Missing => {
            let mut out = "No .git at ".to_owned();
            out.append(root);
            Err(out)
        },
        DotGit::Directory => Ok(at),
        DotGit::Unreadable => {
            let mut out = "Reading ".to_owned();
            out.append(at.as_str());
            Err(out)
        },
        DotGit::File(body) => match find_pointer(body.as_str()) {
            None => {
                let mut out = at;
                out.append(" has no gitdir pointer");
                Err(out)
            },
            Some(target) => Ok(
                if absolute(target.as_str()) {
                    target
                } else {
                    join_path(root, target.as_str())
                },
            ),
        },
    }
}

/// Where the index of a checkout is, whether or not its git directory is known.
pub fn index_path(root: &str, git_dir: Option<&str>) -> (r: String)
    ensures
        r@ == (match git_dir {
            Some(d) => crate::pathname::joined(d@, "index"@),
            None => crate::pathname::joined(root@, ".git/index"@),
        }),
{
    match git_dir {
        Some(d) => join_path(d, "index"),
        None => join_path(root, ".git/index"),
    }
}

/// The cheap fingerprint that decides whether a cached working-tree scan is
/// still valid: if HEAD hasn't moved and the index hasn't been rewritten,
/// nothing git knows about has changed. `index` holds what the index file's stat
/// said, its time and its size.
///
/// Note this deliberately doesn't try to capture unsaved working-tree edits;
/// those are caught by the filesystem watcher instead.
pub fn work_key(head_sha: Option<String>, index: (Option<i64>, Option<u64>)) -> (r: WorkKey)
    ensures
        r.head_sha == head_sha,
        r.index_mtime == index.0,
        r.index_size == index.1,
{
    WorkKey { head_sha, index_mtime: index.0, index_size: index.1 }
}

// ---------------------------------------------------------------------------
// Tier 1: refs, tags, and everything readable straight out of .git
// ---------------------------------------------------------------------------

/// The arguments that list every branch and tag.
pub fn ref_args() -> (r: Vec<String>)
    ensures
        crate::text::texts(r@) == seq![
            "for-each-ref"@,
            "--format="@ + REF_FORMAT@,
            "refs/heads"@,
            "refs/tags"@,
        ],
{
    let mut format = "--format=".to_owned();
    format.append(REF_FORMAT);
    let args: [&str; 4] = ["for-each-ref", format.as_str(), "refs/heads", "refs/tags"];
    assert(crate::table::strs(args@) =~= seq![
        "for-each-ref"@,
        "--format="@ + REF_FORMAT@,
        "refs/heads"@,
        "refs/tags"@,
    ]);
    strings(&args)
}

/// A count in a track note; nought where it is not a number.
pub open spec fn track_count(s: Seq<char>) -> int {
    crate::number::or_zero(crate::number::parse_unsigned(crate::text::trim(s), u32::MAX as int))
}

/// How far ahead and behind, after the first `n` parts of a track note.
pub open spec fn track_upto(parts: Seq<Seq<char>>, n: int) -> (int, int)
    decreases n,
{
    if n <= 0 {
        (0, 0)
    } else {
        let (ahead, behind) = track_upto(parts, n - 1);
        let part = crate::text::trim(parts[n - 1]);
        match crate::text::strip_prefix(part, "ahead "@) {
            Some(c) => (track_count(c), behind),
            None => match crate::text::strip_prefix(part, "behind "@) {
                Some(c) => (ahead, track_count(c)),
                None => (ahead, behind),
            },
        }
    }
}

/// What `%(upstream:track)` says: how far ahead, how far behind, and whether the
/// upstream is gone.
pub open spec fn track(raw: Seq<char>) -> (int, int, bool) {
    let inner = crate::text::trim_end_char(
        crate::text::trim_start_char(crate::text::trim(raw), '['),
        ']',
    );
    if inner == "gone"@ {
        (0, 0, true)
    } else {
        let parts = crate::text::split(inner, ',');
        let (ahead, behind) = track_upto(parts, parts.len() as int);
        (ahead, behind, false)
    }
}

fn read_count(v: &[char]) -> (r: u32)
    ensures
        r == track_count(v@),
{
    match read_u32(trimmed(v)) {
        Some(n) => n,
        None => 0,
    }
}

/// Parse `%(upstream:track)`, which looks like `[ahead 3, behind 1]`,
/// `[behind 2]`, `[gone]`, or is empty when in sync.
pub fn parse_track(raw: &str) -> (r: (u32, u32, bool))
    ensures
        (r.0 as int, r.1 as int, r.2) == track(raw@),
{
    let v = to_chars(raw);
    let inner = trimmed_end_char(trimmed_start_char(trimmed(v.as_slice()), '['), ']');
    if spells(inner, "gone") {
        return (0, 0, true);
    }
    let parts = split_at_char(inner, ',');
    let ghost all = crate::text::split(inner@, ',');
    assert(all.len() == parts@.len());
    let mut ahead: u32 = 0;
    let mut behind: u32 = 0;
    let mut i: usize = 0;
    while i < parts.len()
        invariant
            i <= parts@.len(),
            all == crate::text::views(parts@),
            (ahead as int, behind as int) == track_upto(all, i as int),
        decreases parts@.len() - i,
    {
        assert(all[i as int] == parts@[i as int]@);
        let part = trimmed(parts[i].as_slice());
        if let Some(n) = stripped_prefix(part, "ahead ") {
            ahead = read_count(n);
        } else if let Some(n) = stripped_prefix(part, "behind ") {
            behind = read_count(n);
        }
        i = i + 1;
    }
    (ahead, behind, false)
}

/// The fields of a line of the listing, where it has them all.
pub open spec fn ref_fields(line: Seq<char>) -> Option<Seq<Seq<char>>> {
    let f = crate::text::splitn(line, 7, '\t');
    if f.len() < 7 {
        None
    } else {
        Some(f)
    }
}

/// A time as git writes it; nought where there is none.
pub open spec fn stamp(s: Seq<char>) -> int {
    crate::number::or_zero(crate::number::parse_signed(s))
}

/// The branch a line of the listing is about, if it is about one.
pub open spec fn branch_on(line: Seq<char>) -> Option<BranchText> {
    match ref_fields(line) {
        None => None,
        Some(f) => match crate::text::strip_prefix(f[0], "refs/heads/"@) {
            None => None,
            Some(name) => Some(
                BranchText {
                    name,
                    upstream: if f[1].len() == 0 {
                        None
                    } else {
                        Some(f[1])
                    },
                    ahead: track(f[2]).0,
                    behind: track(f[2]).1,
                    gone: track(f[2]).2,
                    committed_at: stamp(f[3]),
                    sha: f[5],
                    subject: f[6],
                },
            ),
        },
    }
}

/// The tag a line of the listing is about, if it is about one.
pub open spec fn tag_on(line: Seq<char>) -> Option<TagText> {
    match ref_fields(line) {
        None => None,
        Some(f) => match crate::text::strip_prefix(f[0], "refs/heads/"@) {
            Some(_) => None,
            None => match crate::text::strip_prefix(f[0], "refs/tags/"@) {
                None => None,
                Some(name) => Some(TagText { name, at: stamp(f[4]) }),
            },
        },
    }
}

pub open spec fn branches_upto(lines: Seq<Seq<char>>, n: int) -> Seq<BranchText>
    decreases n,
{
    if n <= 0 {
        Seq::empty()
    } else {
        match branch_on(lines[n - 1]) {
            Some(b) => branches_upto(lines, n - 1).push(b),
            None => branches_upto(lines, n - 1),
        }
    }
}

pub open spec fn tags_upto(lines: Seq<Seq<char>>, n: int) -> Seq<TagText>
    decreases n,
{
    if n <= 0 {
        Seq::empty()
    } else {
        match tag_on(lines[n - 1]) {
            Some(t) => tags_upto(lines, n - 1).push(t),
            None => tags_upto(lines, n - 1),
        }
    }
}

/// The branches in the listing.
pub open spec fn listed_branches(raw: Seq<char>) -> Seq<BranchText> {
    branches_upto(crate::text::lines(raw), crate::text::lines(raw).len() as int)
}

/// The tags in the listing.
pub open spec fn listed_tags(raw: Seq<char>) -> Seq<TagText> {
    tags_upto(crate::text::lines(raw), crate::text::lines(raw).len() as int)
}

/// A branch or a tag.
enum Ref {
    Branch(BranchInfo),
    Tag(TagInfo),
}

fn read_stamp(v: &[char]) -> (r: i64)
    ensures
        r == stamp(v@),
{
    match read_i64(v) {
        Some(n) => n,
        None => 0,
    }
}

fn read_ref(line: &[char]) -> (r: Option<Ref>)
    ensures
        (match r {
            Some(Ref::Branch(b)) => branch_on(line@) == Some(b@) && tag_on(line@) is None,
            Some(Ref::Tag(t)) => tag_on(line@) == Some(t@) && branch_on(line@) is None,
            None => branch_on(line@) is None && tag_on(line@) is None,
        }),
{
    let f = splitn_at_char(line, 7, '\t');
    let ghost all = crate::text::splitn(line@, 7, '\t');
    assert(all.len() == f@.len());
    if f.len() < 7 {
        return None;
    }
    assert(forall|k: int| 0 <= k < f@.len() ==> all[k] == #[trigger] f@[k]@);
    if let Some(name) = stripped_prefix(f[0].as_slice(), "refs/heads/") {
        let note = from_chars(f[2].as_slice());
        let (ahead, behind, gone) = parse_track(note.as_str());
        let upstream = if f[1].len() == 0 {
            None
        } else {
            Some(from_chars(f[1].as_slice()))
        };
        return Some(
            Ref::Branch(
                BranchInfo {
                    name: from_chars(name),
                    upstream,
                    ahead,
                    behind,
                    gone,
                    committed_at: read_stamp(f[3].as_slice()),
                    sha: from_chars(f[5].as_slice()),
                    subject: from_chars(f[6].as_slice()),
                },
            ),
        );
    }
    match stripped_prefix(f[0].as_slice(), "refs/tags/") {
        Some(name) => Some(
            Ref::Tag(TagInfo { name: from_chars(name), at: read_stamp(f[4].as_slice()) }),
        ),
        None => None,
    }
}

/// The branches and the tags in the listing. Lines that lack a field, and refs of
/// another kind, are passed over.
pub fn parse_ref_list(raw: &str) -> (r: (Vec<BranchInfo>, Vec<TagInfo>))
    ensures
        crate::model::branch_texts(r.0@) == listed_branches(raw@),
        crate::model::tag_texts(r.1@) == listed_tags(raw@),
{
    let v = to_chars(raw);
    let ls = split_lines(v.as_slice());
    let ghost all = crate::text::lines(raw@);
    assert(all.len() == ls@.len());
    let mut branches: Vec<BranchInfo> = Vec::new();
    let mut tags: Vec<TagInfo> = Vec::new();
    let mut i: usize = 0;
    assert(crate::model::branch_texts(branches@) =~= branches_upto(all, 0));
    assert(crate::model::tag_texts(tags@) =~= tags_upto(all, 0));
    while i < ls.len()
        invariant
            i <= ls@.len(),
            all == crate::text::views(ls@),
            crate::model::branch_texts(branches@) == branches_upto(all, i as int),
            crate::model::tag_texts(tags@) == tags_upto(all, i as int),
        decreases ls@.len() - i,
    {
        assert(all[i as int] == ls@[i as int]@);
        match read_ref(ls[i].as_slice()) {
            Some(Ref::Branch(b)) => {
                let ghost before = branches@;
                let ghost text = b@;
                branches.push(b);
                assert(crate::model::branch_texts(branches@) =~= crate::model::branch_texts(
                    before,
                ).push(text));
            },
            Some(Ref::Tag(t)) => {
                let ghost before = tags@;
                let ghost text = t@;
                tags.push(t);
                assert(crate::model::tag_texts(tags@) =~= crate::model::tag_texts(before).push(
                    text,
                ));
            },
            None => {},
        }
        i = i + 1;
    }
    (branches, tags)
}

// ---------------------------------------------------------------------------
// HEAD
// ---------------------------------------------------------------------------

/// Where HEAD points, by its contents.
pub enum HeadText {
    Branch(Seq<char>),
    Detached(Seq<char>),
    Unborn,
}

impl View for Head {
    type V = HeadText;

    open spec fn view(&self) -> HeadText {
        match self {
            Head::Branch(name) => HeadText::Branch(name@),
            Head::Detached { sha } => HeadText::Detached(sha@),
            Head::Unborn => HeadText::Unborn,
        }
    }
}

/// The first branch of that name, from the `i`th on.
pub open spec fn listed_from(bs: Seq<BranchText>, name: Seq<char>, i: int) -> Option<BranchText>
    decreases bs.len() - i,
{
    if i < 0 || i >= bs.len() {
        None
    } else if bs[i].name == name {
        Some(bs[i])
    } else {
        listed_from(bs, name, i + 1)
    }
}

/// The branch of that name in the listing.
pub open spec fn listed(bs: Seq<BranchText>, name: Seq<char>) -> Option<BranchText> {
    listed_from(bs, name, 0)
}

/// The name HEAD is a symbolic ref to, if it is one.
pub open spec fn symref(raw: Seq<char>) -> Option<Seq<char>> {
    match crate::text::strip_prefix(crate::text::trim(raw), "ref:"@) {
        None => None,
        Some(rest) => {
            let refname = crate::text::trim(rest);
            match crate::text::strip_prefix(refname, "refs/heads/"@) {
                Some(name) => Some(name),
                None => Some(refname),
            }
        },
    }
}

/// Where the contents of `HEAD` point. A symbolic ref to a branch that is not
/// there is a repo with no commits.
pub open spec fn head_of(raw: Seq<char>, branches: Seq<BranchText>) -> HeadText {
    match symref(raw) {
        Some(name) => if listed(branches, name) is Some {
            HeadText::Branch(name)
        } else {
            HeadText::Unborn
        },
        None => if crate::text::byte_len(crate::text::trim(raw)) >= 7 {
            HeadText::Detached(crate::text::byte_prefix(crate::text::trim(raw), 7)->0)
        } else {
            HeadText::Unborn
        },
    }
}

/// Whether `HEAD` can be read: seven bytes of a commit's name must be whole
/// characters.
pub open spec fn head_reads(raw: Seq<char>) -> bool {
    symref(raw) is Some || crate::text::byte_len(crate::text::trim(raw)) < 7
        || crate::text::byte_prefix(crate::text::trim(raw), 7) is Some
}

fn find_listed<'a>(branches: &'a Vec<BranchInfo>, name: &str) -> (r: Option<&'a BranchInfo>)
    ensures
        (match r {
            Some(b) => listed(crate::model::branch_texts(branches@), name@) == Some(b@),
            None => listed(crate::model::branch_texts(branches@), name@) is None,
        }),
{
    let ghost bs = crate::model::branch_texts(branches@);
    let mut i: usize = 0;
    while i < branches.len()
        invariant
            i <= branches@.len(),
            bs == crate::model::branch_texts(branches@),
            listed_from(bs, name@, 0) == listed_from(bs, name@, i as int),
        decreases branches@.len() - i,
    {
        if same(branches[i].name.as_str(), name) {
            return Some(&branches[i]);
        }
        i = i + 1;
    }
    None
}

fn read_symref(raw: &str) -> (r: Option<String>)
    ensures
        crate::pathname::opt_text(r) == symref(raw@),
{
    let v = to_chars(raw);
    match stripped_prefix(trimmed(v.as_slice()), "ref:") {
        None => None,
        Some(rest) => {
            let refname = trimmed(rest);
            match stripped_prefix(refname, "refs/heads/") {
                Some(name) => Some(from_chars(name)),
                None => Some(from_chars(refname)),
            }
        },
    }
}

/// Whether the contents of `HEAD` can be read.
pub fn head_readable(raw: &str) -> (r: bool)
    ensures
        r == head_reads(raw@),
{
    if read_symref(raw).is_some() {
        return true;
    }
    let v = to_chars(raw);
    let t = trimmed(v.as_slice());
    !takes_bytes(t, 7) || first_bytes(t, 7).is_some()
}

/// Read HEAD out of the git directory rather than asking git, which also gets
/// the unborn case right: a symref pointing at a branch that has no commits
/// yet.
pub fn read_head(raw: &str, branches: &Vec<BranchInfo>) -> (r: Head)
    requires
        head_reads(raw@),
    ensures
        r@ == head_of(raw@, crate::model::branch_texts(branches@)),
{
    if let Some(name) = read_symref(raw) {
        return if find_listed(branches, name.as_str()).is_some() {
            Head::Branch(name)
        } else {
            // Symref to a branch that doesn't exist: a repo with no commits.
            Head::Unborn
        };
    }
    let v = to_chars(raw);
    let t = trimmed(v.as_slice());
    if takes_bytes(t, 7) {
        if let Some(sha) = first_bytes(t, 7) {
            return Head::Detached { sha: from_chars(sha) };
        }
    }
    Head::Unborn
}

// ---------------------------------------------------------------------------
// The commit at HEAD
// ---------------------------------------------------------------------------

/// The arguments that describe the commit at HEAD.
pub fn head_commit_args() -> (r: Vec<String>)
    ensures
        crate::text::texts(r@) == seq![
            "log"@,
            "-1"@,
            "--format=%h%x09%ct%x09%an%x09%s"@,
            "HEAD"@,
        ],
{
    let args: [&str; 4] = ["log", "-1", "--format=%h%x09%ct%x09%an%x09%s", "HEAD"];
    assert(crate::table::strs(args@) =~= seq![
        "log"@,
        "-1"@,
        "--format=%h%x09%ct%x09%an%x09%s"@,
        "HEAD"@,
    ]);
    strings(&args)
}

/// The commit on the first line of the log.
pub open spec fn logged_commit(raw: Seq<char>) -> Option<CommitNote> {
    let ls = crate::text::lines(raw);
    let f = crate::text::splitn(ls[0], 4, '\t');
    if ls.len() == 0 || f.len() < 4 {
        None
    } else {
        Some(CommitNote { sha: f[0], at: stamp(f[1]), author: f[2], subject: f[3] })
    }
}

/// The commit at HEAD, from what the log says of it.
pub fn head_commit(raw: &str) -> (r: Option<CommitInfo>)
    ensures
        crate::model::opt_commit(r) == logged_commit(raw@),
{
    let v = to_chars(raw);
    let ls = split_lines(v.as_slice());
    let ghost all = crate::text::lines(raw@);
    assert(all.len() == ls@.len());
    if ls.len() == 0 {
        return None;
    }
    assert(all[0] == ls@[0]@);
    let f = splitn_at_char(ls[0].as_slice(), 4, '\t');
    let ghost fields = crate::text::splitn(all[0], 4, '\t');
    assert(fields.len() == f@.len());
    if f.len() < 4 {
        return None;
    }
    assert(forall|k: int| 0 <= k < f@.len() ==> fields[k] == #[trigger] f@[k]@);
    Some(
        CommitInfo {
            sha: from_chars(f[0].as_slice()),
            at: read_stamp(f[1].as_slice()),
            author: from_chars(f[2].as_slice()),
            subject: from_chars(f[3].as_slice()),
        },
    )
}

/// The last commit: of the branch HEAD is on, out of the listing, which names no
/// author; of a detached HEAD, out of the log.
pub open spec fn last_commit_of(
    head: HeadText,
    branches: Seq<BranchText>,
    log: Option<Seq<char>>,
) -> Option<CommitNote> {
    let from_log = match log {
        Some(raw) => logged_commit(raw),
        None => None,
    };
    match head {
        HeadText::Unborn => None,
        HeadText::Detached(_) => from_log,
        HeadText::Branch(name) => match listed(branches, name) {
            Some(b) => Some(
                CommitNote {
                    sha: b.sha,
                    at: b.committed_at,
                    subject: b.subject,
                    author: Seq::empty(),
                },
            ),
            None => from_log,
        },
    }
}

/// Whether the log must be asked for the commit at HEAD. A detached HEAD isn't in
/// refs/heads, so it needs its own lookup. Same for a branch whose ref somehow
/// didn't come back in the listing.
pub fn wants_head_commit(head: &Head, branches: &Vec<BranchInfo>) -> (r: bool)
    ensures
        r == (match head@ {
            HeadText::Unborn => false,
            HeadText::Detached(_) => true,
            HeadText::Branch(name) => listed(crate::model::branch_texts(branches@), name) is None,
        }),
{
    match head {
        Head::Unborn => false,
        Head::Detached { .. } => true,
        Head::Branch(name) => find_listed(branches, name.as_str()).is_none(),
    }
}

/// The last commit, given what the log says of HEAD where it was asked.
pub fn last_commit(head: &Head, branches: &Vec<BranchInfo>, log: Option<&str>) -> (r: Option<
    CommitInfo,
>)
    ensures
        crate::model::opt_commit(r) == last_commit_of(
            head@,
            crate::model::branch_texts(branches@),
            crate::hold::opt_str(log),
        ),
{
    if let Head::Unborn = head {
        return None;
    }
    if let Head::Branch(name) = head {
        if let Some(b) = find_listed(branches, name.as_str()) {
            let author = String::new();
            assert(author@ =~= Seq::empty());
            return Some(
                CommitInfo {
                    sha: b.sha.clone(),
                    at: b.committed_at,
                    subject: b.subject.clone(),
                    author,
                },
            );
        }
    }
    match log {
        Some(raw) => head_commit(raw),
        None => None,
    }
}

// ---------------------------------------------------------------------------
// The nearest release
// ---------------------------------------------------------------------------

/// The arguments that name the nearest tag reachable from HEAD.
///
/// `describe` is used rather than "newest tag by date" on purpose. With
/// git-flow, tags land on `master` while work carries on on `develop`, so the
/// newest tag by date is often not an ancestor of HEAD at all. Both values get
/// stored so the difference can be shown rather than silently papered over.
pub fn describe_args(pattern: &str) -> (r: Vec<String>)
    ensures
        crate::text::texts(r@) == seq!["describe"@, "--tags"@, "--abbrev=0"@] + (if pattern@
            != "*"@ && pattern@.len() > 0 {
            seq!["--match="@ + pattern@]
        } else {
            Seq::empty()
        }) + seq!["HEAD"@],
{
    let start: [&str; 3] = ["describe", "--tags", "--abbrev=0"];
    let mut out = strings(&start);
    assert(crate::table::strs(start@) =~= seq!["describe"@, "--tags"@, "--abbrev=0"@]);
    if !same(pattern, "*") && to_chars(pattern).len() > 0 {
        let mut only = "--match=".to_owned();
        only.append(pattern);
        push_text(&mut out, only.as_str());
    }
    push_text(&mut out, "HEAD");
    assert(crate::text::texts(out@) =~= seq!["describe"@, "--tags"@, "--abbrev=0"@] + (if pattern@
        != "*"@ && pattern@.len() > 0 {
        seq!["--match="@ + pattern@]
    } else {
        Seq::empty()
    }) + seq!["HEAD"@]);
    out
}

/// The arguments that count the commits since a tag.
///
/// Merge commits are excluded from the count. Immediately after a git-flow
/// release, `develop` carries a "Merge tag 'x.y.z' into develop" commit that is
/// not reachable from the tag, so a raw count reports one commit to release
/// when there is nothing to release at all. A merge commit contributes no work of
/// its own; whatever it brought along is counted through its own commits.
pub fn count_args(tag: &str) -> (r: Vec<String>)
    ensures
        crate::text::texts(r@) == seq![
            "rev-list"@,
            "--count"@,
            "--no-merges"@,
            tag@ + "..HEAD"@,
        ],
{
    let mut range = tag.to_owned();
    range.append("..HEAD");
    let args: [&str; 4] = ["rev-list", "--count", "--no-merges", range.as_str()];
    assert(crate::table::strs(args@) =~= seq![
        "rev-list"@,
        "--count"@,
        "--no-merges"@,
        tag@ + "..HEAD"@,
    ]);
    strings(&args)
}

/// The arguments that list the subjects of the commits since a tag.
pub fn subjects_args(tag: &str, max_subjects: usize) -> (r: Vec<String>)
    ensures
        crate::text::texts(r@) == seq![
            "log"@,
            "--max-count="@ + crate::number::decimal(max_subjects as int),
            "--no-merges"@,
            "--format=%s"@,
            tag@ + "..HEAD"@,
        ],
{
    let mut range = tag.to_owned();
    range.append("..HEAD");
    let mut limit = "--max-count=".to_owned();
    let n = to_decimal(max_subjects as u64);
    limit.append(n.as_str());
    let args: [&str; 5] = ["log", limit.as_str(), "--no-merges", "--format=%s", range.as_str()];
    assert(crate::table::strs(args@) =~= seq![
        "log"@,
        "--max-count="@ + crate::number::decimal(max_subjects as int),
        "--no-merges"@,
        "--format=%s"@,
        tag@ + "..HEAD"@,
    ]);
    strings(&args)
}

/// The arguments that find a branch, local or remote, with a tag in its history.
pub fn holder_args(tag: &str) -> (r: Vec<String>)
    ensures
        crate::text::texts(r@) == seq![
            "for-each-ref"@,
            "--count=1"@,
            "--contains="@ + tag@,
            "refs/heads"@,
            "refs/remotes"@,
        ],
{
    let mut contains = "--contains=".to_owned();
    contains.append(tag);
    let args: [&str; 5] = [
        "for-each-ref",
        "--count=1",
        contains.as_str(),
        "refs/heads",
        "refs/remotes",
    ];
    assert(crate::table::strs(args@) =~= seq![
        "for-each-ref"@,
        "--count=1"@,
        "--contains="@ + tag@,
        "refs/heads"@,
        "refs/remotes"@,
    ]);
    strings(&args)
}

/// The tag `describe` named, if it named one.
pub open spec fn described_name(raw: Option<Seq<char>>) -> Option<Seq<char>> {
    match raw {
        None => None,
        Some(out) => if crate::text::trim(out).len() == 0 {
            None
        } else {
            Some(crate::text::trim(out))
        },
    }
}

pub fn parse_described(raw: Option<&str>) -> (r: Option<String>)
    ensures
        crate::pathname::opt_text(r) == described_name(crate::hold::opt_str(raw)),
{
    match raw {
        None => None,
        Some(out) => {
            let v = to_chars(out);
            let name = trimmed(v.as_slice());
            if name.len() == 0 {
                None
            } else {
                Some(from_chars(name))
            }
        },
    }
}

/// When the first tag of that name, from the `i`th on, was made; nought where there
/// is none.
pub open spec fn date_from(tags: Seq<TagText>, name: Seq<char>, i: int) -> int
    decreases tags.len() - i,
{
    if i < 0 || i >= tags.len() {
        0
    } else if tags[i].name == name {
        tags[i].at
    } else {
        date_from(tags, name, i + 1)
    }
}

/// The commits since the nearest release, as git counted them.
pub open spec fn since_count(raw: Option<Seq<char>>) -> Option<int> {
    match raw {
        None => None,
        Some(s) => crate::number::parse_unsigned(crate::text::trim(s), u32::MAX as int),
    }
}

/// Whether the subjects of the commits since the nearest release are wanted.
pub open spec fn subjects_wanted(count: Option<int>, max_subjects: int) -> bool {
    count is Some && count->0 > 0 && max_subjects > 0
}

/// What is known of the nearest release: the tag, how many commits came since, and
/// their subjects.
pub struct Since {
    pub tag: Option<TagText>,
    pub count: Option<int>,
    pub subjects: Seq<Seq<char>>,
}

pub open spec fn since_of(
    tags: Seq<TagText>,
    described: Option<Seq<char>>,
    count: Option<Seq<char>>,
    subjects: Option<Seq<char>>,
    max_subjects: int,
) -> Since {
    match described_name(described) {
        None => Since { tag: None, count: None, subjects: Seq::empty() },
        Some(name) => Since {
            tag: Some(TagText { name, at: date_from(tags, name, 0) }),
            count: since_count(count),
            subjects: if subjects_wanted(since_count(count), max_subjects) && subjects is Some {
                crate::text::lines(subjects->0)
            } else {
                Seq::empty()
            },
        },
    }
}

fn tag_date(tags: &Vec<TagInfo>, name: &str) -> (r: i64)
    ensures
        r == date_from(crate::model::tag_texts(tags@), name@, 0),
{
    let ghost ts = crate::model::tag_texts(tags@);
    let mut i: usize = 0;
    while i < tags.len()
        invariant
            i <= tags@.len(),
            ts == crate::model::tag_texts(tags@),
            date_from(ts, name@, 0) == date_from(ts, name@, i as int),
        decreases tags@.len() - i,
    {
        if same(tags[i].name.as_str(), name) {
            return tags[i].at;
        }
        i = i + 1;
    }
    0
}

pub open spec fn opt_count(n: Option<u32>) -> Option<int> {
    match n {
        Some(v) => Some(v as int),
        None => None,
    }
}

/// The count `rev-list` gave.
pub fn parse_since_count(raw: Option<&str>) -> (r: Option<u32>)
    ensures
        opt_count(r) == since_count(crate::hold::opt_str(raw)),
{
    match raw {
        None => None,
        Some(s) => {
            let v = to_chars(s);
            read_u32(trimmed(v.as_slice()))
        },
    }
}

fn text_lines(raw: &str) -> (r: Vec<String>)
    ensures
        crate::text::texts(r@) == crate::text::lines(raw@),
{
    let v = to_chars(raw);
    let ls = split_lines(v.as_slice());
    let ghost all = crate::text::lines(raw@);
    assert(all.len() == ls@.len());
    let mut out: Vec<String> = Vec::new();
    let mut i: usize = 0;
    assert(crate::text::texts(out@) =~= all.take(0));
    while i < ls.len()
        invariant
            i <= ls@.len(),
            all == crate::text::views(ls@),
            crate::text::texts(out@) == all.take(i as int),
        decreases ls@.len() - i,
    {
        let line = from_chars(ls[i].as_slice());
        push_text(&mut out, line.as_str());
        assert(all[i as int] == ls@[i as int]@);
        i = i + 1;
        assert(crate::text::texts(out@) =~= all.take(i as int));
    }
    assert(all.take(i as int) =~= all);
    out
}

/// Whether to ask for the subjects of the commits since the nearest release.
pub fn wants_subjects(count: Option<u32>, max_subjects: usize) -> (r: bool)
    ensures
        r == subjects_wanted(opt_count(count), max_subjects as int),
{
    match count {
        Some(n) => n > 0 && max_subjects > 0,
        None => false,
    }
}

/// Work out the nearest tag reachable from HEAD and how far ahead of it we are,
/// from what git said. A question that was not asked, or that failed, has no
/// answer.
pub fn describe_since_tag(
    tags: &Vec<TagInfo>,
    described: Option<&str>,
    count: Option<&str>,
    subjects: Option<&str>,
    max_subjects: usize,
) -> (r: (Option<TagInfo>, Option<u32>, Vec<String>))
    ensures
        ({
            let s = since_of(
                crate::model::tag_texts(tags@),
                crate::hold::opt_str(described),
                crate::hold::opt_str(count),
                crate::hold::opt_str(subjects),
                max_subjects as int,
            );
            &&& crate::model::opt_tag(r.0) == s.tag
            &&& opt_count(r.1) == s.count
            &&& crate::text::texts(r.2@) == s.subjects
        }),
{
    let name = match parse_described(described) {
        Some(name) => name,
        None => {
            let none: Vec<String> = Vec::new();
            assert(crate::text::texts(none@) =~= Seq::empty());
            return (None, None, none);
        },
    };
    let at: i64 = tag_date(tags, name.as_str());
    let n = parse_since_count(count);
    let list: Vec<String> = if wants_subjects(n, max_subjects) {
        match subjects {
            Some(raw) => text_lines(raw),
            None => Vec::new(),
        }
    } else {
        Vec::new()
    };
    assert(list@.len() == 0 ==> crate::text::texts(list@) =~= Seq::empty());
    (Some(TagInfo { name, at }), n, list)
}

/// Whether the newest release sits on history no branch can reach: git looked for a
/// branch that holds it and found none.
pub open spec fn is_orphaned(newest: Option<TagText>, holders: Option<Seq<char>>) -> bool {
    newest is Some && holders is Some && crate::text::trim(holders->0).len() == 0
}

// ---------------------------------------------------------------------------
// Files under .git
// ---------------------------------------------------------------------------

/// How many of the first `n` lines say something.
pub open spec fn filled_lines(lines: Seq<Seq<char>>, n: int) -> int
    decreases n,
{
    if n <= 0 {
        0
    } else if crate::text::trim(lines[n - 1]).len() == 0 {
        filled_lines(lines, n - 1)
    } else {
        filled_lines(lines, n - 1) + 1
    }
}

/// How many stashes a stash reflog holds.
pub open spec fn stashes_in(body: Option<Seq<char>>) -> int {
    match body {
        None => 0,
        Some(b) => crate::number::wrap32(
            filled_lines(crate::text::lines(b), crate::text::lines(b).len() as int),
        ),
    }
}

/// Stash entries are reflog lines, so the count is just the line count of the
/// stash reflog. No process needed.
pub fn count_stashes(body: Option<&str>) -> (r: u32)
    ensures
        r == stashes_in(crate::hold::opt_str(body)),
{
    let body = match body {
        Some(b) => b,
        None => {
            return 0;
        },
    };
    let v = to_chars(body);
    let ls = split_lines(v.as_slice());
    let ghost all = crate::text::lines(body@);
    assert(all.len() == ls@.len());
    let mut total: u32 = 0;
    let mut i: usize = 0;
    while i < ls.len()
        invariant
            i <= ls@.len(),
            all == crate::text::views(ls@),
            total == crate::number::wrap32(filled_lines(all, i as int)),
        decreases ls@.len() - i,
    {
        assert(all[i as int] == ls@[i as int]@);
        if trimmed(ls[i].as_slice()).len() > 0 {
            proof {
                crate::number::lemma_wrap32_add(filled_lines(all, i as int), 1);
            }
            total = add32(total, 1);
        }
        i = i + 1;
    }
    total
}

/// The marker a half-finished operation leaves in the git dir, and which operation
/// leaves it.
pub const OPERATION_MARKERS: [&'static str; 7] = [
    "rebase-merge",
    "rebase-apply",
    "MERGE_HEAD",
    "CHERRY_PICK_HEAD",
    "REVERT_HEAD",
    "BISECT_LOG",
    "BISECT_START",
];

pub open spec fn marked_operation(i: int) -> Operation {
    if i < 2 {
        Operation::Rebase
    } else if i == 2 {
        Operation::Merge
    } else if i == 3 {
        Operation::CherryPick
    } else if i == 4 {
        Operation::Revert
    } else {
        Operation::Bisect
    }
}

/// The operation that the first marker there, from the `i`th on, belongs to.
pub open spec fn operation_from(present: Seq<bool>, i: int) -> Option<Operation>
    decreases present.len() - i,
{
    if i < 0 || i >= present.len() {
        None
    } else if present[i] {
        Some(marked_operation(i))
    } else {
        operation_from(present, i + 1)
    }
}

/// A half-finished operation shows up as a marker file or directory in the git
/// dir. `present` says of each marker whether it is there.
pub fn detect_operation(present: &[bool; 7]) -> (r: Option<Operation>)
    ensures
        r == operation_from(present@, 0),
{
    let mut i: usize = 0;
    while i < 7
        invariant
            i <= 7,
            present@.len() == 7,
            operation_from(present@, 0) == operation_from(present@, i as int),
        decreases 7 - i,
    {
        if present[i] {
            return Some(
                if i < 2 {
                    Operation::Rebase
                } else if i == 2 {
                    Operation::Merge
                } else if i == 3 {
                    Operation::CherryPick
                } else if i == 4 {
                    Operation::Revert
                } else {
                    Operation::Bisect
                },
            );
        }
        i = i + 1;
    }
    None
}

/// Where a repo's changelog may be, in the order to look.
pub fn changelog_paths(root: &str, cfg: &ReleaseConfig) -> (r: Vec<String>)
    ensures
        crate::text::texts(r@) == crate::text::texts(cfg.changelog_files@).map_values(
            |f: Seq<char>| crate::pathname::joined(root@, f),
        ),
{
    let ghost names = crate::text::texts(cfg.changelog_files@);
    let ghost want = names.map_values(|f: Seq<char>| crate::pathname::joined(root@, f));
    let mut out: Vec<String> = Vec::new();
    let mut i: usize = 0;
    assert(crate::text::texts(out@) =~= want.take(0));
    while i < cfg.changelog_files.len()
        invariant
            i <= cfg.changelog_files@.len(),
            names == crate::text::texts(cfg.changelog_files@),
            want == names.map_values(|f: Seq<char>| crate::pathname::joined(root@, f)),
            crate::text::texts(out@) == want.take(i as int),
        decreases cfg.changelog_files@.len() - i,
    {
        let path = join_path(root, cfg.changelog_files[i].as_str());
        push_text(&mut out, path.as_str());
        i = i + 1;
        assert(crate::text::texts(out@) =~= want.take(i as int));
    }
    assert(want.take(i as int) =~= want);
    out
}

// ---------------------------------------------------------------------------
// The whole of tier 1
// ---------------------------------------------------------------------------

/// What git and the files under `.git` said. A question that was not asked, a
/// command that failed and a file that could not be read have no answer.
#[derive(Debug)]
pub struct RefsAnswers {
    /// Every branch and tag: see [`ref_args`].
    pub refs: String,
    /// The contents of `HEAD`.
    pub head: String,
    /// The commit at HEAD: see [`head_commit_args`].
    pub head_log: Option<String>,
    /// See [`describe_args`].
    pub described: Option<String>,
    /// See [`count_args`].
    pub since_count: Option<String>,
    /// See [`subjects_args`].
    pub since_subjects: Option<String>,
    /// See [`holder_args`].
    pub tag_holders: Option<String>,
    /// The stash reflog.
    pub stash_log: Option<String>,
    /// Which of the [`OPERATION_MARKERS`] are there.
    pub markers: [bool; 7],
    pub index_mtime: Option<i64>,
    pub fetched_at: Option<i64>,
    /// The contents of `config`.
    pub config: Option<String>,
    /// The contents of the first changelog there.
    pub changelog: Option<String>,
    pub is_shallow: bool,
}

impl RefsAnswers {
    pub open spec fn the_branches(&self) -> Seq<BranchText> {
        listed_branches(self.refs@)
    }

    pub open spec fn the_head(&self) -> HeadText {
        head_of(self.head@, self.the_branches())
    }

    /// The releases among the tags.
    pub open spec fn the_releases(&self, pattern: Seq<char>) -> Seq<TagText> {
        let tags = listed_tags(self.refs@);
        crate::release::releases(tags, crate::release::tag_verdicts(tags, pattern))
    }

    pub open spec fn the_newest(&self, pattern: Seq<char>) -> Option<TagText> {
        let tags = self.the_releases(pattern);
        if tags.len() == 0 {
            None
        } else {
            Some(tags[0])
        }
    }

    /// What is known of the nearest release. A repo without commits has none.
    pub open spec fn the_since(&self, cfg: &ReleaseConfig) -> Since {
        if self.the_head() is Unborn {
            Since { tag: None, count: None, subjects: Seq::empty() }
        } else {
            since_of(
                self.the_releases(cfg.tag_pattern@),
                crate::pathname::opt_text(self.described),
                crate::pathname::opt_text(self.since_count),
                crate::pathname::opt_text(self.since_subjects),
                cfg.max_subjects as int,
            )
        }
    }

    pub open spec fn the_remote(&self) -> Option<Seq<char>> {
        match self.config {
            Some(body) => crate::gitconfig::remote_of(crate::gitconfig::read_config(body@)),
            None => None,
        }
    }

    pub open spec fn the_bareness(&self) -> bool {
        match self.config {
            Some(body) => crate::gitconfig::read_config(body@).bare,
            None => false,
        }
    }
}

pub open spec fn tag_name(t: Option<TagText>) -> Option<Seq<char>> {
    match t {
        Some(tag) => Some(tag.name),
        None => None,
    }
}

/// What a changelog says, by its contents.
pub open spec fn changelog_is(
    r: Option<ChangelogInfo>,
    body: Option<Seq<char>>,
    newest: Option<Seq<char>>,
    described: Option<Seq<char>>,
) -> bool {
    match body {
        None => r is None,
        Some(b) => {
            let versions = crate::release::changelog_versions(b);
            if versions.len() == 0 {
                r is None
            } else {
                &&& r is Some
                &&& r->0.version@ == versions[0]
                &&& r->0.tagged == crate::release::is_tagged(newest, described, versions[0])
                &&& r->0.unreleased_blocks == crate::release::untagged_run(
                    versions,
                    newest,
                    described,
                )
            }
        },
    }
}

fn name_of(t: &Option<TagInfo>) -> (r: Option<&str>)
    ensures
        crate::hold::opt_str(r) == tag_name(crate::model::opt_tag(*t)),
{
    match t {
        Some(tag) => Some(tag.name.as_str()),
        None => None,
    }
}

fn orphaned(newest: &Option<TagInfo>, holders: Option<&str>) -> (r: bool)
    ensures
        r == is_orphaned(crate::model::opt_tag(*newest), crate::hold::opt_str(holders)),
{
    match (newest, holders) {
        (Some(_), Some(raw)) => {
            let v = to_chars(raw);
            trimmed(v.as_slice()).len() == 0
        },
        _ => false,
    }
}

/// Everything tier 1 says of a repo, from what git and the files under `.git` said.
pub fn probe_refs(said: &RefsAnswers, cfg: &ReleaseConfig) -> (r: RefsInfo)
    requires
        head_reads(said.head@),
    ensures
        r.head@ == said.the_head(),
        crate::model::branch_texts(r.branches@) == said.the_branches(),
        crate::model::opt_commit(r.last_commit) == last_commit_of(
            said.the_head(),
            said.the_branches(),
            crate::pathname::opt_text(said.head_log),
        ),
        r.stashes == stashes_in(crate::pathname::opt_text(said.stash_log)),
        r.operation == operation_from(said.markers@, 0),
        crate::model::opt_tag(r.newest_tag) == said.the_newest(cfg.tag_pattern@),
        crate::model::opt_tag(r.described_tag) == said.the_since(cfg).tag,
        opt_count(r.commits_since_tag) == said.the_since(cfg).count,
        crate::text::texts(r.since_tag_subjects@) == said.the_since(cfg).subjects,
        r.tags_orphaned == is_orphaned(
            said.the_newest(cfg.tag_pattern@),
            crate::pathname::opt_text(said.tag_holders),
        ),
        r.index_mtime == said.index_mtime,
        r.fetched_at == said.fetched_at,
        crate::pathname::opt_text(r.remote_url) == said.the_remote(),
        r.is_bare == said.the_bareness(),
        r.is_shallow == said.is_shallow,
        changelog_is(
            r.changelog,
            if cfg.read_changelog {
                crate::pathname::opt_text(said.changelog)
            } else {
                None
            },
            tag_name(said.the_newest(cfg.tag_pattern@)),
            tag_name(said.the_since(cfg).tag),
        ),
{
    let (branches, all_tags) = parse_ref_list(said.refs.as_str());
    let tags = release_tags(&all_tags, cfg.tag_pattern.as_str());
    let ghost texts = crate::model::tag_texts(tags@);
    assert(texts == said.the_releases(cfg.tag_pattern@));
    let newest_tag = if tags.len() == 0 {
        None
    } else {
        assert(texts[0] == tags@[0]@);
        Some(tags[0].clone())
    };
    let head = read_head(said.head.as_str(), &branches);
    let commit = last_commit(&head, &branches, as_opt_str(&said.head_log));
    let unborn = match head {
        Head::Unborn => true,
        _ => false,
    };
    let (described_tag, commits_since_tag, since_tag_subjects) = if unborn {
        let none: Vec<String> = Vec::new();
        assert(crate::text::texts(none@) =~= Seq::empty());
        (None, None, none)
    } else {
        describe_since_tag(
            &tags,
            as_opt_str(&said.described),
            as_opt_str(&said.since_count),
            as_opt_str(&said.since_subjects),
            cfg.max_subjects,
        )
    };
    let scan = scan_git_config(as_opt_str(&said.config));
    let changelog = if cfg.read_changelog {
        match &said.changelog {
            Some(body) => read_changelog(
                body.as_str(),
                name_of(&newest_tag),
                name_of(&described_tag),
            ),
            None => None,
        }
    } else {
        None
    };
    let tags_orphaned = orphaned(&newest_tag, as_opt_str(&said.tag_holders));
    RefsInfo {
        head,
        branches,
        last_commit: commit,
        stashes: count_stashes(as_opt_str(&said.stash_log)),
        operation: detect_operation(&said.markers),
        newest_tag,
        described_tag,
        commits_since_tag,
        since_tag_subjects,
        tags_orphaned,
        index_mtime: said.index_mtime,
        fetched_at: said.fetched_at,
        remote_url: scan.remote_url,
        changelog,
        is_bare: scan.bare,
        is_shallow: said.is_shallow,
    }
}

/// No invocation takes an optional lock, whatever it is asked to do: polling
/// hundreds of repos must not rewrite their indexes.
pub proof fn law_no_invocation_takes_optional_locks(
    root: Seq<char>,
    args: Seq<Seq<char>>,
    url: Seq<char>,
)
    ensures
        (rails(root) + args).len() > 0,
        (rails(root) + args)[0] == "--no-optional-locks"@,
        fetch_line(root).len() > 0,
        fetch_line(root)[0] == "--no-optional-locks"@,
        clone_line(url, root).len() > 0,
        clone_line(url, root)[0] == "--no-optional-locks"@,
        pull_line(root).len() > 0,
        pull_line(root)[0] == "--no-optional-locks"@,
{
}

/// A repo without commits has no last commit and no release it could be ahead of.
pub proof fn law_unborn_has_no_history(said: &RefsAnswers, cfg: &ReleaseConfig)
    requires
        said.the_head() is Unborn,
    ensures
        last_commit_of(
            said.the_head(),
            said.the_branches(),
            crate::pathname::opt_text(said.head_log),
        ) is None,
        said.the_since(cfg).tag is None,
        said.the_since(cfg).count is None,
        said.the_since(cfg).subjects.len() == 0,
{
}

proof fn lemma_count_text(n: int)
    requires
        0 <= n <= u32::MAX,
    ensures
        crate::text::trim(crate::number::decimal(n)) == crate::number::decimal(n),
        track_count(crate::number::decimal(n)) == n,
        !crate::number::decimal(n).contains(','),
        crate::number::decimal(n).len() > 0,
        crate::text::is_digit(crate::number::decimal(n)[0]),
        crate::text::is_digit(crate::number::decimal(n)[crate::number::decimal(n).len() - 1]),
{
    let d = crate::number::decimal(n);
    crate::number::law_a_number_reads_back(n, u32::MAX as int);
    crate::number::law_a_number_is_written_in_tens(n);
    assert(crate::text::is_digit(d[0]));
    assert(crate::text::is_digit(d[d.len() - 1]));
    crate::text::lemma_trim_is(d);
    if d.contains(',') {
        let i = choose|i: int| 0 <= i < d.len() && d[i] == ',';
        assert(crate::text::is_digit(d[i]));
    }
}

proof fn lemma_inner(inner: Seq<char>)
    requires
        inner.len() > 0,
        inner[0] != '[',
        inner[0] != ']',
        inner[inner.len() - 1] != ']',
    ensures
        crate::text::trim_end_char(
            crate::text::trim_start_char(crate::text::trim(seq!['['] + inner + seq![']']), '['),
            ']',
        ) == inner,
{
    let raw = seq!['['] + inner + seq![']'];
    assert(raw[0] == '[' && raw[raw.len() - 1] == ']');
    crate::text::lemma_trim_is(raw);
    let open = inner + seq![']'];
    assert(raw =~= seq!['['] + open);
    assert(open =~= inner.push(']'));
    assert(open[0] == inner[0]);
    crate::text::law_a_character_is_trimmed(open, '[');
    crate::text::law_a_character_is_trimmed(inner, ']');
}

/// How far a branch is from what it follows is read as it is written: ahead, behind, both,
/// neither, or gone.
pub proof fn law_a_distance_reads_back(n: int, m: int)
    requires
        0 <= n <= u32::MAX,
        0 <= m <= u32::MAX,
    ensures
        ({
            let ahead = "ahead "@ + crate::number::decimal(n);
            let behind = "behind "@ + crate::number::decimal(m);
            &&& track(seq!['['] + ahead + seq![']']) == (n, 0int, false)
            &&& track(seq!['['] + behind + seq![']']) == (0int, m, false)
            &&& track(seq!['['] + (ahead + seq![',', ' '] + behind) + seq![']']) == (n, m, false)
            &&& track(seq!['['] + "gone"@ + seq![']']) == (0int, 0int, true)
            &&& track(Seq::empty()) == (0int, 0int, false)
        }),
{
    reveal_strlit("ahead ");
    reveal_strlit("behind ");
    reveal_strlit("gone");
    reveal_with_fuel(track_upto, 3);
    lemma_count_text(n);
    lemma_count_text(m);
    let (dn, dm) = (crate::number::decimal(n), crate::number::decimal(m));
    let ahead = "ahead "@ + dn;
    let behind = "behind "@ + dm;
    lemma_distance_part(ahead, "ahead "@, dn);
    lemma_distance_part(behind, "behind "@, dm);
    crate::text::law_what_was_put_around_comes_off("ahead "@, dn);
    crate::text::law_what_was_put_around_comes_off("behind "@, dm);
    assert(!crate::text::starts_with(behind, "ahead "@)) by {
        assert(behind[0] == 'b');
        assert(behind.take(6)[0] == 'b');
    }
    lemma_inner(ahead);
    lemma_inner(behind);
    crate::text::lemma_split_whole(ahead, ',');
    crate::text::lemma_split_whole(behind, ',');
    assert(seq![ahead][0] == ahead);
    assert(ahead != "gone"@) by {
        assert(ahead[0] == 'a');
    }
    assert(behind != "gone"@) by {
        assert(behind[0] == 'b');
    }
    let spaced = seq![' '] + behind;
    let both = ahead + seq![',', ' '] + behind;
    assert(both =~= ahead + seq![','] + spaced);
    crate::text::lemma_split_around(ahead, spaced, ',');
    assert(!spaced.contains(',')) by {
        if spaced.contains(',') {
            let i = choose|i: int| 0 <= i < spaced.len() && spaced[i] == ',';
            assert(behind[i - 1] == ',');
            assert(behind.contains(','));
        }
    }
    crate::text::lemma_split_whole(spaced, ',');
    crate::text::lemma_trim_around(seq![' '], behind, Seq::empty());
    assert(seq![' '] + behind + Seq::<char>::empty() =~= spaced);
    assert(both[0] == 'a');
    assert(both[both.len() - 1] == dm[dm.len() - 1]);
    lemma_inner(both);
    assert(both != "gone"@);
    let parts = crate::text::split(both, ',');
    assert(parts =~= seq![ahead, spaced]);
    lemma_inner("gone"@);
    let none = Seq::<char>::empty();
    crate::text::lemma_trim_is(none);
    crate::text::lemma_split_whole(none, ',');
    assert(crate::text::trim_end_char(crate::text::trim_start_char(none, '['), ']') == none);
    assert(none != "gone"@);
}

proof fn lemma_distance_part(part: Seq<char>, word: Seq<char>, d: Seq<char>)
    requires
        part == word + d,
        word == "ahead "@ || word == "behind "@,
        d.len() > 0,
        !d.contains(','),
        crate::text::is_digit(d[d.len() - 1]),
    ensures
        crate::text::trim(part) == part,
        !part.contains(','),
        part.len() > 0,
        part[0] == 'a' || part[0] == 'b',
        part[part.len() - 1] == d[d.len() - 1],
{
    reveal_strlit("ahead ");
    reveal_strlit("behind ");
    assert(part[0] == word[0]);
    assert(part[part.len() - 1] == d[d.len() - 1]);
    crate::text::lemma_trim_is(part);
    if part.contains(',') {
        let i = choose|i: int| 0 <= i < part.len() && part[i] == ',';
        if i >= word.len() {
            assert(d[i - word.len()] == ',');
            assert(d.contains(','));
        }
    }
}

/// Fields with a tab behind each, and then what follows them.
pub open spec fn tabbed(fields: Seq<Seq<char>>, tail: Seq<char>) -> Seq<char>
    decreases fields.len(),
{
    if fields.len() == 0 {
        tail
    } else {
        fields[0] + seq!['\t'] + tabbed(fields.skip(1), tail)
    }
}

proof fn lemma_tabbed(fields: Seq<Seq<char>>, tail: Seq<char>)
    requires
        forall|i: int| 0 <= i < fields.len() ==> !(#[trigger] fields[i]).contains('\t'),
    ensures
        crate::text::splitn(tabbed(fields, tail), (fields.len() + 1) as nat, '\t') == fields.push(
            tail,
        ),
    decreases fields.len(),
{
    let n = fields.len();
    if n == 0 {
        crate::text::law_splitn_leaves_the_rest_whole(Seq::empty(), tail, 1, '\t');
        assert(fields.push(tail) =~= seq![tail]);
    } else {
        let rest = fields.skip(1);
        assert forall|i: int| 0 <= i < rest.len() implies !(#[trigger] rest[i]).contains('\t') by {
            assert(rest[i] == fields[i + 1]);
        }
        lemma_tabbed(rest, tail);
        assert(!fields[0].contains('\t'));
        crate::text::law_splitn_leaves_the_rest_whole(
            fields[0],
            tabbed(rest, tail),
            (n + 1) as nat,
            '\t',
        );
        assert(seq![fields[0]] + rest.push(tail) =~= fields.push(tail));
    }
}

/// A line of a listing is a branch or a tag by where its name stands, and says of it what
/// its fields say; its subject may hold tabs.
pub proof fn law_a_ref_reads_back(fields: Seq<Seq<char>>, name: Seq<char>, subject: Seq<char>)
    requires
        fields.len() == 6,
        forall|i: int| 0 <= i < fields.len() ==> !(#[trigger] fields[i]).contains('\t'),
    ensures
        ({
            let line = tabbed(fields, subject);
            let branch = branch_on(line);
            let tag = tag_on(line);
            &&& fields[0] == "refs/heads/"@ + name ==> {
                &&& tag is None
                &&& branch is Some
                &&& branch->0.name == name
                &&& branch->0.upstream == (if fields[1].len() == 0 { None } else { Some(fields[1]) })
                &&& (branch->0.ahead, branch->0.behind, branch->0.gone) == track(fields[2])
                &&& branch->0.committed_at == stamp(fields[3])
                &&& branch->0.sha == fields[5]
                &&& branch->0.subject == subject
            }
            &&& fields[0] == "refs/tags/"@ + name ==> {
                &&& branch is None
                &&& tag is Some
                &&& tag->0.name == name
                &&& tag->0.at == stamp(fields[4])
            }
        }),
{
    let line = tabbed(fields, subject);
    lemma_tabbed(fields, subject);
    let f = fields.push(subject);
    assert(f[0] == fields[0] && f[1] == fields[1] && f[2] == fields[2] && f[3] == fields[3] && f[4]
        == fields[4] && f[5] == fields[5] && f[6] == subject);
    crate::text::law_what_was_put_around_comes_off("refs/heads/"@, name);
    crate::text::law_what_was_put_around_comes_off("refs/tags/"@, name);
    lemma_heads_are_not_tags(name);
}

proof fn lemma_heads_are_not_tags(name: Seq<char>)
    ensures
        !crate::text::starts_with("refs/tags/"@ + name, "refs/heads/"@),
{
    reveal_strlit("refs/heads/");
    reveal_strlit("refs/tags/");
    let s = "refs/tags/"@ + name;
    if crate::text::starts_with(s, "refs/heads/"@) {
        assert(s[5] == 't');
        assert(s.take(11)[5] == s[5]);
        assert("refs/heads/"@[5] == 'h');
    }
}

/// A time is read as a number, and as nought where there is none.
pub proof fn law_a_time_reads_back(n: int, s: Seq<char>)
    requires
        0 <= n <= i64::MAX,
    ensures
        stamp(crate::number::decimal(n)) == n,
        stamp(seq!['-'] + crate::number::decimal(n)) == -n,
        stamp(Seq::empty()) == 0,
        crate::number::parse_signed(s) is None ==> stamp(s) == 0,
{
    crate::number::law_a_number_reads_back(n, i64::MAX as int);
}

/// Listings one after the other list the refs of both, in order; a line that is no ref
/// adds none.
pub proof fn law_listings_add_up(a: Seq<Seq<char>>, line: Seq<char>)
    ensures
        ({
            let n = a.len() as int;
            let all = a.push(line);
            &&& branches_upto(all, n + 1) == (match branch_on(line) {
                Some(b) => branches_upto(a, n).push(b),
                None => branches_upto(a, n),
            })
            &&& tags_upto(all, n + 1) == (match tag_on(line) {
                Some(t) => tags_upto(a, n).push(t),
                None => tags_upto(a, n),
            })
            &&& branches_upto(Seq::empty(), 0).len() == 0
            &&& tags_upto(Seq::empty(), 0).len() == 0
        }),
{
    lemma_listing_front(a, line, a.len() as int);
}

proof fn lemma_listing_front(a: Seq<Seq<char>>, line: Seq<char>, n: int)
    requires
        0 <= n <= a.len(),
    ensures
        branches_upto(a.push(line), n) == branches_upto(a, n),
        tags_upto(a.push(line), n) == tags_upto(a, n),
    decreases n,
{
    if n > 0 {
        lemma_listing_front(a, line, n - 1);
        assert(a.push(line)[n - 1] == a[n - 1]);
    }
}

/// A head that names a branch is on it where the branch is listed, and is without a commit
/// where it is not; a head that names a commit is off all branches.
pub proof fn law_a_head_is_where_it_points(name: Seq<char>, branches: Seq<BranchText>, i: int)
    requires
        name.len() > 0,
        !crate::text::is_whitespace(name[name.len() - 1]),
    ensures
        ({
            let raw = "ref: refs/heads/"@ + name + seq!['\n'];
            &&& symref(raw) == Some(name)
            &&& 0 <= i < branches.len() && branches[i].name == name ==> head_of(raw, branches)
                == HeadText::Branch(name)
            &&& (forall|k: int| 0 <= k < branches.len() ==> (#[trigger] branches[k]).name != name)
                ==> head_of(raw, branches) == HeadText::Unborn
        }),
{
    reveal_strlit("ref: refs/heads/");
    reveal_strlit("ref:");
    reveal_strlit("refs/heads/");
    let inner = "ref: refs/heads/"@ + name;
    let raw = inner + seq!['\n'];
    assert(inner[0] == 'r' && inner[inner.len() - 1] == name[name.len() - 1]);
    crate::text::lemma_trim_around(Seq::empty(), inner, seq!['\n']);
    assert(Seq::<char>::empty() + inner + seq!['\n'] =~= raw);
    let refname = "refs/heads/"@ + name;
    let rest = seq![' '] + refname;
    assert(inner =~= "ref:"@ + rest);
    crate::text::law_what_was_put_around_comes_off("ref:"@, rest);
    crate::text::lemma_trim_around(seq![' '], refname, Seq::empty());
    assert(seq![' '] + refname + Seq::<char>::empty() =~= rest);
    crate::text::law_what_was_put_around_comes_off("refs/heads/"@, name);
    lemma_listed(branches, name, 0);
}

proof fn lemma_listed(bs: Seq<BranchText>, name: Seq<char>, from: int)
    requires
        0 <= from,
    ensures
        listed_from(bs, name, from) matches Some(b) ==> b.name == name && bs.contains(b),
        forall|k: int|
            from <= k < bs.len() && (#[trigger] bs[k]).name == name ==> listed_from(bs, name, from)
                is Some,
    decreases bs.len() - from,
{
    if from < bs.len() && bs[from].name != name {
        lemma_listed(bs, name, from + 1);
    }
}

/// A head that names a commit shows the first seven of its characters.
pub proof fn law_a_loose_head_shows_its_commit(sha: Seq<char>, branches: Seq<BranchText>)
    requires
        sha.len() >= 7,
        forall|i: int| 0 <= i < sha.len() ==> crate::text::is_alphanumeric(#[trigger] sha[i]),
    ensures
        head_of(sha + seq!['\n'], branches) == HeadText::Detached(sha.take(7)),
        head_reads(sha + seq!['\n']),
{
    reveal_strlit("ref:");
    let raw = sha + seq!['\n'];
    assert(crate::text::is_alphanumeric(sha[0]));
    assert(crate::text::is_alphanumeric(sha[sha.len() - 1]));
    crate::text::lemma_trim_around(Seq::empty(), sha, seq!['\n']);
    assert(Seq::<char>::empty() + sha + seq!['\n'] =~= raw);
    assert(!crate::text::starts_with(sha, "ref:"@)) by {
        assert(crate::text::is_alphanumeric(sha[3]));
        assert(sha.take(4)[3] == sha[3]);
    }
    let front = sha.take(7);
    lemma_plain_bytes(front);
    crate::text::law_bytes_add_up(front, sha.skip(7), 'a');
    crate::text::law_a_front_is_cut_between_characters(front, sha.skip(7), 7);
    assert(front + sha.skip(7) =~= sha);
    lemma_plain_bytes(sha.skip(7));
}

proof fn lemma_plain_bytes(s: Seq<char>)
    requires
        forall|i: int| 0 <= i < s.len() ==> crate::text::is_alphanumeric(#[trigger] s[i]),
    ensures
        crate::text::byte_len(s) == s.len(),
    decreases s.len(),
{
    if s.len() > 0 {
        lemma_plain_bytes(s.take(s.len() - 1));
        assert(crate::text::is_alphanumeric(s[s.len() - 1]));
    }
}

/// The last commit is that of the branch where one is checked out, and what the log says
/// where none is.
pub proof fn law_the_last_commit_is_the_heads(
    head: HeadText,
    branches: Seq<BranchText>,
    fields: Seq<Seq<char>>,
    subject: Seq<char>,
)
    requires
        fields.len() == 3,
        forall|i: int|
            0 <= i < fields.len() ==> !(#[trigger] fields[i]).contains('\t')
                && !fields[i].contains('\n'),
        !tabbed(fields, subject).contains('\n'),
    ensures
        ({
            let log = Some(tabbed(fields, subject));
            let commit = last_commit_of(head, branches, log);
            &&& head is Unborn ==> commit is None
            &&& head is Detached ==> commit is Some && commit->0.sha == fields[0] && commit->0.at
                == stamp(fields[1]) && commit->0.author == fields[2] && commit->0.subject == subject
            &&& head matches HeadText::Branch(name) ==> (listed(branches, name) matches Some(b) ==> {
                &&& commit is Some
                &&& commit->0.sha == b.sha
                &&& commit->0.at == b.committed_at
                &&& commit->0.subject == b.subject
            })
            &&& head is Detached ==> last_commit_of(head, branches, None) is None
        }),
{
    let line = tabbed(fields, subject);
    lemma_tabbed(fields, subject);
    let f = fields.push(subject);
    assert(f[0] == fields[0] && f[1] == fields[1] && f[2] == fields[2] && f[3] == subject);
    assert(line.len() > 0) by {
        assert(line[fields[0].len() as int] == '\t');
    }
    crate::text::law_a_text_is_read_by_line(line, Seq::empty());
    assert(seq![line][0] == line);
}

/// What came since a tag: nothing where none was reached; else the tag with its own date,
/// the count, and the subjects, which are left out where there is nothing to count or none
/// were asked for.
pub proof fn law_what_came_since_a_tag(
    tags: Seq<TagText>,
    name: Seq<char>,
    n: int,
    subjects: Seq<char>,
    max_subjects: int,
    i: int,
)
    requires
        name.len() > 0,
        crate::text::trim(name) == name,
        0 <= n <= u32::MAX,
        0 <= i < tags.len(),
        tags[i].name == name,
        forall|k: int| 0 <= k < i ==> (#[trigger] tags[k]).name != name,
    ensures
        ({
            let count = Some(crate::number::decimal(n));
            let s = since_of(tags, Some(name), count, Some(subjects), max_subjects);
            &&& s.tag is Some
            &&& s.tag->0.name == name
            &&& s.tag->0.at == tags[i].at
            &&& s.count == Some(n)
            &&& n > 0 && max_subjects > 0 ==> s.subjects == crate::text::lines(subjects)
            &&& n == 0 || max_subjects <= 0 ==> s.subjects.len() == 0
            &&& since_of(tags, None, count, Some(subjects), max_subjects).tag is None
            &&& since_of(tags, Some(seq!['\n']), count, Some(subjects), max_subjects).tag is None
            &&& since_of(tags, Some(name), None, Some(subjects), max_subjects).count is None
        }),
{
    lemma_count_text(n);
    crate::number::law_a_number_reads_back(n, u32::MAX as int);
    lemma_date(tags, name, i, 0);
    crate::text::law_trimming_leaves_no_ends(seq!['\n']);
}

proof fn lemma_date(tags: Seq<TagText>, name: Seq<char>, i: int, from: int)
    requires
        0 <= from <= i < tags.len(),
        tags[i].name == name,
        forall|k: int| 0 <= k < i ==> (#[trigger] tags[k]).name != name,
    ensures
        date_from(tags, name, from) == tags[i].at,
    decreases i - from,
{
    if from < i {
        assert(tags[from].name != name);
        lemma_date(tags, name, i, from + 1);
    }
}

/// A tag is off every branch exactly where there is one and the answer was that nothing
/// holds it; no answer says nothing.
pub proof fn law_a_tag_nothing_holds(newest: Option<TagText>, holder: Seq<char>)
    requires
        holder.len() > 0,
        !crate::text::is_whitespace(holder[0]),
        !crate::text::is_whitespace(holder[holder.len() - 1]),
    ensures
        is_orphaned(newest, Some(Seq::empty())) <==> newest is Some,
        !is_orphaned(newest, Some(holder)),
        !is_orphaned(newest, None),
        !is_orphaned(None, Some(Seq::empty())),
{
    crate::text::lemma_trim_is(holder);
}

/// Each line of the log of stashes is a stash; a blank line is none.
pub proof fn law_stashes_add_up(lines: Seq<Seq<char>>, line: Seq<char>)
    ensures
        filled_lines(lines.push(line), lines.len() as int + 1) == filled_lines(lines, lines.len() as int)
            + (if crate::text::trim(line).len() > 0 {
            1int
        } else {
            0
        }),
        filled_lines(Seq::empty(), 0) == 0,
        stashes_in(None) == 0,
        stashes_in(Some(Seq::empty())) == 0,
{
    lemma_filled_front(lines, line, lines.len() as int);
    assert(crate::text::lines(Seq::empty()).len() == 0);
}

/// A stash is counted for each line of its log.
pub proof fn law_a_stash_is_a_line(a: Seq<char>, b: Seq<char>)
    requires
        !a.contains('\n'),
        a.len() > 0,
        !crate::text::is_whitespace(a[0]),
        !crate::text::is_whitespace(a[a.len() - 1]),
    ensures
        stashes_in(Some(a + seq!['\n'] + b)) == (1 + stashes_in(Some(b))) % 0x1_0000_0000,
{
    crate::text::law_a_text_is_read_by_line(a, b);
    crate::text::lemma_trim_is(a);
    let rest = crate::text::lines(b);
    lemma_filled_behind(a, rest, rest.len() as int);
    let k = filled_lines(rest, rest.len() as int);
    crate::number::lemma_wrap32_add(k, 1);
}

proof fn lemma_filled_front(lines: Seq<Seq<char>>, line: Seq<char>, n: int)
    requires
        0 <= n <= lines.len(),
    ensures
        filled_lines(lines.push(line), n) == filled_lines(lines, n),
    decreases n,
{
    if n > 0 {
        lemma_filled_front(lines, line, n - 1);
        assert(lines.push(line)[n - 1] == lines[n - 1]);
    }
}

proof fn lemma_filled_behind(a: Seq<char>, rest: Seq<Seq<char>>, n: int)
    requires
        crate::text::trim(a).len() > 0,
        0 <= n <= rest.len(),
    ensures
        filled_lines(seq![a] + rest, n + 1) == 1 + filled_lines(rest, n),
    decreases n,
{
    let all = seq![a] + rest;
    if n > 0 {
        lemma_filled_behind(a, rest, n - 1);
        assert(all[n] == rest[n - 1]);
    } else {
        reveal_with_fuel(filled_lines, 2);
        assert(all[0] == a);
    }
}

/// What is under way is told by the first marker that is there: either rebase, then merge,
/// cherry-pick, revert and bisect.
pub proof fn law_a_marker_tells_what_is_under_way(present: Seq<bool>, i: int)
    requires
        0 <= i < present.len(),
        present.len() == 7,
        present[i],
        forall|k: int| 0 <= k < i ==> !#[trigger] present[k],
    ensures
        operation_from(present, 0) is Some,
        operation_from(present, 0) == Some(Operation::Rebase) <==> i == 0 || i == 1,
        operation_from(present, 0) == Some(Operation::Merge) <==> i == 2,
        operation_from(present, 0) == Some(Operation::CherryPick) <==> i == 3,
        operation_from(present, 0) == Some(Operation::Revert) <==> i == 4,
        operation_from(present, 0) == Some(Operation::Bisect) <==> i == 5 || i == 6,
{
    lemma_first_marker(present, i, 0);
}

proof fn lemma_first_marker(present: Seq<bool>, i: int, from: int)
    requires
        0 <= from <= i < present.len(),
        present[i],
        forall|k: int| 0 <= k < i ==> !#[trigger] present[k],
    ensures
        operation_from(present, from) == Some(marked_operation(i)),
    decreases i - from,
{
    if from < i {
        assert(!present[from]);
        lemma_first_marker(present, i, from + 1);
    }
}

/// Nothing is under way where no marker is there.
pub proof fn law_without_a_marker_nothing_is_under_way(present: Seq<bool>, from: int)
    requires
        0 <= from,
        forall|k: int| 0 <= k < present.len() ==> !#[trigger] present[k],
    ensures
        operation_from(present, from) is None,
    decreases present.len() - from,
{
    if from < present.len() {
        assert(!present[from]);
        law_without_a_marker_nothing_is_under_way(present, from + 1);
    }
}

/// The directory of a repo is the one in it, or where its pointer leads: a full path as it
/// is, another from the repo.
pub proof fn law_a_pointer_is_followed(root: Seq<char>, target: Seq<char>, body: String)
    requires
        target.len() > 0,
        !target.contains('\n'),
        !crate::text::is_whitespace(target[0]),
        !crate::text::is_whitespace(target[target.len() - 1]),
        body@ == "gitdir: "@ + target + seq!['\n'],
    ensures
        git_dir(root, DotGit::File(body)) == Ok::<Seq<char>, Seq<char>>(
            if crate::pathname::is_absolute(target) {
                target
            } else {
                crate::pathname::joined(root, target)
            },
        ),
        git_dir(root, DotGit::Directory) == Ok::<Seq<char>, Seq<char>>(
            crate::pathname::joined(root, ".git"@),
        ),
        git_dir(root, DotGit::Missing) is Err,
        git_dir(root, DotGit::Unreadable) is Err,
{
    reveal_strlit("gitdir: ");
    reveal_strlit("gitdir:");
    let line = "gitdir: "@ + target;
    let rest = seq![' '] + target;
    assert(line =~= "gitdir:"@ + rest);
    crate::text::law_what_was_put_around_comes_off("gitdir:"@, rest);
    crate::text::lemma_trim_around(seq![' '], target, Seq::empty());
    assert(seq![' '] + target + Seq::<char>::empty() =~= rest);
    assert(!line.contains('\n')) by {
        if line.contains('\n') {
            let i = choose|i: int| 0 <= i < line.len() && line[i] == '\n';
            assert(target[i - 8] == '\n');
            assert(target.contains('\n'));
        }
    }
    assert(line[line.len() - 1] == target[target.len() - 1]);
    crate::text::law_a_text_is_read_by_line(line, Seq::empty());
    assert(body@ =~= line + seq!['\n'] + Seq::<char>::empty());
    let ls = crate::text::lines(body@);
    assert(ls[0] == line);
}

/// A file without a pointer is no repo.
pub proof fn law_a_file_without_a_pointer(root: Seq<char>, body: String)
    requires
        forall|i: int|
            0 <= i < crate::text::lines(body@).len() ==> !crate::text::starts_with(
                #[trigger] crate::text::lines(body@)[i],
                "gitdir:"@,
            ),
    ensures
        git_dir(root, DotGit::File(body)) is Err,
{
    lemma_no_pointer(crate::text::lines(body@), 0);
}

proof fn lemma_no_pointer(lines: Seq<Seq<char>>, from: int)
    requires
        0 <= from,
        forall|i: int|
            0 <= i < lines.len() ==> !crate::text::starts_with(#[trigger] lines[i], "gitdir:"@),
    ensures
        pointer_from(lines, from) is None,
    decreases lines.len() - from,
{
    if from < lines.len() {
        assert(!crate::text::starts_with(lines[from], "gitdir:"@));
        lemma_no_pointer(lines, from + 1);
    }
}

/// A command runs in the repo it is about; a fetch takes all remotes, drops what is gone,
/// asks for no password and leaves tags; a pull never merges; a clone goes where it is told.
pub proof fn law_a_command_does_what_it_is_for(root: Seq<char>, url: Seq<char>)
    ensures
        rails(root)[5] == "-C"@ && rails(root)[6] == root && rails(root).len() == 7,
        rails(root).contains("core.quotepath=false"@),
        rails(root).contains("color.ui=false"@),
        fetch_line(root)[1] == "-C"@ && fetch_line(root)[2] == root,
        fetch_line(root).contains("fetch"@),
        fetch_line(root).contains("--all"@),
        fetch_line(root).contains("--prune"@),
        fetch_line(root).contains("--no-tags"@),
        fetch_line(root).contains("--quiet"@),
        fetch_line(root).contains("credential.interactive=false"@),
        pull_line(root) == rails(root) + seq!["pull"@, "--ff-only"@],
        clone_line(url, root)[1] == "clone"@,
        clone_line(url, root)[3] == url,
        clone_line(url, root)[4] == root,
{
    let r = rails(root);
    assert(r[2] == "core.quotepath=false"@ && r[4] == "color.ui=false"@);
    let f = fetch_line(root);
    assert(f[4] == "credential.interactive=false"@ && f[5] == "fetch"@ && f[6] == "--all"@ && f[7]
        == "--prune"@ && f[8] == "--quiet"@ && f[9] == "--no-tags"@);
}

/// A complaint is what was said, without the blanks around it; where nothing was, it says
/// so.
pub proof fn law_a_complaint_is_what_was_said(said: Seq<char>)
    ensures
        crate::text::trim(said).len() > 0 ==> complaint(said) == crate::text::trim(said),
        complaint(Seq::empty()) == "no output"@,
{
}

/// A changelog counts where it names a version: its first is the latest, told to be tagged
/// or not.
pub proof fn law_a_changelog_counts_by_its_versions(
    r: Option<ChangelogInfo>,
    body: Option<Seq<char>>,
    newest: Option<Seq<char>>,
    described: Option<Seq<char>>,
)
    requires
        changelog_is(r, body, newest, described),
    ensures
        r is Some <==> body is Some && crate::release::changelog_versions(body->0).len() > 0,
        r is Some ==> r->0.version@ == crate::release::changelog_versions(body->0)[0],
        r is Some ==> r->0.tagged == crate::release::is_tagged(newest, described, r->0.version@),
{
}

/// What is read of a head is what it holds.
pub proof fn law_a_head_text_is_its_value(head: Head)
    ensures
        head matches Head::Branch(name) ==> head@ == HeadText::Branch(name@),
        head matches Head::Detached { sha } ==> head@ == HeadText::Detached(sha@),
        head is Unborn ==> head@ == HeadText::Unborn,
{
}

/// What the answers come to: branches and tags are those listed, the newest release comes
/// first among them, and the remote and whether there is a working tree are what the config
/// says.
pub proof fn law_what_the_answers_come_to(said: &RefsAnswers, cfg: &ReleaseConfig)
    ensures
        said.the_branches() == listed_branches(said.refs@),
        said.the_head() == head_of(said.head@, said.the_branches()),
        ({
            let tags = listed_tags(said.refs@);
            let pattern = cfg.tag_pattern@;
            &&& said.the_releases(pattern) == crate::release::releases(
                tags,
                crate::release::tag_verdicts(tags, pattern),
            )
            &&& said.the_newest(pattern) is Some <==> said.the_releases(pattern).len() > 0
            &&& said.the_newest(pattern) matches Some(t) ==> t == said.the_releases(pattern)[0]
        }),
        said.config is None ==> said.the_remote() is None && !said.the_bareness(),
        said.config matches Some(body) ==> said.the_remote() == crate::gitconfig::remote_of(
            crate::gitconfig::read_config(body@),
        ) && said.the_bareness() == crate::gitconfig::read_config(body@).bare,
        !(said.the_head() is Unborn) ==> said.the_since(cfg) == since_of(
            said.the_releases(cfg.tag_pattern@),
            crate::pathname::opt_text(said.described),
            crate::pathname::opt_text(said.since_count),
            crate::pathname::opt_text(said.since_subjects),
            cfg.max_subjects as int,
        ),
{
}

/// A listing is read line by line.
pub proof fn law_a_listing_is_read_by_line(a: Seq<char>, b: Seq<char>)
    requires
        !a.contains('\n'),
        a.len() == 0 || a[a.len() - 1] != '\r',
    ensures
        ({
            let raw = a + seq!['\n'] + b;
            &&& listed_branches(raw) == (match branch_on(a) {
                Some(x) => seq![x],
                None => Seq::empty(),
            }) + listed_branches(b)
            &&& listed_tags(raw) == (match tag_on(a) {
                Some(x) => seq![x],
                None => Seq::empty(),
            }) + listed_tags(b)
        }),
{
    crate::text::law_a_text_is_read_by_line(a, b);
    let rest = crate::text::lines(b);
    lemma_listing_behind(a, rest, rest.len() as int);
}

proof fn lemma_listing_behind(a: Seq<char>, rest: Seq<Seq<char>>, n: int)
    requires
        0 <= n <= rest.len(),
    ensures
        branches_upto(seq![a] + rest, n + 1) == (match branch_on(a) {
            Some(x) => seq![x],
            None => Seq::empty(),
        }) + branches_upto(rest, n),
        tags_upto(seq![a] + rest, n + 1) == (match tag_on(a) {
            Some(x) => seq![x],
            None => Seq::empty(),
        }) + tags_upto(rest, n),
    decreases n,
{
    let all = seq![a] + rest;
    let first = match branch_on(a) {
        Some(x) => seq![x],
        None => Seq::empty(),
    };
    let tag = match tag_on(a) {
        Some(x) => seq![x],
        None => Seq::empty(),
    };
    if n > 0 {
        lemma_listing_behind(a, rest, n - 1);
        assert(all[n] == rest[n - 1]);
        assert(branches_upto(all, n + 1) =~= first + branches_upto(rest, n));
        assert(tags_upto(all, n + 1) =~= tag + tags_upto(rest, n));
    } else {
        reveal_with_fuel(branches_upto, 2);
        reveal_with_fuel(tags_upto, 2);
        assert(all[0] == a);
        assert(branches_upto(all, 1) =~= first + branches_upto(rest, 0));
        assert(tags_upto(all, 1) =~= tag + tags_upto(rest, 0));
    }
}

/// Settings are handed to git one by one, each behind its switch.
pub proof fn law_settings_stand_behind_their_switch(root: Seq<char>)
    ensures
        rails(root)[0] == "--no-optional-locks"@,
        rails(root)[1] == "-c"@ && rails(root)[2] == "core.quotepath=false"@,
        rails(root)[3] == "-c"@ && rails(root)[4] == "color.ui=false"@,
        fetch_line(root).len() == 10,
        fetch_line(root)[3] == "-c"@ && fetch_line(root)[4] == "credential.interactive=false"@,
        clone_line(root, root).len() == 5 && clone_line(root, root)[2] == "--quiet"@,
{
}

} // verus!
