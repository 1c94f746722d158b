//! The data model for a single repo's observed state.
//!
//! Probing is split in two tiers that live in separate fields: `refs` is cheap
//! (a couple of `for-each-ref` calls) and always refreshed, `work` is expensive
//! (a full working-tree scan) and cached against `work_key` so it only reruns
//! when something actually changed.
//!
//! Counters are `u32` and wrap like machine integers; the contracts say so with
//! [`crate::number::wrap32`].

use vstd::prelude::*;

use crate::hold::Hold;
use crate::number::add32;
use crate::text::{from_chars, same, to_chars, to_uppercase, trimmed};

verus! {

/// A copy of an optional string.
pub fn copy_opt(s: &Option<String>) -> (r: Option<String>)
    ensures
        r == *s,
{
    match s {
        Some(t) => Some(t.clone()),
        None => None,
    }
}

/// Where HEAD is pointing.
#[derive(Debug, PartialEq, Eq)]
pub enum Head {
    /// On a branch, e.g. `develop`.
    Branch(String),
    /// Detached at a commit.
    Detached { sha: String },
    /// A fresh repo with no commits yet.
    Unborn,
}

impl Clone for Head {
    fn clone(&self) -> (r: Self)
        ensures
            r == *self,
    {
        match self {
            Head::Branch(b) => Head::Branch(b.clone()),
            Head::Detached { sha } => Head::Detached { sha: sha.clone() },
            Head::Unborn => Head::Unborn,
        }
    }
}

impl Head {
    pub open spec fn label_text(&self) -> Seq<char> {
        match self {
            Head::Branch(b) => b@,
            Head::Detached { sha } => "@"@ + sha@,
            Head::Unborn => "(unborn)"@,
        }
    }

    /// The branch HEAD is on.
    pub open spec fn branch_name(&self) -> Option<Seq<char>> {
        match self {
            Head::Branch(b) => Some(b@),
            _ => None,
        }
    }

    pub fn label(&self) -> (r: String)
        ensures
            r@ == self.label_text(),
    {
        match self {
            Head::Branch(b) => b.clone(),
            Head::Detached { sha } => {
                let mut out = "@".to_owned();
                out.append(sha.as_str());
                out
            },
            Head::Unborn => "(unborn)".to_owned(),
        }
    }

    pub fn branch(&self) -> (r: Option<&str>)
        ensures
            (match r {
                Some(b) => self.branch_name() == Some(b@),
                None => self.branch_name() is None,
            }),
    {
        match self {
            Head::Branch(b) => Some(b.as_str()),
            _ => None,
        }
    }
}

/// A git operation left half-finished in the working tree.
#[derive(Clone, Copy, Debug, PartialEq, Eq, Structural)]
pub enum Operation {
    Merge,
    Rebase,
    CherryPick,
    Revert,
    Bisect,
}

impl Operation {
    pub open spec fn label_text(&self) -> Seq<char> {
        match self {
            Operation::Merge => "merging"@,
            Operation::Rebase => "rebasing"@,
            Operation::CherryPick => "cherry-picking"@,
            Operation::Revert => "reverting"@,
            Operation::Bisect => "bisecting"@,
        }
    }

    pub fn label(&self) -> (r: &'static str)
        ensures
            r@ == self.label_text(),
    {
        match self {
            Operation::Merge => "merging",
            Operation::Rebase => "rebasing",
            Operation::CherryPick => "cherry-picking",
            Operation::Revert => "reverting",
            Operation::Bisect => "bisecting",
        }
    }
}

/// One local branch, with its tracking position against its upstream.
///
/// Ahead/behind come from `%(upstream:track)`, which reads the already-fetched
/// remote-tracking ref. No network involved, so this is safe to compute on
/// every sweep; it tells you what you haven't pushed, not what you haven't
/// fetched.
#[derive(Debug)]
pub struct BranchInfo {
    pub name: String,
    pub upstream: Option<String>,
    pub ahead: u32,
    pub behind: u32,
    pub gone: bool,
    pub committed_at: i64,
    pub sha: String,
    pub subject: String,
}

impl Clone for BranchInfo {
    fn clone(&self) -> (r: Self)
        ensures
            r == *self,
    {
        BranchInfo {
            name: self.name.clone(),
            upstream: copy_opt(&self.upstream),
            ahead: self.ahead,
            behind: self.behind,
            gone: self.gone,
            committed_at: self.committed_at,
            sha: self.sha.clone(),
            subject: self.subject.clone(),
        }
    }
}

/// A branch, by its contents.
pub struct BranchText {
    pub name: Seq<char>,
    pub upstream: Option<Seq<char>>,
    pub ahead: int,
    pub behind: int,
    pub gone: bool,
    pub committed_at: int,
    pub sha: Seq<char>,
    pub subject: Seq<char>,
}

impl View for BranchInfo {
    type V = BranchText;

    open spec fn view(&self) -> BranchText {
        BranchText {
            name: self.name@,
            upstream: crate::pathname::opt_text(self.upstream),
            ahead: self.ahead as int,
            behind: self.behind as int,
            gone: self.gone,
            committed_at: self.committed_at as int,
            sha: self.sha@,
            subject: self.subject@,
        }
    }
}

pub open spec fn branch_texts(bs: Seq<BranchInfo>) -> Seq<BranchText> {
    bs.map_values(|b: BranchInfo| b@)
}

#[derive(Debug)]
pub struct TagInfo {
    pub name: String,
    pub at: i64,
}

impl Clone for TagInfo {
    fn clone(&self) -> (r: Self)
        ensures
            r == *self,
    {
        TagInfo { name: self.name.clone(), at: self.at }
    }
}

/// A tag, by its contents.
pub struct TagText {
    pub name: Seq<char>,
    pub at: int,
}

impl View for TagInfo {
    type V = TagText;

    open spec fn view(&self) -> TagText {
        TagText { name: self.name@, at: self.at as int }
    }
}

pub open spec fn tag_texts(ts: Seq<TagInfo>) -> Seq<TagText> {
    ts.map_values(|t: TagInfo| t@)
}

pub open spec fn opt_tag(t: Option<TagInfo>) -> Option<TagText> {
    match t {
        Some(tag) => Some(tag@),
        None => None,
    }
}

#[derive(Debug)]
pub struct CommitInfo {
    pub sha: String,
    pub at: i64,
    pub subject: String,
    pub author: String,
}

impl Clone for CommitInfo {
    fn clone(&self) -> (r: Self)
        ensures
            r == *self,
    {
        CommitInfo {
            sha: self.sha.clone(),
            at: self.at,
            subject: self.subject.clone(),
            author: self.author.clone(),
        }
    }
}

/// A commit, by its contents.
pub struct CommitNote {
    pub sha: Seq<char>,
    pub at: int,
    pub subject: Seq<char>,
    pub author: Seq<char>,
}

impl View for CommitInfo {
    type V = CommitNote;

    open spec fn view(&self) -> CommitNote {
        CommitNote {
            sha: self.sha@,
            at: self.at as int,
            subject: self.subject@,
            author: self.author@,
        }
    }
}

pub open spec fn opt_commit(c: Option<CommitInfo>) -> Option<CommitNote> {
    match c {
        Some(commit) => Some(commit@),
        None => None,
    }
}

/// What the top block of `CHANGELOG.md` claims, versus the newest tag.
///
/// A changelog whose top version has no matching tag is an in-flight release
/// sitting there waiting to be cut.
#[derive(Debug)]
pub struct ChangelogInfo {
    pub version: String,
    pub tagged: bool,
    /// Number of distinct unreleased version headings found above the last
    /// tagged one. More than one means blocks have stacked up.
    pub unreleased_blocks: u32,
}

impl Clone for ChangelogInfo {
    fn clone(&self) -> (r: Self)
        ensures
            r == *self,
    {
        ChangelogInfo {
            version: self.version.clone(),
            tagged: self.tagged,
            unreleased_blocks: self.unreleased_blocks,
        }
    }
}

/// Tier 1: everything derivable from `.git` without touching the working tree.
#[derive(Debug)]
pub struct RefsInfo {
    pub head: Head,
    pub branches: Vec<BranchInfo>,
    pub last_commit: Option<CommitInfo>,
    pub stashes: u32,
    pub operation: Option<Operation>,
    /// Newest tag by creation date, whether or not HEAD can reach it.
    pub newest_tag: Option<TagInfo>,
    /// Nearest tag reachable from HEAD (`git describe --tags --abbrev=0`).
    pub described_tag: Option<TagInfo>,
    /// Commits on HEAD since `described_tag`.
    pub commits_since_tag: Option<u32>,
    /// Subjects of those commits, newest first, capped.
    pub since_tag_subjects: Vec<String>,
    /// True when `newest_tag` sits on history no branch can reach, local or
    /// remote. That happens when a repo is reused: the tags come from an
    /// import or an earlier life, and the current work shares no commits with
    /// them. Such tags are not releases of what is checked out now.
    pub tags_orphaned: bool,
    pub index_mtime: Option<i64>,
    /// When this repo last fetched, from `FETCH_HEAD`. `None` means it never
    /// has, which is what makes a zero "behind" count meaningless rather than
    /// reassuring.
    pub fetched_at: Option<i64>,
    pub remote_url: Option<String>,
    pub changelog: Option<ChangelogInfo>,
    pub is_bare: bool,
    pub is_shallow: bool,
}

impl RefsInfo {
    /// Whether another says the same.
    pub open spec fn same_as(&self, other: &RefsInfo) -> bool {
        &&& self.head == other.head
        &&& self.branches@ == other.branches@
        &&& self.last_commit == other.last_commit
        &&& self.stashes == other.stashes
        &&& self.operation == other.operation
        &&& self.newest_tag == other.newest_tag
        &&& self.described_tag == other.described_tag
        &&& self.commits_since_tag == other.commits_since_tag
        &&& self.since_tag_subjects@ == other.since_tag_subjects@
        &&& self.tags_orphaned == other.tags_orphaned
        &&& self.index_mtime == other.index_mtime
        &&& self.fetched_at == other.fetched_at
        &&& self.remote_url == other.remote_url
        &&& self.changelog == other.changelog
        &&& self.is_bare == other.is_bare
        &&& self.is_shallow == other.is_shallow
    }
}

fn copy_branches(bs: &Vec<BranchInfo>) -> (r: Vec<BranchInfo>)
    ensures
        r@ == bs@,
{
    let mut out: Vec<BranchInfo> = Vec::new();
    let mut i: usize = 0;
    while i < bs.len()
        invariant
            i <= bs@.len(),
            out@ == bs@.take(i as int),
        decreases bs@.len() - i,
    {
        out.push(bs[i].clone());
        i = i + 1;
        assert(out@ =~= bs@.take(i as int));
    }
    assert(bs@.take(i as int) =~= bs@);
    out
}

fn copy_tag(t: &Option<TagInfo>) -> (r: Option<TagInfo>)
    ensures
        r == *t,
{
    match t {
        Some(tag) => Some(tag.clone()),
        None => None,
    }
}

impl Clone for RefsInfo {
    fn clone(&self) -> (r: Self)
        ensures
            r.same_as(self),
    {
        RefsInfo {
            head: self.head.clone(),
            branches: copy_branches(&self.branches),
            last_commit: match &self.last_commit {
                Some(c) => Some(c.clone()),
                None => None,
            },
            stashes: self.stashes,
            operation: self.operation,
            newest_tag: copy_tag(&self.newest_tag),
            described_tag: copy_tag(&self.described_tag),
            commits_since_tag: self.commits_since_tag,
            since_tag_subjects: copy_texts(&self.since_tag_subjects),
            tags_orphaned: self.tags_orphaned,
            index_mtime: self.index_mtime,
            fetched_at: self.fetched_at,
            remote_url: copy_opt(&self.remote_url),
            changelog: match &self.changelog {
                Some(c) => Some(c.clone()),
                None => None,
            },
            is_bare: self.is_bare,
            is_shallow: self.is_shallow,
        }
    }
}

fn copy_texts(items: &Vec<String>) -> (r: Vec<String>)
    ensures
        r@ == items@,
{
    let mut out: Vec<String> = Vec::new();
    let mut i: usize = 0;
    while i < items.len()
        invariant
            i <= items@.len(),
            out@ == items@.take(i as int),
        decreases items@.len() - i,
    {
        out.push(items[i].clone());
        i = i + 1;
        assert(out@ =~= items@.take(i as int));
    }
    assert(items@.take(i as int) =~= items@);
    out
}

/// How many commits these branches have that their upstreams don't.
pub open spec fn ahead_sum(bs: Seq<BranchInfo>) -> int
    decreases bs.len(),
{
    if bs.len() == 0 {
        0
    } else {
        ahead_sum(bs.take(bs.len() - 1)) + bs[bs.len() - 1].ahead
    }
}

/// How many commits these branches' upstreams have that they don't.
pub open spec fn behind_sum(bs: Seq<BranchInfo>) -> int
    decreases bs.len(),
{
    if bs.len() == 0 {
        0
    } else {
        behind_sum(bs.take(bs.len() - 1)) + bs[bs.len() - 1].behind
    }
}

/// Index of the first branch of that name at or after `i`.
pub open spec fn branch_from(bs: Seq<BranchInfo>, name: Seq<char>, i: int) -> Option<int>
    decreases bs.len() - i,
{
    if i < 0 || i >= bs.len() {
        None
    } else if bs[i].name@ == name {
        Some(i)
    } else {
        branch_from(bs, name, i + 1)
    }
}

/// The first branch of that name.
pub open spec fn branch_named(bs: Seq<BranchInfo>, name: Seq<char>) -> Option<BranchInfo> {
    match branch_from(bs, name, 0) {
        Some(i) => Some(bs[i]),
        None => None,
    }
}

/// The newest commit time among these branches; zero where there are none.
pub open spec fn newest_commit(bs: Seq<BranchInfo>) -> int
    decreases bs.len(),
{
    if bs.len() == 0 {
        0
    } else if bs.len() == 1 {
        bs[0].committed_at as int
    } else {
        let rest = newest_commit(bs.take(bs.len() - 1));
        if bs[bs.len() - 1].committed_at >= rest {
            bs[bs.len() - 1].committed_at as int
        } else {
            rest
        }
    }
}

pub fn find_branch<'a>(branches: &'a Vec<BranchInfo>, name: &str) -> (r: Option<&'a BranchInfo>)
    ensures
        (match r {
            Some(b) => branch_named(branches@, name@) == Some(*b),
            None => branch_named(branches@, name@) is None,
        }),
{
    let mut i: usize = 0;
    while i < branches.len()
        invariant
            i <= branches@.len(),
            branch_from(branches@, name@, 0) == branch_from(branches@, name@, i as int),
        decreases branches@.len() - i,
    {
        if same(branches[i].name.as_str(), name) {
            return Some(&branches[i]);
        }
        i = i + 1;
    }
    None
}

impl RefsInfo {
    pub open spec fn unpushed_count(&self) -> int {
        crate::number::wrap32(ahead_sum(self.branches@))
    }

    pub open spec fn unpulled_count(&self) -> int {
        crate::number::wrap32(behind_sum(self.branches@))
    }

    /// The branch that is checked out.
    pub open spec fn current(&self) -> Option<BranchInfo> {
        match self.head {
            Head::Branch(b) => branch_named(self.branches@, b@),
            _ => None,
        }
    }

    pub open spec fn is_tag_off_branch(&self) -> bool {
        !self.tags_orphaned && match (self.newest_tag, self.described_tag) {
            (Some(newest), Some(described)) => newest.name@ != described.name@,
            (Some(_), None) => true,
            _ => false,
        }
    }

    /// Total commits sitting on local branches that their upstreams don't have.
    pub fn unpushed(&self) -> (r: u32)
        ensures
            r == self.unpushed_count(),
    {
        let mut total: u32 = 0;
        let mut i: usize = 0;
        while i < self.branches.len()
            invariant
                i <= self.branches@.len(),
                total == crate::number::wrap32(ahead_sum(self.branches@.take(i as int))),
            decreases self.branches@.len() - i,
        {
            assert(self.branches@.take(i + 1).take(i as int) =~= self.branches@.take(i as int));
            proof {
                crate::number::lemma_wrap32_add(
                    ahead_sum(self.branches@.take(i as int)),
                    self.branches@[i as int].ahead as int,
                );
            }
            total = add32(total, self.branches[i].ahead);
            i = i + 1;
        }
        assert(self.branches@.take(i as int) =~= self.branches@);
        total
    }

    /// Total commits upstreams have that we don't. Only as fresh as the last
    /// fetch.
    pub fn unpulled(&self) -> (r: u32)
        ensures
            r == self.unpulled_count(),
    {
        let mut total: u32 = 0;
        let mut i: usize = 0;
        while i < self.branches.len()
            invariant
                i <= self.branches@.len(),
                total == crate::number::wrap32(behind_sum(self.branches@.take(i as int))),
            decreases self.branches@.len() - i,
        {
            assert(self.branches@.take(i + 1).take(i as int) =~= self.branches@.take(i as int));
            proof {
                crate::number::lemma_wrap32_add(
                    behind_sum(self.branches@.take(i as int)),
                    self.branches@[i as int].behind as int,
                );
            }
            total = add32(total, self.branches[i].behind);
            i = i + 1;
        }
        assert(self.branches@.take(i as int) =~= self.branches@);
        total
    }

    pub fn current_branch(&self) -> (r: Option<&BranchInfo>)
        ensures
            (match r {
                Some(b) => self.current() == Some(*b),
                None => self.current() is None,
            }),
    {
        match &self.head {
            Head::Branch(name) => find_branch(&self.branches, name.as_str()),
            _ => None,
        }
    }

    /// True when the newest tag isn't reachable from HEAD. Normal in git-flow
    /// (tags land on `master`, work continues on `develop`) but it means
    /// "commits since tag" needs reading with care.
    pub fn tag_off_branch(&self) -> (r: bool)
        ensures
            r == self.is_tag_off_branch(),
    {
        if self.tags_orphaned {
            return false;
        }
        match (&self.newest_tag, &self.described_tag) {
            (Some(newest), Some(described)) => !same(
                newest.name.as_str(),
                described.name.as_str(),
            ),
            (Some(_), None) => true,
            _ => false,
        }
    }

    pub fn newest_commit_at(&self) -> (r: i64)
        ensures
            r == newest_commit(self.branches@),
    {
        if self.branches.len() == 0 {
            return 0;
        }
        let mut best: i64 = self.branches[0].committed_at;
        let mut i: usize = 1;
        assert(newest_commit(self.branches@.take(1)) == best);
        while i < self.branches.len()
            invariant
                1 <= i <= self.branches@.len(),
                best == newest_commit(self.branches@.take(i as int)),
            decreases self.branches@.len() - i,
        {
            assert(self.branches@.take(i + 1).take(i as int) =~= self.branches@.take(i as int));
            if self.branches[i].committed_at >= best {
                best = self.branches[i].committed_at;
            }
            i = i + 1;
        }
        assert(self.branches@.take(i as int) =~= self.branches@);
        best
    }
}

#[derive(Clone, Copy, Debug, PartialEq, Eq, Structural)]
pub enum ChangeKind {
    Staged,
    Unstaged,
    Untracked,
    Conflicted,
}

#[derive(Debug)]
pub struct ChangedFile {
    pub path: String,
    /// The raw two-letter XY code from porcelain v2, e.g. `M.`, `.M`, `??`.
    pub code: String,
    pub kind: ChangeKind,
    pub mtime: Option<i64>,
}

/// A changed file, by its contents.
pub struct FileEntry {
    pub path: Seq<char>,
    pub code: Seq<char>,
    pub kind: ChangeKind,
    pub mtime: Option<i64>,
}

impl View for ChangedFile {
    type V = FileEntry;

    open spec fn view(&self) -> FileEntry {
        FileEntry { path: self.path@, code: self.code@, kind: self.kind, mtime: self.mtime }
    }
}

pub open spec fn file_entries(fs: Seq<ChangedFile>) -> Seq<FileEntry> {
    fs.map_values(|f: ChangedFile| f@)
}

impl Clone for ChangedFile {
    fn clone(&self) -> (r: Self)
        ensures
            r == *self,
    {
        ChangedFile {
            path: self.path.clone(),
            code: self.code.clone(),
            kind: self.kind,
            mtime: self.mtime,
        }
    }
}

/// Tier 2: the working-tree scan. This is the expensive half.
#[derive(Debug)]
pub struct WorkInfo {
    pub staged: u32,
    pub unstaged: u32,
    pub untracked: u32,
    pub conflicts: u32,
    /// Newest mtime across changed files. This is what makes "modified in the
    /// last hour" work for a dirty repo, since working-tree edits never touch
    /// anything under `.git`.
    pub newest_mtime: Option<i64>,
    pub files: Vec<ChangedFile>,
    pub truncated: bool,
}

impl WorkInfo {
    /// Whether another says the same.
    pub open spec fn same_as(&self, other: &WorkInfo) -> bool {
        &&& self.staged == other.staged
        &&& self.unstaged == other.unstaged
        &&& self.untracked == other.untracked
        &&& self.conflicts == other.conflicts
        &&& self.newest_mtime == other.newest_mtime
        &&& self.files@ == other.files@
        &&& self.truncated == other.truncated
    }
}

impl Clone for WorkInfo {
    fn clone(&self) -> (r: Self)
        ensures
            r.same_as(self),
    {
        let mut files: Vec<ChangedFile> = Vec::new();
        let mut i: usize = 0;
        while i < self.files.len()
            invariant
                i <= self.files@.len(),
                files@ == self.files@.take(i as int),
            decreases self.files@.len() - i,
        {
            files.push(self.files[i].clone());
            i = i + 1;
            assert(files@ =~= self.files@.take(i as int));
        }
        assert(self.files@.take(i as int) =~= self.files@);
        WorkInfo {
            staged: self.staged,
            unstaged: self.unstaged,
            untracked: self.untracked,
            conflicts: self.conflicts,
            newest_mtime: self.newest_mtime,
            files,
            truncated: self.truncated,
        }
    }
}

impl WorkInfo {
    pub open spec fn change_count(&self) -> int {
        crate::number::wrap32(self.staged + self.unstaged + self.untracked + self.conflicts)
    }

    pub fn total(&self) -> (r: u32)
        ensures
            r == self.change_count(),
    {
        add32(add32(add32(self.staged, self.unstaged), self.untracked), self.conflicts)
    }

    pub fn is_dirty(&self) -> (r: bool)
        ensures
            r == (self.change_count() > 0),
    {
        self.total() > 0
    }
}

/// Cache validity key for tier 2. If HEAD and the index are unchanged, a
/// cached working-tree result is still good.
#[derive(Debug, PartialEq, Eq)]
pub struct WorkKey {
    pub head_sha: Option<String>,
    pub index_mtime: Option<i64>,
    pub index_size: Option<u64>,
}

impl Clone for WorkKey {
    fn clone(&self) -> (r: Self)
        ensures
            r == *self,
    {
        WorkKey {
            head_sha: copy_opt(&self.head_sha),
            index_mtime: self.index_mtime,
            index_size: self.index_size,
        }
    }
}

/// Whether two optional texts are the same.
pub fn same_opt(a: &Option<String>, b: &Option<String>) -> (r: bool)
    ensures
        r == (crate::pathname::opt_text(*a) == crate::pathname::opt_text(*b)),
{
    match (a, b) {
        (Some(x), Some(y)) => same(x.as_str(), y.as_str()),
        (None, None) => true,
        _ => false,
    }
}

impl WorkKey {
    /// Whether two keys name the same state of HEAD and index.
    pub open spec fn agrees(&self, other: &WorkKey) -> bool {
        &&& crate::pathname::opt_text(self.head_sha) == crate::pathname::opt_text(other.head_sha)
        &&& self.index_mtime == other.index_mtime
        &&& self.index_size == other.index_size
    }

    pub fn matches(&self, other: &WorkKey) -> (r: bool)
        ensures
            r == self.agrees(other),
    {
        same_opt(&self.head_sha, &other.head_sha) && same_i64(self.index_mtime, other.index_mtime)
            && match (self.index_size, other.index_size) {
            (Some(a), Some(b)) => a == b,
            (None, None) => true,
            _ => false,
        }
    }
}

fn same_i64(a: Option<i64>, b: Option<i64>) -> (r: bool)
    ensures
        r == (a == b),
{
    match (a, b) {
        (Some(x), Some(y)) => x == y,
        (None, None) => true,
        _ => false,
    }
}

/// Why a repo's activity timestamp is what it is, so the age column can always
/// be explained rather than just asserted.
#[derive(Clone, Copy, Debug, PartialEq, Eq, Structural)]
pub enum ActivitySource {
    Commit,
    WorkingTree,
    Unknown,
}

impl ActivitySource {
    pub open spec fn label_text(&self) -> Seq<char> {
        match self {
            ActivitySource::Commit => "last commit"@,
            ActivitySource::WorkingTree => "file edit"@,
            ActivitySource::Unknown => "unknown"@,
        }
    }

    pub fn label(&self) -> (r: &'static str)
        ensures
            r@ == self.label_text(),
    {
        match self {
            ActivitySource::Commit => "last commit",
            ActivitySource::WorkingTree => "file edit",
            ActivitySource::Unknown => "unknown",
        }
    }
}

/// Where a repo stands against its own release history.
///
/// This is a separate axis from the working state. A repo can be dirty and
/// released, or spotless and still needing a release, and the two questions get
/// asked at different times: "what am I in the middle of" versus "what have I
/// not shipped".
#[derive(Clone, Copy, Debug, PartialEq, Eq, Structural)]
pub enum ReleaseState {
    /// No tags at all. Never been released.
    Unreleased,
    /// Tagged, with nothing since.
    Released,
    /// Tagged, but there are commits or uncommitted changes past the tag.
    NeedsRelease,
    /// Past its tag, but somebody decided that this commit is not worth a
    /// release. See [`crate::hold`].
    Held,
}

impl ReleaseState {
    pub open spec fn label_text(&self) -> Seq<char> {
        match self {
            ReleaseState::Unreleased => "unreleased"@,
            ReleaseState::Released => "released"@,
            ReleaseState::NeedsRelease => "needs release"@,
            ReleaseState::Held => "held"@,
        }
    }

    pub open spec fn key_text(&self) -> Seq<char> {
        match self {
            ReleaseState::Unreleased => "unreleased"@,
            ReleaseState::Released => "released"@,
            ReleaseState::NeedsRelease => "needs-release"@,
            ReleaseState::Held => "held"@,
        }
    }

    pub fn label(&self) -> (r: &'static str)
        ensures
            r@ == self.label_text(),
    {
        match self {
            ReleaseState::Unreleased => "unreleased",
            ReleaseState::Released => "released",
            ReleaseState::NeedsRelease => "needs release",
            ReleaseState::Held => "held",
        }
    }

    pub fn key(&self) -> (r: &'static str)
        ensures
            r@ == self.key_text(),
    {
        match self {
            ReleaseState::Unreleased => "unreleased",
            ReleaseState::Released => "released",
            ReleaseState::NeedsRelease => "needs-release",
            ReleaseState::Held => "held",
        }
    }
}

/// Coarse state used for colouring and the default filters.
#[derive(Clone, Copy, Debug, PartialEq, Eq, Structural)]
pub struct Flags {
    pub dirty: bool,
    pub unpushed: bool,
    pub conflicted: bool,
    pub in_progress: bool,
    pub detached: bool,
    pub no_remote: bool,
    pub no_upstream: bool,
    pub stashed: bool,
    pub error: bool,
}

impl Flags {
    pub open spec fn is_clean(&self) -> bool {
        !self.dirty && !self.unpushed && !self.conflicted && !self.in_progress && !self.error
    }

    /// Nothing outstanding in the working tree or against the upstream. Says
    /// nothing about releases; that is [`ReleaseState`].
    pub fn clean(&self) -> (r: bool)
        ensures
            r == self.is_clean(),
    {
        !self.dirty && !self.unpushed && !self.conflicted && !self.in_progress && !self.error
    }
}

/// A repo's visibility on its hosting service, as last observed. This is not a
/// `git` concept at all — nothing under `.git` records whether a remote is
/// public or private, so unlike every other field here it can only come from
/// asking the host.
#[derive(Clone, Copy, Debug, PartialEq, Eq, Structural)]
pub enum Visibility {
    Public,
    Private,
    /// GitHub Enterprise's "visible to the whole org, but not the world"
    /// tier. Kept distinct rather than folded into `Private` because that
    /// would misreport it to anyone scanning for truly private repos.
    Internal,
}

impl Visibility {
    pub open spec fn label_text(&self) -> Seq<char> {
        match self {
            Visibility::Public => "public"@,
            Visibility::Private => "private"@,
            Visibility::Internal => "internal"@,
        }
    }

    /// What a host's answer means, whatever its case and the space around it.
    pub open spec fn meaning(s: Seq<char>) -> Option<Visibility> {
        let key = crate::text::uppercase(crate::text::trim(s));
        if key == "PUBLIC"@ {
            Some(Visibility::Public)
        } else if key == "PRIVATE"@ {
            Some(Visibility::Private)
        } else if key == "INTERNAL"@ {
            Some(Visibility::Internal)
        } else {
            None
        }
    }

    pub fn label(&self) -> (r: &'static str)
        ensures
            r@ == self.label_text(),
    {
        match self {
            Visibility::Public => "public",
            Visibility::Private => "private",
            Visibility::Internal => "internal",
        }
    }

    /// Reads a host's answer.
    pub fn parse(s: &str) -> (r: Result<Visibility, ()>)
        ensures
            (match r {
                Ok(v) => Visibility::meaning(s@) == Some(v),
                Err(_) => Visibility::meaning(s@) is None,
            }),
    {
        let v = to_chars(s);
        let key = from_chars(to_uppercase(trimmed(v.as_slice())).as_slice());
        if same(key.as_str(), "PUBLIC") {
            Ok(Visibility::Public)
        } else if same(key.as_str(), "PRIVATE") {
            Ok(Visibility::Private)
        } else if same(key.as_str(), "INTERNAL") {
            Ok(Visibility::Internal)
        } else {
            Err(())
        }
    }
}

impl std::str::FromStr for Visibility {
    type Err = ();

    fn from_str(s: &str) -> (r: Result<Self, Self::Err>)
        ensures
            (match r {
                Ok(v) => Visibility::meaning(s@) == Some(v),
                Err(_) => Visibility::meaning(s@) is None,
            }),
    {
        Visibility::parse(s)
    }
}

/// What's known about a repo's visibility, or the specific reason nothing is.
/// Every variant but [`Known`](VisibilityStatus::Known) is a real, distinct
/// fact rather than a catch-all -- the point of having this many variants
/// instead of a plain `Option<Visibility>` is that "we don't know" always has
/// a specific cause worth saying.
#[derive(Debug, PartialEq, Eq)]
pub enum VisibilityStatus {
    /// A value a hosting provider actually reported (see [`crate::provider`]).
    Known(Visibility),
    /// This repo's remote isn't on any host [`crate::provider::detect`]
    /// recognises -- a different host than the ones supported, or a URL that
    /// doesn't parse into `owner/repo` at all. Determined from the remote URL
    /// alone, no network call involved, so unlike
    /// [`Known`](VisibilityStatus::Known) it's never stale and never costs a
    /// CLI invocation to say.
    Unsupported,
    /// No remote at all, so there's nothing any provider could ever check.
    /// Also free to determine.
    NoRemote,
    /// The repo itself couldn't be read, so whether it even has a remote is
    /// unknown. Distinct from [`NoRemote`](VisibilityStatus::NoRemote), which
    /// is a fact established about a repo that *was* read — claiming it here
    /// would state something nothing checked.
    Unknown,
    /// The remote is checkable -- a provider recognises it -- but
    /// `visibility.enabled` is off, so nothing has actually asked.
    CheckingDisabled,
    /// A provider check was attempted and failed (rate limited, not
    /// authenticated, timed out), and there was no previously cached value to
    /// fall back to. The reason is kept, but only surfaced in `status`,
    /// `--json`, and the detail view -- never in a table, where one long
    /// message would widen the column for every row.
    CheckFailed(String),
}

impl Clone for VisibilityStatus {
    fn clone(&self) -> (r: Self)
        ensures
            r == *self,
    {
        match self {
            VisibilityStatus::Known(v) => VisibilityStatus::Known(*v),
            VisibilityStatus::Unsupported => VisibilityStatus::Unsupported,
            VisibilityStatus::NoRemote => VisibilityStatus::NoRemote,
            VisibilityStatus::Unknown => VisibilityStatus::Unknown,
            VisibilityStatus::CheckingDisabled => VisibilityStatus::CheckingDisabled,
            VisibilityStatus::CheckFailed(reason) => VisibilityStatus::CheckFailed(reason.clone()),
        }
    }
}

impl VisibilityStatus {
    pub open spec fn label_text(&self) -> Seq<char> {
        match self {
            VisibilityStatus::Known(v) => v.label_text(),
            VisibilityStatus::Unsupported => "unsupported"@,
            VisibilityStatus::NoRemote => "no remote configured"@,
            VisibilityStatus::Unknown => "unknown"@,
            VisibilityStatus::CheckingDisabled => "checking disabled"@,
            VisibilityStatus::CheckFailed(_) => "check failed"@,
        }
    }

    /// Short label for tables and the common case. `CheckFailed` deliberately
    /// does not include its reason here -- see the variant's own docs.
    pub fn label(&self) -> (r: &'static str)
        ensures
            r@ == self.label_text(),
    {
        match self {
            VisibilityStatus::Known(v) => v.label(),
            VisibilityStatus::Unsupported => "unsupported",
            VisibilityStatus::NoRemote => "no remote configured",
            VisibilityStatus::Unknown => "unknown",
            VisibilityStatus::CheckingDisabled => "checking disabled",
            VisibilityStatus::CheckFailed(_) => "check failed",
        }
    }
}

/// Visibility as last checked, plus when. Kept separate from [`RefsInfo`]
/// because it comes from a different tool, costs real network and API time, and
/// goes stale on its own clock rather than whenever HEAD or the index moves.
#[derive(Debug)]
pub struct VisibilityInfo {
    pub status: VisibilityStatus,
    pub checked_at: i64,
}

impl Clone for VisibilityInfo {
    fn clone(&self) -> (r: Self)
        ensures
            r == *self,
    {
        VisibilityInfo { status: self.status.clone(), checked_at: self.checked_at }
    }
}

/// One repo, as most recently observed.
#[derive(Clone, Debug)]
pub struct RepoStatus {
    pub root: String,
    /// First path segment below the scan root, e.g. `grav` or `yetidevworks`.
    /// Empty when the repo sits directly in a root.
    pub group: String,
    pub name: String,
    pub refs: Option<RefsInfo>,
    pub work: Option<WorkInfo>,
    pub error: Option<String>,
    pub refs_probed_at: i64,
    pub work_probed_at: i64,
    pub work_key: Option<WorkKey>,
    /// The visibility probe always sets this to `Some` once it has run -- even
    /// "no remote" and "checking is off" are real, stored facts (see
    /// [`VisibilityStatus`]), not just an absence. `None` only means it hasn't
    /// run at all.
    pub visibility: Option<VisibilityInfo>,
    /// The hold this repo is under, stamped by [`crate::hold::apply`]. It may
    /// have been lifted: see [`Hold::covers`].
    pub hold: Option<Hold>,
}

impl RepoStatus {
    // -- what the values mean ------------------------------------------------
    pub open spec fn visibility_text(&self) -> Seq<char> {
        match self.visibility {
            Some(v) => v.status.label_text(),
            None => "-"@,
        }
    }

    pub open spec fn marker_text(&self) -> Seq<char> {
        match self.visibility {
            Some(v) => match v.status {
                VisibilityStatus::Known(Visibility::Public) => "●"@,
                VisibilityStatus::Known(Visibility::Private) => "⊘"@,
                VisibilityStatus::Known(Visibility::Internal) => "◐"@,
                VisibilityStatus::CheckFailed(_) => "!"@,
                _ => "·"@,
            },
            None => "-"@,
        }
    }

    pub open spec fn slug_text(&self) -> Seq<char> {
        if self.group@.len() == 0 {
            self.name@
        } else {
            self.group@ + "/"@ + self.name@
        }
    }

    /// The newest of what counts as touching the repo: a commit, then a saved
    /// change. Only times after the epoch count, and a commit wins a tie.
    pub open spec fn last_activity(&self) -> (int, ActivitySource) {
        let commit = match self.refs {
            Some(refs) => newest_commit(refs.branches@),
            None => 0,
        };
        let edit = match self.work {
            Some(work) => match work.newest_mtime {
                Some(m) => m as int,
                None => 0,
            },
            None => 0,
        };
        if edit > 0 && edit > commit {
            (edit, ActivitySource::WorkingTree)
        } else if commit > 0 {
            (commit, ActivitySource::Commit)
        } else {
            (0, ActivitySource::Unknown)
        }
    }

    pub open spec fn dirty_count(&self) -> int {
        match self.work {
            Some(w) => w.change_count(),
            None => 0,
        }
    }

    pub open spec fn unpushed_count(&self) -> int {
        match self.refs {
            Some(r) => r.unpushed_count(),
            None => 0,
        }
    }

    pub open spec fn behind_count(&self) -> int {
        match self.refs {
            Some(r) => r.unpulled_count(),
            None => 0,
        }
    }

    /// The branch that is checked out.
    pub open spec fn current(&self) -> Option<BranchInfo> {
        match self.refs {
            Some(r) => r.current(),
            None => None,
        }
    }

    pub open spec fn branch_ahead(&self) -> int {
        match self.current() {
            Some(b) => b.ahead as int,
            None => 0,
        }
    }

    pub open spec fn branch_back(&self) -> int {
        match self.current() {
            Some(b) => b.behind as int,
            None => 0,
        }
    }

    pub open spec fn the_flags(&self) -> Flags {
        Flags {
            dirty: self.dirty_count() > 0,
            unpushed: self.unpushed_count() > 0,
            conflicted: match self.work {
                Some(w) => w.conflicts > 0,
                None => false,
            },
            in_progress: match self.refs {
                Some(r) => r.operation is Some,
                None => false,
            },
            detached: match self.refs {
                Some(r) => r.head is Detached,
                None => false,
            },
            no_remote: match self.refs {
                Some(r) => r.remote_url is None,
                None => false,
            },
            no_upstream: match self.current() {
                Some(b) => b.upstream is None,
                None => false,
            },
            stashed: match self.refs {
                Some(r) => r.stashes > 0,
                None => false,
            },
            error: self.error is Some,
        }
    }

    /// The short sha HEAD is at.
    pub open spec fn head_commit(&self) -> Option<Seq<char>> {
        match self.refs {
            Some(r) => match r.last_commit {
                Some(c) => Some(c.sha@),
                None => None,
            },
            None => None,
        }
    }

    pub open spec fn since_tag(&self) -> int {
        match self.refs {
            Some(r) => match r.commits_since_tag {
                Some(n) => n as int,
                None => 0,
            },
            None => 0,
        }
    }

    /// The release state as the tags tell it.
    pub open spec fn raw_state(&self) -> ReleaseState {
        match self.refs {
            None => ReleaseState::Unreleased,
            Some(refs) => if refs.newest_tag is None || refs.tags_orphaned {
                ReleaseState::Unreleased
            } else if self.since_tag() > 0 || self.dirty_count() > 0 || refs.described_tag is None {
                ReleaseState::NeedsRelease
            } else {
                ReleaseState::Released
            },
        }
    }

    /// Whether a hold covers what is checked out.
    pub open spec fn is_held(&self) -> bool {
        match self.hold {
            Some(h) => self.head_commit() == Some(h.sha@),
            None => false,
        }
    }

    /// The release state, with a hold that still covers HEAD taken into
    /// account.
    pub open spec fn state(&self) -> ReleaseState {
        if self.raw_state() == ReleaseState::NeedsRelease && self.is_held() {
            ReleaseState::Held
        } else {
            self.raw_state()
        }
    }

    pub open spec fn branch_text(&self) -> Seq<char> {
        match self.refs {
            Some(r) => r.head.label_text(),
            None => "?"@,
        }
    }

    pub open spec fn tag_text(&self) -> Seq<char> {
        match self.refs {
            None => "-"@,
            Some(r) => match r.described_tag {
                Some(t) => t.name@,
                None => match r.newest_tag {
                    Some(t) => if r.tags_orphaned {
                        "-"@
                    } else {
                        "("@ + t.name@ + ")"@
                    },
                    None => "-"@,
                },
            },
        }
    }

    pub open spec fn bare(&self) -> bool {
        match self.refs {
            Some(r) => r.is_bare,
            None => false,
        }
    }

    pub open spec fn state_text(&self) -> Seq<char> {
        let f = self.the_flags();
        if f.error {
            "error"@
        } else if f.conflicted {
            "conflict"@
        } else if f.in_progress {
            self.refs->0.operation->0.label_text()
        } else if f.dirty {
            "dirty"@
        } else if f.unpushed {
            "unpushed"@
        } else if self.bare() {
            "bare"@
        } else if self.work is None {
            "…"@
        } else {
            "clean"@
        }
    }

    pub open spec fn fetch_time(&self) -> Option<i64> {
        match self.refs {
            Some(r) => r.fetched_at,
            None => None,
        }
    }

    pub open spec fn is_never_fetched(&self) -> bool {
        match self.refs {
            Some(r) => r.remote_url is Some && r.fetched_at is None,
            None => false,
        }
    }

    // -- construction and access ---------------------------------------------
    pub fn new(root: String, group: String, name: String) -> (r: Self)
        ensures
            r == (RepoStatus {
                root,
                group,
                name,
                refs: None,
                work: None,
                error: None,
                refs_probed_at: 0,
                work_probed_at: 0,
                work_key: None,
                visibility: None,
                hold: None,
            }),
    {
        RepoStatus {
            root,
            group,
            name,
            refs: None,
            work: None,
            error: None,
            refs_probed_at: 0,
            work_probed_at: 0,
            work_key: None,
            visibility: None,
            hold: None,
        }
    }

    /// Short label for the VISIBILITY column. See [`VisibilityStatus::label`]
    /// for the possible values; `-` only appears before the repo has been
    /// probed at all, which a rendered row should never actually show.
    pub fn visibility_label(&self) -> (r: &'static str)
        ensures
            r@ == self.visibility_text(),
    {
        match &self.visibility {
            Some(v) => v.status.label(),
            None => "-",
        }
    }

    /// The marker for the VISIBILITY column — on its own in the short form,
    /// and in front of the label in the long one, so the two can't drift.
    ///
    /// Filled means "out in the open". `⊘` (circled division slash) is the
    /// same stroke as a prohibited sign and reads as "access denied" more
    /// directly than a hollow circle would; `◐` says internal is half of
    /// each. A check that was attempted and *failed* is worth telling apart
    /// from one that was never made, since it's the only one you can act on.
    pub fn visibility_marker(&self) -> (r: &'static str)
        ensures
            r@ == self.marker_text(),
    {
        match &self.visibility {
            Some(v) => match &v.status {
                VisibilityStatus::Known(Visibility::Public) => "●",
                VisibilityStatus::Known(Visibility::Private) => "⊘",
                VisibilityStatus::Known(Visibility::Internal) => "◐",
                VisibilityStatus::CheckFailed(_) => "!",
                _ => "·",
            },
            None => "-",
        }
    }

    /// `group/name`, or just `name` for repos sitting directly in a root.
    pub fn slug(&self) -> (r: String)
        ensures
            r@ == self.slug_text(),
    {
        if to_chars(self.group.as_str()).len() == 0 {
            self.name.clone()
        } else {
            let mut out = self.group.clone();
            out.append("/");
            out.append(self.name.as_str());
            out
        }
    }

    /// When this repo was last touched in any way that counts, and by what.
    ///
    /// A clean repo's activity is its newest commit. A dirty repo's activity is
    /// when a changed file was last saved, which is usually much more recent.
    ///
    /// The index mtime is deliberately not part of this. It looks like a good
    /// signal and isn't: any tool that runs `git status` refreshes the index,
    /// so an editor or GUI client sitting open on a repo makes it read as
    /// active when nothing has actually happened. Nothing is lost by ignoring
    /// it, because staged changes still have working-tree mtimes of their own.
    pub fn activity(&self) -> (r: (i64, ActivitySource))
        ensures
            r.0 == self.last_activity().0,
            r.1 == self.last_activity().1,
    {
        let mut at: i64 = 0;
        let mut source = ActivitySource::Unknown;
        if let Some(refs) = &self.refs {
            let commit: i64 = refs.newest_commit_at();
            if commit > at {
                at = commit;
                source = ActivitySource::Commit;
            }
        }
        if let Some(work) = &self.work {
            if let Some(m) = work.newest_mtime {
                if m > at {
                    at = m;
                    source = ActivitySource::WorkingTree;
                }
            }
        }
        (at, source)
    }

    pub fn activity_at(&self) -> (r: i64)
        ensures
            r == self.last_activity().0,
    {
        self.activity().0
    }

    pub fn flags(&self) -> (r: Flags)
        ensures
            r == self.the_flags(),
    {
        let mut flags = Flags {
            dirty: self.dirty_total() > 0,
            unpushed: self.unpushed_total() > 0,
            conflicted: false,
            in_progress: false,
            detached: false,
            no_remote: false,
            no_upstream: false,
            stashed: false,
            error: self.error.is_some(),
        };
        if let Some(work) = &self.work {
            flags.conflicted = work.conflicts > 0;
        }
        if let Some(refs) = &self.refs {
            flags.in_progress = refs.operation.is_some();
            flags.detached = matches!(refs.head, Head::Detached { .. });
            flags.no_remote = refs.remote_url.is_none();
            flags.no_upstream = match refs.current_branch() {
                Some(b) => b.upstream.is_none(),
                None => false,
            };
            flags.stashed = refs.stashes > 0;
        }
        flags
    }

    /// The short sha HEAD is at, or `None` where there is no commit to name.
    pub fn head_sha(&self) -> (r: Option<&str>)
        ensures
            (match r {
                Some(s) => self.head_commit() == Some(s@),
                None => self.head_commit() is None,
            }),
    {
        match &self.refs {
            Some(refs) => match &refs.last_commit {
                Some(c) => Some(c.sha.as_str()),
                None => None,
            },
            None => None,
        }
    }

    /// Where this repo stands against its own release history, whatever it is
    /// held at.
    ///
    /// Uncommitted changes count as needing a release: whatever is in the
    /// working tree is not in the tag either. A tag that exists but is not
    /// reachable from HEAD also counts, because this branch has never been
    /// released even though some other one has. Orphaned tags are the
    /// exception, and read as never released: see `tags_orphaned`.
    pub fn release_state_raw(&self) -> (r: ReleaseState)
        ensures
            r == self.raw_state(),
    {
        let refs = match &self.refs {
            Some(refs) => refs,
            None => {
                return ReleaseState::Unreleased;
            },
        };
        if refs.newest_tag.is_none() || refs.tags_orphaned {
            return ReleaseState::Unreleased;
        }
        if self.commits_since_tag() > 0 || self.dirty_total() > 0 || refs.described_tag.is_none() {
            ReleaseState::NeedsRelease
        } else {
            ReleaseState::Released
        }
    }

    /// Where this repo stands against its own release history: as
    /// [`Self::release_state_raw`] has it, but for a repo whose hold covers the
    /// commit that is checked out, which is taken out of "needs release".
    pub fn release_state(&self) -> (r: ReleaseState)
        ensures
            r == self.state(),
    {
        let raw = self.release_state_raw();
        match raw {
            ReleaseState::NeedsRelease => match &self.hold {
                Some(hold) => {
                    if hold.covers(self.head_sha()) {
                        ReleaseState::Held
                    } else {
                        raw
                    }
                },
                None => raw,
            },
            _ => raw,
        }
    }

    pub fn dirty_total(&self) -> (r: u32)
        ensures
            r == self.dirty_count(),
    {
        match &self.work {
            Some(w) => w.total(),
            None => 0,
        }
    }

    pub fn unpushed_total(&self) -> (r: u32)
        ensures
            r == self.unpushed_count(),
    {
        match &self.refs {
            Some(r) => r.unpushed(),
            None => 0,
        }
    }

    pub fn behind_total(&self) -> (r: u32)
        ensures
            r == self.behind_count(),
    {
        match &self.refs {
            Some(r) => r.unpulled(),
            None => 0,
        }
    }

    /// Commits the checked-out branch hasn't pushed. What the AHEAD column
    /// shows, because it sits next to BRANCH and has to mean the same branch
    /// BRANCH names. Zero on a detached HEAD: there is no branch to be ahead.
    pub fn branch_unpushed(&self) -> (r: u32)
        ensures
            r == self.branch_ahead(),
    {
        match &self.refs {
            Some(refs) => match refs.current_branch() {
                Some(b) => b.ahead,
                None => 0,
            },
            None => 0,
        }
    }

    /// Commits the checked-out branch's upstream has and it doesn't. The
    /// per-branch half of [`Self::behind_total`], for the same reason as
    /// [`Self::branch_unpushed`].
    pub fn branch_behind(&self) -> (r: u32)
        ensures
            r == self.branch_back(),
    {
        match &self.refs {
            Some(refs) => match refs.current_branch() {
                Some(b) => b.behind,
                None => 0,
            },
            None => 0,
        }
    }

    /// True when a branch you don't have checked out is ahead of its upstream.
    /// The columns show the current branch, so this is what keeps a stale side
    /// branch from vanishing out of the table entirely -- it earns the cell a
    /// trailing `*`.
    pub fn other_branches_unpushed(&self) -> (r: bool)
        ensures
            r == (self.unpushed_count() > self.branch_ahead()),
    {
        self.unpushed_total() > self.branch_unpushed()
    }

    /// True when a branch you don't have checked out is behind its upstream.
    pub fn other_branches_behind(&self) -> (r: bool)
        ensures
            r == (self.behind_count() > self.branch_back()),
    {
        self.behind_total() > self.branch_behind()
    }

    /// When anything last fetched this repo, or `None` if nothing ever has.
    pub fn fetched_at(&self) -> (r: Option<i64>)
        ensures
            r == self.fetch_time(),
    {
        match &self.refs {
            Some(refs) => refs.fetched_at,
            None => None,
        }
    }

    /// True when this repo has a remote worth asking about and nobody has
    /// ever asked.
    ///
    /// The distinction the "behind" column exists to draw. Zero behind reads
    /// as "in sync", and for a repo that has never fetched that is a claim
    /// nothing checked: the count is zero because there are no remote-tracking
    /// refs to compare against, not because the remote has nothing new. A repo
    /// with no remote at all is not in this state -- there is nothing to be
    /// behind.
    pub fn never_fetched(&self) -> (r: bool)
        ensures
            r == self.is_never_fetched(),
    {
        match &self.refs {
            Some(refs) => refs.remote_url.is_some() && refs.fetched_at.is_none(),
            None => false,
        }
    }

    /// How many stash entries this repo has, or `None` if nothing has probed
    /// it yet.
    ///
    /// Optional rather than a bare count for the same reason CHANGES draws
    /// the distinction: zero stashes is a fact worth reporting, and a repo
    /// nobody has looked at yet is not that fact. A bare repo does come back
    /// `Some(0)` -- the stash reflog is read straight off disk, so its absence
    /// there is a real answer rather than a missing one.
    pub fn stash_count(&self) -> (r: Option<u32>)
        ensures
            r == (match self.refs {
                Some(refs) => Some(refs.stashes),
                None => None,
            }),
    {
        match &self.refs {
            Some(refs) => Some(refs.stashes),
            None => None,
        }
    }

    pub fn commits_since_tag(&self) -> (r: u32)
        ensures
            r == self.since_tag(),
    {
        match &self.refs {
            Some(refs) => match refs.commits_since_tag {
                Some(n) => n,
                None => 0,
            },
            None => 0,
        }
    }

    pub fn branch_label(&self) -> (r: String)
        ensures
            r@ == self.branch_text(),
    {
        match &self.refs {
            Some(refs) => refs.head.label(),
            None => "?".to_owned(),
        }
    }

    pub fn tag_label(&self) -> (r: String)
        ensures
            r@ == self.tag_text(),
    {
        let refs = match &self.refs {
            Some(refs) => refs,
            None => {
                return "-".to_owned();
            },
        };
        match &refs.described_tag {
            Some(t) => t.name.clone(),
            // An orphaned tag is not this repo's version, so showing it would
            // only mislead.
            None => match &refs.newest_tag {
                Some(t) => {
                    if refs.tags_orphaned {
                        "-".to_owned()
                    } else {
                        let mut out = "(".to_owned();
                        out.append(t.name.as_str());
                        out.append(")");
                        out
                    }
                },
                None => "-".to_owned(),
            },
        }
    }

    /// Short one-word state used in the table's STATE column.
    pub fn state_label(&self) -> (r: &'static str)
        ensures
            r@ == self.state_text(),
    {
        let f = self.flags();
        if f.error {
            "error"
        } else if f.conflicted {
            "conflict"
        } else if f.in_progress {
            match &self.refs {
                Some(refs) => match refs.operation {
                    Some(o) => o.label(),
                    None => "in progress",
                },
                None => "in progress",
            }
        } else if f.dirty {
            "dirty"
        } else if f.unpushed {
            "unpushed"
        } else if self.is_bare() {
            // Checked after `unpushed`, because a bare repo holding branches
            // its remote hasn't seen is still worth saying so about. But it
            // has no working tree to be dirty and never runs tier 2, so the
            // "not scanned yet" ellipsis below would be permanent here.
            "bare"
        } else if self.work.is_none() {
            "…"
        } else {
            "clean"
        }
    }

    /// Whether this is a bare repo — no working tree, so nothing to scan for
    /// uncommitted changes and nothing `git status` can be asked about. Most
    /// often the container of a bare-plus-worktrees layout, whose worktrees
    /// are discovered as repos in their own right.
    pub fn is_bare(&self) -> (r: bool)
        ensures
            r == self.bare(),
    {
        match &self.refs {
            Some(refs) => refs.is_bare,
            None => false,
        }
    }
}

// ---------------------------------------------------------------------------
// Laws
// ---------------------------------------------------------------------------

/// The two release questions are separate from the working state: a repo that is
/// clean may still need a release, but one with uncommitted changes past a tag of
/// its own never reads as released.
pub proof fn law_dirty_is_never_released(repo: &RepoStatus)
    requires
        repo.the_flags().dirty,
    ensures
        repo.state() != ReleaseState::Released,
{
}

/// A repo with nothing to tag from, or with tags from another life only, reads as
/// never released, whatever else is going on and whatever it is held at.
pub proof fn law_orphaned_tags_are_no_release(repo: &RepoStatus)
    requires
        repo.refs matches Some(r) ==> r.newest_tag is None || r.tags_orphaned,
    ensures
        repo.state() == ReleaseState::Unreleased,
{
}

/// A hold takes a repo out of "needs release" for exactly the commit it names:
/// once HEAD is anywhere else, the hold changes nothing.
pub proof fn law_hold_lifts_when_head_moves(repo: &RepoStatus)
    ensures
        repo.state() == ReleaseState::NeedsRelease <==> repo.raw_state()
            == ReleaseState::NeedsRelease && !repo.is_held(),
        (repo.hold matches Some(h) ==> repo.head_commit() != Some(h.sha@)) ==> repo.state()
            == repo.raw_state(),
        repo.state() == ReleaseState::Held ==> repo.hold is Some && repo.head_commit() == Some(
            repo.hold->0.sha@,
        ),
{
}

/// Commits that any local branch has and its upstream does not make the repo
/// unpushed, whichever branch is checked out. A sum past what a `u32` holds starts
/// over, and is left out.
pub proof fn law_any_branch_makes_a_repo_unpushed(repo: &RepoStatus, i: int)
    requires
        repo.refs is Some,
        0 <= i < repo.refs->0.branches@.len(),
        repo.refs->0.branches@[i].ahead > 0,
        ahead_sum(repo.refs->0.branches@) <= u32::MAX,
    ensures
        repo.the_flags().unpushed,
        repo.unpushed_count() >= repo.refs->0.branches@[i].ahead,
{
    lemma_sum_covers(repo.refs->0.branches@, i);
}

proof fn lemma_sum_covers(bs: Seq<BranchInfo>, i: int)
    requires
        0 <= i < bs.len(),
    ensures
        ahead_sum(bs) >= bs[i].ahead,
    decreases bs.len(),
{
    let rest = bs.take(bs.len() - 1);
    lemma_sum_is_positive(rest);
    if i < bs.len() - 1 {
        lemma_sum_covers(rest, i);
    }
}

proof fn lemma_sum_is_positive(bs: Seq<BranchInfo>)
    ensures
        ahead_sum(bs) >= 0,
    decreases bs.len(),
{
    if bs.len() > 0 {
        lemma_sum_is_positive(bs.take(bs.len() - 1));
    }
}

/// A refreshed index is no activity: two readings of a repo that differ in nothing
/// but the index's time were last touched at the same moment, by the same thing.
pub proof fn law_the_index_is_no_activity(a: &RepoStatus, b: &RepoStatus, index: Option<i64>)
    requires
        a.refs is Some,
        b.work == a.work,
        b.refs == Some(RefsInfo { index_mtime: index, ..a.refs->0 }),
    ensures
        a.last_activity() == b.last_activity(),
{
}

/// A clean repo's activity is its newest commit; a saved change counts only where it
/// is newer than every commit.
pub proof fn law_activity_is_the_newest_touch(repo: &RepoStatus)
    ensures
        repo.work is None || repo.work->0.newest_mtime is None ==> repo.last_activity().1
            != ActivitySource::WorkingTree,
        repo.last_activity().0 >= 0,
        repo.refs matches Some(r) ==> repo.last_activity().0 >= newest_commit(r.branches@),
        (repo.work matches Some(w) && w.newest_mtime is Some) ==> repo.last_activity().0
            >= repo.work->0.newest_mtime->0,
{
}

/// The nearest release that is reachable is shown as it is, and the newest one in
/// parentheses where none is; tags from another life are not shown at all.
pub proof fn law_parentheses_mean_unreachable(repo: &RepoStatus, t: TagInfo)
    requires
        repo.refs is Some,
    ensures
        repo.refs->0.described_tag == Some(t) ==> repo.tag_text() == t.name@,
        repo.refs->0.described_tag is None && repo.refs->0.newest_tag == Some(t)
            && !repo.refs->0.tags_orphaned ==> repo.tag_text() == "("@ + t.name@ + ")"@
            && repo.refs->0.is_tag_off_branch(),
        repo.refs->0.described_tag is None && repo.refs->0.tags_orphaned ==> repo.tag_text()
            == "-"@,
{
}

proof fn lemma_sums_add(a: Seq<BranchInfo>, b: Seq<BranchInfo>)
    ensures
        ahead_sum(a + b) == ahead_sum(a) + ahead_sum(b),
        behind_sum(a + b) == behind_sum(a) + behind_sum(b),
    decreases b.len(),
{
    let whole = a + b;
    if b.len() == 0 {
        assert(whole =~= a);
    } else {
        let rest = b.take(b.len() - 1);
        assert(whole.take(whole.len() - 1) =~= a + rest);
        assert(whole[whole.len() - 1] == b[b.len() - 1]);
        lemma_sums_add(a, rest);
    }
}

/// What has not been pushed, and what has not been pulled, adds up over the branches:
/// the branches of two repos in one count as the two together, past what a `u32` holds
/// starting over from nought.
pub proof fn law_branches_add_up(a: &RefsInfo, b: &RefsInfo, both: &RefsInfo)
    requires
        both.branches@ == a.branches@ + b.branches@,
    ensures
        both.unpushed_count() == (a.unpushed_count() + b.unpushed_count()) % 0x1_0000_0000,
        both.unpulled_count() == (a.unpulled_count() + b.unpulled_count()) % 0x1_0000_0000,
{
    lemma_sums_add(a.branches@, b.branches@);
}

/// A single branch counts its own commits, and no branch counts none.
pub proof fn law_a_branch_counts_its_own(refs: &RefsInfo)
    ensures
        refs.branches@.len() == 0 ==> refs.unpushed_count() == 0 && refs.unpulled_count() == 0,
        refs.branches@.len() == 1 ==> refs.unpushed_count() == refs.branches@[0].ahead
            && refs.unpulled_count() == refs.branches@[0].behind,
{
    reveal_with_fuel(ahead_sum, 2);
    reveal_with_fuel(behind_sum, 2);
}

/// A repo counts what its branches count, and nothing where they are not known.
pub proof fn law_a_repo_counts_its_branches(repo: &RepoStatus)
    ensures
        repo.refs matches Some(refs) ==> repo.unpushed_count() == refs.unpushed_count()
            && repo.behind_count() == refs.unpulled_count(),
        repo.refs is None ==> repo.unpushed_count() == 0 && repo.behind_count() == 0,
{
}

/// The branch that is checked out is the first of the name that HEAD is on.
pub proof fn law_current_is_the_branch_of_head(refs: &RefsInfo, i: int)
    requires
        0 <= i < refs.branches@.len(),
    ensures
        refs.current() is Some ==> refs.head is Branch && refs.current()->0.name@
            == refs.head->Branch_0@ && refs.branches@.contains(refs.current()->0),
        refs.head is Branch && refs.branches@[i].name@ == refs.head->Branch_0@
            ==> refs.current() is Some,
        refs.head is Branch && refs.branches@[i].name@ == refs.head->Branch_0@ && (forall|k: int|
            0 <= k < i ==> (#[trigger] refs.branches@[k]).name@ != refs.head->Branch_0@)
            ==> refs.current() == Some(refs.branches@[i]),
{
    if let Head::Branch(b) = refs.head {
        lemma_branch_from(refs.branches@, b@, 0);
    }
}

proof fn lemma_branch_from(bs: Seq<BranchInfo>, name: Seq<char>, i: int)
    requires
        0 <= i <= bs.len(),
    ensures
        (match branch_from(bs, name, i) {
            Some(at) => i <= at < bs.len() && bs[at].name@ == name && forall|k: int|
                i <= k < at ==> (#[trigger] bs[k]).name@ != name,
            None => forall|k: int| i <= k < bs.len() ==> (#[trigger] bs[k]).name@ != name,
        }),
    decreases bs.len() - i,
{
    if i < bs.len() && bs[i].name@ != name {
        lemma_branch_from(bs, name, i + 1);
    }
}

/// What the checked-out branch has ahead and behind is that branch's own, and nought
/// where HEAD is on no branch.
pub proof fn law_the_current_branch_counts_its_own(repo: &RepoStatus)
    ensures
        repo.refs is None || repo.refs->0.current() is None ==> repo.branch_ahead() == 0
            && repo.branch_back() == 0,
        repo.refs matches Some(refs) ==> (refs.current() matches Some(b) ==> repo.branch_ahead()
            == b.ahead && repo.branch_back() == b.behind),
{
}

/// More is unpushed, or unpulled, than on the checked-out branch exactly where another
/// branch has some. Sums past what a `u32` holds are left out.
pub proof fn law_other_branches_show(repo: &RepoStatus, i: int)
    requires
        repo.refs is Some,
        0 <= i < repo.refs->0.branches@.len(),
        repo.refs->0.current() == Some(repo.refs->0.branches@[i]),
        ahead_sum(repo.refs->0.branches@) <= u32::MAX,
        behind_sum(repo.refs->0.branches@) <= u32::MAX,
    ensures
        repo.unpushed_count() > repo.branch_ahead() <==> exists|k: int|
            0 <= k < repo.refs->0.branches@.len() && k != i && (
            #[trigger] repo.refs->0.branches@[k]).ahead > 0,
        repo.behind_count() > repo.branch_back() <==> exists|k: int|
            0 <= k < repo.refs->0.branches@.len() && k != i && (
            #[trigger] repo.refs->0.branches@[k]).behind > 0,
{
    let bs = repo.refs->0.branches@;
    let front = bs.take(i);
    let back = bs.skip(i + 1);
    let one = seq![bs[i]];
    assert(bs =~= (front + one) + back);
    lemma_sums_add(front, one);
    lemma_sums_add(front + one, back);
    reveal_with_fuel(ahead_sum, 2);
    reveal_with_fuel(behind_sum, 2);
    assert(one.take(0) =~= Seq::empty());
    lemma_sum_is_some(front);
    lemma_sum_is_some(back);
    assert(forall|k: int| 0 <= k < front.len() ==> #[trigger] front[k] == bs[k]);
    assert(forall|k: int| 0 <= k < back.len() ==> #[trigger] back[k] == bs[i + 1 + k]);
    assert forall|k: int| 0 <= k < bs.len() && k != i implies (if k < i {
        front[k] == #[trigger] bs[k]
    } else {
        back[k - i - 1] == bs[k]
    }) by {}
}

proof fn lemma_sum_is_some(bs: Seq<BranchInfo>)
    ensures
        ahead_sum(bs) >= 0,
        behind_sum(bs) >= 0,
        ahead_sum(bs) > 0 <==> exists|k: int| 0 <= k < bs.len() && (#[trigger] bs[k]).ahead > 0,
        behind_sum(bs) > 0 <==> exists|k: int| 0 <= k < bs.len() && (#[trigger] bs[k]).behind > 0,
    decreases bs.len(),
{
    if bs.len() > 0 {
        let n = bs.len() - 1;
        let rest = bs.take(n);
        lemma_sum_is_some(rest);
        assert(forall|k: int| 0 <= k < rest.len() ==> #[trigger] rest[k] == bs[k]);
        if exists|k: int| 0 <= k < bs.len() && (#[trigger] bs[k]).ahead > 0 {
            let k = choose|k: int| 0 <= k < bs.len() && (#[trigger] bs[k]).ahead > 0;
            if k < n {
                assert(rest[k].ahead > 0);
            }
        }
        if exists|k: int| 0 <= k < bs.len() && (#[trigger] bs[k]).behind > 0 {
            let k = choose|k: int| 0 <= k < bs.len() && (#[trigger] bs[k]).behind > 0;
            if k < n {
                assert(rest[k].behind > 0);
            }
        }
    }
}

/// The commit time taken for a repo is the newest over all its branches: no branch has
/// a newer one, and one of them has it.
pub proof fn law_the_newest_commit_is_on_a_branch(bs: Seq<BranchInfo>, i: int)
    requires
        0 <= i < bs.len(),
    ensures
        newest_commit(bs) >= bs[i].committed_at,
        exists|j: int|
            0 <= j < bs.len() && newest_commit(bs) == (#[trigger] bs[j]).committed_at as int,
    decreases bs.len(),
{
    let n = bs.len() - 1;
    if n > 0 {
        let rest = bs.take(n);
        law_the_newest_commit_is_on_a_branch(rest, if i < n { i } else { 0 });
        if i < n {
            assert(rest[i] == bs[i]);
        }
        let j = choose|j: int|
            0 <= j < rest.len() && newest_commit(rest) == (#[trigger] rest[j]).committed_at as int;
        assert(rest[j] == bs[j]);
        assert(bs[n].committed_at == bs[n].committed_at);
    } else {
        assert(bs[0].committed_at == bs[i].committed_at);
    }
}

/// Last activity is the newest of the commits and the newest saved change: nothing that
/// counts is newer, and what it is said to be is what has that time. A commit wins a
/// tie, and where nothing came after the epoch nothing is known.
pub proof fn law_activity_is_the_newest_of_all(repo: &RepoStatus, i: int)
    ensures
        repo.refs is Some && 0 <= i < repo.refs->0.branches@.len() ==> repo.last_activity().0
            >= repo.refs->0.branches@[i].committed_at,
        repo.work is Some && repo.work->0.newest_mtime is Some ==> repo.last_activity().0
            >= repo.work->0.newest_mtime->0,
        repo.last_activity().1 == ActivitySource::Unknown <==> repo.last_activity().0 == 0,
        repo.last_activity().0 >= 0,
        repo.last_activity().1 == ActivitySource::Commit ==> repo.refs is Some && exists|j: int|
            0 <= j < repo.refs->0.branches@.len() && repo.last_activity().0 == (
            #[trigger] repo.refs->0.branches@[j]).committed_at as int,
        repo.last_activity().1 == ActivitySource::WorkingTree ==> repo.work is Some
            && repo.work->0.newest_mtime == Some(repo.last_activity().0 as i64) && (repo.refs is Some
            && 0 <= i < repo.refs->0.branches@.len() ==> repo.refs->0.branches@[i].committed_at
            < repo.last_activity().0),
{
    if let Some(refs) = repo.refs {
        if 0 <= i < refs.branches@.len() {
            law_the_newest_commit_is_on_a_branch(refs.branches@, i);
        }
        if refs.branches@.len() > 0 {
            law_the_newest_commit_is_on_a_branch(refs.branches@, 0);
        }
    }
}

/// Whether a working tree that was scanned holds changes of any kind.
pub open spec fn has_changes(work: Option<WorkInfo>) -> bool {
    match work {
        Some(w) => (w.staged + w.unstaged + w.untracked + w.conflicts) % 0x1_0000_0000 > 0,
        None => false,
    }
}

/// Every change counts, of whatever kind: staged, unstaged, untracked and conflicted add
/// up, past what a `u32` holds starting over from nought.
pub proof fn law_every_change_counts(repo: &RepoStatus)
    ensures
        repo.work matches Some(w) ==> repo.dirty_count() == (w.staged + w.unstaged + w.untracked
            + w.conflicts) % 0x1_0000_0000,
        repo.work is None ==> repo.dirty_count() == 0,
        repo.the_flags().dirty <==> has_changes(repo.work),
{
}

/// A repo reads as released only where a release tag is reachable from HEAD, nothing was
/// committed since and nothing is changed; as unreleased only where there is no release
/// of it at all; and everything else needs one, a tag on another branch included.
pub proof fn law_released_means_reachable(repo: &RepoStatus)
    ensures
        repo.raw_state() == ReleaseState::Unreleased <==> repo.refs is None
            || repo.refs->0.newest_tag is None || repo.refs->0.tags_orphaned,
        repo.raw_state() == ReleaseState::Released <==> repo.refs is Some
            && repo.refs->0.newest_tag is Some && !repo.refs->0.tags_orphaned
            && repo.refs->0.described_tag is Some && (repo.refs->0.commits_since_tag is None
            || repo.refs->0.commits_since_tag == Some(0u32)) && !has_changes(repo.work),
        repo.raw_state() == ReleaseState::NeedsRelease <==> repo.refs is Some
            && repo.refs->0.newest_tag is Some && !repo.refs->0.tags_orphaned && (
        repo.refs->0.described_tag is None || has_changes(repo.work) || (
        repo.refs->0.commits_since_tag is Some && repo.refs->0.commits_since_tag->0 > 0)),
{
}

/// A repo reads as held exactly where it would need a release and its hold names the
/// commit that is checked out; otherwise a hold changes nothing.
pub proof fn law_a_hold_names_a_commit(repo: &RepoStatus)
    ensures
        repo.state() == ReleaseState::Held <==> repo.raw_state() == ReleaseState::NeedsRelease
            && repo.hold is Some && repo.refs is Some && repo.refs->0.last_commit is Some
            && repo.refs->0.last_commit->0.sha@ == repo.hold->0.sha@,
        repo.state() != ReleaseState::Held ==> repo.state() == repo.raw_state(),
{
}

/// What each flag stands for.
pub proof fn law_flags_say_what_is_outstanding(repo: &RepoStatus)
    ensures
        repo.the_flags().unpushed <==> repo.refs is Some && repo.refs->0.unpushed_count() > 0,
        repo.the_flags().conflicted <==> repo.work is Some && repo.work->0.conflicts > 0,
        repo.the_flags().in_progress <==> repo.refs is Some && repo.refs->0.operation is Some,
        repo.the_flags().detached <==> repo.refs is Some && repo.refs->0.head is Detached,
        repo.the_flags().no_remote <==> repo.refs is Some && repo.refs->0.remote_url is None,
        repo.the_flags().no_upstream <==> repo.refs is Some && repo.refs->0.current() is Some
            && repo.refs->0.current()->0.upstream is None,
        repo.the_flags().stashed <==> repo.refs is Some && repo.refs->0.stashes > 0,
        repo.the_flags().error <==> repo.error is Some,
        repo.the_flags().is_clean() <==> !repo.the_flags().dirty && !repo.the_flags().unpushed
            && !repo.the_flags().conflicted && !repo.the_flags().in_progress
            && !repo.the_flags().error,
{
}

/// The one-word state names the first thing that is outstanding, the most urgent first,
/// and reads "clean" only of a repo that was scanned and has nothing outstanding.
pub proof fn law_the_state_names_what_is_outstanding(repo: &RepoStatus)
    ensures
        repo.error is Some ==> repo.state_text() == "error"@,
        repo.error is None && repo.work is Some && repo.work->0.conflicts > 0 ==> repo.state_text()
            == "conflict"@,
        repo.error is None && !(repo.work is Some && repo.work->0.conflicts > 0) ==> ({
            let busy = repo.refs is Some && repo.refs->0.operation is Some;
            &&& busy ==> repo.state_text() == repo.refs->0.operation->0.label_text()
            &&& !busy && has_changes(repo.work) ==> repo.state_text() == "dirty"@
            &&& !busy && !has_changes(repo.work) && repo.unpushed_count() > 0 ==> repo.state_text()
                == "unpushed"@
            &&& !busy && !has_changes(repo.work) && repo.unpushed_count() == 0 ==> ({
                &&& repo.refs is Some && repo.refs->0.is_bare ==> repo.state_text() == "bare"@
                &&& !(repo.refs is Some && repo.refs->0.is_bare) && repo.work is None
                    ==> repo.state_text() == "…"@
                &&& !(repo.refs is Some && repo.refs->0.is_bare) && repo.work is Some
                    ==> repo.state_text() == "clean"@
            })
        }),
        repo.state_text() == "clean"@ ==> repo.the_flags().is_clean() && !has_changes(repo.work)
            && repo.work is Some && repo.error is None,
        repo.state_text() == "dirty"@ ==> has_changes(repo.work),
{
    reveal_strlit("error");
    reveal_strlit("conflict");
    reveal_strlit("merging");
    reveal_strlit("rebasing");
    reveal_strlit("cherry-picking");
    reveal_strlit("reverting");
    reveal_strlit("bisecting");
    reveal_strlit("dirty");
    reveal_strlit("unpushed");
    reveal_strlit("bare");
    reveal_strlit("…");
    reveal_strlit("clean");
    let t = repo.state_text();
    if t == "clean"@ {
        assert(t.len() == 5 && t[0] == 'c');
    }
    if t == "dirty"@ {
        assert(t.len() == 5 && t[0] == 'd');
    }
}

/// Each operation has a word of its own.
pub proof fn law_operations_are_told_apart(a: Operation, b: Operation)
    ensures
        a.label_text() == b.label_text() ==> a == b,
        Operation::Merge.label_text() == "merging"@,
        Operation::Rebase.label_text() == "rebasing"@,
        Operation::CherryPick.label_text() == "cherry-picking"@,
        Operation::Revert.label_text() == "reverting"@,
        Operation::Bisect.label_text() == "bisecting"@,
{
    reveal_strlit("merging");
    reveal_strlit("rebasing");
    reveal_strlit("cherry-picking");
    reveal_strlit("reverting");
    reveal_strlit("bisecting");
    if a.label_text() == b.label_text() {
        let (x, y) = (a.label_text(), b.label_text());
        assert(x[0] == y[0] && x[2] == y[2]);
    }
}

/// Each release state has a word of its own, with a dash for the space where it is a key.
pub proof fn law_release_states_are_told_apart(a: ReleaseState, b: ReleaseState)
    ensures
        a.label_text() == b.label_text() ==> a == b,
        a.key_text() == b.key_text() ==> a == b,
        a.key_text() == crate::text::replaced(a.label_text(), ' ', '-'),
        ReleaseState::Unreleased.label_text() == "unreleased"@,
        ReleaseState::Released.label_text() == "released"@,
        ReleaseState::NeedsRelease.label_text() == "needs release"@,
        ReleaseState::Held.label_text() == "held"@,
{
    reveal_strlit("unreleased");
    reveal_strlit("released");
    reveal_strlit("needs release");
    reveal_strlit("needs-release");
    reveal_strlit("held");
    if a.label_text() == b.label_text() {
        assert(a.label_text()[0] == b.label_text()[0]);
    }
    if a.key_text() == b.key_text() {
        assert(a.key_text()[0] == b.key_text()[0]);
    }
    assert(a.key_text() =~= crate::text::replaced(a.label_text(), ' ', '-'));
}

/// A branch is shown by its name, a detached HEAD by its commit behind an `@`, and what
/// was not read as a question mark.
pub proof fn law_the_branch_cell_says_where_head_is(repo: &RepoStatus)
    ensures
        repo.refs is None ==> repo.branch_text() == "?"@,
        repo.refs matches Some(r) ==> (match r.head {
            Head::Branch(b) => repo.branch_text() == b@,
            Head::Detached { sha } => repo.branch_text() == seq!['@'] + sha@,
            Head::Unborn => repo.branch_text() == "(unborn)"@,
        }),
{
    reveal_strlit("@");
    assert("@"@ =~= seq!['@']);
}

/// A tag that HEAD reaches is shown as it is, the newest in parentheses where HEAD reaches
/// none, and a dash where there is none of this history's.
pub proof fn law_the_tag_cell_says_what_is_reachable(repo: &RepoStatus)
    ensures
        repo.refs is None ==> repo.tag_text() == seq!['-'],
        repo.refs matches Some(r) ==> ({
            &&& r.described_tag matches Some(t) ==> repo.tag_text() == t.name@
            &&& r.described_tag is None && (r.newest_tag is None || r.tags_orphaned)
                ==> repo.tag_text() == seq!['-']
            &&& r.described_tag is None && !r.tags_orphaned ==> (r.newest_tag matches Some(t)
                ==> repo.tag_text() == seq!['('] + t.name@ + seq![')'])
        }),
{
    reveal_strlit("-");
    reveal_strlit("(");
    reveal_strlit(")");
    assert("-"@ =~= seq!['-']);
    assert("("@ =~= seq!['(']);
    assert(")"@ =~= seq![')']);
}

/// The newest tag is off the branch exactly where it is a tag of this history that HEAD
/// does not have as its nearest.
pub proof fn law_a_tag_off_the_branch(refs: &RefsInfo)
    ensures
        refs.is_tag_off_branch() <==> !refs.tags_orphaned && refs.newest_tag is Some && (
        refs.described_tag is None || refs.described_tag->0.name@ != refs.newest_tag->0.name@),
{
}

/// A repo goes by its group and its name with a slash between, or by its name alone where
/// it is in no group.
pub proof fn law_a_slug_is_group_and_name(repo: &RepoStatus)
    ensures
        repo.group@.len() == 0 ==> repo.slug_text() == repo.name@,
        repo.group@.len() > 0 ==> repo.slug_text() == repo.group@ + seq!['/'] + repo.name@,
{
    reveal_strlit("/");
    assert("/"@ =~= seq!['/']);
}

/// A zero that means nothing: never fetched is said of a repo with a remote and no fetch.
pub proof fn law_never_fetched_needs_a_remote(repo: &RepoStatus)
    ensures
        repo.is_never_fetched() <==> repo.refs is Some && repo.refs->0.remote_url is Some
            && repo.refs->0.fetched_at is None,
        repo.refs matches Some(r) ==> repo.fetch_time() == r.fetched_at,
        repo.refs is None ==> repo.fetch_time() is None,
        repo.bare() <==> repo.refs is Some && repo.refs->0.is_bare,
        repo.refs is Some && repo.refs->0.commits_since_tag is Some ==> repo.since_tag()
            == repo.refs->0.commits_since_tag->0,
        repo.refs is None || repo.refs->0.commits_since_tag is None ==> repo.since_tag() == 0,
{
}

/// Visibility as it is shown: what a host said has a word and a mark of its own, a failed
/// check is told apart from one never made, and a dash is for what was never probed.
pub proof fn law_visibility_is_told_apart(repo: &RepoStatus, v: Visibility, w: Visibility)
    ensures
        repo.visibility is None <==> repo.visibility_text() == seq!['-'],
        repo.visibility is None <==> repo.marker_text() == seq!['-'],
        v.label_text() == w.label_text() ==> v == w,
        Visibility::meaning(v.label_text()) == Some(v),
        repo.visibility matches Some(i) ==> (i.status == VisibilityStatus::Known(v) ==> ({
            &&& repo.visibility_text() == v.label_text()
            &&& v is Public ==> repo.marker_text() == "●"@
            &&& v is Private ==> repo.marker_text() == "⊘"@
            &&& v is Internal ==> repo.marker_text() == "◐"@
        })),
        repo.visibility matches Some(i) ==> (i.status is CheckFailed <==> repo.marker_text()
            == seq!['!']),
        repo.visibility matches Some(i) ==> (i.status is CheckFailed ==> repo.visibility_text()
            == "check failed"@),
        Visibility::Public.label_text() == "public"@,
        Visibility::Private.label_text() == "private"@,
        Visibility::Internal.label_text() == "internal"@,
{
    reveal_strlit("-");
    reveal_strlit("public");
    reveal_strlit("private");
    reveal_strlit("internal");
    reveal_strlit("PUBLIC");
    reveal_strlit("PRIVATE");
    reveal_strlit("INTERNAL");
    reveal_strlit("unsupported");
    reveal_strlit("no remote configured");
    reveal_strlit("unknown");
    reveal_strlit("checking disabled");
    reveal_strlit("check failed");
    reveal_strlit("●");
    reveal_strlit("⊘");
    reveal_strlit("◐");
    reveal_strlit("!");
    reveal_strlit("·");
    assert("-"@ =~= seq!['-']);
    assert("!"@ =~= seq!['!']);
    if v.label_text() == w.label_text() {
        assert(v.label_text()[1] == w.label_text()[1]);
    }
    let label = v.label_text();
    crate::text::lemma_trim_is(label);
    assert(crate::text::uppercase("public"@) =~= "PUBLIC"@);
    assert(crate::text::uppercase("private"@) =~= "PRIVATE"@);
    assert(crate::text::uppercase("internal"@) =~= "INTERNAL"@);
    assert("PRIVATE"@.len() != "PUBLIC"@.len());
    assert("INTERNAL"@.len() != "PUBLIC"@.len() && "INTERNAL"@.len() != "PRIVATE"@.len());
    assert(repo.visibility is Some ==> repo.visibility_text().len() > 1);
    let m = repo.marker_text();
    assert(m.len() == 1);
    if m == seq!['-'] {
        assert(m[0] == '-');
    }
    if m == seq!['!'] {
        assert(m[0] == '!');
    }
}

/// A working-tree result is good for as long as HEAD and the index are what they were.
pub proof fn law_a_work_key_names_head_and_index(a: &WorkKey, b: &WorkKey)
    ensures
        a.agrees(b) <==> ({
            &&& (a.head_sha is Some <==> b.head_sha is Some)
            &&& (a.head_sha is Some ==> a.head_sha->0@ == b.head_sha->0@)
            &&& a.index_mtime == b.index_mtime
            &&& a.index_size == b.index_size
        }),
{
}

/// What is read of a branch, a tag, a commit or a file is what it holds, field by field.
pub proof fn law_a_text_is_its_value(
    bs: Seq<BranchInfo>,
    ts: Seq<TagInfo>,
    c: CommitInfo,
    fs: Seq<ChangedFile>,
    i: int,
)
    ensures
        branch_texts(bs).len() == bs.len() && tag_texts(ts).len() == ts.len() && file_entries(
            fs,
        ).len() == fs.len(),
        0 <= i < bs.len() ==> {
            let (t, b) = (branch_texts(bs)[i], bs[i]);
            &&& t.name == b.name@
            &&& t.upstream is Some <==> b.upstream is Some
            &&& b.upstream is Some ==> t.upstream->0 == b.upstream->0@
            &&& t.ahead == b.ahead && t.behind == b.behind && t.gone == b.gone
            &&& t.committed_at == b.committed_at && t.sha == b.sha@ && t.subject == b.subject@
        },
        0 <= i < ts.len() ==> tag_texts(ts)[i].name == ts[i].name@ && tag_texts(ts)[i].at
            == ts[i].at,
        0 <= i < fs.len() ==> {
            let (t, f) = (file_entries(fs)[i], fs[i]);
            t.path == f.path@ && t.code == f.code@ && t.kind == f.kind && t.mtime == f.mtime
        },
        opt_commit(None) is None && opt_tag(None) is None,
        opt_commit(Some(c)) matches Some(n) && n.sha == c.sha@ && n.at == c.at && n.subject
            == c.subject@ && n.author == c.author@,
        0 <= i < ts.len() ==> opt_tag(Some(ts[i])) == Some(tag_texts(ts)[i]),
{
}

/// Two sightings are the same where nothing in them differs.
pub proof fn law_the_same_sighting_differs_in_nothing(a: &RefsInfo, b: &RefsInfo, x: &WorkInfo, y: &WorkInfo)
    ensures
        a.same_as(b) ==> a.head == b.head && a.branches@ == b.branches@ && a.stashes == b.stashes
            && a.newest_tag == b.newest_tag && a.described_tag == b.described_tag
            && a.commits_since_tag == b.commits_since_tag && a.remote_url == b.remote_url
            && a.fetched_at == b.fetched_at && a.is_bare == b.is_bare && a.is_shallow
            == b.is_shallow && a.operation == b.operation && a.changelog == b.changelog
            && a.tags_orphaned == b.tags_orphaned && a.last_commit == b.last_commit
            && a.index_mtime == b.index_mtime && a.since_tag_subjects@ == b.since_tag_subjects@,
        a.same_as(a),
        x.same_as(y) ==> x.staged == y.staged && x.unstaged == y.unstaged && x.untracked
            == y.untracked && x.conflicts == y.conflicts && x.newest_mtime == y.newest_mtime
            && x.files@ == y.files@ && x.truncated == y.truncated,
        x.same_as(x),
{
}

/// What is known of a visibility has a word of its own, and so has where activity was seen.
pub proof fn law_words_for_what_is_known(a: ActivitySource, b: ActivitySource, v: Visibility, why: String)
    ensures
        VisibilityStatus::Known(v).label_text() == v.label_text(),
        VisibilityStatus::Unsupported.label_text() == "unsupported"@,
        VisibilityStatus::NoRemote.label_text() == "no remote configured"@,
        VisibilityStatus::Unknown.label_text() == "unknown"@,
        VisibilityStatus::CheckingDisabled.label_text() == "checking disabled"@,
        VisibilityStatus::CheckFailed(why).label_text() == "check failed"@,
        a.label_text() == b.label_text() ==> a == b,
        ActivitySource::Commit.label_text() == "last commit"@,
        ActivitySource::WorkingTree.label_text() == "file edit"@,
        ActivitySource::Unknown.label_text() == "unknown"@,
{
    reveal_strlit("last commit");
    reveal_strlit("file edit");
    reveal_strlit("unknown");
    if a.label_text() == b.label_text() {
        assert(a.label_text()[0] == b.label_text()[0]);
    }
}

/// A host's answer is read in whatever case, with blanks around it, and nothing else is an
/// answer.
pub proof fn law_an_answer_is_read_in_any_case(s: Seq<char>)
    ensures
        ({
            let key = crate::text::uppercase(crate::text::trim(s));
            &&& Visibility::meaning(s) == Some(Visibility::Public) <==> key == "PUBLIC"@
            &&& Visibility::meaning(s) == Some(Visibility::Private) <==> key == "PRIVATE"@
            &&& Visibility::meaning(s) == Some(Visibility::Internal) <==> key == "INTERNAL"@
        }),
{
    reveal_strlit("PUBLIC");
    reveal_strlit("PRIVATE");
    reveal_strlit("INTERNAL");
    assert("PRIVATE"@.len() != "PUBLIC"@.len());
    assert("INTERNAL"@.len() != "PUBLIC"@.len() && "INTERNAL"@.len() != "PRIVATE"@.len());
}

} // verus!
