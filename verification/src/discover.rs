//! Finding the repos.
//!
//! A hand-rolled walk rather than a generic recursive iterator, because the
//! central rule is "stop descending the moment you find a repo". That single
//! rule is what keeps submodules, vendored checkouts, and test fixture repos
//! out of the list without needing to enumerate them. Bare repos are the one
//! exception: having no working tree, they can't contain a nested checkout in
//! the first place, and what they usually do contain is their own worktrees.
//!
//! The walk is driven from outside: [`Walk::next_dir`] names the directory to read,
//! and [`Walk::step`] takes in what was read there.

use vstd::prelude::*;

use crate::config::Config;
use crate::glob::{add_glob, build_globs, no_globs, set_matches};
use crate::number::add_size;
use crate::order::{sort_indices, Key};
use crate::pathname::{join_path, path_key, paths_equal, relative_to, split_path};
use crate::text::{
    from_chars, has_prefix, join_chars, push_text, same, stripped_suffix, to_chars,
};

verus! {

#[derive(Debug)]
pub struct Discovered {
    pub root: String,
    pub group: String,
    pub name: String,
}

impl Clone for Discovered {
    fn clone(&self) -> (r: Self)
        ensures
            r == *self,
    {
        Discovered {
            root: self.root.clone(),
            group: self.group.clone(),
            name: self.name.clone(),
        }
    }
}

/// A repo that was found, by its contents.
pub struct FoundText {
    pub root: Seq<char>,
    pub group: Seq<char>,
    pub name: Seq<char>,
}

impl View for Discovered {
    type V = FoundText;

    open spec fn view(&self) -> FoundText {
        FoundText { root: self.root@, group: self.group@, name: self.name@ }
    }
}

pub open spec fn found_texts(found: Seq<Discovered>) -> Seq<FoundText> {
    found.map_values(|d: Discovered| d@)
}

#[derive(Clone, Copy, Debug)]
pub struct DiscoveryStats {
    pub dirs_visited: usize,
    pub repos_found: usize,
    pub pruned: usize,
    pub unreadable: usize,
}

impl Default for DiscoveryStats {
    fn default() -> (r: Self)
        ensures
            r.dirs_visited == 0,
            r.repos_found == 0,
            r.pruned == 0,
            r.unreadable == 0,
    {
        DiscoveryStats { dirs_visited: 0, repos_found: 0, pruned: 0, unreadable: 0 }
    }
}

// ---------------------------------------------------------------------------
// Group and name
// ---------------------------------------------------------------------------

/// The group and the name of a repo found below a root.
pub open spec fn slug_of(root: Seq<char>, repo: Seq<char>) -> (Seq<char>, Seq<char>) {
    match crate::pathname::relative(repo, root) {
        None => (Seq::empty(), repo),
        Some(rel) => {
            let parts = crate::pathname::components(rel);
            if parts.len() == 0 {
                (Seq::empty(), root)
            } else if parts.len() == 1 {
                (Seq::empty(), parts[0])
            } else {
                (parts[0], crate::text::join(parts.skip(1), "/"@))
            }
        },
    }
}

/// Split a repo path into a group (its first segment below the root) and a
/// name (everything after). A repo sitting directly in a root has no group.
pub fn split_slug(root: &str, repo: &str) -> (r: (String, String))
    ensures
        (r.0@, r.1@) == slug_of(root@, repo@),
{
    let none = String::new();
    assert(none@ =~= Seq::empty());
    let rel = match relative_to(repo, root) {
        Some(rel) => rel,
        None => {
            return (none, repo.to_owned());
        },
    };
    let parts = split_path(rel.as_str());
    let ghost all = crate::pathname::components(rel@);
    assert(all.len() == parts@.len());
    if parts.len() == 0 {
        (none, root.to_owned())
    } else if parts.len() == 1 {
        assert(all[0] == parts@[0]@);
        (none, from_chars(parts[0].as_slice()))
    } else {
        assert(all[0] == parts@[0]@);
        let rest = vstd::slice::slice_subrange(parts.as_slice(), 1, parts.len());
        assert(crate::text::views(rest@) =~= all.skip(1));
        (from_chars(parts[0].as_slice()), join_chars(rest, "/"))
    }
}

// ---------------------------------------------------------------------------
// Excludes
// ---------------------------------------------------------------------------

/// The globs one exclude pattern stands for: itself, and the directory it names
/// where it ends in `/**`.
pub open spec fn exclude_globs(pattern: Seq<char>) -> Seq<Seq<char>> {
    match crate::text::strip_suffix(pattern, "/**"@) {
        Some(prefix) if prefix.len() > 0 => seq![pattern, prefix],
        _ => seq![pattern],
    }
}

/// The globs that the first `n` patterns stand for.
pub open spec fn globs_upto(patterns: Seq<Seq<char>>, n: int) -> Seq<Seq<char>>
    decreases n,
{
    if n <= 0 {
        Seq::empty()
    } else {
        globs_upto(patterns, n - 1) + exclude_globs(patterns[n - 1])
    }
}

/// The globs that a list of exclude patterns stands for.
pub open spec fn all_globs(patterns: Seq<Seq<char>>) -> Seq<Seq<char>> {
    globs_upto(patterns, patterns.len() as int)
}

/// The first glob that is not well formed.
pub open spec fn first_bad(globs: Seq<Seq<char>>, i: int) -> Option<Seq<char>>
    decreases globs.len() - i,
{
    if i < 0 || i >= globs.len() {
        None
    } else if crate::glob::glob_fault(globs[i]) is Some {
        Some(globs[i])
    } else {
        first_bad(globs, i + 1)
    }
}

/// Why a list of patterns cannot be used: what was being done, and what the glob
/// compiler said.
#[derive(Debug)]
pub struct PatternError {
    pub context: String,
    pub cause: String,
}

fn list_globs(patterns: &[String]) -> (r: Vec<String>)
    ensures
        crate::text::texts(r@) == all_globs(crate::text::texts(patterns@)),
{
    let ghost all = crate::text::texts(patterns@);
    let mut out: Vec<String> = Vec::new();
    let mut i: usize = 0;
    assert(crate::text::texts(out@) =~= globs_upto(all, 0));
    while i < patterns.len()
        invariant
            i <= patterns@.len(),
            all == crate::text::texts(patterns@),
            crate::text::texts(out@) == globs_upto(all, i as int),
        decreases patterns@.len() - i,
    {
        let ghost before = crate::text::texts(out@);
        let pattern = patterns[i].as_str();
        push_text(&mut out, pattern);
        let v = to_chars(pattern);
        if let Some(prefix) = stripped_suffix(v.as_slice(), "/**") {
            if prefix.len() > 0 {
                let dir = from_chars(prefix);
                push_text(&mut out, dir.as_str());
            }
        }
        assert(crate::text::texts(out@) =~= before + exclude_globs(all[i as int]));
        i = i + 1;
    }
    out
}

/// Build the exclude matcher. Patterns are matched against a directory's path
/// relative to its scan root. A pattern ending in `/**` also excludes the
/// directory it names, so `foo/**` and `foo` both keep `foo` out entirely.
pub fn build_excludes(patterns: &[String]) -> (r: Result<Option<globset::GlobSet>, PatternError>)
    ensures
        ({
            let globs = all_globs(crate::text::texts(patterns@));
            let bad = first_bad(globs, 0);
            match r {
                Ok(None) => patterns@.len() == 0,
                Ok(Some(set)) => patterns@.len() > 0 && bad is None && crate::glob::globs_fault(
                    globs,
                ) is None && crate::glob::globs_in(set) == globs,
                Err(e) => patterns@.len() > 0 && (match bad {
                    Some(glob) => e.context@ == "Invalid exclude pattern: "@ + glob && Some(e.cause@)
                        == crate::glob::glob_fault(glob),
                    None => e.context@ == "Building exclude set"@ && Some(e.cause@)
                        == crate::glob::globs_fault(globs),
                }),
            }
        }),
{
    if patterns.len() == 0 {
        return Ok(None);
    }
    let globs = list_globs(patterns);
    let ghost all = crate::text::texts(globs@);
    let mut builder = no_globs();
    let mut i: usize = 0;
    assert(all.take(0) =~= Seq::empty());
    while i < globs.len()
        invariant
            i <= globs@.len(),
            patterns@.len() > 0,
            crate::glob::globs_added(builder) == all.take(i as int),
            all == crate::text::texts(globs@),
            all == all_globs(crate::text::texts(patterns@)),
            first_bad(all, 0) == first_bad(all, i as int),
        decreases globs@.len() - i,
    {
        assert(all[i as int] == globs@[i as int]@);
        if let Some(cause) = add_glob(&mut builder, globs[i].as_str()) {
            let mut context = "Invalid exclude pattern: ".to_owned();
            context.append(globs[i].as_str());
            return Err(PatternError { context, cause });
        }
        i = i + 1;
        assert(all.take(i as int) =~= all.take(i - 1).push(all[i - 1]));
    }
    assert(all.take(i as int) =~= all);
    match build_globs(&builder) {
        Ok(set) => Ok(Some(set)),
        Err(cause) => Err(PatternError { context: "Building exclude set".to_owned(), cause }),
    }
}

// ---------------------------------------------------------------------------
// One directory
// ---------------------------------------------------------------------------

/// Something found in a directory. Of a symlink, `is_dir` says what it leads to.
#[derive(Debug)]
pub struct Entry {
    pub name: String,
    pub is_symlink: bool,
    pub is_dir: bool,
}

/// What becomes of an entry.
#[derive(Clone, Copy, Debug, PartialEq, Eq, Structural)]
pub enum Fate {
    /// It makes the directory a repo.
    Marker,
    /// It is nothing to walk into.
    Skipped,
    /// It is a directory to stay out of.
    Pruned,
    /// It is a directory to walk into.
    Child,
}

/// What becomes of an entry. Hidden directories are almost never project checkouts,
/// and descending them turns up caches and tool state.
pub open spec fn fate_of(
    entry: Entry,
    follow_symlinks: bool,
    prune: Seq<Seq<char>>,
    excluded: bool,
) -> Fate {
    if entry.name@ == ".git"@ {
        Fate::Marker
    } else if (entry.is_symlink && !follow_symlinks) || !entry.is_dir || crate::text::starts_with(
        entry.name@,
        "."@,
    ) {
        Fate::Skipped
    } else if prune.contains(entry.name@) || excluded {
        Fate::Pruned
    } else {
        Fate::Child
    }
}

fn in_list(list: &Vec<String>, name: &str) -> (r: bool)
    ensures
        r == crate::text::texts(list@).contains(name@),
{
    let ghost all = crate::text::texts(list@);
    let mut i: usize = 0;
    while i < list.len()
        invariant
            i <= list@.len(),
            all == crate::text::texts(list@),
            forall|k: int| 0 <= k < i ==> #[trigger] all[k] != name@,
        decreases list@.len() - i,
    {
        if same(list[i].as_str(), name) {
            assert(all[i as int] == name@);
            return true;
        }
        i = i + 1;
    }
    false
}

/// What becomes of an entry, given whether an exclude pattern covers it.
pub fn entry_fate(
    entry: &Entry,
    follow_symlinks: bool,
    prune: &Vec<String>,
    excluded: bool,
) -> (r: Fate)
    ensures
        r == fate_of(*entry, follow_symlinks, crate::text::texts(prune@), excluded),
{
    let name = entry.name.as_str();
    if same(name, ".git") {
        // Either a directory, or a file pointing elsewhere for a worktree or
        // submodule. `git::resolve_git_dir` handles both, so the distinction
        // doesn't need recording here.
        return Fate::Marker;
    }
    let v = to_chars(name);
    if (entry.is_symlink && !follow_symlinks) || !entry.is_dir || has_prefix(v.as_slice(), ".") {
        return Fate::Skipped;
    }
    if in_list(prune, name) || excluded {
        Fate::Pruned
    } else {
        Fate::Child
    }
}

/// How a walk goes about it.
pub struct WalkRules {
    pub follow_symlinks: bool,
    pub follow_nested_repos: bool,
    pub max_depth: usize,
    pub prune: Vec<String>,
    pub excludes: Option<globset::GlobSet>,
}

/// Whether an exclude pattern covers a path below a root.
pub open spec fn is_excluded(
    root: Seq<char>,
    path: Seq<char>,
    excludes: Option<globset::GlobSet>,
) -> bool {
    match (excludes, crate::pathname::relative(path, root)) {
        (Some(set), Some(rel)) => crate::glob::any_matches(crate::glob::globs_in(set), rel),
        _ => false,
    }
}

fn excluded(root: &str, path: &str, excludes: &Option<globset::GlobSet>) -> (r: bool)
    ensures
        r == is_excluded(root@, path@, *excludes),
{
    match excludes {
        None => false,
        Some(set) => match relative_to(path, root) {
            None => false,
            Some(rel) => set_matches(set, rel.as_str()),
        },
    }
}

/// What a directory holds: whether it is a repo, the directories to walk into, and
/// how many were pruned.
pub struct Visit {
    pub repo: bool,
    pub children: Seq<Seq<char>>,
    pub pruned: int,
}

/// What the first `n` entries of a directory say.
pub open spec fn visit_upto(
    root: Seq<char>,
    dir: Seq<char>,
    entries: Seq<Entry>,
    rules: WalkRules,
    n: int,
) -> Visit
    decreases n,
{
    if n <= 0 {
        Visit { repo: false, children: Seq::empty(), pruned: 0 }
    } else {
        let v = visit_upto(root, dir, entries, rules, n - 1);
        let e = entries[n - 1];
        let path = crate::pathname::joined(dir, e.name@);
        match fate_of(
            e,
            rules.follow_symlinks,
            crate::text::texts(rules.prune@),
            is_excluded(root, path, rules.excludes),
        ) {
            Fate::Marker => Visit { repo: true, ..v },
            Fate::Skipped => v,
            Fate::Pruned => Visit { pruned: v.pruned + 1, ..v },
            Fate::Child => Visit { children: v.children.push(path), ..v },
        }
    }
}

/// What a directory holds.
pub open spec fn visit_of(
    root: Seq<char>,
    dir: Seq<char>,
    entries: Seq<Entry>,
    rules: WalkRules,
) -> Visit {
    visit_upto(root, dir, entries, rules, entries.len() as int)
}

fn visit(root: &str, dir: &str, entries: &Vec<Entry>, rules: &WalkRules) -> (r: (
    bool,
    Vec<String>,
    usize,
))
    ensures
        ({
            let v = visit_of(root@, dir@, entries@, *rules);
            &&& r.0 == v.repo
            &&& crate::text::texts(r.1@) == v.children
            &&& r.2 == v.pruned
        }),
{
    let mut repo = false;
    let mut children: Vec<String> = Vec::new();
    let mut pruned: usize = 0;
    let mut i: usize = 0;
    let total: usize = entries.len();
    assert(crate::text::texts(children@) =~= Seq::empty());
    while i < total
        invariant
            i <= total,
            total == entries@.len(),
            pruned <= i,
            ({
                let v = visit_upto(root@, dir@, entries@, *rules, i as int);
                &&& repo == v.repo
                &&& crate::text::texts(children@) == v.children
                &&& pruned == v.pruned
            }),
        decreases total - i,
    {
        let entry = &entries[i];
        let path = join_path(dir, entry.name.as_str());
        let out = excluded(root, path.as_str(), &rules.excludes);
        match entry_fate(entry, rules.follow_symlinks, &rules.prune, out) {
            Fate::Marker => {
                repo = true;
            },
            Fate::Skipped => {},
            Fate::Pruned => {
                pruned = pruned + 1;
            },
            Fate::Child => {
                push_text(&mut children, path.as_str());
            },
        }
        i = i + 1;
    }
    (repo, children, pruned)
}

// ---------------------------------------------------------------------------
// The walk
// ---------------------------------------------------------------------------

/// A walk under way.
pub struct Walk {
    /// The root being walked.
    pub root: String,
    /// Directories still to read, with how many segments below the root they are.
    pub stack: Vec<(String, usize)>,
    pub found: Vec<Discovered>,
    /// The real paths of the repos met so far.
    pub seen: Vec<String>,
    pub stats: DiscoveryStats,
}

/// A walk under way, by its contents.
pub struct WalkText {
    pub root: Seq<char>,
    pub stack: Seq<(Seq<char>, int)>,
    pub found: Seq<FoundText>,
    pub seen: Seq<Seq<char>>,
    pub visited: int,
    pub pruned: int,
    pub unreadable: int,
    /// The count of repos in the stats, which is filled in at the end.
    pub counted: int,
}

pub open spec fn stack_texts(stack: Seq<(String, usize)>) -> Seq<(Seq<char>, int)> {
    stack.map_values(|p: (String, usize)| (p.0@, p.1 as int))
}

impl View for Walk {
    type V = WalkText;

    open spec fn view(&self) -> WalkText {
        WalkText {
            root: self.root@,
            stack: stack_texts(self.stack@),
            found: found_texts(self.found@),
            seen: crate::text::texts(self.seen@),
            visited: self.stats.dirs_visited as int,
            pruned: self.stats.pruned as int,
            unreadable: self.stats.unreadable as int,
            counted: self.stats.repos_found as int,
        }
    }
}

/// Whether a repo has been met under its real path.
pub open spec fn met(seen: Seq<Seq<char>>, canonical: Seq<char>) -> bool {
    exists|i: int| 0 <= i < seen.len() && crate::pathname::same_path(#[trigger] seen[i], canonical)
}

/// A repo recorded. Each counts once, under its real path, so a symlinked path and
/// its target can't both land in the list; the scan root itself is not listed.
pub open spec fn record(w: WalkText, dir: Seq<char>, canonical: Seq<char>) -> WalkText {
    if met(w.seen, canonical) {
        w
    } else {
        WalkText {
            seen: w.seen.push(canonical),
            found: if crate::pathname::same_path(dir, w.root) {
                w.found
            } else {
                w.found.push(
                    FoundText {
                        root: dir,
                        group: slug_of(w.root, dir).0,
                        name: slug_of(w.root, dir).1,
                    },
                )
            },
            ..w
        }
    }
}

/// Whether to go below a directory. A repo ends the descent unless nested repos are
/// followed. A bare repo has no working tree, so nothing can be nested *inside* one —
/// which is the only thing that setting guards against. Its subdirectories are
/// almost always its worktrees, which is the entire point of the
/// bare-plus-worktrees layout, so descend regardless.
pub open spec fn descends(rules: WalkRules, repo: bool, bare: bool, depth: int) -> bool {
    (!repo || rules.follow_nested_repos || bare) && depth < rules.max_depth
}

/// Directories to read next, put on the stack at one depth.
pub open spec fn at_depth(children: Seq<Seq<char>>, depth: int) -> Seq<(Seq<char>, int)> {
    children.map_values(|c: Seq<char>| (c, depth))
}

/// The walk after the directory on top of its stack was read.
pub open spec fn walk_step(
    w: WalkText,
    rules: WalkRules,
    listing: Option<Seq<Entry>>,
    canonical: Seq<char>,
    bare: bool,
) -> WalkText {
    let (dir, depth) = w.stack[w.stack.len() - 1];
    let taken = WalkText {
        stack: w.stack.take(w.stack.len() - 1),
        visited: crate::number::wrap_size(w.visited + 1),
        ..w
    };
    match listing {
        None => WalkText { unreadable: crate::number::wrap_size(w.unreadable + 1), ..taken },
        Some(entries) => {
            let v = visit_of(w.root, dir, entries, rules);
            let counted = WalkText {
                pruned: crate::number::wrap_size(w.pruned + v.pruned),
                ..taken
            };
            let recorded = if v.repo {
                record(counted, dir, canonical)
            } else {
                counted
            };
            if descends(rules, v.repo, bare, depth) {
                WalkText { stack: recorded.stack + at_depth(v.children, depth + 1), ..recorded }
            } else {
                recorded
            }
        },
    }
}

pub open spec fn opt_entries(listing: Option<Vec<Entry>>) -> Option<Seq<Entry>> {
    match listing {
        Some(entries) => Some(entries@),
        None => None,
    }
}

/// How to walk, from the configuration.
pub fn walk_rules(cfg: &Config) -> (r: Result<WalkRules, PatternError>)
    ensures
        ({
            let globs = all_globs(crate::text::texts(cfg.exclude@));
            let bad = first_bad(globs, 0);
            match r {
                Ok(rules) => {
                    &&& rules.follow_symlinks == cfg.follow_symlinks
                    &&& rules.follow_nested_repos == cfg.follow_nested_repos
                    &&& rules.max_depth == cfg.max_depth
                    &&& crate::text::texts(rules.prune@) == crate::table::strs(
                        crate::config::DEFAULT_PRUNE@,
                    ) + crate::text::texts(cfg.prune@)
                    &&& match rules.excludes {
                        None => cfg.exclude@.len() == 0,
                        Some(set) => cfg.exclude@.len() > 0 && bad is None
                            && crate::glob::globs_fault(globs) is None && crate::glob::globs_in(set)
                            == globs,
                    }
                },
                Err(e) => cfg.exclude@.len() > 0 && (match bad {
                    Some(glob) => e.context@ == "Invalid exclude pattern: "@ + glob && Some(e.cause@)
                        == crate::glob::glob_fault(glob),
                    None => e.context@ == "Building exclude set"@ && Some(e.cause@)
                        == crate::glob::globs_fault(globs),
                }),
            }
        }),
{
    match build_excludes(cfg.exclude.as_slice()) {
        Err(e) => Err(e),
        Ok(excludes) => Ok(
            WalkRules {
                follow_symlinks: cfg.follow_symlinks,
                follow_nested_repos: cfg.follow_nested_repos,
                max_depth: cfg.max_depth,
                prune: cfg.prune_names(),
                excludes,
            },
        ),
    }
}

impl Walk {
    /// A walk with no root yet: nothing to read, nothing found, nothing counted.
    pub fn new() -> (r: Self)
        ensures
            r@ == (WalkText {
                root: Seq::empty(),
                stack: Seq::empty(),
                found: Seq::empty(),
                seen: Seq::empty(),
                visited: 0,
                pruned: 0,
                unreadable: 0,
                counted: 0,
            }),
    {
        let walk = Walk {
            root: String::new(),
            stack: Vec::new(),
            found: Vec::new(),
            seen: Vec::new(),
            stats: DiscoveryStats::default(),
        };
        assert(walk@.stack =~= Seq::empty());
        assert(walk@.found =~= Seq::empty());
        assert(walk@.seen =~= Seq::empty());
        walk
    }

    /// Go on with another root, given by its real path. Depth counts path segments
    /// below the root, so `~/Projects/grav/grav-plugin-api` sits at depth 2.
    pub fn start_root(&mut self, canonical_root: &str)
        ensures
            final(self)@ == (WalkText {
                root: canonical_root@,
                stack: seq![(canonical_root@, 0)],
                ..old(self)@
            }),
    {
        self.root = canonical_root.to_owned();
        let mut stack: Vec<(String, usize)> = Vec::new();
        stack.push((canonical_root.to_owned(), 0));
        self.stack = stack;
        assert(stack_texts(self.stack@) =~= seq![(canonical_root@, 0)]);
    }

    /// The directory to read next; none when the root has been walked.
    pub fn next_dir(&self) -> (r: Option<&str>)
        ensures
            crate::hold::opt_str(r) == (if self@.stack.len() == 0 {
                None
            } else {
                Some(self@.stack[self@.stack.len() - 1].0)
            }),
    {
        if self.stack.len() == 0 {
            None
        } else {
            Some(self.stack[self.stack.len() - 1].0.as_str())
        }
    }

    fn has_met(&self, canonical: &str) -> (r: bool)
        ensures
            r == met(self@.seen, canonical@),
    {
        let ghost all = crate::text::texts(self.seen@);
        let mut i: usize = 0;
        while i < self.seen.len()
            invariant
                i <= self.seen@.len(),
                all == crate::text::texts(self.seen@),
                forall|k: int|
                    0 <= k < i ==> !crate::pathname::same_path(#[trigger] all[k], canonical@),
            decreases self.seen@.len() - i,
        {
            if paths_equal(self.seen[i].as_str(), canonical) {
                assert(crate::pathname::same_path(all[i as int], canonical@));
                return true;
            }
            i = i + 1;
        }
        false
    }

    fn record_repo(&mut self, dir: &str, canonical: &str)
        ensures
            final(self)@ == record(old(self)@, dir@, canonical@),
    {
        if self.has_met(canonical) {
            return ;
        }
        push_text(&mut self.seen, canonical);
        if !paths_equal(dir, self.root.as_str()) {
            let (group, name) = split_slug(self.root.as_str(), dir);
            let ghost before = self.found@;
            self.found.push(Discovered { root: dir.to_owned(), group, name });
            assert(found_texts(self.found@) =~= found_texts(before).push(
                FoundText { root: dir@, group: group@, name: name@ },
            ));
        }
    }

    fn push_children(&mut self, children: &Vec<String>, depth: usize)
        ensures
            final(self)@ == (WalkText {
                stack: old(self)@.stack + at_depth(crate::text::texts(children@), depth as int),
                ..old(self)@
            }),
    {
        let ghost start = self@;
        let ghost more = at_depth(crate::text::texts(children@), depth as int);
        let mut i: usize = 0;
        assert(start.stack + more.take(0) =~= start.stack);
        while i < children.len()
            invariant
                i <= children@.len(),
                more == at_depth(crate::text::texts(children@), depth as int),
                self@ == (WalkText { stack: start.stack + more.take(i as int), ..start }),
            decreases children@.len() - i,
        {
            let ghost before = self.stack@;
            self.stack.push((children[i].clone(), depth));
            assert(stack_texts(self.stack@) =~= stack_texts(before).push(more[i as int]));
            i = i + 1;
            assert(stack_texts(self.stack@) =~= start.stack + more.take(i as int));
        }
        assert(more.take(i as int) =~= more);
    }

    /// Take in what the directory on top of the stack holds; `listing` is none where
    /// it could not be read. `canonical` is the directory's real path, and `bare`
    /// says whether it is a bare repo.
    pub fn step(
        &mut self,
        rules: &WalkRules,
        listing: &Option<Vec<Entry>>,
        canonical: &str,
        bare: bool,
    )
        requires
            old(self)@.stack.len() > 0,
        ensures
            final(self)@ == walk_step(
                old(self)@,
                *rules,
                opt_entries(*listing),
                canonical@,
                bare,
            ),
    {
        let ghost start = self@;
        assert(self.stack@.len() > 0);
        assert(start.stack[start.stack.len() - 1] == (
            self.stack@[self.stack@.len() - 1].0@,
            self.stack@[self.stack@.len() - 1].1 as int,
        ));
        let ghost before = self.stack@;
        let (dir, depth) = match self.stack.pop() {
            Some(top) => top,
            None => {
                return ;
            },
        };
        assert(stack_texts(self.stack@) =~= start.stack.take(start.stack.len() - 1));
        self.stats.dirs_visited = add_size(self.stats.dirs_visited, 1);
        match listing {
            None => {
                self.stats.unreadable = add_size(self.stats.unreadable, 1);
            },
            Some(entries) => {
                let (repo, children, pruned) = visit(
                    self.root.as_str(),
                    dir.as_str(),
                    entries,
                    rules,
                );
                self.stats.pruned = add_size(self.stats.pruned, pruned);
                if repo {
                    self.record_repo(dir.as_str(), canonical);
                }
                if (!repo || rules.follow_nested_repos || bare) && depth < rules.max_depth {
                    self.push_children(&children, depth + 1);
                }
            },
        }
    }
}

// ---------------------------------------------------------------------------
// The result
// ---------------------------------------------------------------------------

pub open spec fn root_keys(found: Seq<FoundText>) -> Seq<Seq<Seq<i64>>> {
    found.map_values(|d: FoundText| crate::pathname::path_rows(d.root))
}

/// The repos by their paths.
pub open spec fn by_path(found: Seq<FoundText>) -> Seq<FoundText> {
    crate::order::permute(found, crate::order::stable_order(root_keys(found), false))
}

/// The repos found once every root has been walked, sorted by path, and what the
/// walk came by.
pub fn discover(walk: Walk) -> (r: (Vec<Discovered>, DiscoveryStats))
    ensures
        found_texts(r.0@) == by_path(walk@.found),
        r.1.dirs_visited == walk@.visited,
        r.1.pruned == walk@.pruned,
        r.1.unreadable == walk@.unreadable,
        r.1.repos_found == walk@.found.len(),
{
    let ghost all = walk@.found;
    let mut keys: Vec<Key> = Vec::new();
    let mut i: usize = 0;
    while i < walk.found.len()
        invariant
            i <= walk.found@.len(),
            keys@.len() == i,
            all == found_texts(walk.found@),
            forall|k: int|
                0 <= k < i ==> crate::order::rows(#[trigger] keys@[k]@)
                    == crate::pathname::path_rows(all[k].root),
        decreases walk.found@.len() - i,
    {
        keys.push(path_key(walk.found[i].root.as_str()));
        i = i + 1;
    }
    assert(crate::order::key_rows(keys@) =~= root_keys(all));
    let order = sort_indices(&keys, false);
    let ghost sorted = by_path(all);
    assert(sorted.len() == order@.len()) by {
        assert(crate::order::indices(order@).len() == order@.len());
    }
    let mut out: Vec<Discovered> = Vec::new();
    let mut j: usize = 0;
    assert(found_texts(out@) =~= sorted.take(0));
    while j < order.len()
        invariant
            j <= order@.len(),
            order@.len() == walk.found@.len(),
            all == found_texts(walk.found@),
            sorted == crate::order::permute(all, crate::order::indices(order@)),
            forall|a: int| 0 <= a < order@.len() ==> #[trigger] order@[a] < walk.found@.len(),
            found_texts(out@) == sorted.take(j as int),
        decreases order@.len() - j,
    {
        let at: usize = order[j];
        assert(crate::order::indices(order@)[j as int] == at as int);
        let ghost before = out@;
        out.push(walk.found[at].clone());
        assert(found_texts(out@) =~= found_texts(before).push(sorted[j as int]));
        j = j + 1;
        assert(found_texts(out@) =~= sorted.take(j as int));
    }
    assert(sorted.take(j as int) =~= sorted);
    let mut stats = walk.stats;
    stats.repos_found = out.len();
    assert(found_texts(out@).len() == out@.len());
    assert(sorted.len() == all.len());
    (out, stats)
}

// ---------------------------------------------------------------------------
// Laws
// ---------------------------------------------------------------------------

/// A repo ends the descent: nothing below it is read, unless nested repos are
/// followed or it is bare.
pub proof fn law_a_repo_ends_the_descent(
    w: WalkText,
    rules: WalkRules,
    entries: Seq<Entry>,
    canonical: Seq<char>,
)
    requires
        w.stack.len() > 0,
        visit_of(w.root, w.stack[w.stack.len() - 1].0, entries, rules).repo,
        !rules.follow_nested_repos,
    ensures
        walk_step(w, rules, Some(entries), canonical, false).stack == w.stack.take(
            w.stack.len() - 1,
        ),
{
}

/// Below a bare repo the walk goes on as it does below a directory that is no repo,
/// whatever the setting on nested repos.
pub proof fn law_a_bare_repo_is_descended(
    w: WalkText,
    rules: WalkRules,
    entries: Seq<Entry>,
    canonical: Seq<char>,
)
    requires
        w.stack.len() > 0,
        w.stack[w.stack.len() - 1].1 < rules.max_depth,
    ensures
        walk_step(w, rules, Some(entries), canonical, true).stack == w.stack.take(
            w.stack.len() - 1,
        ) + at_depth(
            visit_of(w.root, w.stack[w.stack.len() - 1].0, entries, rules).children,
            w.stack[w.stack.len() - 1].1 + 1,
        ),
{
}

/// A repo met before, under whatever path, is not listed again.
pub proof fn law_a_repo_is_listed_once(
    w: WalkText,
    rules: WalkRules,
    listing: Option<Seq<Entry>>,
    canonical: Seq<char>,
    bare: bool,
)
    requires
        w.stack.len() > 0,
        met(w.seen, canonical),
    ensures
        walk_step(w, rules, listing, canonical, bare).found == w.found,
        walk_step(w, rules, listing, canonical, bare).seen == w.seen,
{
}

/// A repo the walk has met stays met.
pub proof fn law_seen_only_grows(
    w: WalkText,
    rules: WalkRules,
    listing: Option<Seq<Entry>>,
    canonical: Seq<char>,
    bare: bool,
    path: Seq<char>,
)
    requires
        w.stack.len() > 0,
        met(w.seen, path),
    ensures
        met(walk_step(w, rules, listing, canonical, bare).seen, path),
{
    let after = walk_step(w, rules, listing, canonical, bare).seen;
    let i = choose|i: int|
        0 <= i < w.seen.len() && crate::pathname::same_path(#[trigger] w.seen[i], path);
    assert(after[i] == w.seen[i]);
}

/// Whether what is still to be read lies below the root, no deeper than allowed.
pub open spec fn is_inside(w: WalkText, max_depth: int) -> bool {
    forall|i: int|
        #![trigger w.stack[i]]
        0 <= i < w.stack.len() ==> crate::pathname::under(w.stack[i].0, w.root) && 0
            <= w.stack[i].1 <= max_depth
}

/// The walk never leaves its root nor goes deeper than it may, as long as directories
/// list plain names; and what it finds lies below the root.
pub proof fn law_the_walk_stays_inside(
    w: WalkText,
    rules: WalkRules,
    listing: Option<Seq<Entry>>,
    canonical: Seq<char>,
    bare: bool,
)
    requires
        w.stack.len() > 0,
        is_inside(w, rules.max_depth as int),
        listing matches Some(entries) ==> forall|i: int|
            0 <= i < entries.len() ==> crate::pathname::plain_name((#[trigger] entries[i]).name@),
    ensures
        walk_step(w, rules, listing, canonical, bare).root == w.root,
        is_inside(walk_step(w, rules, listing, canonical, bare), rules.max_depth as int),
        ({
            let found = walk_step(w, rules, listing, canonical, bare).found;
            found == w.found || found.len() == w.found.len() + 1 && crate::pathname::under(
                found[found.len() - 1].root,
                w.root,
            )
        }),
{
    let (dir, depth) = w.stack[w.stack.len() - 1];
    let next = walk_step(w, rules, listing, canonical, bare);
    if let Some(entries) = listing {
        lemma_children_inside(w.root, dir, entries, rules, entries.len() as int);
        let v = visit_of(w.root, dir, entries, rules);
        assert forall|i: int|
            #![trigger next.stack[i]]
            0 <= i < next.stack.len() implies crate::pathname::under(next.stack[i].0, w.root) && 0
            <= next.stack[i].1 <= rules.max_depth by {
            if i < w.stack.len() - 1 {
                assert(next.stack[i] == w.stack[i]);
            } else {
                assert(next.stack[i].0 == v.children[i - (w.stack.len() - 1)]);
            }
        }
    } else {
        assert forall|i: int|
            #![trigger next.stack[i]]
            0 <= i < next.stack.len() implies crate::pathname::under(next.stack[i].0, w.root) && 0
            <= next.stack[i].1 <= rules.max_depth by {
            assert(next.stack[i] == w.stack[i]);
        }
    }
}

proof fn lemma_children_inside(
    root: Seq<char>,
    dir: Seq<char>,
    entries: Seq<Entry>,
    rules: WalkRules,
    n: int,
)
    requires
        0 <= n <= entries.len(),
        crate::pathname::under(dir, root),
        forall|i: int|
            0 <= i < entries.len() ==> crate::pathname::plain_name((#[trigger] entries[i]).name@),
    ensures
        forall|i: int|
            0 <= i < visit_upto(root, dir, entries, rules, n).children.len()
                ==> crate::pathname::under(
                #[trigger] visit_upto(root, dir, entries, rules, n).children[i],
                root,
            ),
    decreases n,
{
    if n > 0 {
        lemma_children_inside(root, dir, entries, rules, n - 1);
        let before = visit_upto(root, dir, entries, rules, n - 1).children;
        let after = visit_upto(root, dir, entries, rules, n).children;
        let name = entries[n - 1].name@;
        crate::pathname::law_a_joined_name_is_one_component_more(dir, name);
        assert forall|i: int| 0 <= i < after.len() implies crate::pathname::under(
            #[trigger] after[i],
            root,
        ) by {
            if i < before.len() {
                assert(after[i] == before[i]);
            } else {
                let r = crate::pathname::components(root);
                let d = crate::pathname::components(dir);
                assert(d.push(name).take(r.len() as int) =~= d.take(r.len() as int));
            }
        }
    }
}

// What a whole walk of one root keeps.

/// What the file system says of a directory: what it holds, where it can be read,
/// its real path, and whether it is a bare repo.
pub struct Reading {
    pub listing: Option<Seq<Entry>>,
    pub canonical: Seq<char>,
    pub bare: bool,
}

/// Whether a directory lists plain names, none of them twice.
pub open spec fn lists_names(reading: Reading) -> bool {
    reading.listing matches Some(entries) ==> {
        &&& forall|i: int|
            0 <= i < entries.len() ==> crate::pathname::plain_name((#[trigger] entries[i]).name@)
        &&& forall|i: int, j: int|
            0 <= i < j < entries.len() ==> (#[trigger] entries[i]).name@ != (
            #[trigger] entries[j]).name@
    }
}

/// The walk after these readings, one step for each while there is a directory left
/// to read.
pub open spec fn walked(w: WalkText, rules: WalkRules, readings: Seq<Reading>) -> WalkText
    decreases readings.len(),
{
    if readings.len() == 0 {
        w
    } else {
        let before = walked(w, rules, readings.drop_last());
        let last = readings.last();
        if before.stack.len() == 0 {
            before
        } else {
            walk_step(before, rules, last.listing, last.canonical, last.bare)
        }
    }
}

/// Whether a directory was read as a bare repo.
pub open spec fn read_as_bare(
    w: WalkText,
    rules: WalkRules,
    readings: Seq<Reading>,
    dir: Seq<char>,
) -> bool
    decreases readings.len(),
{
    readings.len() > 0 && ({
        let before = walked(w, rules, readings.drop_last()).stack;
        ||| before.len() > 0 && readings.last().bare && before[before.len() - 1].0 == dir
        ||| read_as_bare(w, rules, readings.drop_last(), dir)
    })
}

/// Whether a path is one that a walk may reach: below the root and not too deep, no
/// segment below the root hidden or pruned, and not excluded.
pub open spec fn is_open(path: Seq<char>, root: Seq<char>, rules: WalkRules) -> bool {
    let top = crate::pathname::components(root).len();
    let parts = crate::pathname::components(path);
    &&& crate::pathname::under(path, root)
    &&& parts.len() <= top + rules.max_depth
    &&& forall|k: int|
        top <= k < parts.len() ==> !crate::text::starts_with(#[trigger] parts[k], "."@)
            && !crate::text::texts(rules.prune@).contains(parts[k])
    &&& path != root ==> !is_excluded(root, path, rules.excludes)
}

/// What every step of a walk keeps, of the repos found from `from` on and of `shut`,
/// the repos met that are not bare.
spec fn is_tidy(w: WalkText, rules: WalkRules, from: int, shut: Seq<Seq<char>>) -> bool {
    &&& 0 <= from <= w.found.len()
    &&& forall|i: int| #![trigger w.stack[i]]
        0 <= i < w.stack.len() ==> is_open(w.stack[i].0, w.root, rules) && 0 <= w.stack[i].1
            && crate::pathname::components(w.stack[i].0).len() == crate::pathname::components(
            w.root,
        ).len() + w.stack[i].1
    &&& forall|i: int, j: int| #![trigger w.stack[i], w.stack[j]]
        0 <= i < w.stack.len() && 0 <= j < w.stack.len() && i != j ==> !crate::pathname::under(
            w.stack[i].0,
            w.stack[j].0,
        )
    &&& forall|i: int, j: int| #![trigger shut[i], w.stack[j]]
        0 <= i < shut.len() && 0 <= j < w.stack.len() ==> !crate::pathname::under(
            shut[i],
            w.stack[j].0,
        ) && (!rules.follow_nested_repos ==> !crate::pathname::under(w.stack[j].0, shut[i]))
    &&& forall|i: int, j: int| #![trigger w.found[i], w.stack[j]]
        from <= i < w.found.len() && 0 <= j < w.stack.len() ==> !crate::pathname::under(
            w.found[i].root,
            w.stack[j].0,
        )
    &&& forall|i: int| #![trigger w.found[i]]
        from <= i < w.found.len() ==> is_open(w.found[i].root, w.root, rules)
            && !crate::pathname::same_path(w.found[i].root, w.root)
    &&& forall|i: int, j: int| #![trigger w.found[i], w.found[j]]
        from <= i < j < w.found.len() ==> !crate::pathname::under(w.found[i].root, w.found[j].root)
    &&& !rules.follow_nested_repos ==> forall|i: int, j: int| #![trigger w.found[i], shut[j]]
        from <= i < w.found.len() && 0 <= j < shut.len() && crate::pathname::under(
            w.found[i].root,
            shut[j],
        ) ==> crate::pathname::same_path(w.found[i].root, shut[j])
}

proof fn lemma_below_child(dir: Seq<char>, name: Seq<char>, other: Seq<char>)
    requires
        crate::pathname::plain_name(name),
    ensures
        ({
            let child = crate::pathname::joined(dir, name);
            &&& crate::pathname::under(child, other) ==> crate::pathname::under(dir, other)
                || crate::pathname::under(other, child)
            &&& crate::pathname::under(other, child) ==> crate::pathname::under(other, dir)
            &&& !crate::pathname::under(dir, child)
        }),
{
    let child = crate::pathname::joined(dir, name);
    crate::pathname::law_a_joined_name_is_one_component_more(dir, name);
    let d = crate::pathname::components(dir);
    let c = crate::pathname::components(child);
    let o = crate::pathname::components(other);
    if crate::pathname::under(child, other) {
        if o.len() <= d.len() {
            assert(d.take(o.len() as int) =~= c.take(o.len() as int));
        } else {
            assert(c.take(o.len() as int) =~= c);
            assert(o.take(c.len() as int) =~= c);
        }
    }
    if crate::pathname::under(other, child) {
        assert(o.take(d.len() as int) =~= o.take(c.len() as int).take(d.len() as int));
        assert(c.take(d.len() as int) =~= d);
    }
}

proof fn lemma_siblings(dir: Seq<char>, a: Seq<char>, b: Seq<char>)
    requires
        crate::pathname::plain_name(a),
        crate::pathname::plain_name(b),
        a != b,
    ensures
        !crate::pathname::under(crate::pathname::joined(dir, a), crate::pathname::joined(dir, b)),
{
    crate::pathname::law_a_joined_name_is_one_component_more(dir, a);
    crate::pathname::law_a_joined_name_is_one_component_more(dir, b);
    let d = crate::pathname::components(dir);
    if crate::pathname::under(crate::pathname::joined(dir, a), crate::pathname::joined(dir, b)) {
        assert(d.push(a).take(d.push(b).len() as int) =~= d.push(a));
        assert(d.push(a)[d.len() as int] == d.push(b)[d.len() as int]);
    }
}

/// Whether a directory to walk into is that of the entry at `e`.
spec fn is_child(
    child: Seq<char>,
    root: Seq<char>,
    dir: Seq<char>,
    entries: Seq<Entry>,
    rules: WalkRules,
    e: int,
) -> bool {
    let name = entries[e].name@;
    &&& 0 <= e < entries.len()
    &&& child == crate::pathname::joined(dir, name)
    &&& !crate::text::starts_with(name, "."@)
    &&& !crate::text::texts(rules.prune@).contains(name)
    &&& !is_excluded(root, child, rules.excludes)
}

/// Whether a directory to walk into is that of one of the first `n` entries.
spec fn is_listed(
    child: Seq<char>,
    root: Seq<char>,
    dir: Seq<char>,
    entries: Seq<Entry>,
    rules: WalkRules,
    n: int,
) -> bool {
    exists|e: int| e < n && #[trigger] is_child(child, root, dir, entries, rules, e)
}

/// Whether these are directories of the first `n` entries to walk into.
spec fn are_children(
    children: Seq<Seq<char>>,
    root: Seq<char>,
    dir: Seq<char>,
    entries: Seq<Entry>,
    rules: WalkRules,
    n: int,
) -> bool {
    forall|i: int|
        #![trigger children[i]]
        0 <= i < children.len() ==> is_listed(children[i], root, dir, entries, rules, n)
}

/// Whether none of these lies below another.
spec fn are_apart(paths: Seq<Seq<char>>) -> bool {
    forall|i: int, j: int|
        #![trigger paths[i], paths[j]]
        0 <= i < paths.len() && 0 <= j < paths.len() && i != j ==> !crate::pathname::under(
            paths[i],
            paths[j],
        )
}

proof fn lemma_children(
    root: Seq<char>,
    dir: Seq<char>,
    reading: Reading,
    rules: WalkRules,
    n: int,
)
    requires
        lists_names(reading),
        reading.listing is Some,
        0 <= n <= reading.listing->0.len(),
    ensures
        are_children(
            visit_upto(root, dir, reading.listing->0, rules, n).children,
            root,
            dir,
            reading.listing->0,
            rules,
            n,
        ),
        are_apart(visit_upto(root, dir, reading.listing->0, rules, n).children),
    decreases n,
{
    if n > 0 {
        lemma_children(root, dir, reading, rules, n - 1);
        let entries = reading.listing->0;
        let before = visit_upto(root, dir, entries, rules, n - 1).children;
        let after = visit_upto(root, dir, entries, rules, n).children;
        assert forall|i: int|
            #![trigger after[i]]
            0 <= i < after.len() implies is_listed(after[i], root, dir, entries, rules, n) by {
            if i < before.len() {
                assert(after[i] == before[i]);
                assert(is_listed(before[i], root, dir, entries, rules, n - 1));
                let e = choose|e: int|
                    e < n - 1 && #[trigger] is_child(before[i], root, dir, entries, rules, e);
                assert(is_child(after[i], root, dir, entries, rules, e));
            } else {
                assert(is_child(after[i], root, dir, entries, rules, n - 1));
            }
        }
        assert forall|i: int, j: int|
            #![trigger after[i], after[j]]
            0 <= i < after.len() && 0 <= j < after.len() && i
                != j implies !crate::pathname::under(after[i], after[j]) by {
            if i < before.len() && j < before.len() {
                assert(after[i] == before[i] && after[j] == before[j]);
            } else {
                let k = if i < before.len() {
                    i
                } else {
                    j
                };
                assert(after[k] == before[k]);
                assert(is_listed(before[k], root, dir, entries, rules, n - 1));
                let e = choose|e: int|
                    e < n - 1 && #[trigger] is_child(before[k], root, dir, entries, rules, e);
                assert(entries[e].name@ != entries[n - 1].name@);
                lemma_siblings(dir, entries[e].name@, entries[n - 1].name@);
                lemma_siblings(dir, entries[n - 1].name@, entries[e].name@);
            }
        }
        assert(are_apart(after));
    }
}

/// A directory to walk into is one that the walk may reach, and lies below nothing
/// that the directory it is in does not.
proof fn lemma_child_is_open(
    child: Seq<char>,
    root: Seq<char>,
    dir: Seq<char>,
    entries: Seq<Entry>,
    rules: WalkRules,
    e: int,
)
    requires
        is_child(child, root, dir, entries, rules, e),
        crate::pathname::plain_name(entries[e].name@),
        is_open(dir, root, rules),
        crate::pathname::components(dir).len() < crate::pathname::components(root).len()
            + rules.max_depth,
    ensures
        is_open(child, root, rules),
        crate::pathname::components(child).len() == crate::pathname::components(dir).len() + 1,
{
    let name = entries[e].name@;
    crate::pathname::law_a_joined_name_is_one_component_more(dir, name);
    let d = crate::pathname::components(dir);
    let c = crate::pathname::components(child);
    let r = crate::pathname::components(root);
    assert(c == d.push(name));
    assert(c.take(r.len() as int) =~= d.take(r.len() as int));
    assert forall|k: int| r.len() <= k < c.len() implies !crate::text::starts_with(
        #[trigger] c[k],
        "."@,
    ) && !crate::text::texts(rules.prune@).contains(c[k]) by {
        if k < d.len() {
            assert(c[k] == d[k]);
        }
    }
}

/// The repos met that are not bare, after another reading.
spec fn shut_by(
    w: WalkText,
    rules: WalkRules,
    reading: Reading,
    shut: Seq<Seq<char>>,
) -> Seq<Seq<char>> {
    let dir = w.stack[w.stack.len() - 1].0;
    if reading.listing is Some && !reading.bare && visit_of(
        w.root,
        dir,
        reading.listing->0,
        rules,
    ).repo {
        shut.push(dir)
    } else {
        shut
    }
}

/// Recording the directory on top of the stack keeps a walk tidy.
proof fn lemma_recorded_is_tidy(
    w: WalkText,
    next: WalkText,
    rules: WalkRules,
    from: int,
    shut: Seq<Seq<char>>,
    more: Seq<Seq<char>>,
)
    requires
        is_tidy(w, rules, from, shut),
        w.stack.len() > 0,
        next.stack == w.stack.take(w.stack.len() - 1),
        next.root == w.root,
        ({
            let dir = w.stack[w.stack.len() - 1].0;
            &&& next.found == w.found || !crate::pathname::same_path(dir, w.root)
                && next.found.len() == w.found.len() + 1 && next.found.take(w.found.len() as int)
                == w.found && next.found[w.found.len() as int].root == dir
            &&& more == shut || more == shut.push(dir)
        }),
    ensures
        is_tidy(next, rules, from, more),
{
    let top = w.stack.len() - 1;
    let dir = w.stack[top].0;
    assert forall|i: int| #![trigger next.stack[i]] 0 <= i < next.stack.len() implies next.stack[i]
        == w.stack[i] by {}
    assert forall|i: int|
        #![trigger next.found[i]]
        0 <= i < w.found.len() implies next.found[i] == w.found[i] by {
        assert(next.found.take(w.found.len() as int)[i] == next.found[i]);
    }
    assert(crate::pathname::same_path(dir, dir));
    assert forall|i: int, j: int|
        #![trigger more[i], next.stack[j]]
        0 <= i < more.len() && 0 <= j < next.stack.len() implies !crate::pathname::under(
        more[i],
        next.stack[j].0,
    ) && (!rules.follow_nested_repos ==> !crate::pathname::under(next.stack[j].0, more[i])) by {
        if i < shut.len() {
            assert(more[i] == shut[i]);
            assert(next.stack[j] == w.stack[j]);
        } else {
            assert(more[i] == w.stack[top].0);
            assert(next.stack[j] == w.stack[j]);
        }
    }
    assert forall|i: int, j: int|
        #![trigger next.found[i], next.stack[j]]
        from <= i < next.found.len() && 0 <= j < next.stack.len() implies !crate::pathname::under(
        next.found[i].root,
        next.stack[j].0,
    ) by {
        assert(next.stack[j] == w.stack[j]);
        if i < w.found.len() {
            assert(next.found[i] == w.found[i]);
        } else {
            assert(next.found[i].root == w.stack[top].0);
        }
    }
    assert forall|i: int|
        #![trigger next.found[i]]
        from <= i < next.found.len() implies is_open(next.found[i].root, next.root, rules)
        && !crate::pathname::same_path(next.found[i].root, next.root) by {
        if i < w.found.len() {
            assert(next.found[i] == w.found[i]);
        } else {
            assert(next.found[i].root == w.stack[top].0);
        }
    }
    assert forall|i: int, j: int|
        #![trigger next.found[i], next.found[j]]
        from <= i < j < next.found.len() implies !crate::pathname::under(
        next.found[i].root,
        next.found[j].root,
    ) by {
        assert(next.found[i] == w.found[i]);
        if j < w.found.len() {
            assert(next.found[j] == w.found[j]);
        } else {
            assert(next.found[j].root == w.stack[top].0);
        }
    }
    if !rules.follow_nested_repos {
        assert forall|i: int, j: int|
            #![trigger next.found[i], more[j]]
            from <= i < next.found.len() && 0 <= j < more.len() && crate::pathname::under(
                next.found[i].root,
                more[j],
            ) implies crate::pathname::same_path(next.found[i].root, more[j]) by {
            if i < w.found.len() {
                assert(next.found[i] == w.found[i]);
            } else {
                assert(next.found[i].root == w.stack[top].0);
            }
            if j < shut.len() {
                assert(more[j] == shut[j]);
            } else {
                assert(more[j] == w.stack[top].0);
            }
        }
    }
}

/// Going on into the directories below the one that was read keeps a walk tidy.
proof fn lemma_descended_is_tidy(
    w: WalkText,
    mid: WalkText,
    next: WalkText,
    rules: WalkRules,
    reading: Reading,
    from: int,
    shut: Seq<Seq<char>>,
    more: Seq<Seq<char>>,
)
    requires
        is_tidy(w, rules, from, shut),
        is_tidy(mid, rules, from, more),
        w.stack.len() > 0,
        mid.stack == w.stack.take(w.stack.len() - 1),
        mid.root == w.root,
        mid.found.len() >= w.found.len(),
        lists_names(reading),
        reading.listing is Some,
        ({
            let (dir, depth) = w.stack[w.stack.len() - 1];
            let v = visit_of(w.root, dir, reading.listing->0, rules);
            &&& depth < rules.max_depth
            &&& forall|i: int|
                #![trigger mid.found[i]]
                from <= i < mid.found.len() ==> (if i < w.found.len() {
                    mid.found[i] == w.found[i]
                } else {
                    mid.found[i].root == dir
                })
            &&& more == shut || rules.follow_nested_repos && more == shut.push(dir)
            &&& next == (WalkText {
                stack: mid.stack + at_depth(v.children, depth + 1),
                ..mid
            })
        }),
    ensures
        is_tidy(next, rules, from, more),
{
    let top = w.stack.len() - 1;
    let (dir, depth) = w.stack[top];
    let entries = reading.listing->0;
    let n = entries.len() as int;
    let children = visit_of(w.root, dir, entries, rules).children;
    lemma_children(w.root, dir, reading, rules, n);
    assert forall|i: int|
        #![trigger next.stack[i]]
        0 <= i < next.stack.len() implies if i < top {
        next.stack[i] == mid.stack[i] && next.stack[i] == w.stack[i]
    } else {
        next.stack[i] == (children[i - top], depth + 1)
    } by {}
    // What is known of one directory below, against the stack, the finds and the
    // repos met.
    assert forall|c: int|
        #![trigger children[c]]
        0 <= c < children.len() implies is_open(children[c], w.root, rules)
        && crate::pathname::components(children[c]).len() == crate::pathname::components(dir).len()
        + 1 && !crate::pathname::under(dir, children[c]) by {
        let e = choose|e: int|
            e < n && #[trigger] is_child(children[c], w.root, dir, entries, rules, e);
        lemma_child_is_open(children[c], w.root, dir, entries, rules, e);
        lemma_below_child(dir, entries[e].name@, dir);
    }
    assert forall|c: int, j: int|
        #![trigger children[c], w.stack[j]]
        0 <= c < children.len() && 0 <= j < top implies !crate::pathname::under(
        children[c],
        w.stack[j].0,
    ) && !crate::pathname::under(w.stack[j].0, children[c]) by {
        let e = choose|e: int|
            e < n && #[trigger] is_child(children[c], w.root, dir, entries, rules, e);
        lemma_below_child(dir, entries[e].name@, w.stack[j].0);
        assert(w.stack[top].0 == dir);
    }
    assert forall|c: int, j: int|
        #![trigger children[c], more[j]]
        0 <= c < children.len() && 0 <= j < more.len() implies !crate::pathname::under(
        more[j],
        children[c],
    ) && (!rules.follow_nested_repos ==> !crate::pathname::under(children[c], more[j])) by {
        let e = choose|e: int|
            e < n && #[trigger] is_child(children[c], w.root, dir, entries, rules, e);
        lemma_below_child(dir, entries[e].name@, more[j]);
        if j < shut.len() {
            assert(more[j] == shut[j]);
            assert(w.stack[top].0 == dir);
        }
    }
    assert forall|c: int, j: int|
        #![trigger children[c], mid.found[j]]
        0 <= c < children.len() && from <= j < mid.found.len() implies !crate::pathname::under(
        mid.found[j].root,
        children[c],
    ) by {
        let e = choose|e: int|
            e < n && #[trigger] is_child(children[c], w.root, dir, entries, rules, e);
        lemma_below_child(dir, entries[e].name@, mid.found[j].root);
        if j < w.found.len() {
            assert(mid.found[j] == w.found[j]);
            assert(w.stack[top].0 == dir);
        }
    }
    assert forall|i: int, j: int|
        #![trigger next.stack[i], next.stack[j]]
        0 <= i < next.stack.len() && 0 <= j < next.stack.len() && i
            != j implies !crate::pathname::under(next.stack[i].0, next.stack[j].0) by {
        if i < top && j < top {
            assert(next.stack[i] == w.stack[i] && next.stack[j] == w.stack[j]);
        } else if i < top {
            assert(next.stack[i] == w.stack[i] && next.stack[j].0 == children[j - top]);
        } else if j < top {
            assert(next.stack[i].0 == children[i - top] && next.stack[j] == w.stack[j]);
        } else {
            assert(next.stack[i].0 == children[i - top] && next.stack[j].0 == children[j - top]);
        }
    }
    assert forall|i: int, j: int|
        #![trigger more[i], next.stack[j]]
        0 <= i < more.len() && 0 <= j < next.stack.len() implies !crate::pathname::under(
        more[i],
        next.stack[j].0,
    ) && (!rules.follow_nested_repos ==> !crate::pathname::under(next.stack[j].0, more[i])) by {
        if j < top {
            assert(next.stack[j] == mid.stack[j]);
        } else {
            assert(next.stack[j].0 == children[j - top]);
        }
    }
    assert forall|i: int, j: int|
        #![trigger next.found[i], next.stack[j]]
        from <= i < next.found.len() && 0 <= j < next.stack.len() implies !crate::pathname::under(
        next.found[i].root,
        next.stack[j].0,
    ) by {
        assert(next.found[i] == mid.found[i]);
        if j < top {
            assert(next.stack[j] == mid.stack[j]);
        } else {
            assert(next.stack[j].0 == children[j - top]);
        }
    }
    assert forall|i: int|
        #![trigger next.stack[i]]
        0 <= i < next.stack.len() implies is_open(next.stack[i].0, next.root, rules) && 0
        <= next.stack[i].1 && crate::pathname::components(next.stack[i].0).len()
        == crate::pathname::components(next.root).len() + next.stack[i].1 by {
        if i < top {
            assert(next.stack[i] == w.stack[i]);
        } else {
            assert(next.stack[i].0 == children[i - top]);
        }
    }
}

proof fn lemma_step_is_tidy(
    w: WalkText,
    rules: WalkRules,
    reading: Reading,
    from: int,
    shut: Seq<Seq<char>>,
)
    requires
        is_tidy(w, rules, from, shut),
        w.stack.len() > 0,
        lists_names(reading),
    ensures
        ({
            let next = walk_step(w, rules, reading.listing, reading.canonical, reading.bare);
            &&& is_tidy(next, rules, from, shut_by(w, rules, reading, shut))
            &&& next.root == w.root
            &&& next.found == w.found || next.found.len() == w.found.len() + 1
                && next.found.take(w.found.len() as int) == w.found
                && next.found[w.found.len() as int].root == w.stack[w.stack.len() - 1].0
                && visit_of(
                w.root,
                w.stack[w.stack.len() - 1].0,
                reading.listing->0,
                rules,
            ).repo && reading.listing is Some
        }),
{
    let (dir, depth) = w.stack[w.stack.len() - 1];
    let next = walk_step(w, rules, reading.listing, reading.canonical, reading.bare);
    let more = shut_by(w, rules, reading, shut);
    let mid = WalkText { stack: w.stack.take(w.stack.len() - 1), ..next };
    if next.found != w.found {
        assert(next.found.take(w.found.len() as int) =~= w.found);
    }
    lemma_recorded_is_tidy(w, mid, rules, from, shut, more);
    if let Some(entries) = reading.listing {
        let v = visit_of(w.root, dir, entries, rules);
        if descends(rules, v.repo, reading.bare, depth) {
            lemma_descended_is_tidy(w, mid, next, rules, reading, from, shut, more);
        } else {
            assert(next == mid);
        }
    } else {
        assert(next == mid);
    }
}

/// The repos met that are not bare, after these readings.
spec fn shut_after(w: WalkText, rules: WalkRules, readings: Seq<Reading>) -> Seq<Seq<char>>
    decreases readings.len(),
{
    if readings.len() == 0 {
        Seq::empty()
    } else {
        let before = walked(w, rules, readings.drop_last());
        let shut = shut_after(w, rules, readings.drop_last());
        if before.stack.len() == 0 {
            shut
        } else {
            shut_by(before, rules, readings.last(), shut)
        }
    }
}

proof fn lemma_walk_is_tidy(w: WalkText, rules: WalkRules, readings: Seq<Reading>)
    requires
        w.stack == seq![(w.root, 0int)],
        forall|k: int| 0 <= k < readings.len() ==> lists_names(#[trigger] readings[k]),
    ensures
        ({
            let after = walked(w, rules, readings);
            let shut = shut_after(w, rules, readings);
            &&& after.root == w.root
            &&& after.found.len() >= w.found.len()
            &&& after.found.take(w.found.len() as int) == w.found
            &&& is_tidy(after, rules, w.found.len() as int, shut)
            &&& forall|i: int|
                #![trigger after.found[i]]
                w.found.len() <= i < after.found.len() ==> shut.contains(after.found[i].root)
                    || read_as_bare(w, rules, readings, after.found[i].root)
        }),
    decreases readings.len(),
{
    let after = walked(w, rules, readings);
    let shut = shut_after(w, rules, readings);
    let from = w.found.len() as int;
    if readings.len() == 0 {
        let c = crate::pathname::components(w.root);
        assert(c.take(c.len() as int) =~= c);
        assert(w.found.take(from) =~= w.found);
    } else {
        let rest = readings.drop_last();
        let before = walked(w, rules, rest);
        let held = shut_after(w, rules, rest);
        assert forall|k: int| 0 <= k < rest.len() implies lists_names(#[trigger] rest[k]) by {
            assert(rest[k] == readings[k]);
        }
        lemma_walk_is_tidy(w, rules, rest);
        if before.stack.len() > 0 {
            assert(lists_names(readings[readings.len() - 1]));
            lemma_step_is_tidy(before, rules, readings.last(), from, held);
            assert(after.found.take(from) =~= before.found.take(from)) by {
                if after.found != before.found {
                    assert(before.found =~= after.found.take(before.found.len() as int));
                }
            }
            assert forall|i: int|
                #![trigger after.found[i]]
                from <= i < after.found.len() implies shut.contains(after.found[i].root)
                || read_as_bare(w, rules, readings, after.found[i].root) by {
                if i < before.found.len() {
                    assert(after.found[i] == before.found[i]) by {
                        if after.found != before.found {
                            assert(before.found =~= after.found.take(before.found.len() as int));
                        }
                    }
                    if held.contains(before.found[i].root) {
                        let k = choose|k: int| 0 <= k < held.len() && held[k] == before.found[i].root;
                        assert(shut[k] == held[k]);
                    }
                } else {
                    let dir = before.stack[before.stack.len() - 1].0;
                    assert(after.found[i].root == dir);
                    if !readings.last().bare {
                        assert(shut[held.len() as int] == dir);
                    }
                }
            }
        }
    }
}

/// Walking a root, whatever its directories turn out to hold, only adds to what was
/// found, and only repos below the root, no deeper than allowed, with no hidden and
/// no pruned segment on the way and not excluded.
pub proof fn law_a_walk_finds_what_is_open(
    w: WalkText,
    rules: WalkRules,
    readings: Seq<Reading>,
    i: int,
)
    requires
        w.stack == seq![(w.root, 0int)],
        forall|k: int| 0 <= k < readings.len() ==> lists_names(#[trigger] readings[k]),
        w.found.len() <= i < walked(w, rules, readings).found.len(),
    ensures
        walked(w, rules, readings).found.take(w.found.len() as int) == w.found,
        ({
            let repo = walked(w, rules, readings).found[i].root;
            &&& is_open(repo, w.root, rules)
            &&& !is_excluded(w.root, repo, rules.excludes)
            &&& !crate::pathname::same_path(repo, w.root)
        }),
{
    lemma_walk_is_tidy(w, rules, readings);
    let after = walked(w, rules, readings);
    assert(is_open(after.found[i].root, w.root, rules));
}

/// Of the repos that walking a root finds, none lies inside another, unless nested
/// repos are followed or the other is bare; and none is found twice.
pub proof fn law_no_repo_inside_another(
    w: WalkText,
    rules: WalkRules,
    readings: Seq<Reading>,
    i: int,
    j: int,
)
    requires
        w.stack == seq![(w.root, 0int)],
        forall|k: int| 0 <= k < readings.len() ==> lists_names(#[trigger] readings[k]),
        w.found.len() <= i < walked(w, rules, readings).found.len(),
        w.found.len() <= j < walked(w, rules, readings).found.len(),
        i != j,
    ensures
        ({
            let found = walked(w, rules, readings).found;
            &&& !crate::pathname::same_path(found[i].root, found[j].root)
            &&& crate::pathname::under(found[i].root, found[j].root) ==> rules.follow_nested_repos
                || read_as_bare(w, rules, readings, found[j].root)
        }),
{
    lemma_walk_is_tidy(w, rules, readings);
    let found = walked(w, rules, readings).found;
    let shut = shut_after(w, rules, readings);
    let (a, b) = (found[i].root, found[j].root);
    if crate::pathname::same_path(a, b) {
        let c = crate::pathname::components(a);
        assert(c.take(c.len() as int) =~= c);
        assert(crate::pathname::under(a, b) && crate::pathname::under(b, a));
        assert(found[i].root == a && found[j].root == b);
    }
    if crate::pathname::under(a, b) && !rules.follow_nested_repos && !read_as_bare(
        w,
        rules,
        readings,
        b,
    ) {
        assert(shut.contains(found[j].root));
        let k = choose|k: int| 0 <= k < shut.len() && shut[k] == b;
        assert(crate::pathname::same_path(found[i].root, shut[k]));
    }
}

/// The result holds what was found, each repo as often, and in the order of their
/// paths.
pub proof fn law_result_is_sorted_by_path(found: Seq<FoundText>)
    ensures
        by_path(found).to_multiset() =~= found.to_multiset(),
        forall|i: int, j: int|
            #![trigger by_path(found)[i], by_path(found)[j]]
            0 <= i < j < by_path(found).len() ==> !crate::order::key_less(
                crate::pathname::path_rows(by_path(found)[j].root),
                crate::pathname::path_rows(by_path(found)[i].root),
            ),
{
    let keys = root_keys(found);
    let order = crate::order::stable_order(keys, false);
    crate::order::law_stable_order(keys, false);
    let sorted = by_path(found);
    assert forall|i: int, j: int|
        #![trigger sorted[i], sorted[j]]
        0 <= i < j < sorted.len() implies !crate::order::key_less(
        crate::pathname::path_rows(sorted[j].root),
        crate::pathname::path_rows(sorted[i].root),
    ) by {
        let a = order[i];
        let b = order[j];
        assert(keys[a] == crate::pathname::path_rows(sorted[i].root));
        assert(keys[b] == crate::pathname::path_rows(sorted[j].root));
        crate::order::lemma_key_total(keys[a], keys[b]);
    }
    crate::order::lemma_order_multiset(found, keys, false, found.len() as int);
    assert(found.take(found.len() as int) =~= found);
}

/// A pattern ending in `/**` stands for the directory it names too.
pub proof fn law_exclude_covers_its_directory(patterns: Seq<Seq<char>>, i: int, prefix: Seq<char>)
    requires
        0 <= i < patterns.len(),
        crate::text::strip_suffix(patterns[i], "/**"@) == Some(prefix),
        prefix.len() > 0,
    ensures
        all_globs(patterns).contains(patterns[i]),
        all_globs(patterns).contains(prefix),
{
    lemma_globs_hold(patterns, i, patterns.len() as int);
    let globs = exclude_globs(patterns[i]);
    assert(globs[0] == patterns[i] && globs[1] == prefix);
    assert(globs.contains(patterns[i]) && globs.contains(prefix));
}

proof fn lemma_globs_hold(patterns: Seq<Seq<char>>, i: int, n: int)
    requires
        0 <= i < n <= patterns.len(),
    ensures
        forall|g: Seq<char>|
            exclude_globs(patterns[i]).contains(g) ==> #[trigger] globs_upto(patterns, n).contains(
                g,
            ),
    decreases n,
{
    let before = globs_upto(patterns, n - 1);
    let here = exclude_globs(patterns[n - 1]);
    assert forall|g: Seq<char>| exclude_globs(patterns[i]).contains(g) implies #[trigger] globs_upto(
        patterns,
        n,
    ).contains(g) by {
        if i == n - 1 {
            let k = choose|k: int| 0 <= k < here.len() && here[k] == g;
            assert(globs_upto(patterns, n)[before.len() + k] == g);
        } else {
            lemma_globs_hold(patterns, i, n - 1);
            assert(before.contains(g));
            let k = choose|k: int| 0 <= k < before.len() && before[k] == g;
            assert(globs_upto(patterns, n)[k] == g);
        }
    }
}

/// What becomes of an entry, by its own lights: a `.git` marks a repo; other hidden names,
/// files, and links that are not followed are skipped; of the rest some are kept out of by
/// name or by pattern, and into all others the walk goes.
pub proof fn law_what_becomes_of_an_entry(
    entry: Entry,
    follow_symlinks: bool,
    prune: Seq<Seq<char>>,
    excluded: bool,
)
    ensures
        ({
            let fate = fate_of(entry, follow_symlinks, prune, excluded);
            let hidden = entry.name@.len() > 0 && entry.name@[0] == '.';
            let walkable = entry.is_dir && !hidden && (!entry.is_symlink || follow_symlinks);
            &&& fate == Fate::Marker <==> entry.name@ == ".git"@
            &&& fate == Fate::Child <==> walkable && !prune.contains(entry.name@) && !excluded
            &&& fate == Fate::Pruned <==> walkable && (prune.contains(entry.name@) || excluded)
            &&& fate == Fate::Skipped <==> !walkable && entry.name@ != ".git"@
        }),
{
    reveal_strlit(".git");
    reveal_strlit(".");
    assert("."@ =~= seq!['.']);
    let name = entry.name@;
    if name.len() > 0 {
        assert(name.take(1)[0] == name[0]);
        if name[0] == '.' {
            assert(name.take(1) =~= seq!['.']);
        }
    }
}

/// Every entry of a directory has its say: one more marks, goes in, or is kept out as its
/// fate is, and changes nothing of what the others said.
pub proof fn law_every_entry_has_its_say(
    root: Seq<char>,
    dir: Seq<char>,
    entries: Seq<Entry>,
    rules: WalkRules,
    entry: Entry,
)
    ensures
        ({
            let v = visit_of(root, dir, entries, rules);
            let next = visit_of(root, dir, entries.push(entry), rules);
            let path = crate::pathname::joined(dir, entry.name@);
            let fate = fate_of(
                entry,
                rules.follow_symlinks,
                crate::text::texts(rules.prune@),
                is_excluded(root, path, rules.excludes),
            );
            &&& next.repo <==> v.repo || fate == Fate::Marker
            &&& next.children == (if fate == Fate::Child {
                v.children.push(path)
            } else {
                v.children
            })
            &&& next.pruned == v.pruned + (if fate == Fate::Pruned {
                1int
            } else {
                0
            })
        }),
        !visit_of(root, dir, Seq::empty(), rules).repo,
        visit_of(root, dir, Seq::empty(), rules).children.len() == 0,
        visit_of(root, dir, Seq::empty(), rules).pruned == 0,
{
    lemma_visit_front(root, dir, entries, rules, entry, entries.len() as int);
}

proof fn lemma_visit_front(
    root: Seq<char>,
    dir: Seq<char>,
    entries: Seq<Entry>,
    rules: WalkRules,
    entry: Entry,
    n: int,
)
    requires
        0 <= n <= entries.len(),
    ensures
        visit_upto(root, dir, entries.push(entry), rules, n) == visit_upto(
            root,
            dir,
            entries,
            rules,
            n,
        ),
    decreases n,
{
    if n > 0 {
        lemma_visit_front(root, dir, entries, rules, entry, n - 1);
        assert(entries.push(entry)[n - 1] == entries[n - 1]);
    }
}

/// A step reads one directory, the last that was put by; it counts it, as unreadable where
/// it could not be read, and lists it where it is a repo that was not met and not the root.
pub proof fn law_a_step_reads_one_directory(
    w: WalkText,
    rules: WalkRules,
    entries: Seq<Entry>,
    canonical: Seq<char>,
    bare: bool,
)
    requires
        w.stack.len() > 0,
        0 <= w.visited < usize::MAX,
        0 <= w.unreadable < usize::MAX,
    ensures
        ({
            let (dir, depth) = w.stack[w.stack.len() - 1];
            let next = walk_step(w, rules, Some(entries), canonical, bare);
            let v = visit_of(w.root, dir, entries, rules);
            &&& next.visited == w.visited + 1
            &&& next.unreadable == w.unreadable
            &&& w.pruned + v.pruned <= usize::MAX ==> next.pruned == w.pruned + v.pruned
            &&& !v.repo ==> next.found == w.found && next.seen == w.seen
            &&& v.repo && !met(w.seen, canonical) ==> next.seen == w.seen.push(canonical)
            &&& v.repo && !met(w.seen, canonical) && !crate::pathname::same_path(dir, w.root)
                ==> next.found.len() == w.found.len() + 1 && next.found.take(w.found.len() as int)
                == w.found && next.found[w.found.len() as int].root == dir
            &&& crate::pathname::same_path(dir, w.root) ==> next.found == w.found
            &&& next.stack == w.stack.take(w.stack.len() - 1) + (if depth < rules.max_depth && (
            !v.repo || bare || rules.follow_nested_repos) {
                v.children.map_values(|c: Seq<char>| (c, depth + 1))
            } else {
                Seq::empty()
            })
        }),
        ({
            let next = walk_step(w, rules, None, canonical, bare);
            &&& next.visited == w.visited + 1
            &&& next.unreadable == w.unreadable + 1
            &&& next.found == w.found
            &&& next.pruned == w.pruned
            &&& next.stack == w.stack.take(w.stack.len() - 1)
        }),
{
    let (dir, depth) = w.stack[w.stack.len() - 1];
    let next = walk_step(w, rules, Some(entries), canonical, bare);
    let v = visit_of(w.root, dir, entries, rules);
    assert(w.found.take(w.found.len() as int) =~= w.found);
    if next.found.len() > w.found.len() {
        assert(next.found.take(w.found.len() as int) =~= w.found);
    }
    let short = w.stack.take(w.stack.len() - 1);
    assert(short + Seq::<(Seq<char>, int)>::empty() =~= short);
    assert(at_depth(v.children, depth + 1) =~= v.children.map_values(
        |c: Seq<char>| (c, depth + 1),
    ));
}

/// A repo is called by its path from the root: one directly in it has no group, and one
/// further down has its first directory for a group. One that is not below it keeps its
/// whole path for a name.
pub proof fn law_a_repo_is_called_by_its_path(
    root: Seq<char>,
    group: Seq<char>,
    name: Seq<char>,
    other: Seq<char>,
)
    requires
        crate::pathname::plain_name(group),
        crate::pathname::plain_name(name),
    ensures
        slug_of(root, crate::pathname::joined(root, name)) == (Seq::<char>::empty(), name),
        slug_of(
            root,
            crate::pathname::joined(crate::pathname::joined(root, group), name),
        ) == (group, name),
        !crate::pathname::under(other, root) ==> slug_of(root, other) == (
            Seq::<char>::empty(),
            other,
        ),
{
    crate::pathname::law_a_name_is_what_is_left(root, group, name);
    crate::pathname::law_below_goes_on(other, root, root);
    assert(seq![group, name].skip(1) =~= seq![name]);
}

/// A pattern stands for itself, and one for all below a directory for the directory too.
pub proof fn law_a_pattern_stands_for_itself(patterns: Seq<Seq<char>>, pattern: Seq<char>)
    ensures
        exclude_globs(pattern)[0] == pattern,
        pattern.len() > 0 ==> exclude_globs(pattern + "/**"@) == seq![pattern + "/**"@, pattern],
        !crate::text::ends_with(pattern, "/**"@) ==> exclude_globs(pattern) == seq![pattern],
        all_globs(patterns.push(pattern)) == all_globs(patterns) + exclude_globs(pattern),
        all_globs(Seq::empty()).len() == 0,
{
    crate::text::law_what_was_put_around_comes_off("/**"@, pattern);
    lemma_globs_front(patterns, pattern, patterns.len() as int);
}

proof fn lemma_globs_front(patterns: Seq<Seq<char>>, pattern: Seq<char>, n: int)
    requires
        0 <= n <= patterns.len(),
    ensures
        globs_upto(patterns.push(pattern), n) == globs_upto(patterns, n),
    decreases n,
{
    if n > 0 {
        lemma_globs_front(patterns, pattern, n - 1);
        assert(patterns.push(pattern)[n - 1] == patterns[n - 1]);
    }
}

/// The pattern that is complained of is the first with a fault; without one there is none.
pub proof fn law_the_first_fault_is_told(globs: Seq<Seq<char>>, from: int, i: int)
    requires
        0 <= from <= i < globs.len(),
        crate::glob::glob_fault(globs[i]) is Some,
        forall|k: int|
            from <= k < i ==> crate::glob::glob_fault(#[trigger] globs[k]) is None,
    ensures
        first_bad(globs, from) == Some(globs[i]),
    decreases i - from,
{
    if from < i {
        assert(crate::glob::glob_fault(globs[from]) is None);
        law_the_first_fault_is_told(globs, from + 1, i);
    }
}

/// What is read of a repo that was found is what it holds, field by field.
pub proof fn law_a_found_text_is_its_value(found: Seq<Discovered>, stack: Seq<(String, usize)>, i: int)
    ensures
        found_texts(found).len() == found.len() && stack_texts(stack).len() == stack.len(),
        0 <= i < found.len() ==> found_texts(found)[i].root == found[i].root@ && found_texts(
            found,
        )[i].group == found[i].group@ && found_texts(found)[i].name == found[i].name@,
        0 <= i < stack.len() ==> stack_texts(stack)[i] == (stack[i].0@, stack[i].1 as int),
{
}

/// A directory is excluded where a pattern matches its path from the root; nothing is
/// without patterns, nor outside the root.
pub proof fn law_what_is_excluded(root: Seq<char>, path: Seq<char>, excludes: globset::GlobSet)
    ensures
        !is_excluded(root, path, None),
        !crate::pathname::under(path, root) ==> !is_excluded(root, path, Some(excludes)),
        crate::pathname::under(path, root) ==> (is_excluded(root, path, Some(excludes))
            <==> crate::glob::any_matches(
            crate::glob::globs_in(excludes),
            crate::pathname::relative(path, root)->0,
        )),
{
    crate::pathname::law_below_goes_on(path, root, root);
}

} // verus!
