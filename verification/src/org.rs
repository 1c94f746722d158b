//! The org-sync engine: clone missing checkouts and fast-forward existing
//! ones, one repo at a time.
//!
//! Three stages, so the interesting logic is a pure function tests can drive
//! without network or git. `plan` decides what would happen, `execute` does
//! it serially (see [`crate::sync`]), and the program ties them together with the
//! degrade-to-update-only guard rail and the cache write.
//!
//! Two rules from the plan that this module lives by. Sync is *strictly
//! serial* — one git child at a time — because it
//! runs against a fleet while the user may have editors open, and nothing
//! here may ever lose work. And orphans are only ever *reported*, never
//! removed: a repo on disk that the owner no longer lists was renamed or
//! deleted upstream, archived, or made private, and guessing which is how a
//! sync tool earns its rm -rf horror story.

use vstd::prelude::*;

use crate::config::{org_path_from, Config, OrgConfig};
use crate::glob::{set_matches, single};
use crate::order::{code_row, sort_indices, Key};
use crate::pathname::{file_name_of, is_under, parent_of, path_key, paths_equal};
use crate::paths::{as_opt_str, contract_from, expand, home_dir};
use crate::provider::OrgRepo;
use crate::text::{push_text, same, to_chars};

pub use crate::sync::{
    clone_url, execute, finish_sync, last_line, record_state, sync_plan, Action, Answer, SyncEvent,
    SyncOutcome, SyncRun, WorkItem,
};

verus! {

/// A repo the config says not to touch: a fork, an archive, or a name
/// matching one of the `exclude` globs.
#[derive(Debug)]
pub struct SkippedRepo {
    pub name: String,
    pub reason: String,
}

impl Clone for SkippedRepo {
    fn clone(&self) -> (r: Self)
        ensures
            r == *self,
    {
        SkippedRepo { name: self.name.clone(), reason: self.reason.clone() }
    }
}

/// A repo passed over, by its contents.
pub struct SkipText {
    pub name: Seq<char>,
    pub reason: Seq<char>,
}

impl View for SkippedRepo {
    type V = SkipText;

    open spec fn view(&self) -> SkipText {
        SkipText { name: self.name@, reason: self.reason@ }
    }
}

pub open spec fn skip_texts(skipped: Seq<SkippedRepo>) -> Seq<SkipText> {
    skipped.map_values(|s: SkippedRepo| s@)
}

/// What a sync would do, before anything runs. This is the `--dry-run` shape.
#[derive(Debug)]
pub struct SyncPlan {
    pub to_clone: Vec<OrgRepo>,
    pub to_update: Vec<String>,
    pub orphans: Vec<String>,
    pub skipped: Vec<SkippedRepo>,
}

impl Default for SyncPlan {
    fn default() -> (r: Self)
        ensures
            r.to_clone@.len() == 0,
            r.to_update@.len() == 0,
            r.orphans@.len() == 0,
            r.skipped@.len() == 0,
    {
        SyncPlan {
            to_clone: Vec::new(),
            to_update: Vec::new(),
            orphans: Vec::new(),
            skipped: Vec::new(),
        }
    }
}

// ---------------------------------------------------------------------------
// Exclude globs
// ---------------------------------------------------------------------------

/// Whether one of these patterns rules a name out. A pattern that is empty, that is
/// `*`, or that cannot be compiled rules nothing out.
pub open spec fn name_excluded(patterns: Seq<Seq<char>>, name: Seq<char>) -> bool {
    exists|i: int|
        0 <= i < patterns.len() && crate::release::pattern_counts(patterns[i])
            && #[trigger] crate::glob::glob_matches(patterns[i], name)
}

/// Compile the org's exclude globs. An unparseable pattern is skipped rather than
/// failing the sync: a typo in one glob shouldn't take down a whole org's sync.
fn compile_excludes(org: &OrgConfig) -> (r: Vec<globset::GlobSet>)
    ensures
        forall|name: Seq<char>|
            (exists|k: int|
                0 <= k < r@.len() && crate::glob::any_matches(
                    #[trigger] crate::glob::globs_in(r@[k]),
                    name,
                )) <==> #[trigger] name_excluded(crate::text::texts(org.exclude@), name),
{
    let ghost patterns = crate::text::texts(org.exclude@);
    let mut out: Vec<globset::GlobSet> = Vec::new();
    let ghost mut from: Seq<int> = Seq::empty();
    let mut i: usize = 0;
    while i < org.exclude.len()
        invariant
            i <= org.exclude@.len(),
            patterns == crate::text::texts(org.exclude@),
            from.len() == out@.len(),
            forall|k: int|
                0 <= k < out@.len() ==> 0 <= #[trigger] from[k] < i
                    && crate::release::pattern_counts(patterns[from[k]]) && crate::glob::globs_in(
                    out@[k],
                ) == seq![patterns[from[k]]],
            forall|j: int|
                0 <= j < i && crate::release::pattern_counts(#[trigger] patterns[j])
                    ==> from.contains(j),
        decreases org.exclude@.len() - i,
    {
        let pattern = org.exclude[i].as_str();
        let ghost before = from;
        if to_chars(pattern).len() > 0 && !same(pattern, "*") {
            if let Some(set) = single(pattern) {
                out.push(set);
                proof {
                    from = from.push(i as int);
                    assert(from[before.len() as int] == i as int);
                }
            }
        }
        proof {
            assert forall|j: int|
                0 <= j < i + 1 && crate::release::pattern_counts(
                    #[trigger] patterns[j],
                ) implies from.contains(j) by {
                if j < i {
                    let k = choose|k: int| 0 <= k < before.len() && before[k] == j;
                    assert(from[k] == j);
                }
            }
        }
        i = i + 1;
    }
    proof {
        assert forall|name: Seq<char>|
            (exists|k: int|
                0 <= k < out@.len() && crate::glob::any_matches(
                    #[trigger] crate::glob::globs_in(out@[k]),
                    name,
                )) <==> #[trigger] name_excluded(patterns, name) by {
            if exists|k: int|
                0 <= k < out@.len() && crate::glob::any_matches(
                    #[trigger] crate::glob::globs_in(out@[k]),
                    name,
                ) {
                let k = choose|k: int|
                    0 <= k < out@.len() && crate::glob::any_matches(
                        #[trigger] crate::glob::globs_in(out@[k]),
                        name,
                    );
                let j = from[k];
                crate::glob::lemma_single(patterns[j], name);
                assert(crate::glob::glob_matches(patterns[j], name));
            }
            if name_excluded(patterns, name) {
                let j = choose|j: int|
                    0 <= j < patterns.len() && crate::release::pattern_counts(patterns[j])
                        && #[trigger] crate::glob::glob_matches(patterns[j], name);
                assert(from.contains(j));
                let k = choose|k: int| 0 <= k < from.len() && from[k] == j;
                crate::glob::lemma_single(patterns[j], name);
                assert(crate::glob::any_matches(crate::glob::globs_in(out@[k]), name));
            }
        }
    }
    out
}

fn any_set_matches(sets: &Vec<globset::GlobSet>, name: &str) -> (r: bool)
    ensures
        r == (exists|k: int|
            0 <= k < sets@.len() && crate::glob::any_matches(
                #[trigger] crate::glob::globs_in(sets@[k]),
                name@,
            )),
{
    let mut i: usize = 0;
    while i < sets.len()
        invariant
            i <= sets@.len(),
            forall|k: int|
                0 <= k < i ==> !crate::glob::any_matches(
                    #[trigger] crate::glob::globs_in(sets@[k]),
                    name@,
                ),
        decreases sets@.len() - i,
    {
        if set_matches(&sets[i], name) {
            assert(crate::glob::any_matches(crate::glob::globs_in(sets@[i as int]), name@));
            return true;
        }
        i = i + 1;
    }
    false
}

// ---------------------------------------------------------------------------
// The plan
// ---------------------------------------------------------------------------

/// Why the config passes a repo over, if it does.
pub open spec fn skip_reason(repo: OrgRepo, cfg: &OrgConfig, excluded: bool) -> Option<Seq<char>> {
    if !cfg.include_forks && repo.fork {
        Some("fork"@)
    } else if !cfg.include_archived && repo.archived {
        Some("archived"@)
    } else if excluded {
        Some("excluded by pattern"@)
    } else {
        None
    }
}

/// The first checkout of that name, from the `i`th on.
pub open spec fn claim_from(disk: Seq<Seq<char>>, name: Seq<char>, i: int) -> Option<Seq<char>>
    decreases disk.len() - i,
{
    if i < 0 || i >= disk.len() {
        None
    } else if crate::pathname::file_name(disk[i]) == Some(name) {
        Some(disk[i])
    } else {
        claim_from(disk, name, i + 1)
    }
}

/// The checkout of that name. A name repeated on disk is an oddity discovery made,
/// and the first wins rather than double-updating.
pub open spec fn claim(disk: Seq<Seq<char>>, name: Seq<char>) -> Option<Seq<char>> {
    claim_from(disk, name, 0)
}

/// The buckets, in the order the owner listed the repos, and the names that count as
/// listed.
pub struct Buckets {
    pub clones: Seq<OrgRepo>,
    pub updates: Seq<Seq<char>>,
    pub skipped: Seq<SkipText>,
    pub listed: Seq<Seq<char>>,
}

pub open spec fn bucket_step(
    b: Buckets,
    repo: OrgRepo,
    disk: Seq<Seq<char>>,
    cfg: &OrgConfig,
    excluded: bool,
) -> Buckets {
    match skip_reason(repo, cfg, excluded) {
        Some(reason) => Buckets {
            skipped: b.skipped.push(SkipText { name: repo.name@, reason }),
            ..b
        },
        None => match claim(disk, repo.name@) {
            Some(path) => Buckets {
                updates: b.updates.push(path),
                listed: b.listed.push(repo.name@),
                ..b
            },
            None => Buckets {
                clones: b.clones.push(repo),
                listed: b.listed.push(repo.name@),
                ..b
            },
        },
    }
}

/// The buckets of the first `n` repos.
pub open spec fn buckets_upto(
    remote: Seq<OrgRepo>,
    disk: Seq<Seq<char>>,
    cfg: &OrgConfig,
    excluded: Seq<bool>,
    n: int,
) -> Buckets
    decreases n,
{
    if n <= 0 {
        Buckets {
            clones: Seq::empty(),
            updates: Seq::empty(),
            skipped: Seq::empty(),
            listed: Seq::empty(),
        }
    } else {
        bucket_step(
            buckets_upto(remote, disk, cfg, excluded, n - 1),
            remote[n - 1],
            disk,
            cfg,
            excluded[n - 1],
        )
    }
}

pub open spec fn buckets(
    remote: Seq<OrgRepo>,
    disk: Seq<Seq<char>>,
    cfg: &OrgConfig,
    excluded: Seq<bool>,
) -> Buckets {
    buckets_upto(remote, disk, cfg, excluded, remote.len() as int)
}

/// Whether a checkout's name is among those listed.
pub open spec fn is_listed(path: Seq<char>, listed: Seq<Seq<char>>) -> bool {
    match crate::pathname::file_name(path) {
        Some(name) => listed.contains(name),
        None => false,
    }
}

/// The checkouts, of the first `n`, that the listing does not carry — including one
/// that was itself filtered out, which is exactly the "archived-and-filtered, still
/// on disk" case worth surfacing.
pub open spec fn orphans_upto(disk: Seq<Seq<char>>, listed: Seq<Seq<char>>, n: int) -> Seq<
    Seq<char>,
>
    decreases n,
{
    if n <= 0 {
        Seq::empty()
    } else if is_listed(disk[n - 1], listed) {
        orphans_upto(disk, listed, n - 1)
    } else {
        orphans_upto(disk, listed, n - 1).push(disk[n - 1])
    }
}

pub open spec fn name_keys(repos: Seq<OrgRepo>) -> Seq<Seq<Seq<i64>>> {
    repos.map_values(|r: OrgRepo| seq![crate::order::codes(r.name@)])
}

/// The repos by their names.
pub open spec fn by_name(repos: Seq<OrgRepo>) -> Seq<OrgRepo> {
    crate::order::permute(repos, crate::order::stable_order(name_keys(repos), false))
}

pub open spec fn path_keys(paths: Seq<Seq<char>>) -> Seq<Seq<Seq<i64>>> {
    paths.map_values(|p: Seq<char>| crate::pathname::path_rows(p))
}

/// Paths in their order.
pub open spec fn by_path(paths: Seq<Seq<char>>) -> Seq<Seq<char>> {
    crate::order::permute(paths, crate::order::stable_order(path_keys(paths), false))
}

/// What a plan must be.
pub open spec fn plan_is(
    plan: &SyncPlan,
    remote: Seq<OrgRepo>,
    disk: Seq<Seq<char>>,
    cfg: &OrgConfig,
    excluded: Seq<bool>,
) -> bool {
    let b = buckets(remote, disk, cfg, excluded);
    &&& plan.to_clone@ == by_name(b.clones)
    &&& crate::text::texts(plan.to_update@) == by_path(b.updates)
    &&& crate::text::texts(plan.orphans@) == by_path(
        orphans_upto(disk, b.listed, disk.len() as int),
    )
    &&& skip_texts(plan.skipped@) == b.skipped
}

/// Paths put in their order.
pub fn sort_paths(paths: &Vec<String>) -> (r: Vec<String>)
    ensures
        crate::text::texts(r@) == by_path(crate::text::texts(paths@)),
        r@.len() == paths@.len(),
{
    let ghost all = crate::text::texts(paths@);
    let mut keys: Vec<Key> = Vec::new();
    let mut i: usize = 0;
    while i < paths.len()
        invariant
            i <= paths@.len(),
            keys@.len() == i,
            all == crate::text::texts(paths@),
            forall|k: int|
                0 <= k < i ==> crate::order::rows(#[trigger] keys@[k]@)
                    == crate::pathname::path_rows(all[k]),
        decreases paths@.len() - i,
    {
        keys.push(path_key(paths[i].as_str()));
        i = i + 1;
    }
    assert(crate::order::key_rows(keys@) =~= path_keys(all));
    let order = sort_indices(&keys, false);
    let ghost sorted = by_path(all);
    assert(sorted.len() == order@.len()) by {
        assert(crate::order::indices(order@).len() == order@.len());
    }
    let mut out: Vec<String> = Vec::new();
    let mut j: usize = 0;
    assert(crate::text::texts(out@) =~= sorted.take(0));
    while j < order.len()
        invariant
            j <= order@.len(),
            order@.len() == paths@.len(),
            out@.len() == j,
            all == crate::text::texts(paths@),
            sorted == crate::order::permute(all, crate::order::indices(order@)),
            forall|a: int| 0 <= a < order@.len() ==> #[trigger] order@[a] < paths@.len(),
            crate::text::texts(out@) == sorted.take(j as int),
        decreases order@.len() - j,
    {
        let at: usize = order[j];
        assert(crate::order::indices(order@)[j as int] == at as int);
        push_text(&mut out, paths[at].as_str());
        assert(crate::text::texts(out@).len() == out@.len());
        j = j + 1;
        assert(crate::text::texts(out@) =~= sorted.take(j as int));
    }
    assert(sorted.take(j as int) =~= sorted);
    out
}

fn sort_by_name(repos: &Vec<OrgRepo>) -> (r: Vec<OrgRepo>)
    ensures
        r@ == by_name(repos@),
{
    let mut keys: Vec<Key> = Vec::new();
    let mut i: usize = 0;
    while i < repos.len()
        invariant
            i <= repos@.len(),
            keys@.len() == i,
            forall|k: int|
                0 <= k < i ==> crate::order::rows(#[trigger] keys@[k]@) == seq![
                    crate::order::codes(repos@[k].name@),
                ],
        decreases repos@.len() - i,
    {
        let v = to_chars(repos[i].name.as_str());
        let mut key: Key = Vec::new();
        key.push(code_row(v.as_slice()));
        assert(crate::order::rows(key@) =~= seq![crate::order::codes(repos@[i as int].name@)]);
        keys.push(key);
        i = i + 1;
    }
    assert(crate::order::key_rows(keys@) =~= name_keys(repos@));
    let order = sort_indices(&keys, false);
    let ghost sorted = by_name(repos@);
    assert(sorted.len() == order@.len()) by {
        assert(crate::order::indices(order@).len() == order@.len());
    }
    let mut out: Vec<OrgRepo> = Vec::new();
    let mut j: usize = 0;
    while j < order.len()
        invariant
            j <= order@.len(),
            order@.len() == repos@.len(),
            sorted == crate::order::permute(repos@, crate::order::indices(order@)),
            forall|a: int| 0 <= a < order@.len() ==> #[trigger] order@[a] < repos@.len(),
            out@ == sorted.take(j as int),
        decreases order@.len() - j,
    {
        let at: usize = order[j];
        assert(crate::order::indices(order@)[j as int] == at as int);
        out.push(repos[at].clone());
        j = j + 1;
        assert(out@ =~= sorted.take(j as int));
    }
    assert(sorted.take(j as int) =~= sorted);
    out
}

fn is_name(path: &str, name: &str) -> (r: bool)
    ensures
        r == (crate::pathname::file_name(path@) == Some(name@)),
{
    match file_name_of(path) {
        Some(found) => same(found.as_str(), name),
        None => false,
    }
}

fn find_claim(disk: &Vec<String>, name: &str) -> (r: Option<String>)
    ensures
        crate::pathname::opt_text(r) == claim(crate::text::texts(disk@), name@),
{
    let ghost all = crate::text::texts(disk@);
    let mut i: usize = 0;
    while i < disk.len()
        invariant
            i <= disk@.len(),
            all == crate::text::texts(disk@),
            claim_from(all, name@, 0) == claim_from(all, name@, i as int),
        decreases disk@.len() - i,
    {
        if is_name(disk[i].as_str(), name) {
            return Some(disk[i].clone());
        }
        i = i + 1;
    }
    None
}

fn name_listed(path: &str, listed: &Vec<String>) -> (r: bool)
    ensures
        r == is_listed(path@, crate::text::texts(listed@)),
{
    let ghost all = crate::text::texts(listed@);
    let name = match file_name_of(path) {
        Some(name) => name,
        None => {
            return false;
        },
    };
    let mut i: usize = 0;
    while i < listed.len()
        invariant
            i <= listed@.len(),
            all == crate::text::texts(listed@),
            crate::pathname::file_name(path@) == Some(name@),
            forall|k: int| 0 <= k < i ==> #[trigger] all[k] != name@,
        decreases listed@.len() - i,
    {
        if same(listed[i].as_str(), name.as_str()) {
            assert(all[i as int] == name@);
            return true;
        }
        i = i + 1;
    }
    false
}

fn reason_to_skip(repo: &OrgRepo, cfg: &OrgConfig, excluded: bool) -> (r: Option<&'static str>)
    ensures
        crate::hold::opt_str(r) == skip_reason(*repo, cfg, excluded),
{
    if !cfg.include_forks && repo.fork {
        Some("fork")
    } else if !cfg.include_archived && repo.archived {
        Some("archived")
    } else if excluded {
        Some("excluded by pattern")
    } else {
        None
    }
}

/// [`plan`] for given verdicts of the exclude globs on each repo.
pub fn plan_from(
    remote: &Vec<OrgRepo>,
    disk: &Vec<String>,
    cfg: &OrgConfig,
    excluded: &Vec<bool>,
) -> (r: SyncPlan)
    requires
        excluded@.len() == remote@.len(),
    ensures
        plan_is(&r, remote@, crate::text::texts(disk@), cfg, excluded@),
{
    let ghost on_disk = crate::text::texts(disk@);
    let mut clones: Vec<OrgRepo> = Vec::new();
    let mut updates: Vec<String> = Vec::new();
    let mut skipped: Vec<SkippedRepo> = Vec::new();
    let mut listed: Vec<String> = Vec::new();
    let mut i: usize = 0;
    assert(crate::text::texts(updates@) =~= Seq::empty());
    assert(crate::text::texts(listed@) =~= Seq::empty());
    assert(skip_texts(skipped@) =~= Seq::empty());
    while i < remote.len()
        invariant
            i <= remote@.len(),
            excluded@.len() == remote@.len(),
            on_disk == crate::text::texts(disk@),
            ({
                let b = buckets_upto(remote@, on_disk, cfg, excluded@, i as int);
                &&& clones@ == b.clones
                &&& crate::text::texts(updates@) == b.updates
                &&& skip_texts(skipped@) == b.skipped
                &&& crate::text::texts(listed@) == b.listed
            }),
        decreases remote@.len() - i,
    {
        let repo = &remote[i];
        match reason_to_skip(repo, cfg, excluded[i]) {
            Some(reason) => {
                let ghost before = skipped@;
                skipped.push(SkippedRepo { name: repo.name.clone(), reason: reason.to_owned() });
                assert(skip_texts(skipped@) =~= skip_texts(before).push(
                    SkipText { name: repo.name@, reason: reason@ },
                ));
            },
            None => {
                push_text(&mut listed, repo.name.as_str());
                match find_claim(disk, repo.name.as_str()) {
                    Some(path) => {
                        push_text(&mut updates, path.as_str());
                    },
                    None => {
                        clones.push(repo.clone());
                    },
                }
            },
        }
        i = i + 1;
    }
    let ghost names = crate::text::texts(listed@);
    let mut orphans: Vec<String> = Vec::new();
    let mut j: usize = 0;
    assert(crate::text::texts(orphans@) =~= orphans_upto(on_disk, names, 0));
    while j < disk.len()
        invariant
            j <= disk@.len(),
            on_disk == crate::text::texts(disk@),
            names == crate::text::texts(listed@),
            crate::text::texts(orphans@) == orphans_upto(on_disk, names, j as int),
        decreases disk@.len() - j,
    {
        if !name_listed(disk[j].as_str(), &listed) {
            push_text(&mut orphans, disk[j].as_str());
        }
        j = j + 1;
    }
    SyncPlan {
        to_clone: sort_by_name(&clones),
        to_update: sort_paths(&updates),
        orphans: sort_paths(&orphans),
        skipped,
    }
}

/// What the exclude globs say of each repo.
pub open spec fn exclude_verdicts(remote: Seq<OrgRepo>, cfg: &OrgConfig) -> Seq<bool> {
    remote.map_values(|r: OrgRepo| name_excluded(crate::text::texts(cfg.exclude@), r.name@))
}

/// What the sync should do, given what the owner lists and what's on disk.
///
/// `disk` is the immediate subdirectories of the org's path that are
/// checkouts ([`disk_repos`]). Remote-only goes to `to_clone`, disk-only to
/// `orphans`, both to `to_update`, each bucket sorted so the report is stable
/// regardless of the order the provider listed in. Everything the config
/// filters out — forks, archives, exclude globs — lands in `skipped` with
/// the reason, so the report can say *why* a repo was passed over rather
/// than just omitting it.
///
/// Orphans are report-only, permanently. On-disk-but-unlisted usually means
/// the repo was renamed or deleted upstream, or went archived or private
/// since the last sync — but it can also mean a checkout the user keeps
/// there deliberately, and sync has no way to tell those apart. So it
/// reports and moves on; nothing is ever deleted.
pub fn plan(remote: &Vec<OrgRepo>, disk: &Vec<String>, cfg: &OrgConfig) -> (r: SyncPlan)
    ensures
        plan_is(
            &r,
            remote@,
            crate::text::texts(disk@),
            cfg,
            exclude_verdicts(remote@, cfg),
        ),
{
    let globs = compile_excludes(cfg);
    let mut excluded: Vec<bool> = Vec::new();
    let mut i: usize = 0;
    while i < remote.len()
        invariant
            i <= remote@.len(),
            excluded@.len() == i,
            forall|name: Seq<char>|
                (exists|k: int|
                    0 <= k < globs@.len() && crate::glob::any_matches(
                        #[trigger] crate::glob::globs_in(globs@[k]),
                        name,
                    )) <==> #[trigger] name_excluded(crate::text::texts(cfg.exclude@), name),
            forall|k: int|
                0 <= k < i ==> #[trigger] excluded@[k] == name_excluded(
                    crate::text::texts(cfg.exclude@),
                    remote@[k].name@,
                ),
        decreases remote@.len() - i,
    {
        let verdict = any_set_matches(&globs, remote[i].name.as_str());
        assert(verdict == name_excluded(
            crate::text::texts(cfg.exclude@),
            remote@[i as int].name@,
        ));
        excluded.push(verdict);
        i = i + 1;
    }
    assert(excluded@ =~= exclude_verdicts(remote@, cfg));
    plan_from(remote, disk, cfg, &excluded)
}

/// The paths, of the first `n` children, that hold a `.git`.
pub open spec fn checkouts_upto(children: Seq<(String, bool)>, n: int) -> Seq<Seq<char>>
    decreases n,
{
    if n <= 0 {
        Seq::empty()
    } else if children[n - 1].1 {
        checkouts_upto(children, n - 1).push(children[n - 1].0@)
    } else {
        checkouts_upto(children, n - 1)
    }
}

/// The immediate subdirectories of a directory that look like checkouts: the
/// children that hold a `.git`, in order.
///
/// `.git` may be a directory (an ordinary clone) or a file (a worktree or
/// submodule pointer) — matching how discovery treats them, so sync and
/// discovery can never disagree about what a repo is. A missing directory is
/// an empty answer rather than an error: a first sync against an org whose
/// path nobody created yet is the normal case, and "nothing there yet" is
/// the truth about it.
pub fn disk_repos(children: &Vec<(String, bool)>) -> (r: Vec<String>)
    ensures
        crate::text::texts(r@) == by_path(checkouts_upto(children@, children@.len() as int)),
{
    let mut found: Vec<String> = Vec::new();
    let mut i: usize = 0;
    assert(crate::text::texts(found@) =~= checkouts_upto(children@, 0));
    while i < children.len()
        invariant
            i <= children@.len(),
            crate::text::texts(found@) == checkouts_upto(children@, i as int),
        decreases children@.len() - i,
    {
        if children[i].1 {
            push_text(&mut found, children[i].0.as_str());
        }
        i = i + 1;
    }
    sort_paths(&found)
}

// ---------------------------------------------------------------------------
// Where checkouts belong
// ---------------------------------------------------------------------------

/// What to report of an org that has nowhere to go.
pub open spec fn no_path(owner: Seq<char>) -> Seq<char> {
    "org \""@ + owner + "\" has no path set and no roots are configured"@
}

fn unplaced(org: &OrgConfig) -> (r: String)
    ensures
        r@ == no_path(org.owner@),
{
    let mut out = "org \"".to_owned();
    out.append(org.owner.as_str());
    out.append("\" has no path set and no roots are configured");
    out
}

/// Where this org's checkouts belong. An explicit `path` wins; otherwise the
/// first configured root plus the owner, which lands the checkouts in the
/// dashboard as a group for free. With no roots at all there is nothing to
/// resolve against, and that is an error rather than a guess — sync without
/// a destination is a config problem, and it should say so before touching
/// anything.
pub fn effective_path(cfg: &Config, org: &OrgConfig) -> (r: Result<String, String>)
    ensures
        r is Ok <==> org.path is Some || cfg.roots@.len() > 0,
        (match r {
            Ok(path) => crate::config::resolves(cfg, org, Some(path@)),
            Err(e) => e@ == no_path(org.owner@),
        }),
{
    match cfg.resolved_org_path(org) {
        Some(path) => Ok(path),
        None => Err(unplaced(org)),
    }
}

/// The directory discovery would have to scan to find checkouts below a path: its
/// parent, or the path itself where that is the top.
pub open spec fn scan_candidate(path: Seq<char>) -> Seq<char> {
    match crate::pathname::parent(path) {
        Some(parent) => if parent.len() > 0 && !crate::pathname::same_path(parent, "/"@) {
            parent
        } else {
            path
        },
        None => path,
    }
}

/// Whether a root covers a path, or the directory that holds it.
pub open spec fn is_covered(path: Seq<char>, roots: Seq<Seq<char>>) -> bool {
    exists|i: int|
        0 <= i < roots.len() && (crate::pathname::under(path, #[trigger] roots[i])
            || crate::pathname::under(scan_candidate(path), roots[i]))
}

/// The scan root that is missing for an org's checkouts to be found.
pub open spec fn missing_root(path: Seq<char>, roots: Seq<Seq<char>>) -> Option<Seq<char>> {
    if is_covered(path, roots) {
        None
    } else {
        Some(scan_candidate(path))
    }
}

/// The scan root that is missing for checkouts below `path` to be found, given the
/// roots there are, expanded. Compared expanded: a root written as `~/Projects` and
/// a candidate under `$HOME` are the same directory to the sweep. The comparison is
/// component-wise, which is exactly the "under a root" relation discovery
/// walks — so it covers both "equals a root" and "below one".
pub fn scan_root_for(path: &str, roots: &Vec<String>) -> (r: Option<String>)
    ensures
        crate::pathname::opt_text(r) == missing_root(path@, crate::text::texts(roots@)),
{
    let ghost all = crate::text::texts(roots@);
    let candidate = match parent_of(path) {
        Some(parent) => {
            if to_chars(parent.as_str()).len() > 0 && !paths_equal(parent.as_str(), "/") {
                parent
            } else {
                path.to_owned()
            }
        },
        None => path.to_owned(),
    };
    let mut i: usize = 0;
    while i < roots.len()
        invariant
            i <= roots@.len(),
            all == crate::text::texts(roots@),
            candidate@ == scan_candidate(path@),
            forall|k: int|
                0 <= k < i ==> !crate::pathname::under(path@, #[trigger] all[k])
                    && !crate::pathname::under(candidate@, all[k]),
        decreases roots@.len() - i,
    {
        let root = roots[i].as_str();
        assert(all[i as int] == root@);
        if is_under(path, root) || is_under(candidate.as_str(), root) {
            return None;
        }
        i = i + 1;
    }
    Some(candidate)
}

/// How a configuration changes when an org's path and the roots come out, expanded,
/// as these, and the home directory is this: a missing root is appended, written
/// with `~`, and nothing else changes.
pub open spec fn root_ensured(
    before: Config,
    after: Config,
    path: Seq<char>,
    roots: Seq<Seq<char>>,
    home: Option<Seq<char>>,
    added: bool,
) -> bool {
    match missing_root(path, roots) {
        None => !added && after == before,
        Some(root) => {
            &&& added
            &&& after.roots@.len() == before.roots@.len() + 1
            &&& after.roots@.take(before.roots@.len() as int) == before.roots@
            &&& after.roots@[before.roots@.len() as int]@ == crate::paths::contracted(root, home)
            &&& after == (Config { roots: after.roots, ..before })
        },
    }
}

/// Whether these are the roots of a configuration, expanded.
pub open spec fn roots_expand(cfg: Config, roots: Seq<Seq<char>>) -> bool {
    &&& roots.len() == cfg.roots@.len()
    &&& forall|i: int|
        0 <= i < roots.len() ==> crate::paths::expands(cfg.roots@[i]@, #[trigger] roots[i])
}

/// What a call saw of the environment: what an org's own path and the roots came out
/// as, and the home directory.
pub struct Sight {
    pub own: Option<Seq<char>>,
    pub roots: Seq<Seq<char>>,
    pub home: Option<Seq<char>>,
}

/// Whether this is something a call for an org can see.
pub open spec fn can_be_seen(cfg: Config, org: &OrgConfig, sight: Sight) -> bool {
    &&& (sight.own is Some <==> org.path is Some)
    &&& (org.path matches Some(p) ==> crate::paths::expands(p@, sight.own->0))
    &&& roots_expand(cfg, sight.roots)
}

/// Where an org's checkouts belong, given what was seen.
pub open spec fn path_seen(org: &OrgConfig, sight: Sight) -> Option<Seq<char>> {
    let first = if sight.roots.len() > 0 {
        Some(sight.roots[0])
    } else {
        None
    };
    crate::config::org_path(sight.own, first, org.owner@)
}

/// How a configuration changes in a call that saw this.
pub open spec fn ensured_in(
    before: Config,
    after: Config,
    org: &OrgConfig,
    sight: Sight,
    added: bool,
) -> bool {
    &&& can_be_seen(before, org, sight)
    &&& path_seen(org, sight) is Some
    &&& root_ensured(before, after, path_seen(org, sight)->0, sight.roots, sight.home, added)
}

/// How a configuration changes, whatever a call sees.
pub open spec fn scan_root_ensured(
    before: Config,
    after: Config,
    org: &OrgConfig,
    added: bool,
) -> bool {
    exists|sight: Sight| #[trigger] ensured_in(before, after, org, sight, added)
}

/// [`ensure_scan_root`] for an org's path and the roots, expanded, and a given home
/// directory. Returns whether a root was added.
pub fn ensure_scan_root_from(
    cfg: &mut Config,
    path: &str,
    roots: &Vec<String>,
    home: Option<&str>,
) -> (r: bool)
    ensures
        root_ensured(
            *old(cfg),
            *final(cfg),
            path@,
            crate::text::texts(roots@),
            crate::hold::opt_str(home),
            r,
        ),
{
    match scan_root_for(path, roots) {
        None => false,
        Some(root) => {
            cfg.roots.push(contract_from(root.as_str(), home));
            assert(cfg.roots@.take(old(cfg).roots@.len() as int) =~= old(cfg).roots@);
            true
        },
    }
}

/// Make sure the org's checkouts will be found by discovery. The org's path
/// is where its checkouts live one level down (`<path>/<repo>`), so what
/// discovery needs is the path's PARENT as a scan root — that also makes the
/// owner read as a dashboard group, the same as the default path layout.
///
/// When the resolved path is already under a root (or the parent already is
/// one), this is a no-op. When the parent is `/`, fall back to adding the
/// path itself: an ungrouped row beats an invisible one.
///
/// Returns whether a root was added. Roots are stored `~`-contracted. The only
/// error is [`effective_path`]'s — no roots and no path — which callers
/// already treat as their existing failure path.
pub fn ensure_scan_root(cfg: &mut Config, org: &OrgConfig) -> (r: Result<bool, String>)
    ensures
        r is Ok <==> org.path is Some || old(cfg).roots@.len() > 0,
        (match r {
            Err(e) => e@ == no_path(org.owner@) && *final(cfg) == *old(cfg),
            Ok(added) => scan_root_ensured(*old(cfg), *final(cfg), org, added),
        }),
{
    let own = match &org.path {
        Some(p) => Some(expand(p.as_str())),
        None => None,
    };
    let roots = cfg.root_paths();
    let first = if roots.len() > 0 {
        Some(roots[0].clone())
    } else {
        None
    };
    let home = home_dir();
    let ghost sight = Sight {
        own: crate::pathname::opt_text(own),
        roots: crate::text::texts(roots@),
        home: crate::pathname::opt_text(home),
    };
    assert(can_be_seen(*cfg, org, sight)) by {
        assert forall|i: int| 0 <= i < sight.roots.len() implies crate::paths::expands(
            cfg.roots@[i]@,
            #[trigger] sight.roots[i],
        ) by {
            assert(crate::paths::expands(cfg.roots@[i]@, roots@[i]@));
        }
    }
    assert(crate::pathname::opt_text(first) == (if sight.roots.len() > 0 {
        Some(sight.roots[0])
    } else {
        None
    }));
    match org_path_from(own, first, org.owner.as_str()) {
        Some(path) => {
            let added = ensure_scan_root_from(cfg, path.as_str(), &roots, as_opt_str(&home));
            assert(ensured_in(*old(cfg), *cfg, org, sight, added));
            assert(scan_root_ensured(*old(cfg), *cfg, org, added));
            Ok(added)
        },
        None => Err(unplaced(org)),
    }
}

// ---------------------------------------------------------------------------
// Laws
// ---------------------------------------------------------------------------

proof fn lemma_under_self(p: Seq<char>)
    ensures
        crate::pathname::under(p, p),
{
    let c = crate::pathname::components(p);
    assert(c.take(c.len() as int) =~= c);
}

/// Once the missing root is there, nothing is missing: not for the org it was added
/// for, and not for any other whose checkouts lie below it.
pub proof fn law_a_root_is_added_once(
    path: Seq<char>,
    other: Seq<char>,
    roots: Seq<Seq<char>>,
    root: Seq<char>,
)
    requires
        missing_root(path, roots) == Some(root),
        crate::pathname::under(other, root),
    ensures
        missing_root(path, roots.push(root)) is None,
        missing_root(other, roots.push(root)) is None,
{
    let more = roots.push(root);
    lemma_under_self(root);
    assert(more[roots.len() as int] == root);
    assert(is_covered(path, more));
    assert(is_covered(other, more));
}

/// Whether a root, written down where this is the home directory, is read back as
/// the same root. A `$` in its name would be taken for a variable, and a `~` of its
/// own for the home directory. [`law_which_roots_read_back`] says which roots do.
pub open spec fn reads_back(root: Seq<char>, home: Option<Seq<char>>) -> bool {
    &&& !crate::paths::contracted(root, home).contains('$')
    &&& home matches Some(h) ==> h.len() > 0 && (crate::paths::has_tilde(root)
        ==> crate::pathname::under(root, h))
}

/// The root that an org's path asks for is read back wherever neither a `$` nor a
/// leading `~` is part of that path, as it came out.
pub proof fn law_which_roots_read_back(path: Seq<char>, home: Option<Seq<char>>)
    requires
        !path.contains('$'),
        !crate::paths::has_tilde(path),
        home matches Some(h) ==> h.len() > 0,
    ensures
        reads_back(scan_candidate(path), home),
{
    let root = scan_candidate(path);
    if root != path {
        reveal_strlit("/");
        assert("/"@ =~= seq!['/']);
        crate::pathname::lemma_parent_is_front(path);
        crate::paths::lemma_tilde_is_a_piece(root);
        crate::paths::lemma_tilde_is_a_piece(path);
    }
    assert(!root.contains('$'));
    if let Some(h) = home {
        if crate::pathname::under(root, h) {
            crate::pathname::lemma_left_is_part(root, h);
            let rest = crate::pathname::relative(root, h)->0;
            reveal_strlit("~/");
            let shown = "~/"@ + rest;
            if shown.contains('$') {
                let i = choose|i: int| 0 <= i < shown.len() && shown[i] == '$';
                assert(rest[i - 2] == '$');
                assert(rest.contains('$'));
            }
        }
    }
}

/// Whether the `~` that a call saw is the home directory that it saw.
pub open spec fn at_home(cfg: Config, sight: Sight) -> bool {
    forall|i: int|
        0 <= i < cfg.roots@.len() && !cfg.roots@[i]@.contains('$') ==> #[trigger] sight.roots[i]
            == crate::paths::expanded_at(cfg.roots@[i]@, sight.home)
}

/// Whether a call saw the same of the roots that were there, and the same home
/// directory, as one before it.
pub open spec fn saw_the_same(one: Sight, two: Sight) -> bool {
    &&& two.home == one.home
    &&& two.roots.len() >= one.roots.len()
    &&& two.roots.take(one.roots.len() as int) == one.roots
}

/// A root that was added is the last of the roots that the next call sees.
proof fn lemma_added_root_is_seen(
    before: Config,
    after: Config,
    org: &OrgConfig,
    one: Sight,
    two: Sight,
)
    requires
        ensured_in(before, after, org, one, true),
        reads_back(scan_candidate(path_seen(org, one)->0), one.home),
        roots_expand(after, two.roots),
        saw_the_same(one, two),
        at_home(after, two),
    ensures
        two.roots.len() == one.roots.len() + 1,
        crate::pathname::same_path(
            two.roots[one.roots.len() as int],
            scan_candidate(path_seen(org, one)->0),
        ),
        one.roots.len() > 0 ==> two.roots[0] == one.roots[0],
{
    let path = path_seen(org, one)->0;
    let root = scan_candidate(path);
    let n = one.roots.len() as int;
    assert(missing_root(path, one.roots) == Some(root));
    assert(after.roots@[n]@ == crate::paths::contracted(root, one.home));
    assert(two.roots[n] == crate::paths::expanded_at(after.roots@[n]@, two.home));
    crate::paths::law_a_contracted_path_expands_back(root, one.home);
    if n > 0 {
        assert(two.roots.take(n)[0] == two.roots[0]);
    }
}

/// Asking a second time changes nothing: of two calls for one org that saw the same,
/// the second adds no root, as the one that the first added, the way it is written,
/// covers the org.
pub proof fn law_a_second_call_adds_nothing(
    before: Config,
    after: Config,
    last: Config,
    org: &OrgConfig,
    one: Sight,
    two: Sight,
    added: bool,
    again: bool,
)
    requires
        ensured_in(before, after, org, one, added),
        ensured_in(after, last, org, two, again),
        saw_the_same(one, two),
        two.own == one.own,
        added ==> at_home(after, two) && reads_back(
            scan_candidate(path_seen(org, one)->0),
            one.home,
        ),
    ensures
        path_seen(org, two) == path_seen(org, one),
        !again,
        last == after,
{
    let path = path_seen(org, one)->0;
    if added {
        lemma_added_root_is_seen(before, after, org, one, two);
        let n = one.roots.len() as int;
        lemma_under_self(scan_candidate(path));
        assert(crate::pathname::under(scan_candidate(path), two.roots[n]));
        assert(path_seen(org, two) == path_seen(org, one));
        assert(is_covered(path, two.roots));
    } else {
        assert(two.roots =~= one.roots) by {
            assert(two.roots.take(one.roots.len() as int) =~= two.roots);
        }
    }
}

/// Nor does asking for another org whose checkouts belong below the root that was
/// added.
pub proof fn law_an_org_below_an_added_root_adds_nothing(
    before: Config,
    after: Config,
    last: Config,
    org: &OrgConfig,
    other: &OrgConfig,
    one: Sight,
    two: Sight,
    again: bool,
)
    requires
        ensured_in(before, after, org, one, true),
        ensured_in(after, last, other, two, again),
        saw_the_same(one, two),
        at_home(after, two),
        reads_back(scan_candidate(path_seen(org, one)->0), one.home),
        crate::pathname::under(
            path_seen(other, two)->0,
            scan_candidate(path_seen(org, one)->0),
        ),
    ensures
        !again,
        last == after,
{
    let path = path_seen(other, two)->0;
    lemma_added_root_is_seen(before, after, org, one, two);
    assert(crate::pathname::under(path, two.roots[one.roots.len() as int]));
    assert(is_covered(path, two.roots));
}

/// Every repo the owner lists lands in exactly one bucket.
pub proof fn law_every_repo_has_a_bucket(
    remote: Seq<OrgRepo>,
    disk: Seq<Seq<char>>,
    cfg: &OrgConfig,
    excluded: Seq<bool>,
)
    ensures
        ({
            let b = buckets(remote, disk, cfg, excluded);
            b.clones.len() + b.updates.len() + b.skipped.len() == remote.len()
        }),
{
    lemma_bucket_count(remote, disk, cfg, excluded, remote.len() as int);
}

proof fn lemma_bucket_count(
    remote: Seq<OrgRepo>,
    disk: Seq<Seq<char>>,
    cfg: &OrgConfig,
    excluded: Seq<bool>,
    n: int,
)
    requires
        0 <= n,
    ensures
        ({
            let b = buckets_upto(remote, disk, cfg, excluded, n);
            &&& b.clones.len() + b.updates.len() + b.skipped.len() == n
            &&& b.clones.len() + b.updates.len() == b.listed.len()
        }),
    decreases n,
{
    if n > 0 {
        lemma_bucket_count(remote, disk, cfg, excluded, n - 1);
    }
}

proof fn lemma_claim(disk: Seq<Seq<char>>, name: Seq<char>, i: int)
    requires
        0 <= i,
    ensures
        (match claim_from(disk, name, i) {
            Some(path) => disk.contains(path) && crate::pathname::file_name(path) == Some(name),
            None => forall|j: int|
                i <= j < disk.len() ==> crate::pathname::file_name(#[trigger] disk[j]) != Some(
                    name,
                ),
        }),
    decreases disk.len() - i,
{
    if i < disk.len() && crate::pathname::file_name(disk[i]) != Some(name) {
        lemma_claim(disk, name, i + 1);
    }
}

/// What is cloned has no checkout of its name, what is updated is a checkout, and
/// neither is skipped by the config.
pub proof fn law_clones_are_new_and_updates_are_there(
    remote: Seq<OrgRepo>,
    disk: Seq<Seq<char>>,
    cfg: &OrgConfig,
    excluded: Seq<bool>,
)
    requires
        excluded.len() == remote.len(),
    ensures
        ({
            let b = buckets(remote, disk, cfg, excluded);
            &&& forall|i: int|
                0 <= i < b.clones.len() ==> remote.contains(#[trigger] b.clones[i]) && forall|j: int|
                    0 <= j < disk.len() ==> crate::pathname::file_name(#[trigger] disk[j]) != Some(
                        b.clones[i].name@,
                    )
            &&& forall|i: int| 0 <= i < b.updates.len() ==> disk.contains(#[trigger] b.updates[i])
        }),
{
    lemma_bucket_members(remote, disk, cfg, excluded, remote.len() as int);
}

proof fn lemma_bucket_members(
    remote: Seq<OrgRepo>,
    disk: Seq<Seq<char>>,
    cfg: &OrgConfig,
    excluded: Seq<bool>,
    n: int,
)
    requires
        0 <= n <= remote.len(),
    ensures
        ({
            let b = buckets_upto(remote, disk, cfg, excluded, n);
            &&& forall|i: int|
                0 <= i < b.clones.len() ==> remote.contains(#[trigger] b.clones[i]) && forall|j: int|
                    0 <= j < disk.len() ==> crate::pathname::file_name(#[trigger] disk[j]) != Some(
                        b.clones[i].name@,
                    )
            &&& forall|i: int| 0 <= i < b.updates.len() ==> disk.contains(#[trigger] b.updates[i])
        }),
    decreases n,
{
    if n > 0 {
        lemma_bucket_members(remote, disk, cfg, excluded, n - 1);
        lemma_claim(disk, remote[n - 1].name@, 0);
        assert(remote.contains(remote[n - 1]));
        let before = buckets_upto(remote, disk, cfg, excluded, n - 1);
        let b = buckets_upto(remote, disk, cfg, excluded, n);
        assert forall|i: int| 0 <= i < b.clones.len() implies remote.contains(
            #[trigger] b.clones[i],
        ) && forall|j: int|
            0 <= j < disk.len() ==> crate::pathname::file_name(#[trigger] disk[j]) != Some(
                b.clones[i].name@,
            ) by {
            if i < before.clones.len() {
                assert(b.clones[i] == before.clones[i]);
            }
        }
        assert forall|i: int| 0 <= i < b.updates.len() implies disk.contains(
            #[trigger] b.updates[i],
        ) by {
            if i < before.updates.len() {
                assert(b.updates[i] == before.updates[i]);
            }
        }
    }
}

/// An orphan is reported and left alone: it is none of the checkouts that are updated.
pub proof fn law_orphans_are_left_alone(
    remote: Seq<OrgRepo>,
    disk: Seq<Seq<char>>,
    cfg: &OrgConfig,
    excluded: Seq<bool>,
    path: Seq<char>,
)
    requires
        excluded.len() == remote.len(),
        orphans_upto(
            disk,
            buckets(remote, disk, cfg, excluded).listed,
            disk.len() as int,
        ).contains(path),
    ensures
        !buckets(remote, disk, cfg, excluded).updates.contains(path),
{
    let b = buckets(remote, disk, cfg, excluded);
    law_orphans_are_unlisted(disk, b.listed, path);
    lemma_updates_are_listed(remote, disk, cfg, excluded, remote.len() as int);
}

proof fn lemma_updates_are_listed(
    remote: Seq<OrgRepo>,
    disk: Seq<Seq<char>>,
    cfg: &OrgConfig,
    excluded: Seq<bool>,
    n: int,
)
    requires
        0 <= n <= remote.len(),
    ensures
        ({
            let b = buckets_upto(remote, disk, cfg, excluded, n);
            forall|i: int| 0 <= i < b.updates.len() ==> is_listed(#[trigger] b.updates[i], b.listed)
        }),
    decreases n,
{
    if n > 0 {
        lemma_updates_are_listed(remote, disk, cfg, excluded, n - 1);
        lemma_claim(disk, remote[n - 1].name@, 0);
        let before = buckets_upto(remote, disk, cfg, excluded, n - 1);
        let b = buckets_upto(remote, disk, cfg, excluded, n);
        assert forall|i: int| 0 <= i < b.updates.len() implies is_listed(
            #[trigger] b.updates[i],
            b.listed,
        ) by {
            if i < before.updates.len() {
                assert(b.updates[i] == before.updates[i]);
                assert(is_listed(before.updates[i], before.listed));
                let name = crate::pathname::file_name(b.updates[i])->0;
                let k = choose|k: int| 0 <= k < before.listed.len() && before.listed[k] == name;
                assert(b.listed[k] == name);
            } else {
                assert(b.listed[b.listed.len() - 1] == remote[n - 1].name@);
            }
        }
    }
}

/// What was cloned is found again: with a checkout where a repo is cloned to, the next
/// plan updates a checkout of that name, and clones no repo of that name.
pub proof fn law_a_clone_is_found_again(
    remote: Seq<OrgRepo>,
    disk: Seq<Seq<char>>,
    cfg: &OrgConfig,
    excluded: Seq<bool>,
    root: Seq<char>,
    name: Seq<char>,
)
    requires
        excluded.len() == remote.len(),
        crate::pathname::plain_name(name),
        disk.contains(crate::pathname::joined(root, name)),
    ensures
        claim(disk, name) matches Some(path) && crate::pathname::file_name(path) == Some(name),
        forall|i: int|
            0 <= i < buckets(remote, disk, cfg, excluded).clones.len() ==> (#[trigger] buckets(
                remote,
                disk,
                cfg,
                excluded,
            ).clones[i]).name@ != name,
{
    crate::pathname::law_a_joined_name_is_one_component_more(root, name);
    lemma_claim(disk, name, 0);
    law_clones_are_new_and_updates_are_there(remote, disk, cfg, excluded);
    let b = buckets(remote, disk, cfg, excluded);
    let k = choose|k: int| 0 <= k < disk.len() && disk[k] == crate::pathname::joined(root, name);
    assert forall|i: int| 0 <= i < b.clones.len() implies (#[trigger] b.clones[i]).name@ != name by {
        assert(remote.contains(b.clones[i]));
        assert(crate::pathname::file_name(disk[k]) == Some(name));
    }
}

/// The orphans are the checkouts whose names the listing does not carry, and no
/// others: what the owner still lists is never accused.
pub proof fn law_orphans_are_unlisted(disk: Seq<Seq<char>>, listed: Seq<Seq<char>>, path: Seq<char>)
    ensures
        orphans_upto(disk, listed, disk.len() as int).contains(path) <==> disk.contains(path)
            && !is_listed(path, listed),
{
    lemma_orphans(disk, listed, path, disk.len() as int);
    assert(disk.take(disk.len() as int) =~= disk);
}

proof fn lemma_orphans(disk: Seq<Seq<char>>, listed: Seq<Seq<char>>, path: Seq<char>, n: int)
    requires
        0 <= n <= disk.len(),
    ensures
        orphans_upto(disk, listed, n).contains(path) <==> disk.take(n).contains(path) && !is_listed(
            path,
            listed,
        ),
    decreases n,
{
    if n == 0 {
        assert(disk.take(0) =~= Seq::empty());
    } else {
        lemma_orphans(disk, listed, path, n - 1);
        assert(disk.take(n) =~= disk.take(n - 1).push(disk[n - 1]));
        crate::lists::lemma_push_contains(disk.take(n - 1), disk[n - 1], path);
        crate::lists::lemma_push_contains(
            orphans_upto(disk, listed, n - 1),
            disk[n - 1],
            path,
        );
    }
}

/// Sorting a bucket keeps what is in it, and puts it in order.
pub proof fn law_buckets_are_sorted(repos: Seq<OrgRepo>, paths: Seq<Seq<char>>)
    ensures
        by_name(repos).to_multiset() =~= repos.to_multiset(),
        by_path(paths).to_multiset() =~= paths.to_multiset(),
        forall|i: int, j: int|
            #![trigger by_name(repos)[i], by_name(repos)[j]]
            0 <= i < j < by_name(repos).len() ==> !crate::names::name_less(
                by_name(repos)[j].name@,
                by_name(repos)[i].name@,
            ),
        forall|i: int, j: int|
            #![trigger by_path(paths)[i], by_path(paths)[j]]
            0 <= i < j < by_path(paths).len() ==> !crate::order::key_less(
                crate::pathname::path_rows(by_path(paths)[j]),
                crate::pathname::path_rows(by_path(paths)[i]),
            ),
{
    let nk = name_keys(repos);
    let pk = path_keys(paths);
    crate::order::law_stable_order(nk, false);
    crate::order::law_stable_order(pk, false);
    crate::order::lemma_order_multiset(repos, nk, false, repos.len() as int);
    crate::order::lemma_order_multiset(paths, pk, false, paths.len() as int);
    assert(repos.take(repos.len() as int) =~= repos);
    assert(paths.take(paths.len() as int) =~= paths);
    let names = by_name(repos);
    let no = crate::order::stable_order(nk, false);
    assert forall|i: int, j: int|
        #![trigger names[i], names[j]]
        0 <= i < j < names.len() implies !crate::names::name_less(
        names[j].name@,
        names[i].name@,
    ) by {
        let a = no[i];
        let b = no[j];
        assert(nk[a] == seq![crate::order::codes(names[i].name@)]);
        assert(nk[b] == seq![crate::order::codes(names[j].name@)]);
        crate::order::lemma_key_total(nk[a], nk[b]);
        crate::names::lemma_name_total(names[i].name@, names[j].name@);
        assert(nk[a][0] == crate::order::codes(names[i].name@));
        assert(nk[b][0] == crate::order::codes(names[j].name@));
        if crate::names::name_less(names[j].name@, names[i].name@) {
            assert(nk[b][0] != nk[a][0]);
            assert(crate::order::key_less(nk[b], nk[a]));
        }
    }
    let sorted = by_path(paths);
    let po = crate::order::stable_order(pk, false);
    assert forall|i: int, j: int|
        #![trigger sorted[i], sorted[j]]
        0 <= i < j < sorted.len() implies !crate::order::key_less(
        crate::pathname::path_rows(sorted[j]),
        crate::pathname::path_rows(sorted[i]),
    ) by {
        let a = po[i];
        let b = po[j];
        assert(pk[a] == crate::pathname::path_rows(sorted[i]));
        assert(pk[b] == crate::pathname::path_rows(sorted[j]));
        crate::order::lemma_key_total(pk[a], pk[b]);
    }
}

/// A repo is skipped as a fork where forks are not wanted, as archived where those are not,
/// and by pattern; and not otherwise.
pub proof fn law_why_a_repo_is_skipped(repo: OrgRepo, cfg: &OrgConfig, excluded: bool)
    ensures
        ({
            let fork = repo.fork && !cfg.include_forks;
            let archived = repo.archived && !cfg.include_archived;
            let reason = skip_reason(repo, cfg, excluded);
            &&& reason is None <==> !fork && !archived && !excluded
            &&& fork ==> reason == Some("fork"@)
            &&& archived && !fork ==> reason == Some("archived"@)
            &&& excluded && !fork && !archived ==> reason == Some("excluded by pattern"@)
        }),
{
}

/// One repo more goes into one bucket: skipped with its reason, updated where a checkout
/// has its name, else cloned; and nothing changes for the others.
pub proof fn law_a_repo_goes_into_its_bucket(
    remote: Seq<OrgRepo>,
    disk: Seq<Seq<char>>,
    cfg: &OrgConfig,
    excluded: Seq<bool>,
    repo: OrgRepo,
    out: bool,
)
    requires
        excluded.len() == remote.len(),
    ensures
        ({
            let b = buckets(remote, disk, cfg, excluded);
            let next = buckets(remote.push(repo), disk, cfg, excluded.push(out));
            let skip = (repo.fork && !cfg.include_forks) || (repo.archived && !cfg.include_archived)
                || out;
            let at = claim(disk, repo.name@);
            &&& skip ==> next.clones == b.clones && next.updates == b.updates && next.listed
                == b.listed && next.skipped.len() == b.skipped.len() + 1 && next.skipped[b.skipped.len() as int].name
                == repo.name@
            &&& !skip ==> next.skipped == b.skipped && next.listed == b.listed.push(repo.name@)
            &&& !skip && at is Some ==> next.clones == b.clones && next.updates == b.updates.push(
                at->0,
            )
            &&& !skip && at is None ==> next.updates == b.updates && next.clones == b.clones.push(
                repo,
            )
        }),
{
    lemma_buckets_front(remote, disk, cfg, excluded, repo, out, remote.len() as int);
}

proof fn lemma_buckets_front(
    remote: Seq<OrgRepo>,
    disk: Seq<Seq<char>>,
    cfg: &OrgConfig,
    excluded: Seq<bool>,
    repo: OrgRepo,
    out: bool,
    n: int,
)
    requires
        excluded.len() == remote.len(),
        0 <= n <= remote.len(),
    ensures
        buckets_upto(remote.push(repo), disk, cfg, excluded.push(out), n) == buckets_upto(
            remote,
            disk,
            cfg,
            excluded,
            n,
        ),
    decreases n,
{
    if n > 0 {
        lemma_buckets_front(remote, disk, cfg, excluded, repo, out, n - 1);
        assert(remote.push(repo)[n - 1] == remote[n - 1]);
        assert(excluded.push(out)[n - 1] == excluded[n - 1]);
    }
}

/// The checkout of a name is the first that is called so.
pub proof fn law_the_first_checkout_is_claimed(disk: Seq<Seq<char>>, name: Seq<char>, i: int)
    requires
        0 <= i < disk.len(),
        crate::pathname::file_name(disk[i]) == Some(name),
        forall|k: int|
            0 <= k < i ==> crate::pathname::file_name(#[trigger] disk[k]) != Some(name),
    ensures
        claim(disk, name) == Some(disk[i]),
{
    lemma_first_claim(disk, name, i, 0);
}

proof fn lemma_first_claim(disk: Seq<Seq<char>>, name: Seq<char>, i: int, from: int)
    requires
        0 <= from <= i < disk.len(),
        crate::pathname::file_name(disk[i]) == Some(name),
        forall|k: int|
            0 <= k < i ==> crate::pathname::file_name(#[trigger] disk[k]) != Some(name),
    ensures
        claim_from(disk, name, from) == Some(disk[i]),
    decreases i - from,
{
    if from < i {
        assert(crate::pathname::file_name(disk[from]) != Some(name));
        lemma_first_claim(disk, name, i, from + 1);
    }
}

/// What is in a directory counts as a checkout where it holds a repo.
pub proof fn law_a_checkout_holds_a_repo(
    children: Seq<(String, bool)>,
    child: (String, bool),
)
    ensures
        checkouts_upto(children.push(child), children.len() as int + 1) == (if child.1 {
            checkouts_upto(children, children.len() as int).push(child.0@)
        } else {
            checkouts_upto(children, children.len() as int)
        }),
        checkouts_upto(Seq::empty(), 0).len() == 0,
{
    lemma_checkouts_front(children, child, children.len() as int);
}

proof fn lemma_checkouts_front(children: Seq<(String, bool)>, child: (String, bool), n: int)
    requires
        0 <= n <= children.len(),
    ensures
        checkouts_upto(children.push(child), n) == checkouts_upto(children, n),
    decreases n,
{
    if n > 0 {
        lemma_checkouts_front(children, child, n - 1);
        assert(children.push(child)[n - 1] == children[n - 1]);
    }
}

/// The root that an org asks for is the directory above it, and the org itself where that
/// would be the root of all or nothing.
pub proof fn law_an_org_asks_for_the_directory_above(base: Seq<char>, dir: Seq<char>, name: Seq<char>)
    requires
        crate::pathname::plain_name(dir),
        crate::pathname::plain_name(name),
    ensures
        ({
            let above = crate::pathname::joined(base, dir);
            scan_candidate(crate::pathname::joined(above, name)) == above
        }),
        scan_candidate(seq!['/'] + name) == seq!['/'] + name,
        scan_candidate(name) == name,
{
    reveal_strlit("/");
    assert("/"@ =~= seq!['/']);
    crate::pathname::law_the_parent_of_a_name_is_its_directory(base, dir, name);
    let above = crate::pathname::joined(base, dir);
    crate::pathname::law_a_joined_name_is_one_component_more(base, dir);
    crate::pathname::law_a_trailing_slash_does_not_count(seq!['/']);
    let parts = crate::pathname::components(above);
    assert(parts[parts.len() - 1] == dir);
    assert(!crate::pathname::same_path(above, "/"@)) by {
        if crate::pathname::same_path(above, "/"@) {
            assert(seq![seq!['/']][0] == seq!['/']);
            assert(dir =~= seq!['/']);
            assert(dir.contains('/')) by {
                assert(dir[0] == '/');
            }
        }
    }
    assert(above.len() > 0);
}

/// A root is missing exactly where the org lies below none of them, nor the directory it
/// asks for.
pub proof fn law_a_root_is_missing_where_nothing_covers(path: Seq<char>, roots: Seq<Seq<char>>, i: int)
    requires
        0 <= i < roots.len(),
    ensures
        crate::pathname::under(path, roots[i]) ==> missing_root(path, roots) is None,
        crate::pathname::under(scan_candidate(path), roots[i]) ==> missing_root(path, roots)
            is None,
        missing_root(path, roots) matches Some(r) ==> r == scan_candidate(path),
        missing_root(path, Seq::empty()) == Some(scan_candidate(path)),
{
    if crate::pathname::under(path, roots[i]) {
        assert(is_covered(path, roots));
    }
    if crate::pathname::under(scan_candidate(path), roots[i]) {
        assert(is_covered(path, roots));
    }
}

/// A name is excluded where one of the patterns that count matches it; the empty one and
/// the lone star do not count.
pub proof fn law_which_names_are_excluded(patterns: Seq<Seq<char>>, name: Seq<char>, i: int)
    requires
        0 <= i < patterns.len(),
    ensures
        patterns[i].len() > 0 && patterns[i] != seq!['*'] && crate::glob::compiles(patterns[i])
            && crate::glob::glob_matches(patterns[i], name) ==> name_excluded(patterns, name),
        (forall|k: int|
            0 <= k < patterns.len() ==> (#[trigger] patterns[k]).len() == 0 || patterns[k]
                == seq!['*']) ==> !name_excluded(patterns, name),
        !name_excluded(Seq::empty(), name),
{
    reveal_strlit("*");
    assert("*"@ =~= seq!['*']);
    if patterns[i].len() > 0 && patterns[i] != seq!['*'] && crate::glob::compiles(patterns[i])
        && crate::glob::glob_matches(patterns[i], name) {
        assert(crate::release::pattern_counts(patterns[i]));
    }
}

/// The verdict on each repo is that on its name.
pub proof fn law_a_verdict_is_on_the_name(remote: Seq<OrgRepo>, cfg: &OrgConfig, i: int)
    requires
        0 <= i < remote.len(),
    ensures
        exclude_verdicts(remote, cfg).len() == remote.len(),
        exclude_verdicts(remote, cfg)[i] <==> name_excluded(
            crate::text::texts(cfg.exclude@),
            remote[i].name@,
        ),
{
}

/// A plan holds what the buckets hold, each thing once, and the reasons in their order.
pub proof fn law_a_plan_holds_its_buckets(
    plan: &SyncPlan,
    remote: Seq<OrgRepo>,
    disk: Seq<Seq<char>>,
    cfg: &OrgConfig,
    excluded: Seq<bool>,
    i: int,
)
    requires
        plan_is(plan, remote, disk, cfg, excluded),
    ensures
        ({
            let b = buckets(remote, disk, cfg, excluded);
            &&& plan.to_clone@.to_multiset() == b.clones.to_multiset()
            &&& crate::text::texts(plan.to_update@).to_multiset() == b.updates.to_multiset()
            &&& crate::text::texts(plan.orphans@).to_multiset() == orphans_upto(
                disk,
                b.listed,
                disk.len() as int,
            ).to_multiset()
            &&& plan.skipped@.len() == b.skipped.len()
            &&& 0 <= i < plan.skipped@.len() ==> plan.skipped@[i].name@ == b.skipped[i].name
                && plan.skipped@[i].reason@ == b.skipped[i].reason
        }),
{
    let b = buckets(remote, disk, cfg, excluded);
    let gone = orphans_upto(disk, b.listed, disk.len() as int);
    let by = |r: OrgRepo| seq![crate::order::codes(r.name@)];
    assert(name_keys(b.clones) =~= b.clones.map_values(by));
    crate::order::lemma_stably_sorted(b.clones, by, false);
    let rows = |p: Seq<char>| crate::pathname::path_rows(p);
    assert(path_keys(b.updates) =~= b.updates.map_values(rows));
    crate::order::lemma_stably_sorted(b.updates, rows, false);
    assert(path_keys(gone) =~= gone.map_values(rows));
    crate::order::lemma_stably_sorted(gone, rows, false);
    assert(skip_texts(plan.skipped@).len() == plan.skipped@.len());
    if 0 <= i < plan.skipped@.len() {
        assert(skip_texts(plan.skipped@)[i] == b.skipped[i]);
    }
}

/// An org that lies nowhere is told by its owner.
pub proof fn law_an_org_without_a_path_is_told(owner: Seq<char>)
    ensures
        no_path(owner) == "org \""@ + owner + "\" has no path set and no roots are configured"@,
{
}

/// A root is added where one is missing: behind those that were there, as it is shown from
/// home, and nothing else of the settings changes.
pub proof fn law_a_missing_root_is_added_behind(
    before: Config,
    after: Config,
    path: Seq<char>,
    roots: Seq<Seq<char>>,
    home: Option<Seq<char>>,
    added: bool,
    i: int,
)
    requires
        root_ensured(before, after, path, roots, home, added),
    ensures
        added <==> missing_root(path, roots) is Some,
        !added ==> after == before,
        added ==> after.roots@.len() == before.roots@.len() + 1,
        added ==> after.roots@[before.roots@.len() as int]@ == crate::paths::contracted(
            scan_candidate(path),
            home,
        ),
        0 <= i < before.roots@.len() ==> after.roots@[i] == before.roots@[i],
        after.orgs == before.orgs && after.exclude == before.exclude && after.max_depth
            == before.max_depth,
{
    if added && 0 <= i < before.roots@.len() {
        assert(after.roots@.take(before.roots@.len() as int)[i] == after.roots@[i]);
    }
}

} // verus!
