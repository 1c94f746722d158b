//! Sweep orchestration: discovery, then tier 1 for everything, then tier 2
//! for whatever needs it.
//!
//! The split matters. On a tree of ~550 repos, the cheap tier costs a couple of
//! seconds and the working-tree scans cost roughly forty seconds of syscall
//! time. So tier 1 runs on every sweep, and tier 2 runs only where the cache
//! says something moved, ordered so the most recently active repos land first
//! and the top of the table fills in straight away.
//!
//! The program asks git and the providers; this module decides what to ask, and
//! what each answer makes of a repo's status.

use vstd::prelude::*;

use crate::cache::cached;
use crate::config::Config;
use crate::discover::Discovered;
use crate::fmt::Elapsed;
use crate::model::{
    RefsInfo, RepoStatus, Visibility, VisibilityInfo, VisibilityStatus, WorkInfo, WorkKey,
};
use crate::number::{as_signed, clamped_sub};
use crate::order::{arrange, sort_indices, Key};
use crate::pathname::path_key;
use crate::provider::{detect, Provider};
use crate::text::{first_line_of, push_text, same, to_chars};

verus! {

#[derive(Clone, Copy, Debug, PartialEq, Eq, Structural)]
pub enum Tier {
    /// Refs, tags and `.git` metadata only. Fast.
    Refs,
    /// Also scan working trees. Slow, and cached.
    Full,
}

/// Progress from a sweep in flight. The dashboard consumes these to repaint as
/// results arrive; the CLI ignores them and takes the final vector.
#[derive(Debug)]
pub enum Event {
    /// The repos the walk turned up. Carries the full list so a live dashboard
    /// can drop rows for repos that have gone away.
    Discovered { roots: Vec<String> },
    /// Tier 1 finished for one repo.
    Refs(Box<RepoStatus>),
    /// Tier 2 finished (or was served from cache) for one repo.
    Work(Box<RepoStatus>),
    Phase { name: &'static str, elapsed: Elapsed },
    Done { elapsed: Elapsed },
}

#[derive(Debug, Clone)]
pub struct Timings {
    pub discovery: Elapsed,
    /// Time spent in the optional fetch phase. Zero when it didn't run, which
    /// is the usual case: fetching is opt-in everywhere.
    pub fetch: Elapsed,
    pub refs: Elapsed,
    pub work: Elapsed,
    pub total: Elapsed,
    pub repos: usize,
    pub work_scanned: usize,
    pub work_cached: usize,
    pub fetched: usize,
    pub fetch_failed: usize,
}

pub open spec fn no_time(e: Elapsed) -> bool {
    e.millis == 0 && e.seconds@ == "0.0"@
}

fn no_elapsed() -> (r: Elapsed)
    ensures
        no_time(r),
{
    Elapsed { millis: 0, seconds: "0.0".to_owned() }
}

impl Default for Timings {
    fn default() -> (r: Self)
        ensures
            no_time(r.discovery),
            no_time(r.fetch),
            no_time(r.refs),
            no_time(r.work),
            no_time(r.total),
            r.repos == 0,
            r.work_scanned == 0,
            r.work_cached == 0,
            r.fetched == 0,
            r.fetch_failed == 0,
    {
        Timings {
            discovery: no_elapsed(),
            fetch: no_elapsed(),
            refs: no_elapsed(),
            work: no_elapsed(),
            total: no_elapsed(),
            repos: 0,
            work_scanned: 0,
            work_cached: 0,
            fetched: 0,
            fetch_failed: 0,
        }
    }
}

pub struct Fleet {
    pub repos: Vec<RepoStatus>,
    pub timings: Timings,
}

/// What tier 2 did for a repo, so a sweep can report how much of the expensive
/// work it managed to avoid.
#[derive(Clone, Copy, Debug, PartialEq, Eq, Structural)]
pub enum WorkOutcome {
    Scanned,
    Cached,
    Skipped,
}

// ---------------------------------------------------------------------------
// Tier 1
// ---------------------------------------------------------------------------

pub open spec fn same_refs(a: Option<RefsInfo>, b: Option<RefsInfo>) -> bool {
    match (a, b) {
        (Some(x), Some(y)) => x.same_as(&y),
        (None, None) => true,
        _ => false,
    }
}

pub open spec fn same_work(a: Option<WorkInfo>, b: Option<WorkInfo>) -> bool {
    match (a, b) {
        (Some(x), Some(y)) => x.same_as(&y),
        (None, None) => true,
        _ => false,
    }
}

fn copy_refs(refs: &Option<RefsInfo>) -> (r: Option<RefsInfo>)
    ensures
        same_refs(r, *refs),
{
    match refs {
        Some(x) => Some(x.clone()),
        None => None,
    }
}

fn copy_work(work: &Option<WorkInfo>) -> (r: Option<WorkInfo>)
    ensures
        same_work(r, *work),
{
    match work {
        Some(x) => Some(x.clone()),
        None => None,
    }
}

fn copy_key(key: &Option<WorkKey>) -> (r: Option<WorkKey>)
    ensures
        r == *key,
{
    match key {
        Some(k) => Some(k.clone()),
        None => None,
    }
}

/// Whether the working-tree numbers of a repo were taken over from what was known of
/// it, and nothing else changed.
pub open spec fn work_carried(before: RepoStatus, after: RepoStatus, prev: RepoStatus) -> bool {
    &&& same_work(after.work, prev.work)
    &&& after == (RepoStatus {
        work: after.work,
        work_key: prev.work_key,
        work_probed_at: prev.work_probed_at,
        ..before
    })
}

/// Tier 1 for one repo, given what its probe said. On failure the cached values are
/// carried forward, since a stale row beats a blank one.
pub fn fill_refs(
    status: &mut RepoStatus,
    probed: Result<RefsInfo, String>,
    cached: Option<&RepoStatus>,
    now: i64,
) -> (r: bool)
    ensures
        r == probed is Ok,
        (match (probed, cached) {
            (Ok(refs), _) => *final(status) == (RepoStatus {
                refs: Some(refs),
                refs_probed_at: now,
                ..*old(status)
            }),
            (Err(e), None) => *final(status) == (RepoStatus {
                error: Some(e),
                refs_probed_at: now,
                ..*old(status)
            }),
            (Err(e), Some(prev)) => {
                &&& same_refs(final(status).refs, prev.refs)
                &&& work_carried(
                    RepoStatus {
                        refs: final(status).refs,
                        error: Some(e),
                        refs_probed_at: now,
                        ..*old(status)
                    },
                    *final(status),
                    *prev,
                )
            },
        }),
{
    status.refs_probed_at = now;
    match probed {
        Ok(refs) => {
            status.refs = Some(refs);
            true
        },
        Err(e) => {
            status.error = Some(e);
            if let Some(prev) = cached {
                status.refs = copy_refs(&prev.refs);
                status.work = copy_work(&prev.work);
                status.work_key = copy_key(&prev.work_key);
                status.work_probed_at = prev.work_probed_at;
            }
            false
        },
    }
}

// ---------------------------------------------------------------------------
// Tier 2
// ---------------------------------------------------------------------------

/// Whether so many seconds have gone by.
pub open spec fn age_reached(now: i64, since: i64, secs: u64) -> bool {
    crate::number::clamp64(now - since) >= crate::number::wrap64(secs as int)
}

/// Whether cached working-tree numbers have outlived the setting.
pub open spec fn is_work_expired(prev: &RepoStatus, cfg: &Config, now: i64) -> bool {
    match cfg.max_age() {
        Some(age) => age_reached(now, prev.work_probed_at, age.secs),
        None => false,
    }
}

/// Cached counts go stale even when the key still matches: editing a tracked
/// file touches neither HEAD nor the index, so the key alone would call an
/// edited-but-unstaged repo clean forever. The key is what makes a sweep cheap,
/// so keep it and put a ceiling on how long it is trusted.
pub fn work_expired(prev: &RepoStatus, cfg: &Config, now: i64) -> (r: bool)
    ensures
        r == is_work_expired(prev, cfg, now),
{
    match cfg.work_max_age() {
        Some(age) => clamped_sub(now, prev.work_probed_at) >= as_signed(age.as_secs()),
        None => false,
    }
}

/// The commit a repo's working-tree numbers belong to.
pub fn work_head_sha(status: &RepoStatus) -> (r: Option<String>)
    ensures
        crate::pathname::opt_text(r) == (match status.current() {
            Some(b) => Some(b.sha@),
            None => None,
        }),
{
    match &status.refs {
        Some(refs) => match refs.current_branch() {
            Some(b) => Some(b.sha.clone()),
            None => None,
        },
        None => None,
    }
}

/// Whether what was known of a repo's working tree still holds: HEAD and the index
/// both match, and it has not expired.
pub open spec fn is_reusable(
    prev: Option<&RepoStatus>,
    cfg: &Config,
    key: &WorkKey,
    now: i64,
) -> bool {
    match prev {
        None => false,
        Some(p) => p.work is Some && (p.work_key matches Some(k) && k.agrees(key))
            && !is_work_expired(p, cfg, now),
    }
}

/// How a repo's working-tree numbers come about.
#[derive(Clone, Copy, Debug, PartialEq, Eq, Structural)]
pub enum WorkChoice {
    /// There is no working tree.
    NoTree,
    /// What was known still holds.
    Reuse,
    /// Stale numbers do for now.
    Carry,
    /// A scan is needed.
    Scan,
}

/// How a repo's working-tree numbers come about.
///
/// A bare repo has no working tree, so `git status` can only ever fail
/// there. `force` skips the reuse of what is known. The watcher passes it, because a
/// filesystem event is direct evidence the working tree moved — evidence the key
/// cannot carry.
pub open spec fn work_choice(
    status: &RepoStatus,
    cfg: &Config,
    prev: Option<&RepoStatus>,
    tier: Tier,
    force: bool,
    key: &WorkKey,
    now: i64,
) -> WorkChoice {
    if status.bare() {
        WorkChoice::NoTree
    } else if !force && is_reusable(prev, cfg, key, now) {
        WorkChoice::Reuse
    } else if tier == Tier::Refs {
        WorkChoice::Carry
    } else {
        WorkChoice::Scan
    }
}

fn reusable(prev: Option<&RepoStatus>, cfg: &Config, key: &WorkKey, now: i64) -> (r: bool)
    ensures
        r == is_reusable(prev, cfg, key, now),
{
    match prev {
        None => false,
        Some(p) => {
            let matching = match &p.work_key {
                Some(k) => k.matches(key),
                None => false,
            };
            p.work.is_some() && matching && !work_expired(p, cfg, now)
        },
    }
}

/// Tier 2 for one repo, reusing the cache when HEAD and the index both match.
/// `None` says that a scan is needed: see [`take_scan`].
pub fn fill_work(
    status: &mut RepoStatus,
    cfg: &Config,
    cached: Option<&RepoStatus>,
    tier: Tier,
    force: bool,
    key: &WorkKey,
    now: i64,
) -> (r: Option<WorkOutcome>)
    ensures
        (match work_choice(old(status), cfg, cached, tier, force, key, now) {
            WorkChoice::NoTree => r == Some(WorkOutcome::Skipped) && *final(status) == *old(status),
            WorkChoice::Scan => r is None && *final(status) == *old(status),
            WorkChoice::Reuse => {
                &&& r == Some(WorkOutcome::Cached)
                &&& same_work(final(status).work, cached->0.work)
                &&& *final(status) == (RepoStatus {
                    work: final(status).work,
                    work_key: Some(*key),
                    work_probed_at: cached->0.work_probed_at,
                    ..*old(status)
                })
            },
            WorkChoice::Carry => {
                &&& r == Some(WorkOutcome::Skipped)
                &&& match cached {
                    // The key is left mismatched so a later full sweep knows the
                    // numbers still need redoing.
                    Some(prev) => work_carried(*old(status), *final(status), *prev),
                    None => *final(status) == *old(status),
                }
            },
        }),
{
    if status.is_bare() {
        return Some(WorkOutcome::Skipped);
    }
    if !force && reusable(cached, cfg, key, now) {
        if let Some(prev) = cached {
            status.work = copy_work(&prev.work);
            status.work_key = Some(key.clone());
            status.work_probed_at = prev.work_probed_at;
            return Some(WorkOutcome::Cached);
        }
    }
    if tier == Tier::Refs {
        if let Some(prev) = cached {
            status.work = copy_work(&prev.work);
            status.work_key = copy_key(&prev.work_key);
            status.work_probed_at = prev.work_probed_at;
        }
        return Some(WorkOutcome::Skipped);
    }
    None
}

/// Take in what a scan of the working tree said.
pub fn take_scan(
    status: &mut RepoStatus,
    scan: Result<WorkInfo, String>,
    key: WorkKey,
    now: i64,
) -> (r: WorkOutcome)
    ensures
        (match scan {
            Ok(work) => r == WorkOutcome::Scanned && *final(status) == (RepoStatus {
                work: Some(work),
                work_key: Some(key),
                work_probed_at: now,
                ..*old(status)
            }),
            Err(e) => r == WorkOutcome::Skipped && *final(status) == (RepoStatus {
                error: Some(e),
                ..*old(status)
            }),
        }),
{
    match scan {
        Ok(work) => {
            status.work = Some(work);
            status.work_key = Some(key);
            status.work_probed_at = now;
            WorkOutcome::Scanned
        },
        Err(e) => {
            status.error = Some(e);
            WorkOutcome::Skipped
        },
    }
}

// ---------------------------------------------------------------------------
// Visibility
// ---------------------------------------------------------------------------

/// Whether a visibility check has outlived `visibility.interval` and is worth
/// repeating.
pub open spec fn is_visibility_expired(info: &VisibilityInfo, cfg: &Config, now: i64) -> bool {
    age_reached(
        now,
        info.checked_at,
        crate::config::duration_or(cfg.visibility.interval@, 86_400).secs,
    )
}

pub fn visibility_expired(info: &VisibilityInfo, cfg: &Config, now: i64) -> (r: bool)
    ensures
        r == is_visibility_expired(info, cfg, now),
{
    clamped_sub(now, info.checked_at) >= as_signed(cfg.visibility_interval().as_secs())
}

/// Whether an entry is a real answer.
pub open spec fn is_known(info: &VisibilityInfo) -> bool {
    info.status is Known
}

fn known(info: &VisibilityInfo) -> (r: bool)
    ensures
        r == is_known(info),
{
    match info.status {
        VisibilityStatus::Known(_) => true,
        _ => false,
    }
}

/// True when a cached visibility entry is still worth trusting as-is, so a
/// fresh check can be skipped. Only a real answer qualifies:
/// `CheckingDisabled` and `CheckFailed` are records of *not* having one, and
/// trusting those the same way a `Known` value is trusted would mean
/// re-enabling this feature -- or a transient failure clearing up -- doesn't
/// actually get retried until the interval runs out.
pub fn visibility_still_trusted(info: &VisibilityInfo, cfg: &Config, now: i64) -> (r: bool)
    ensures
        r == (is_known(info) && !is_visibility_expired(info, cfg, now)),
{
    known(info) && !visibility_expired(info, cfg, now)
}

/// What to report after a provider call failed.
pub open spec fn is_fallback(
    r: VisibilityInfo,
    cached: Option<VisibilityInfo>,
    reason: Seq<char>,
    now: i64,
) -> bool {
    if cached is Some && is_known(&cached->0) {
        r == cached->0
    } else {
        &&& r.status matches VisibilityStatus::CheckFailed(said) && said@
            == crate::text::first_line(reason)
        &&& r.checked_at == now
    }
}

pub open spec fn opt_info(info: Option<&VisibilityInfo>) -> Option<VisibilityInfo> {
    match info {
        Some(i) => Some(*i),
        None => None,
    }
}

/// What to report after a provider call fails. Prefers a previously known
/// value over the fresh failure -- but, same reasoning as
/// [`visibility_still_trusted`], only a real one. Falling back to a cached
/// `CheckingDisabled` or `CheckFailed` here would hide a fresh, specific
/// failure reason behind a stale, less specific one.
pub fn visibility_fallback(cached: Option<&VisibilityInfo>, reason: &str, now: i64) -> (r:
    VisibilityInfo)
    ensures
        is_fallback(r, opt_info(cached), reason@, now),
{
    if let Some(prev) = cached {
        if known(prev) {
            return prev.clone();
        }
    }
    let v = to_chars(reason);
    VisibilityInfo {
        status: VisibilityStatus::CheckFailed(first_line_of(v.as_slice())),
        checked_at: now,
    }
}

/// What is known of a repo's visibility without asking anyone, or the slug to ask
/// about.
pub enum VisibilityChoice {
    Settled(VisibilityInfo),
    Ask(Seq<char>),
}

/// What is known of a repo's visibility without asking anyone.
///
/// "No remote" is a fact about a repo that was read. A repo that couldn't
/// be read at all hasn't established that or anything else, and saying it
/// has would be a claim nothing checked. That and a remote on a host nothing
/// recognises are free to know, whether or not checking is on.
///
/// With checking off, a previously *known* value is kept rather than overwritten
/// with a generic "disabled". Only a known one: every other variant is a record of
/// not having an answer, and those go stale in a way a real answer doesn't.
pub open spec fn visibility_choice(
    refs: Option<RefsInfo>,
    cfg: &Config,
    cached: Option<VisibilityInfo>,
    now: i64,
) -> VisibilityChoice {
    match refs {
        None => VisibilityChoice::Settled(
            VisibilityInfo { status: VisibilityStatus::Unknown, checked_at: now },
        ),
        Some(refs) => match refs.remote_url {
            None => VisibilityChoice::Settled(
                VisibilityInfo { status: VisibilityStatus::NoRemote, checked_at: now },
            ),
            Some(url) => match crate::gh::slug_of(url@) {
                None => VisibilityChoice::Settled(
                    VisibilityInfo { status: VisibilityStatus::Unsupported, checked_at: now },
                ),
                Some(slug) => if !cfg.visibility.enabled {
                    if cached is Some && is_known(&cached->0) {
                        VisibilityChoice::Settled(cached->0)
                    } else {
                        VisibilityChoice::Settled(
                            VisibilityInfo {
                                status: VisibilityStatus::CheckingDisabled,
                                checked_at: now,
                            },
                        )
                    }
                } else if cached is Some && is_known(&cached->0) && !is_visibility_expired(
                    &cached->0,
                    cfg,
                    now,
                ) {
                    VisibilityChoice::Settled(cached->0)
                } else {
                    VisibilityChoice::Ask(slug)
                },
            },
        },
    }
}

pub open spec fn cached_visibility(prev: Option<&RepoStatus>) -> Option<VisibilityInfo> {
    match prev {
        Some(p) => p.visibility,
        None => None,
    }
}

fn visibility_of<'a>(prev: Option<&'a RepoStatus>) -> (r: Option<&'a VisibilityInfo>)
    ensures
        opt_info(r) == cached_visibility(prev),
{
    match prev {
        Some(p) => match &p.visibility {
            Some(info) => Some(info),
            None => None,
        },
        None => None,
    }
}

/// Say what is known of a repo's visibility without asking its host, reusing a
/// cached value that's still within `visibility.interval`. What comes back is the
/// provider and the slug to ask about, where that is what it takes: see
/// [`take_visibility`]. Otherwise `status.visibility` is set -- see
/// [`VisibilityStatus`] for what each outcome means.
pub fn fill_visibility(
    status: &mut RepoStatus,
    cfg: &Config,
    cached: Option<&RepoStatus>,
    now: i64,
) -> (r: Option<(Provider, String)>)
    ensures
        (match visibility_choice(old(status).refs, cfg, cached_visibility(cached), now) {
            VisibilityChoice::Settled(info) => r is None && *final(status) == (RepoStatus {
                visibility: Some(info),
                ..*old(status)
            }),
            VisibilityChoice::Ask(slug) => *final(status) == *old(status) && (match r {
                Some((provider, target)) => provider == Provider::GitHub && target@ == slug,
                None => false,
            }),
        }),
{
    let prev = visibility_of(cached);
    let settled = match &status.refs {
        None => VisibilityInfo { status: VisibilityStatus::Unknown, checked_at: now },
        Some(refs) => match &refs.remote_url {
            None => VisibilityInfo { status: VisibilityStatus::NoRemote, checked_at: now },
            Some(url) => match detect(url.as_str()) {
                None => VisibilityInfo {
                    status: VisibilityStatus::Unsupported,
                    checked_at: now,
                },
                Some(target) => {
                    let kept = match prev {
                        Some(info) => {
                            if known(info) && (!cfg.visibility.enabled || !visibility_expired(
                                info,
                                cfg,
                                now,
                            )) {
                                Some(info.clone())
                            } else {
                                None
                            }
                        },
                        None => None,
                    };
                    match kept {
                        Some(info) => info,
                        None => {
                            if cfg.visibility.enabled {
                                return Some(target);
                            }
                            VisibilityInfo {
                                status: VisibilityStatus::CheckingDisabled,
                                checked_at: now,
                            }
                        },
                    }
                },
            },
        },
    };
    status.visibility = Some(settled);
    None
}

/// Take in what a provider said of a repo's visibility.
pub fn take_visibility(
    status: &mut RepoStatus,
    answer: Result<Visibility, String>,
    cached: Option<&RepoStatus>,
    now: i64,
)
    ensures
        *final(status) == (RepoStatus { visibility: final(status).visibility, ..*old(status) }),
        final(status).visibility is Some,
        (match answer {
            Ok(value) => final(status).visibility->0 == (VisibilityInfo {
                status: VisibilityStatus::Known(value),
                checked_at: now,
            }),
            Err(reason) => is_fallback(
                final(status).visibility->0,
                cached_visibility(cached),
                reason@,
                now,
            ),
        }),
{
    let info = match answer {
        Ok(value) => VisibilityInfo { status: VisibilityStatus::Known(value), checked_at: now },
        Err(reason) => visibility_fallback(visibility_of(cached), reason.as_str(), now),
    };
    status.visibility = Some(info);
}

// ---------------------------------------------------------------------------
// Fetching
// ---------------------------------------------------------------------------

/// Which repos a sweep's fetch phase should touch.
#[derive(Clone, Debug, PartialEq, Eq)]
pub enum Fetch {
    /// Leave the network alone. What every sweep does unless asked otherwise.
    Skip,
    /// Every discovered repo that has a remote.
    All,
    /// Only the repos in one group. `--group grav --fetch` is thirty fetches
    /// rather than five hundred, and the answer is the same for the rows
    /// you're going to be shown.
    Group(String),
}

impl Fetch {
    pub open spec fn wants(&self, d: &Discovered) -> bool {
        match self {
            Fetch::Skip => false,
            Fetch::All => true,
            Fetch::Group(group) => d.group@ == group@,
        }
    }

    pub fn wanted(&self, d: &Discovered) -> (r: bool)
        ensures
            r == self.wants(d),
    {
        match self {
            Fetch::Skip => false,
            Fetch::All => true,
            Fetch::Group(group) => same(d.group.as_str(), group.as_str()),
        }
    }
}

/// The roots, of the first `n` repos, that a fetch phase should touch.
pub open spec fn wanted_upto(fetch: &Fetch, repos: Seq<Discovered>, n: int) -> Seq<Seq<char>>
    decreases n,
{
    if n <= 0 {
        Seq::empty()
    } else if fetch.wants(&repos[n - 1]) {
        wanted_upto(fetch, repos, n - 1).push(repos[n - 1].root@)
    } else {
        wanted_upto(fetch, repos, n - 1)
    }
}

/// The roots of the repos a fetch phase should touch.
pub fn fetch_roots(fetch: &Fetch, repos: &Vec<Discovered>) -> (r: Vec<String>)
    ensures
        crate::text::texts(r@) == wanted_upto(fetch, repos@, repos@.len() as int),
{
    let mut out: Vec<String> = Vec::new();
    let mut i: usize = 0;
    assert(crate::text::texts(out@) =~= wanted_upto(fetch, repos@, 0));
    while i < repos.len()
        invariant
            i <= repos@.len(),
            crate::text::texts(out@) == wanted_upto(fetch, repos@, i as int),
        decreases repos@.len() - i,
    {
        if fetch.wanted(&repos[i]) {
            push_text(&mut out, repos[i].root.as_str());
        }
        i = i + 1;
    }
    out
}

/// What a fetch phase managed to do.
#[derive(Clone, Copy, Debug)]
pub struct FetchReport {
    /// Repos that had a remote and were fetched from.
    pub attempted: usize,
    /// How many of those failed -- unreachable, needed credentials, timed out.
    pub failed: usize,
}

impl Default for FetchReport {
    fn default() -> (r: Self)
        ensures
            r.attempted == 0,
            r.failed == 0,
    {
        FetchReport { attempted: 0, failed: 0 }
    }
}

/// How many of the first `n` fetches failed.
pub open spec fn failures_upto(results: Seq<bool>, n: int) -> int
    decreases n,
{
    if n <= 0 {
        0
    } else if results[n - 1] {
        failures_upto(results, n - 1)
    } else {
        failures_upto(results, n - 1) + 1
    }
}

/// What a fetch phase came to; `results` says of each repo that had a remote whether
/// its fetch worked. Failures are counted, never fatal: a remote that's unreachable,
/// wants a password, or times out leaves that repo's counts exactly as stale
/// as they already were, which is strictly better than abandoning the sweep.
pub fn fetch_all(results: &Vec<bool>) -> (r: FetchReport)
    ensures
        r.attempted == results@.len(),
        r.failed == failures_upto(results@, results@.len() as int),
{
    let mut failed: usize = 0;
    let mut i: usize = 0;
    let total: usize = results.len();
    while i < total
        invariant
            i <= total,
            total == results@.len(),
            failed <= i,
            failed == failures_upto(results@, i as int),
        decreases total - i,
    {
        if !results[i] {
            failed = failed + 1;
        }
        i = i + 1;
    }
    FetchReport { attempted: total, failed }
}

// ---------------------------------------------------------------------------
// Sweeps
// ---------------------------------------------------------------------------

/// When a repo was last active, as far as the cache knows.
pub open spec fn warmth(d: Discovered, cached: Seq<RepoStatus>) -> i64 {
    match crate::cache::repo_at(cached, d.root@) {
        Some(repo) => repo.last_activity().0 as i64,
        None => 0,
    }
}

pub open spec fn warmth_keys(repos: Seq<Discovered>, cached: Seq<RepoStatus>) -> Seq<
    Seq<Seq<i64>>,
> {
    repos.map_values(|d: Discovered| seq![seq![warmth(d, cached)]])
}

/// Warm-start ordering: probe whatever the cache says was most recently
/// active first, so the top of the table is right within the first moment.
pub fn warm_order(repos: Vec<Discovered>, known: &Vec<RepoStatus>) -> (r: Vec<Discovered>)
    ensures
        r@ == crate::order::permute(
            repos@,
            crate::order::stable_order(warmth_keys(repos@, known@), true),
        ),
{
    let mut keys: Vec<Key> = Vec::new();
    let mut i: usize = 0;
    while i < repos.len()
        invariant
            i <= repos@.len(),
            keys@.len() == i,
            forall|k: int|
                0 <= k < i ==> crate::order::rows(#[trigger] keys@[k]@) == seq![
                    seq![warmth(repos@[k], known@)],
                ],
        decreases repos@.len() - i,
    {
        let at: i64 = match cached(known, repos[i].root.as_str()) {
            Some(repo) => repo.activity_at(),
            None => 0,
        };
        let mut row: Vec<i64> = Vec::new();
        row.push(at);
        assert(row@ =~= seq![warmth(repos@[i as int], known@)]);
        let mut key: Key = Vec::new();
        key.push(row);
        assert(crate::order::rows(key@) =~= seq![seq![warmth(repos@[i as int], known@)]]);
        keys.push(key);
        i = i + 1;
    }
    assert(crate::order::key_rows(keys@) =~= warmth_keys(repos@, known@));
    let order = sort_indices(&keys, true);
    proof {
        crate::order::law_stable_order(warmth_keys(repos@, known@), true);
    }
    arrange(repos, &order)
}

pub open spec fn status_keys(repos: Seq<RepoStatus>) -> Seq<Seq<Seq<i64>>> {
    repos.map_values(|r: RepoStatus| crate::pathname::path_rows(r.root@))
}

/// The outcome of a sweep: the repos by their paths, however the probes came in.
pub fn sweep_repos(repos: Vec<RepoStatus>) -> (r: Vec<RepoStatus>)
    ensures
        r@ == crate::order::permute(
            repos@,
            crate::order::stable_order(status_keys(repos@), false),
        ),
{
    let mut keys: Vec<Key> = Vec::new();
    let mut i: usize = 0;
    while i < repos.len()
        invariant
            i <= repos@.len(),
            keys@.len() == i,
            forall|k: int|
                0 <= k < i ==> crate::order::rows(#[trigger] keys@[k]@)
                    == crate::pathname::path_rows(repos@[k].root@),
        decreases repos@.len() - i,
    {
        keys.push(path_key(repos[i].root.as_str()));
        i = i + 1;
    }
    assert(crate::order::key_rows(keys@) =~= status_keys(repos@));
    let order = sort_indices(&keys, false);
    proof {
        crate::order::law_stable_order(status_keys(repos@), false);
    }
    arrange(repos, &order)
}

/// How many of the first `n` repos had this done.
pub open spec fn outcomes_upto(outcomes: Seq<WorkOutcome>, what: WorkOutcome, n: int) -> int
    decreases n,
{
    if n <= 0 {
        0
    } else if outcomes[n - 1] == what {
        outcomes_upto(outcomes, what, n - 1) + 1
    } else {
        outcomes_upto(outcomes, what, n - 1)
    }
}

/// How many working trees a sweep scanned, and how many it served from the cache.
pub fn tally_work(outcomes: &Vec<WorkOutcome>) -> (r: (usize, usize))
    ensures
        r.0 == outcomes_upto(outcomes@, WorkOutcome::Scanned, outcomes@.len() as int),
        r.1 == outcomes_upto(outcomes@, WorkOutcome::Cached, outcomes@.len() as int),
{
    let mut scanned: usize = 0;
    let mut from_cache: usize = 0;
    let mut i: usize = 0;
    let total: usize = outcomes.len();
    while i < total
        invariant
            i <= total,
            total == outcomes@.len(),
            scanned <= i,
            from_cache <= i,
            scanned == outcomes_upto(outcomes@, WorkOutcome::Scanned, i as int),
            from_cache == outcomes_upto(outcomes@, WorkOutcome::Cached, i as int),
        decreases total - i,
    {
        match outcomes[i] {
            WorkOutcome::Scanned => {
                scanned = scanned + 1;
            },
            WorkOutcome::Cached => {
                from_cache = from_cache + 1;
            },
            WorkOutcome::Skipped => {},
        }
        i = i + 1;
    }
    (scanned, from_cache)
}

// ---------------------------------------------------------------------------
// Laws
// ---------------------------------------------------------------------------

/// A bare repo is never scanned for a working tree, whatever is asked for.
pub proof fn law_a_bare_repo_is_never_scanned(
    status: &RepoStatus,
    cfg: &Config,
    prev: Option<&RepoStatus>,
    tier: Tier,
    force: bool,
    key: &WorkKey,
    now: i64,
)
    requires
        status.bare(),
    ensures
        work_choice(status, cfg, prev, tier, force, key, now) == WorkChoice::NoTree,
{
}

/// A forced scan is one: nothing that is known stands in for it.
pub proof fn law_force_scans(
    status: &RepoStatus,
    cfg: &Config,
    prev: Option<&RepoStatus>,
    key: &WorkKey,
    now: i64,
)
    requires
        !status.bare(),
    ensures
        work_choice(status, cfg, prev, Tier::Full, true, key, now) == WorkChoice::Scan,
{
}

/// Numbers whose HEAD and index have not moved, and that have not expired, are used
/// again: no working tree is scanned for them.
pub proof fn law_unmoved_work_is_used_again(
    status: &RepoStatus,
    cfg: &Config,
    prev: &RepoStatus,
    tier: Tier,
    key: &WorkKey,
    now: i64,
)
    requires
        !status.bare(),
        prev.work is Some,
        prev.work_key matches Some(k) && k.agrees(key),
        !is_work_expired(prev, cfg, now),
    ensures
        work_choice(status, cfg, Some(prev), tier, false, key, now) == WorkChoice::Reuse,
{
}

/// Numbers whose HEAD or index moved, or that have expired, are not used for a full
/// sweep.
pub proof fn law_stale_work_is_scanned_again(
    status: &RepoStatus,
    cfg: &Config,
    prev: &RepoStatus,
    key: &WorkKey,
    now: i64,
)
    requires
        !status.bare(),
        is_work_expired(prev, cfg, now) || !(prev.work_key matches Some(k) && k.agrees(key)),
    ensures
        work_choice(status, cfg, Some(prev), Tier::Full, false, key, now) == WorkChoice::Scan,
{
}

/// Without a maximum age the key is trusted for good; with one of nought every sweep
/// scans again.
pub proof fn law_max_age_bounds(prev: &RepoStatus, cfg: &Config, now: i64)
    ensures
        cfg.max_age() is None ==> !is_work_expired(prev, cfg, now),
        (cfg.max_age() matches Some(age) && age.secs == 0) && now >= prev.work_probed_at
            ==> is_work_expired(prev, cfg, now),
{
}

/// Only a real answer is trusted or fallen back on: a failed check keeps a known
/// value as it was, and reports itself over anything else.
pub proof fn law_a_failure_never_replaces_an_answer(
    r: VisibilityInfo,
    cached: Option<VisibilityInfo>,
    reason: Seq<char>,
    now: i64,
)
    requires
        is_fallback(r, cached, reason, now),
    ensures
        cached is Some && is_known(&cached->0) ==> r == cached->0,
        !(cached is Some && is_known(&cached->0)) ==> r.status is CheckFailed && r.checked_at
            == now,
{
}

/// What the remote alone tells is told whether or not checking is on, and without
/// asking.
pub proof fn law_the_free_answers_ignore_the_setting(
    refs: Option<RefsInfo>,
    on: &Config,
    off: &Config,
    cached: Option<VisibilityInfo>,
    now: i64,
)
    requires
        refs is None || refs->0.remote_url is None || crate::gh::slug_of(refs->0.remote_url->0@)
            is None,
    ensures
        visibility_choice(refs, on, cached, now) == visibility_choice(refs, off, cached, now),
        visibility_choice(refs, on, cached, now) is Settled,
{
}

/// With checking off nobody is asked, and a known value is not erased.
pub proof fn law_checking_off_asks_nobody(
    refs: Option<RefsInfo>,
    cfg: &Config,
    cached: Option<VisibilityInfo>,
    now: i64,
)
    requires
        !cfg.visibility.enabled,
    ensures
        visibility_choice(refs, cfg, cached, now) is Settled,
        refs is Some && refs->0.remote_url is Some && crate::gh::slug_of(refs->0.remote_url->0@)
            is Some && cached is Some && is_known(&cached->0) ==> visibility_choice(
            refs,
            cfg,
            cached,
            now,
        ) == VisibilityChoice::Settled(cached->0),
{
}

/// A result is too old once the time that went by reaches the age it may have.
pub proof fn law_a_result_gets_too_old(prev: &RepoStatus, cfg: &Config, now: i64)
    ensures
        crate::text::trim(cfg.status.max_age@).len() == 0 ==> !is_work_expired(prev, cfg, now),
        cfg.max_age() matches Some(age) ==> (age.secs <= i64::MAX && i64::MIN <= now
            - prev.work_probed_at <= i64::MAX ==> (is_work_expired(prev, cfg, now) <==> now
            - prev.work_probed_at >= age.secs)),
{
}

/// What becomes of a working tree: none where there is none; the last result where it is
/// good still and a scan was not forced; else the last result as it is where only refs are
/// asked for; else a scan.
pub proof fn law_when_a_tree_is_scanned(
    status: &RepoStatus,
    cfg: &Config,
    prev: Option<&RepoStatus>,
    tier: Tier,
    force: bool,
    key: &WorkKey,
    now: i64,
)
    ensures
        ({
            let bare = status.refs is Some && status.refs->0.is_bare;
            let good = prev is Some && prev->0.work is Some && prev->0.work_key is Some
                && prev->0.work_key->0.agrees(key) && !is_work_expired(prev->0, cfg, now);
            let choice = work_choice(status, cfg, prev, tier, force, key, now);
            &&& choice == WorkChoice::NoTree <==> bare
            &&& choice == WorkChoice::Reuse <==> !bare && !force && good
            &&& choice == WorkChoice::Carry <==> !bare && (force || !good) && tier == Tier::Refs
            &&& choice == WorkChoice::Scan <==> !bare && (force || !good) && tier != Tier::Refs
        }),
{
}

/// When a host is asked: where there is a remote that it knows, checking is on, and there
/// is no real answer young enough. An answer stands for as long as its interval.
pub proof fn law_when_a_host_is_asked(
    refs: Option<RefsInfo>,
    cfg: &Config,
    cached: Option<VisibilityInfo>,
    now: i64,
)
    ensures
        ({
            let choice = visibility_choice(refs, cfg, cached, now);
            let slug = if refs is Some && refs->0.remote_url is Some {
                crate::gh::slug_of(refs->0.remote_url->0@)
            } else {
                None
            };
            let known = cached is Some && cached->0.status is Known;
            &&& choice is Ask <==> slug is Some && cfg.visibility.enabled && !(known
                && !is_visibility_expired(&cached->0, cfg, now))
            &&& choice is Ask ==> choice == VisibilityChoice::Ask(slug->0)
            &&& refs is None ==> choice == VisibilityChoice::Settled(
                VisibilityInfo { status: VisibilityStatus::Unknown, checked_at: now },
            )
            &&& refs is Some && refs->0.remote_url is None ==> choice == VisibilityChoice::Settled(
                VisibilityInfo { status: VisibilityStatus::NoRemote, checked_at: now },
            )
            &&& refs is Some && refs->0.remote_url is Some && slug is None ==> choice
                == VisibilityChoice::Settled(
                VisibilityInfo { status: VisibilityStatus::Unsupported, checked_at: now },
            )
            &&& slug is Some && known && choice is Settled ==> choice == VisibilityChoice::Settled(
                cached->0,
            )
            &&& slug is Some && !known && choice is Settled ==> choice == VisibilityChoice::Settled(
                VisibilityInfo { status: VisibilityStatus::CheckingDisabled, checked_at: now },
            )
        }),
{
}

/// An answer from a host is too old once its interval went by.
pub proof fn law_an_answer_gets_too_old(info: &VisibilityInfo, cfg: &Config, now: i64)
    ensures
        ({
            let interval = crate::config::duration_or(cfg.visibility.interval@, 86_400).secs;
            interval <= i64::MAX && i64::MIN <= now - info.checked_at <= i64::MAX ==> (
            is_visibility_expired(info, cfg, now) <==> now - info.checked_at >= interval)
        }),
{
}

/// What is fetched: nothing, everything, or the repos of one group; each once, in order.
pub proof fn law_what_is_fetched(fetch: &Fetch, repos: Seq<Discovered>, n: int, i: int)
    requires
        0 <= i < n <= repos.len(),
    ensures
        fetch is Skip ==> wanted_upto(fetch, repos, n).len() == 0,
        fetch is All ==> wanted_upto(fetch, repos, n).len() == n && wanted_upto(
            fetch,
            repos,
            n,
        )[i] == repos[i].root@,
        fetch matches Fetch::Group(g) ==> (repos[i].group@ == g@ ==> wanted_upto(
            fetch,
            repos,
            n,
        ).contains(repos[i].root@)),
        fetch.wants(&repos[i]) <==> fetch is All || (fetch matches Fetch::Group(g)
            && repos[i].group@ == g@),
        !fetch.wants(&repos[n - 1]) ==> wanted_upto(fetch, repos, n) == wanted_upto(
            fetch,
            repos,
            n - 1,
        ),
        fetch.wants(&repos[n - 1]) ==> wanted_upto(fetch, repos, n) == wanted_upto(
            fetch,
            repos,
            n - 1,
        ).push(repos[n - 1].root@),
    decreases n,
{
    reveal_with_fuel(wanted_upto, 2);
    if n > 1 {
        law_what_is_fetched(fetch, repos, n - 1, if i < n - 1 { i } else { 0 });
    }
    let out = wanted_upto(fetch, repos, n);
    if fetch.wants(&repos[i]) {
        if i == n - 1 {
            assert(out[out.len() - 1] == repos[i].root@);
        } else if !(fetch is All) {
            let before = wanted_upto(fetch, repos, n - 1);
            let k = choose|k: int| 0 <= k < before.len() && before[k] == repos[i].root@;
            assert(out[k] == repos[i].root@);
        }
    }
}

/// Failures add up, and only a fetch that did not work is one; so do scans and results
/// used again.
pub proof fn law_failures_and_outcomes_add_up(
    a: Seq<bool>,
    b: bool,
    c: Seq<WorkOutcome>,
    d: WorkOutcome,
    what: WorkOutcome,
)
    ensures
        failures_upto(a.push(b), a.len() as int + 1) == failures_upto(a, a.len() as int) + (if b {
            0int
        } else {
            1
        }),
        failures_upto(Seq::<bool>::empty(), 0) == 0,
        outcomes_upto(c.push(d), what, c.len() as int + 1) == outcomes_upto(c, what, c.len() as int) + (
        if d == what {
            1int
        } else {
            0
        }),
        outcomes_upto(Seq::<WorkOutcome>::empty(), what, 0) == 0,
{
    lemma_failures_front(a, b, a.len() as int);
    lemma_outcomes_front(c, d, what, c.len() as int);
}

proof fn lemma_failures_front(a: Seq<bool>, b: bool, n: int)
    requires
        0 <= n <= a.len(),
    ensures
        failures_upto(a.push(b), n) == failures_upto(a, n),
    decreases n,
{
    if n > 0 {
        lemma_failures_front(a, b, n - 1);
        assert(a.push(b)[n - 1] == a[n - 1]);
    }
}

proof fn lemma_outcomes_front(c: Seq<WorkOutcome>, d: WorkOutcome, what: WorkOutcome, n: int)
    requires
        0 <= n <= c.len(),
    ensures
        outcomes_upto(c.push(d), what, n) == outcomes_upto(c, what, n),
    decreases n,
{
    if n > 0 {
        lemma_outcomes_front(c, d, what, n - 1);
        assert(c.push(d)[n - 1] == c[n - 1]);
    }
}

/// The repos that were busy last go first: each has been touched at least as lately as the
/// next, by what is remembered of it, and what is not remembered comes last.
pub proof fn law_the_busy_go_first(
    repos: Seq<Discovered>,
    cached: Seq<RepoStatus>,
    i: int,
    j: int,
)
    requires
        0 <= i < j < repos.len(),
    ensures
        ({
            let out = crate::order::permute(
                repos,
                crate::order::stable_order(warmth_keys(repos, cached), true),
            );
            &&& out.len() == repos.len()
            &&& out.to_multiset() == repos.to_multiset()
            &&& warmth(out[i], cached) >= warmth(out[j], cached)
            &&& crate::cache::repo_at(cached, out[i].root@) is None ==> warmth(out[i], cached) == 0
            &&& crate::cache::repo_at(cached, out[i].root@) matches Some(r) ==> warmth(
                out[i],
                cached,
            ) == r.last_activity().0
        }),
{
    let key = |d: Discovered| seq![seq![warmth(d, cached)]];
    assert(warmth_keys(repos, cached) =~= repos.map_values(key));
    crate::order::lemma_stably_sorted(repos, key, true);
    let out = crate::order::permute(
        repos,
        crate::order::stable_order(warmth_keys(repos, cached), true),
    );
    let (x, y) = (seq![seq![warmth(out[i], cached)]], seq![seq![warmth(out[j], cached)]]);
    assert(key(out[i]) == x && key(out[j]) == y);
    assert(crate::order::before(x, y, true) || x == y);
    reveal_with_fuel(crate::order::key_less, 2);
    reveal_with_fuel(crate::order::row_less, 2);
    assert(x[0][0] == warmth(out[i], cached) && y[0][0] == warmth(out[j], cached));
    if let Some(r) = crate::cache::repo_at(cached, out[i].root@) {
        if r.refs is Some && r.refs->0.branches@.len() > 0 {
            crate::model::law_the_newest_commit_is_on_a_branch(r.refs->0.branches@, 0);
        }
    }
}

/// A sweep ends in the order of paths, with every repo it started with.
pub proof fn law_a_sweep_ends_by_path(repos: Seq<RepoStatus>, i: int, j: int)
    requires
        0 <= i < j < repos.len(),
    ensures
        ({
            let out = crate::order::permute(
                repos,
                crate::order::stable_order(status_keys(repos), false),
            );
            &&& out.len() == repos.len()
            &&& out.to_multiset() == repos.to_multiset()
            &&& !crate::order::key_less(
                crate::pathname::path_rows(out[j].root@),
                crate::pathname::path_rows(out[i].root@),
            )
        }),
{
    let key = |r: RepoStatus| crate::pathname::path_rows(r.root@);
    assert(status_keys(repos) =~= repos.map_values(key));
    crate::order::lemma_stably_sorted(repos, key, false);
    let out = crate::order::permute(repos, crate::order::stable_order(status_keys(repos), false));
    let (x, y) = (
        crate::pathname::path_rows(out[i].root@),
        crate::pathname::path_rows(out[j].root@),
    );
    assert(key(out[i]) == x && key(out[j]) == y);
    assert(crate::order::before(x, y, false) || x == y);
    crate::order::lemma_key_total(x, y);
}

/// What is carried over is the last result with its key and its time, and nothing else
/// changes.
pub proof fn law_what_is_carried_over(before: RepoStatus, after: RepoStatus, prev: RepoStatus)
    requires
        work_carried(before, after, prev),
    ensures
        after.work is Some <==> prev.work is Some,
        after.work is Some ==> after.work->0.staged == prev.work->0.staged && after.work->0.unstaged
            == prev.work->0.unstaged && after.work->0.untracked == prev.work->0.untracked
            && after.work->0.conflicts == prev.work->0.conflicts,
        after.work_key == prev.work_key,
        after.work_probed_at == prev.work_probed_at,
        after.refs == before.refs && after.root == before.root && after.error == before.error
            && after.visibility == before.visibility,
{
}

/// What is remembered of a visibility is that of the last result, if there was one.
pub proof fn law_what_is_remembered_of_a_visibility(prev: &RepoStatus)
    ensures
        cached_visibility(None) is None,
        cached_visibility(Some(prev)) == prev.visibility,
{
}

} // verus!
