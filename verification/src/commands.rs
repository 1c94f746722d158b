//! What the commands print, and what they decide before they do.

use vstd::prelude::*;

use crate::config::Config;
use crate::detail::plural_ending;
use crate::filter::{sort_repos, Query, Sort};
use crate::fmt::{age, duration};
use crate::hold::{Hold, Holds};
use crate::model::{ReleaseState, RepoStatus};
use crate::number::to_decimal;
use crate::pathname::{dirs_above, file_name_of, paths_equal, relative_to, split_path};
use crate::paths::{as_opt_str, contract, contract_from, home_dir};
use crate::probe::{Fetch, Timings};
use crate::report::{count_repos, Trait};
use crate::table::{table, Align};
use crate::text::{from_chars, join_chars, join_texts, push_text, same};

verus! {

// ---------------------------------------------------------------------------
// Notes on a sweep
// ---------------------------------------------------------------------------

/// A fetch across a few hundred remotes is not instant and not free, so say
/// it's happening before it starts rather than leaving the terminal silent.
pub fn announce_fetch(fetch: &Fetch) -> (r: Option<String>)
    ensures
        crate::pathname::opt_text(r) == (match fetch {
            Fetch::Skip => None,
            Fetch::All => Some("drydock: fetching every repo with a remote..."@),
            Fetch::Group(group) => Some("drydock: fetching the "@ + group@ + " group..."@),
        }),
{
    match fetch {
        Fetch::Skip => None,
        Fetch::All => Some("drydock: fetching every repo with a remote...".to_owned()),
        Fetch::Group(group) => {
            let mut out = "drydock: fetching the ".to_owned();
            out.append(group.as_str());
            out.append(" group...");
            Some(out)
        },
    }
}

/// What to say of fetches that failed.
pub open spec fn failed_fetches(failed: int) -> Seq<char> {
    if failed > 0 {
        ", "@ + crate::number::decimal(failed)
            + " could not be reached and still show their last known counts"@
    } else {
        Seq::empty()
    }
}

/// Say what the fetch phase managed. Failures are worth a word: a repo that couldn't
/// be reached still reports whatever its last fetch left, and silently passing that
/// off as checked is the thing fetching exists to stop.
pub fn fetch_note(timings: &Timings) -> (r: Option<String>)
    ensures
        crate::pathname::opt_text(r) == (if timings.fetched == 0 {
            None
        } else {
            Some(
                "drydock: fetched "@ + crate::number::decimal(timings.fetched as int)
                    + " repos in "@ + timings.fetch.text() + failed_fetches(timings.fetch_failed as int),
            )
        }),
{
    if timings.fetched == 0 {
        return None;
    }
    let mut failed = String::new();
    if timings.fetch_failed > 0 {
        failed = ", ".to_owned();
        let n = to_decimal(timings.fetch_failed as u64);
        failed.append(n.as_str());
        failed.append(" could not be reached and still show their last known counts");
    } else {
        assert(failed@ =~= Seq::empty());
    }
    let mut out = "drydock: fetched ".to_owned();
    let n = to_decimal(timings.fetched as u64);
    out.append(n.as_str());
    out.append(" repos in ");
    let took = duration(&timings.fetch);
    out.append(took.as_str());
    out.append(failed.as_str());
    Some(out)
}

/// Say which "behind" counts nobody checked, after a scan that did not fetch.
pub fn unfetched_note(repos: &[RepoStatus]) -> (r: Option<String>)
    ensures
        ({
            let never = crate::report::tally(repos@, None, Trait::NeverFetched);
            crate::pathname::opt_text(r) == (if never > 0 {
                Some(
                    crate::number::decimal(never)
                        + " repos have never fetched, so their behind counts are unchecked. Run `drydock scan --fetch` to check them."@,
                )
            } else {
                None
            })
        }),
{
    let never: usize = count_repos(repos, Trait::NeverFetched);
    if never > 0 {
        let mut out = to_decimal(never as u64);
        out.append(
            " repos have never fetched, so their behind counts are unchecked. Run `drydock scan --fetch` to check them.",
        );
        Some(out)
    } else {
        proof {
            crate::report::law_counts_are_bounded(repos@, None, Trait::NeverFetched);
        }
        None
    }
}

// ---------------------------------------------------------------------------
// list
// ---------------------------------------------------------------------------

/// The repos a query selects, up to a limit.
pub fn select<'a>(query: &Query, repos: &'a [RepoStatus], now: i64, limit: Option<usize>) -> (r: Vec<
    &'a RepoStatus,
>)
    ensures
        ({
            let order = query.answer(repos@, now as int);
            let shown = match limit {
                Some(n) => if n < order.len() {
                    n as int
                } else {
                    order.len() as int
                },
                None => order.len() as int,
            };
            &&& r@.len() == shown
            &&& forall|i: int| 0 <= i < shown ==> *(#[trigger] r@[i]) == repos@[order[i]]
        }),
{
    let mut selected = query.apply(repos, now);
    if let Some(n) = limit {
        if n < selected.len() {
            selected.truncate(n);
        }
    }
    selected
}

/// How many of the fleet were shown, where not all of it was.
pub fn list_footer(shown: usize, total: usize) -> (r: Option<String>)
    ensures
        crate::pathname::opt_text(r) == (if shown != total {
            Some(
                "Showing "@ + crate::number::decimal(shown as int) + " of "@
                    + crate::number::decimal(total as int) + "."@,
            )
        } else {
            None
        }),
{
    if shown == total {
        return None;
    }
    let mut out = "Showing ".to_owned();
    let n = to_decimal(shown as u64);
    out.append(n.as_str());
    out.append(" of ");
    let m = to_decimal(total as u64);
    out.append(m.as_str());
    out.append(".");
    Some(out)
}

// ---------------------------------------------------------------------------
// releasable
// ---------------------------------------------------------------------------

/// Whether a changelog is ahead of the tags.
pub open spec fn changelog_ahead(repo: &RepoStatus) -> bool {
    match repo.refs {
        Some(refs) => refs.changelog matches Some(c) && !c.tagged,
        None => false,
    }
}

/// Whether a repo is a candidate for a release: it has commits past its last tag, at
/// least one, or, where that counts, a changelog ahead of its tags.
pub open spec fn is_candidate(repo: &RepoStatus, min_commits: int, by_changelog: bool) -> bool {
    repo.since_tag() >= (if min_commits < 1 {
        1
    } else {
        min_commits
    }) || (by_changelog && changelog_ahead(repo))
}

/// The candidates among the first `n` repos.
pub open spec fn candidates_upto<'a>(
    repos: Seq<RepoStatus>,
    min_commits: int,
    by_changelog: bool,
    n: int,
) -> Seq<&'a RepoStatus>
    decreases n,
{
    if n <= 0 {
        Seq::empty()
    } else if is_candidate(&repos[n - 1], min_commits, by_changelog) {
        candidates_upto(repos, min_commits, by_changelog, n - 1).push(&repos[n - 1])
    } else {
        candidates_upto(repos, min_commits, by_changelog, n - 1)
    }
}

/// The candidates for a release, newest activity first.
pub open spec fn candidates<'a>(
    repos: Seq<RepoStatus>,
    min_commits: int,
    by_changelog: bool,
) -> Seq<&'a RepoStatus> {
    let found = candidates_upto(repos, min_commits, by_changelog, repos.len() as int);
    crate::order::permute(
        found,
        crate::order::stable_order(
            crate::filter::ref_keys(found, Sort::Activity),
            Sort::Activity.descends(),
        ),
    )
}

fn candidate(repo: &RepoStatus, min_commits: u32, by_changelog: bool) -> (r: bool)
    ensures
        r == is_candidate(repo, min_commits as int, by_changelog),
{
    let at_least: u32 = if min_commits < 1 {
        1
    } else {
        min_commits
    };
    let ahead = match &repo.refs {
        Some(refs) => match &refs.changelog {
            Some(c) => !c.tagged,
            None => false,
        },
        None => false,
    };
    repo.commits_since_tag() >= at_least || (by_changelog && ahead)
}

/// The candidates for a release, newest activity first.
pub fn releasable<'a>(repos: &'a [RepoStatus], min_commits: u32, include_changelog: bool) -> (r:
    Vec<&'a RepoStatus>)
    ensures
        r@ == candidates(repos@, min_commits as int, include_changelog),
{
    let mut found: Vec<&'a RepoStatus> = Vec::new();
    let mut i: usize = 0;
    while i < repos.len()
        invariant
            i <= repos@.len(),
            found@ == candidates_upto(
                repos@,
                min_commits as int,
                include_changelog,
                i as int,
            ),
        decreases repos@.len() - i,
    {
        if candidate(&repos[i], min_commits, include_changelog) {
            found.push(&repos[i]);
        }
        i = i + 1;
    }
    sort_repos(&mut found, Sort::Activity, false);
    found
}

/// What a changelog says, next to the tags.
pub open spec fn changelog_cell(repo: &RepoStatus) -> Seq<char> {
    match repo.refs {
        Some(refs) => match refs.changelog {
            Some(c) => if c.tagged {
                c.version@ + " (tagged)"@
            } else if c.unreleased_blocks > 1 {
                c.version@ + " (+"@ + crate::number::decimal(c.unreleased_blocks - 1) + " block"@
                    + crate::detail::plural(c.unreleased_blocks - 1) + ")"@
            } else {
                c.version@ + " (untagged)"@
            },
            None => "-"@,
        },
        None => "-"@,
    }
}

pub open spec fn note(on: bool, text: Seq<char>) -> Seq<Seq<char>> {
    if on {
        seq![text]
    } else {
        Seq::empty()
    }
}

/// What stands in the way of a release.
pub open spec fn obstacles(repo: &RepoStatus) -> Seq<Seq<char>> {
    note(repo.the_flags().dirty, "dirty"@) + note(
        repo.refs matches Some(refs) && refs.is_tag_off_branch(),
        "tag off branch"@,
    ) + note(repo.unpushed_count() > 0, "unpushed"@)
}

pub open spec fn obstacles_cell(repo: &RepoStatus) -> Seq<char> {
    if obstacles(repo).len() == 0 {
        "·"@
    } else {
        crate::text::join(obstacles(repo), ", "@)
    }
}

pub open spec fn candidate_row(repo: &RepoStatus, now: int) -> Seq<Seq<char>> {
    seq![
        repo.slug_text(),
        repo.branch_text(),
        repo.tag_text(),
        crate::number::decimal(repo.since_tag()),
        changelog_cell(repo),
        crate::fmt::age_text(repo.last_activity().0, now),
        obstacles_cell(repo),
    ]
}

pub open spec fn candidate_rows(repos: Seq<&RepoStatus>, now: int) -> Seq<Seq<Seq<char>>> {
    repos.map_values(|r: &RepoStatus| candidate_row(r, now))
}

pub open spec fn candidates_header() -> Seq<Seq<char>> {
    seq![
        "REPO"@,
        "BRANCH"@,
        "LAST TAG"@,
        "COMMITS"@,
        "CHANGELOG"@,
        "AGE"@,
        "NOTES"@,
    ]
}

pub open spec fn candidates_aligns() -> Seq<Align> {
    seq![
        Align::Left,
        Align::Left,
        Align::Left,
        Align::Right,
        Align::Left,
        Align::Right,
        Align::Left,
    ]
}

fn render_changelog(repo: &RepoStatus) -> (r: String)
    ensures
        r@ == changelog_cell(repo),
{
    match &repo.refs {
        Some(refs) => match &refs.changelog {
            Some(c) => {
                let mut out = c.version.clone();
                if c.tagged {
                    out.append(" (tagged)");
                } else if c.unreleased_blocks > 1 {
                    let extra: u32 = c.unreleased_blocks - 1;
                    out.append(" (+");
                    let n = to_decimal(extra as u64);
                    out.append(n.as_str());
                    out.append(" block");
                    out.append(plural_ending(extra));
                    out.append(")");
                } else {
                    out.append(" (untagged)");
                }
                out
            },
            None => "-".to_owned(),
        },
        None => "-".to_owned(),
    }
}

fn render_obstacles(repo: &RepoStatus) -> (r: String)
    ensures
        r@ == obstacles_cell(repo),
{
    let mut notes: Vec<String> = Vec::new();
    if repo.flags().dirty {
        push_text(&mut notes, "dirty");
    }
    let off_branch = match &repo.refs {
        Some(refs) => refs.tag_off_branch(),
        None => false,
    };
    if off_branch {
        push_text(&mut notes, "tag off branch");
    }
    if repo.unpushed_total() > 0 {
        push_text(&mut notes, "unpushed");
    }
    assert(crate::text::texts(notes@) =~= obstacles(repo));
    assert(crate::text::texts(notes@).len() == notes@.len());
    if notes.len() == 0 {
        "·".to_owned()
    } else {
        join_texts(notes.as_slice(), ", ")
    }
}

/// The candidates as a table.
pub fn releasable_table(repos: &[&RepoStatus], now: i64) -> (r: String)
    ensures
        r@ == crate::table::table_text(
            candidates_header(),
            candidates_aligns(),
            candidate_rows(repos@, now as int),
        ),
{
    let ghost want = candidate_rows(repos@, now as int);
    let mut rows: Vec<Vec<String>> = Vec::new();
    let mut i: usize = 0;
    assert(crate::table::cells(rows@) =~= want.take(0));
    while i < repos.len()
        invariant
            i <= repos@.len(),
            want == candidate_rows(repos@, now as int),
            crate::table::cells(rows@) == want.take(i as int),
        decreases repos@.len() - i,
    {
        let repo = repos[i];
        let mut row: Vec<String> = Vec::new();
        row.push(repo.slug());
        row.push(repo.branch_label());
        row.push(repo.tag_label());
        row.push(to_decimal(repo.commits_since_tag() as u64));
        row.push(render_changelog(repo));
        row.push(age(repo.activity_at(), now));
        row.push(render_obstacles(repo));
        assert(crate::text::texts(row@) =~= candidate_row(repo, now as int));
        let ghost before = rows@;
        rows.push(row);
        assert(crate::table::cells(rows@) =~= crate::table::cells(before).push(want[i as int]));
        i = i + 1;
        assert(crate::table::cells(rows@) =~= want.take(i as int));
    }
    assert(want.take(i as int) =~= want);
    let headers: [&str; 7] = ["REPO", "BRANCH", "LAST TAG", "COMMITS", "CHANGELOG", "AGE", "NOTES"];
    assert(crate::table::strs(headers@) =~= candidates_header());
    let aligns: [Align; 7] = [
        Align::Left,
        Align::Left,
        Align::Left,
        Align::Right,
        Align::Left,
        Align::Right,
        Align::Left,
    ];
    assert(aligns@ =~= candidates_aligns());
    table(&headers, &aligns, rows.as_slice())
}

/// How many candidates there are, in words.
pub fn releasable_footer(n: usize) -> (r: String)
    ensures
        r@ == crate::number::decimal(n as int) + " candidate"@ + crate::detail::plural(n as int)
            + "."@,
{
    let mut out = to_decimal(n as u64);
    out.append(" candidate");
    out.append(
        if n == 1 {
            ""
        } else {
            "s"
        },
    );
    out.append(".");
    out
}

// ---------------------------------------------------------------------------
// hold and unhold
// ---------------------------------------------------------------------------

/// What holding a repo comes to.
#[derive(Debug)]
pub enum HoldStep {
    /// It has no commits to hold.
    NoCommits(String),
    /// It is released: a hold could never suppress anything, as the first commit to
    /// make it releasable is also the one that lifts the hold.
    NothingToHold(String),
    /// The hold to place.
    Place(Hold),
}

/// The tag a repo sits past.
pub open spec fn held_tag(repo: &RepoStatus) -> Option<Seq<char>> {
    match repo.refs {
        Some(refs) => match refs.described_tag {
            Some(t) => Some(t.name@),
            None => match refs.newest_tag {
                Some(t) => Some(t.name@),
                None => None,
            },
        },
        None => None,
    }
}

pub open spec fn held_branch(repo: &RepoStatus) -> Option<Seq<char>> {
    match repo.refs {
        Some(refs) => refs.head.branch_name(),
        None => None,
    }
}

/// [`hold_step`] for a given home directory.
pub fn hold_step_from(
    status: &RepoStatus,
    note: Option<String>,
    now: i64,
    home: Option<&str>,
) -> (r: HoldStep)
    ensures
        (match status.head_commit() {
            None => r matches HoldStep::NoCommits(e) && e@ == crate::paths::contracted(
                status.root@,
                crate::hold::opt_str(home),
            ) + " has no commits to hold"@,
            Some(sha) => if status.raw_state() == ReleaseState::Released {
                r matches HoldStep::NothingToHold(said) && said@ == status.slug_text()
                    + " is released, with nothing past "@ + status.tag_text()
                    + ". Nothing to hold."@
            } else {
                r matches HoldStep::Place(hold) && hold.sha@ == sha && crate::pathname::opt_text(
                    hold.branch,
                ) == held_branch(status) && crate::pathname::opt_text(hold.tag) == held_tag(status)
                    && hold.at == now && hold.note == note
            },
        }),
{
    let sha = match status.head_sha() {
        Some(sha) => sha.to_owned(),
        None => {
            let mut out = contract_from(status.root.as_str(), home);
            out.append(" has no commits to hold");
            return HoldStep::NoCommits(out);
        },
    };
    if status.release_state_raw() == ReleaseState::Released {
        let mut out = status.slug();
        out.append(" is released, with nothing past ");
        let tag = status.tag_label();
        out.append(tag.as_str());
        out.append(". Nothing to hold.");
        return HoldStep::NothingToHold(out);
    }
    let branch = match &status.refs {
        Some(refs) => match refs.head.branch() {
            Some(b) => Some(b.to_owned()),
            None => None,
        },
        None => None,
    };
    let tag = match &status.refs {
        Some(refs) => match &refs.described_tag {
            Some(t) => Some(t.name.clone()),
            None => match &refs.newest_tag {
                Some(t) => Some(t.name.clone()),
                None => None,
            },
        },
        None => None,
    };
    HoldStep::Place(Hold { sha, branch, tag, at: now, note })
}

/// What holding a repo comes to: the hold to place at its HEAD, or why there is none.
pub fn hold_step(status: &RepoStatus, note: Option<String>, now: i64) -> (r: HoldStep)
    ensures
        r is NoCommits <==> status.head_commit() is None,
        r is NothingToHold <==> status.head_commit() is Some && status.raw_state()
            == ReleaseState::Released,
        r matches HoldStep::NoCommits(e) ==> exists|home: Option<Seq<char>>|
            e@ == #[trigger] crate::paths::contracted(status.root@, home)
                + " has no commits to hold"@,
        r matches HoldStep::NothingToHold(said) ==> said@ == status.slug_text()
            + " is released, with nothing past "@ + status.tag_text() + ". Nothing to hold."@,
        r matches HoldStep::Place(hold) ==> Some(hold.sha@) == status.head_commit()
            && crate::pathname::opt_text(hold.branch) == held_branch(status)
            && crate::pathname::opt_text(hold.tag) == held_tag(status) && hold.at == now
            && hold.note == note,
{
    let home = home_dir();
    hold_step_from(status, note, now, as_opt_str(&home))
}

pub open spec fn commits_text(count: int) -> Seq<char> {
    crate::number::decimal(count) + " commit"@ + crate::detail::plural(count)
}

/// A number of commits, in words.
pub fn commits_note(count: u32) -> (r: String)
    ensures
        r@ == commits_text(count as int),
{
    let mut out = to_decimal(count as u64);
    out.append(" commit");
    out.append(plural_ending(count));
    out
}

/// How a hold relates to the one before it.
pub open spec fn held_word(sha: Seq<char>, previous: Option<&Hold>) -> Seq<char> {
    match previous {
        Some(prev) => if prev.sha@ == sha {
            "Still holding"@
        } else {
            "Re-held at the current commit:"@
        },
        None => "Held"@,
    }
}

/// What to say once a hold is placed.
pub fn held_note(status: &RepoStatus, sha: &str, previous: Option<&Hold>) -> (r: String)
    ensures
        r@ == held_word(sha@, previous) + " "@ + status.slug_text() + " at "@ + sha@ + " ("@
            + commits_text(status.since_tag()) + " past "@ + status.tag_text() + ")."@,
{
    let mut out = match previous {
        Some(prev) => {
            if same(prev.sha.as_str(), sha) {
                "Still holding".to_owned()
            } else {
                "Re-held at the current commit:".to_owned()
            }
        },
        None => "Held".to_owned(),
    };
    out.append(" ");
    let slug = status.slug();
    out.append(slug.as_str());
    out.append(" at ");
    out.append(sha);
    out.append(" (");
    let commits = commits_note(status.commits_since_tag());
    out.append(commits.as_str());
    out.append(" past ");
    let tag = status.tag_label();
    out.append(tag.as_str());
    out.append(").");
    out
}

/// What lifting a hold says, for a given home directory.
pub fn unhold_note_from(root: &str, lifted: Option<&Hold>, home: Option<&str>) -> (r: String)
    ensures
        ({
            let shown = crate::paths::contracted(root@, crate::hold::opt_str(home));
            r@ == (match lifted {
                Some(held) => "Lifted the hold on "@ + shown + " (placed at "@ + held.label_text()
                    + ")."@,
                None => "Nothing is holding "@ + shown + "."@,
            })
        }),
{
    let shown = contract_from(root, home);
    match lifted {
        Some(held) => {
            let mut out = "Lifted the hold on ".to_owned();
            out.append(shown.as_str());
            out.append(" (placed at ");
            let label = held.label();
            out.append(label.as_str());
            out.append(").");
            out
        },
        None => {
            let mut out = "Nothing is holding ".to_owned();
            out.append(shown.as_str());
            out.append(".");
            out
        },
    }
}

// ---------------------------------------------------------------------------
// holds
// ---------------------------------------------------------------------------

/// What one held repo is doing right now. Probing is the only way to know
/// whether a hold still covers HEAD, and there are only ever a handful of
/// these, so each one is asked directly rather than run through a sweep.
#[derive(Debug)]
pub struct HeldRepo {
    pub root: String,
    pub hold: Hold,
    /// `None` when the repo is no longer on disk.
    pub status: Option<RepoStatus>,
}

impl HeldRepo {
    /// Whether the hold still covers HEAD.
    pub open spec fn is_active(&self) -> bool {
        match self.status {
            Some(status) => status.head_commit() == Some(self.hold.sha@),
            None => false,
        }
    }

    pub open spec fn state_text(&self) -> Seq<char> {
        if self.status is None {
            "repo is gone"@
        } else if self.is_active() {
            "holding"@
        } else {
            "lifted, HEAD moved"@
        }
    }

    pub fn active(&self) -> (r: bool)
        ensures
            r == self.is_active(),
    {
        match &self.status {
            Some(status) => self.hold.covers(status.head_sha()),
            None => false,
        }
    }

    pub fn state(&self) -> (r: &'static str)
        ensures
            r@ == self.state_text(),
    {
        match &self.status {
            None => "repo is gone",
            Some(status) => {
                if self.hold.covers(status.head_sha()) {
                    "holding"
                } else {
                    "lifted, HEAD moved"
                }
            },
        }
    }
}

/// A text, or a dot where there is none.
pub open spec fn or_dot(s: Option<String>) -> Seq<char> {
    match s {
        Some(t) => t@,
        None => "·"@,
    }
}

fn text_or_dot(s: &Option<String>) -> (r: String)
    ensures
        r@ == or_dot(*s),
{
    match s {
        Some(t) => t.clone(),
        None => "·".to_owned(),
    }
}

pub open spec fn held_row(h: &HeldRepo, now: int, home: Option<Seq<char>>) -> Seq<Seq<char>> {
    seq![
        match h.status {
            Some(status) => status.slug_text(),
            None => crate::paths::contracted(h.root@, home),
        },
        or_dot(h.hold.branch),
        or_dot(h.hold.tag),
        h.hold.sha@,
        crate::fmt::age_text(h.hold.at as int, now),
        h.state_text(),
        or_dot(h.hold.note),
    ]
}

pub open spec fn held_rows(held: Seq<HeldRepo>, now: int, home: Option<Seq<char>>) -> Seq<
    Seq<Seq<char>>,
> {
    held.map_values(|h: HeldRepo| held_row(&h, now, home))
}

pub open spec fn held_header() -> Seq<Seq<char>> {
    seq!["REPO"@, "BRANCH"@, "TAG"@, "COMMIT"@, "HELD"@, "STATE"@, "NOTE"@]
}

pub open spec fn held_aligns() -> Seq<Align> {
    seq![
        Align::Left,
        Align::Left,
        Align::Left,
        Align::Left,
        Align::Right,
        Align::Left,
        Align::Left,
    ]
}

pub open spec fn held_text(held: Seq<HeldRepo>, now: int, home: Option<Seq<char>>) -> Seq<char> {
    crate::table::table_text(held_header(), held_aligns(), held_rows(held, now, home))
}

/// [`holds_table`] for a given home directory.
pub fn holds_table_from(held: &Vec<HeldRepo>, now: i64, home: Option<&str>) -> (r: String)
    ensures
        r@ == held_text(held@, now as int, crate::hold::opt_str(home)),
{
    let ghost at = crate::hold::opt_str(home);
    let ghost want = held_rows(held@, now as int, at);
    let mut rows: Vec<Vec<String>> = Vec::new();
    let mut i: usize = 0;
    assert(crate::table::cells(rows@) =~= want.take(0));
    while i < held.len()
        invariant
            i <= held@.len(),
            at == crate::hold::opt_str(home),
            want == held_rows(held@, now as int, at),
            crate::table::cells(rows@) == want.take(i as int),
        decreases held@.len() - i,
    {
        let h = &held[i];
        let repo = match &h.status {
            Some(status) => status.slug(),
            None => contract_from(h.root.as_str(), home),
        };
        let mut row: Vec<String> = Vec::new();
        row.push(repo);
        row.push(text_or_dot(&h.hold.branch));
        row.push(text_or_dot(&h.hold.tag));
        row.push(h.hold.sha.clone());
        row.push(age(h.hold.at, now));
        row.push(h.state().to_owned());
        row.push(text_or_dot(&h.hold.note));
        assert(crate::text::texts(row@) =~= held_row(h, now as int, at));
        let ghost before = rows@;
        rows.push(row);
        assert(crate::table::cells(rows@) =~= crate::table::cells(before).push(want[i as int]));
        i = i + 1;
        assert(crate::table::cells(rows@) =~= want.take(i as int));
    }
    assert(want.take(i as int) =~= want);
    let headers: [&str; 7] = ["REPO", "BRANCH", "TAG", "COMMIT", "HELD", "STATE", "NOTE"];
    assert(crate::table::strs(headers@) =~= held_header());
    let aligns: [Align; 7] = [
        Align::Left,
        Align::Left,
        Align::Left,
        Align::Left,
        Align::Right,
        Align::Left,
        Align::Left,
    ];
    assert(aligns@ =~= held_aligns());
    table(&headers, &aligns, rows.as_slice())
}

/// What is held, as a table.
pub fn holds_table(held: &Vec<HeldRepo>, now: i64) -> (r: String)
    ensures
        exists|home: Option<Seq<char>>| r@ == #[trigger] held_text(held@, now as int, home),
{
    let home = home_dir();
    holds_table_from(held, now, as_opt_str(&home))
}

/// How many of the first `n` holds are active.
pub open spec fn active_upto(held: Seq<HeldRepo>, n: int) -> int
    decreases n,
{
    if n <= 0 {
        0
    } else if held[n - 1].is_active() {
        active_upto(held, n - 1) + 1
    } else {
        active_upto(held, n - 1)
    }
}

/// How many holds are active, and how many are not.
pub fn count_holds(held: &Vec<HeldRepo>) -> (r: (usize, usize))
    ensures
        r.0 == active_upto(held@, held@.len() as int),
        r.0 + r.1 == held@.len(),
{
    let mut live: usize = 0;
    let mut i: usize = 0;
    let total: usize = held.len();
    while i < total
        invariant
            i <= total,
            total == held@.len(),
            live <= i,
            live == active_upto(held@, i as int),
        decreases total - i,
    {
        if held[i].active() {
            live = live + 1;
        }
        i = i + 1;
    }
    (live, total - live)
}

/// How many holds are active and how many are not, in words.
pub fn holds_footer(live: usize, spent: usize, prune: bool) -> (r: String)
    ensures
        r@ == crate::number::decimal(live as int) + " holding, "@ + crate::number::decimal(
            spent as int,
        ) + " lifted"@ + (if spent > 0 && !prune {
            " — `drydock holds --prune` forgets the lifted ones"@
        } else {
            ""@
        }) + "."@,
{
    let mut out = to_decimal(live as u64);
    out.append(" holding, ");
    let n = to_decimal(spent as u64);
    out.append(n.as_str());
    out.append(" lifted");
    out.append(
        if spent > 0 && !prune {
            " — `drydock holds --prune` forgets the lifted ones"
        } else {
            ""
        },
    );
    out.append(".");
    out
}

/// Whether an active hold is filed under a path.
pub open spec fn still_holding(held: Seq<HeldRepo>, path: Seq<char>) -> bool {
    exists|i: int|
        0 <= i < held.len() && (#[trigger] held[i]).is_active() && crate::pathname::same_path(
            held[i].root@,
            path,
        )
}

fn keeps(held: &Vec<HeldRepo>, path: &str) -> (r: bool)
    ensures
        r == still_holding(held@, path@),
{
    let mut i: usize = 0;
    while i < held.len()
        invariant
            i <= held@.len(),
            forall|k: int|
                0 <= k < i ==> !((#[trigger] held@[k]).is_active() && crate::pathname::same_path(
                    held@[k].root@,
                    path@,
                )),
        decreases held@.len() - i,
    {
        if held[i].active() && paths_equal(held[i].root.as_str(), path) {
            assert(held@[i as int].is_active());
            return true;
        }
        i = i + 1;
    }
    false
}

/// Forget the holds that are no longer active.
pub fn prune_holds(holds: &mut Holds, held: &Vec<HeldRepo>)
    requires
        old(holds).wf(),
    ensures
        final(holds).wf(),
        final(holds)@ == crate::hold::kept(
            old(holds)@,
            Seq::new(
                old(holds)@.len(),
                |i: int| still_holding(held@, old(holds)@[i].path@),
            ),
            old(holds)@.len() as int,
        ),
{
    let ghost before = holds@;
    let keep = |path: &String, hold: &Hold| -> (b: bool)
        ensures
            b == still_holding(held@, path@),
    {
        keeps(held, path.as_str())
    };
    holds.retain(keep);
    proof {
        let want = Seq::new(before.len(), |i: int| still_holding(held@, before[i].path@));
        let answers = choose|answers: Seq<bool>|
            {
                &&& #[trigger] answers.len() == before.len()
                &&& forall|i: int|
                    0 <= i < answers.len() ==> keep.ensures(
                        (&before[i].path, &before[i].hold),
                        #[trigger] answers[i],
                    )
                &&& holds@ == crate::hold::kept(before, answers, before.len() as int)
            };
        assert(answers =~= want);
    }
}

// ---------------------------------------------------------------------------
// Finding a repo
// ---------------------------------------------------------------------------

/// The directories to look for a checkout in, nearest first: a path and those above
/// it, or only those above where the path is no directory.
pub fn repo_candidates(start: &str, is_dir: bool) -> (r: Vec<String>)
    ensures
        crate::text::texts(r@) == (if is_dir {
            seq![start@] + crate::pathname::above(start@)
        } else {
            crate::pathname::above(start@)
        }),
{
    let mut rest = dirs_above(start);
    if !is_dir {
        return rest;
    }
    let mut out: Vec<String> = Vec::new();
    push_text(&mut out, start);
    let ghost first = out@;
    let ghost tail = rest@;
    assert(crate::text::texts(first) =~= seq![start@]);
    assert(crate::text::texts(first).len() == first.len());
    out.append(&mut rest);
    assert(crate::text::texts(out@) =~= crate::text::texts(first) + crate::text::texts(tail));
    out
}

/// The first of the first candidates, from the `i`th on, that holds a `.git`.
pub open spec fn first_checkout(dirs: Seq<Seq<char>>, has_git: Seq<bool>, i: int) -> Option<
    Seq<char>,
>
    decreases dirs.len() - i,
{
    if i < 0 || i >= dirs.len() {
        None
    } else if has_git[i] {
        Some(dirs[i])
    } else {
        first_checkout(dirs, has_git, i + 1)
    }
}

/// Walk up from a path looking for a checkout: the nearest of the candidates that
/// holds a `.git`.
pub fn find_repo_root(dirs: &Vec<String>, has_git: &Vec<bool>) -> (r: Option<String>)
    requires
        has_git@.len() == dirs@.len(),
    ensures
        crate::pathname::opt_text(r) == first_checkout(crate::text::texts(dirs@), has_git@, 0),
{
    let ghost all = crate::text::texts(dirs@);
    let mut i: usize = 0;
    while i < dirs.len()
        invariant
            i <= dirs@.len(),
            has_git@.len() == dirs@.len(),
            all == crate::text::texts(dirs@),
            first_checkout(all, has_git@, 0) == first_checkout(all, has_git@, i as int),
        decreases dirs@.len() - i,
    {
        if has_git[i] {
            return Some(dirs[i].clone());
        }
        i = i + 1;
    }
    None
}

/// What to report where there is no checkout.
pub fn no_repo_note(start: &str) -> (r: String)
    ensures
        exists|home: Option<Seq<char>>|
            r@ == "No git repo at or above "@ + #[trigger] crate::paths::contracted(start@, home),
{
    let mut out = "No git repo at or above ".to_owned();
    let shown = contract(start);
    out.append(shown.as_str());
    out
}

/// The group and name of a repo below the first root that leads to it, from the
/// `i`th on.
pub open spec fn display_from(roots: Seq<Seq<char>>, repo: Seq<char>, i: int) -> (
    Seq<char>,
    Seq<char>,
)
    decreases roots.len() - i,
{
    if i < 0 || i >= roots.len() {
        (
            Seq::empty(),
            match crate::pathname::file_name(repo) {
                Some(name) => name,
                None => repo,
            },
        )
    } else {
        match crate::pathname::relative(repo, roots[i]) {
            None => display_from(roots, repo, i + 1),
            Some(rel) => {
                let parts = crate::pathname::components(rel);
                if parts.len() == 0 {
                    (Seq::empty(), repo)
                } else if parts.len() == 1 {
                    (Seq::empty(), parts[0])
                } else {
                    (parts[0], crate::text::join(parts.skip(1), "/"@))
                }
            },
        }
    }
}

/// [`split_for_display`] for roots that have been expanded.
pub fn split_for_display_at(roots: &Vec<String>, repo: &str) -> (r: (String, String))
    ensures
        (r.0@, r.1@) == display_from(crate::text::texts(roots@), repo@, 0),
{
    let ghost all = crate::text::texts(roots@);
    let mut i: usize = 0;
    while i < roots.len()
        invariant
            i <= roots@.len(),
            all == crate::text::texts(roots@),
            display_from(all, repo@, 0) == display_from(all, repo@, i as int),
        decreases roots@.len() - i,
    {
        if let Some(rel) = relative_to(repo, roots[i].as_str()) {
            let none = String::new();
            assert(none@ =~= Seq::empty());
            let parts = split_path(rel.as_str());
            let ghost comps = crate::pathname::components(rel@);
            assert(comps.len() == parts@.len());
            return if parts.len() == 0 {
                (none, repo.to_owned())
            } else if parts.len() == 1 {
                assert(comps[0] == parts@[0]@);
                (none, from_chars(parts[0].as_slice()))
            } else {
                assert(comps[0] == parts@[0]@);
                let rest = vstd::slice::slice_subrange(parts.as_slice(), 1, parts.len());
                assert(crate::text::views(rest@) =~= comps.skip(1));
                (from_chars(parts[0].as_slice()), join_chars(rest, "/"))
            };
        }
        i = i + 1;
    }
    let none = String::new();
    assert(none@ =~= Seq::empty());
    let name = match file_name_of(repo) {
        Some(name) => name,
        None => repo.to_owned(),
    };
    (none, name)
}

/// Work out the group and name for a repo found outside a normal sweep, so a
/// one-off `status` call labels it the same way the table would.
pub fn split_for_display(cfg: &Config, repo: &str) -> (r: (String, String))
    ensures
        exists|roots: Seq<Seq<char>>|
            crate::org::roots_expand(*cfg, roots) && (r.0@, r.1@) == #[trigger] display_from(
                roots,
                repo@,
                0,
            ),
{
    let roots = cfg.root_paths();
    let ghost expanded = crate::text::texts(roots@);
    assert(crate::org::roots_expand(*cfg, expanded)) by {
        assert forall|i: int| 0 <= i < expanded.len() implies crate::paths::expands(
            cfg.roots@[i]@,
            #[trigger] expanded[i],
        ) by {
            assert(crate::paths::expands(cfg.roots@[i]@, roots@[i]@));
        }
    }
    let r = split_for_display_at(&roots, repo);
    assert((r.0@, r.1@) == display_from(expanded, repo@, 0));
    r
}

// ---------------------------------------------------------------------------
// Laws
// ---------------------------------------------------------------------------

/// A hold placed at a repo's HEAD covers it, and covers it no longer once HEAD moves.
pub proof fn law_a_placed_hold_is_active(h: &HeldRepo)
    requires
        h.status is Some,
    ensures
        h.status->0.head_commit() == Some(h.hold.sha@) <==> h.is_active(),
        h.is_active() ==> h.state_text() == "holding"@,
        !h.is_active() ==> h.state_text() == "lifted, HEAD moved"@,
{
}

/// A repo one level below a scan root has no group; deeper ones are grouped by the
/// first segment. A one-off label is the label the sweep gives.
pub proof fn law_display_matches_the_sweep(roots: Seq<Seq<char>>, root: Seq<char>, repo: Seq<char>)
    requires
        roots == seq![root],
        crate::pathname::relative(repo, root) matches Some(rel)
            && crate::pathname::components(rel).len() > 0,
    ensures
        display_from(roots, repo, 0) == crate::discover::slug_of(root, repo),
{
}

/// A repo could be released where enough came since its tag, one commit at the least, or
/// where its changelog is ahead and that counts.
pub proof fn law_which_repos_could_be_released(
    repo: &RepoStatus,
    min_commits: int,
    by_changelog: bool,
)
    ensures
        ({
            let ahead = repo.refs is Some && repo.refs->0.changelog is Some
                && !repo.refs->0.changelog->0.tagged;
            is_candidate(repo, min_commits, by_changelog) <==> (repo.since_tag() >= 1
                && repo.since_tag() >= min_commits) || (by_changelog && ahead)
        }),
{
}

/// All that could be released are listed, none else, and those that were busy last first.
pub proof fn law_candidates_are_listed_by_activity(
    repos: Seq<RepoStatus>,
    min_commits: int,
    by_changelog: bool,
    repo: RepoStatus,
)
    ensures
        ({
            let n = repos.len() as int;
            let found = candidates_upto(repos, min_commits, by_changelog, n);
            let more = candidates_upto(repos.push(repo), min_commits, by_changelog, n + 1);
            &&& is_candidate(&repo, min_commits, by_changelog) ==> more == found.push(&repo)
            &&& !is_candidate(&repo, min_commits, by_changelog) ==> more == found
            &&& candidates(repos, min_commits, by_changelog).len() == found.len()
            &&& candidates(repos, min_commits, by_changelog).to_multiset() == found.to_multiset()
        }),
{
    let n = repos.len() as int;
    lemma_candidates_front(repos, repo, min_commits, by_changelog, n);
    let found = candidates_upto(repos, min_commits, by_changelog, n);
    let key = |r: &RepoStatus| crate::filter::sort_rows(Sort::Activity, r);
    assert(crate::filter::ref_keys(found, Sort::Activity) =~= found.map_values(key));
    crate::order::lemma_stably_sorted(found, key, Sort::Activity.descends());
}

/// Of two candidates the one that was busy last comes first.
pub proof fn law_the_busiest_candidate_comes_first(
    repos: Seq<RepoStatus>,
    min_commits: int,
    by_changelog: bool,
    i: int,
    j: int,
)
    requires
        0 <= i < j < candidates(repos, min_commits, by_changelog).len(),
    ensures
        candidates(repos, min_commits, by_changelog)[i].last_activity().0 >= candidates(
            repos,
            min_commits,
            by_changelog,
        )[j].last_activity().0,
{
    let found = candidates_upto(repos, min_commits, by_changelog, repos.len() as int);
    law_candidates_are_listed_by_activity(repos, min_commits, by_changelog, repos[0]);
    crate::filter::law_a_sort_goes_by_its_key(found, Sort::Activity, false, i, j);
}

proof fn lemma_candidates_front(
    repos: Seq<RepoStatus>,
    repo: RepoStatus,
    min_commits: int,
    by_changelog: bool,
    n: int,
)
    requires
        0 <= n <= repos.len(),
    ensures
        candidates_upto(repos.push(repo), min_commits, by_changelog, n) == candidates_upto(
            repos,
            min_commits,
            by_changelog,
            n,
        ),
    decreases n,
{
    if n > 0 {
        lemma_candidates_front(repos, repo, min_commits, by_changelog, n - 1);
        assert(repos.push(repo)[n - 1] == repos[n - 1]);
    }
}

/// The cell of a changelog says its version, and whether a tag has it or how many wait
/// behind it.
pub proof fn law_the_changelog_cell_says_what_waits(repo: &RepoStatus)
    ensures
        repo.refs is None || repo.refs->0.changelog is None ==> changelog_cell(repo) == "-"@,
        repo.refs is Some ==> (repo.refs->0.changelog matches Some(c) ==> {
            &&& c.tagged ==> changelog_cell(repo) == c.version@ + " (tagged)"@
            &&& !c.tagged && c.unreleased_blocks <= 1 ==> changelog_cell(repo) == c.version@
                + " (untagged)"@
            &&& !c.tagged && c.unreleased_blocks > 1 ==> changelog_cell(repo) == c.version@ + " (+"@
                + crate::number::decimal(c.unreleased_blocks - 1) + " block"@
                + crate::detail::plural(c.unreleased_blocks - 1) + ")"@
        }),
{
}

/// What stands in the way of a release is named: changes, a tag off the branch, and commits
/// that were not pushed; where nothing does, a dot.
pub proof fn law_what_stands_in_the_way_is_named(repo: &RepoStatus)
    ensures
        obstacles(repo).contains("dirty"@) <==> repo.the_flags().dirty,
        obstacles(repo).contains("tag off branch"@) <==> repo.refs is Some
            && repo.refs->0.is_tag_off_branch(),
        obstacles(repo).contains("unpushed"@) <==> repo.unpushed_count() > 0,
        obstacles(repo).len() == 0 ==> obstacles_cell(repo) == "·"@,
        obstacles(repo).len() == 1 ==> obstacles_cell(repo) == obstacles(repo)[0],
{
    reveal_strlit("dirty");
    reveal_strlit("tag off branch");
    reveal_strlit("unpushed");
    let off = repo.refs matches Some(refs) && refs.is_tag_off_branch();
    let (a, b, c) = (repo.the_flags().dirty, off, repo.unpushed_count() > 0);
    let list = obstacles(repo);
    let one = note(a, "dirty"@);
    let two = note(b, "tag off branch"@);
    let three = note(c, "unpushed"@);
    assert(list == one + two + three);
    assert("dirty"@.len() == 5 && "tag off branch"@.len() == 14 && "unpushed"@.len() == 8);
    if a {
        assert(list[0] == "dirty"@);
    }
    if b {
        assert(list[one.len() as int] == "tag off branch"@);
    }
    if c {
        assert(list[(one.len() + two.len()) as int] == "unpushed"@);
    }
}

/// A candidate has a cell under each heading, and its commits stand to the right.
pub proof fn law_a_candidate_has_a_cell_for_each_heading(repo: &RepoStatus, now: int)
    ensures
        candidate_row(repo, now).len() == candidates_header().len(),
        candidates_aligns().len() == candidates_header().len(),
        candidates_header()[0] == "REPO"@ && candidate_row(repo, now)[0] == repo.slug_text(),
        candidates_header()[1] == "BRANCH"@ && candidate_row(repo, now)[1] == repo.branch_text(),
        candidates_header()[2] == "LAST TAG"@ && candidate_row(repo, now)[2] == repo.tag_text(),
        candidates_header()[3] == "COMMITS"@ && candidate_row(repo, now)[3]
            == crate::number::decimal(repo.since_tag()) && candidates_aligns()[3] == Align::Right,
        candidates_header()[4] == "CHANGELOG"@ && candidate_row(repo, now)[4] == changelog_cell(
            repo,
        ),
        candidates_header()[5] == "AGE"@ && candidate_row(repo, now)[5] == crate::fmt::age_text(
            repo.last_activity().0,
            now,
        ) && candidates_aligns()[5] == Align::Right,
        candidates_header()[6] == "NOTES"@ && candidate_row(repo, now)[6] == obstacles_cell(repo),
{
}

/// What is held is remembered with its tag: the one that was reached, else the newest.
pub proof fn law_a_hold_remembers_its_tag(repo: &RepoStatus)
    ensures
        repo.refs is None ==> held_tag(repo) is None,
        repo.refs matches Some(r) ==> {
            &&& r.described_tag matches Some(t) ==> held_tag(repo) == Some(t.name@)
            &&& r.described_tag is None ==> (r.newest_tag matches Some(t) ==> held_tag(repo) == Some(
                t.name@,
            ))
            &&& r.described_tag is None && r.newest_tag is None ==> held_tag(repo) is None
            &&& held_branch(repo) == r.head.branch_name()
        },
{
}

/// A hold is new, still there, or moved to another commit.
pub proof fn law_a_hold_is_new_or_moved(sha: Seq<char>, previous: &Hold, n: int)
    ensures
        held_word(sha, None) == "Held"@,
        previous.sha@ == sha ==> held_word(sha, Some(previous)) == "Still holding"@,
        previous.sha@ != sha ==> held_word(sha, Some(previous))
            == "Re-held at the current commit:"@,
        commits_text(n) == crate::number::decimal(n) + " commit"@ + crate::detail::plural(n),
{
}

/// A hold holds as long as the repo is there and its head is the commit that was held.
pub proof fn law_a_hold_holds_until_head_moves(h: &HeldRepo)
    ensures
        h.is_active() <==> h.status is Some && h.status->0.head_commit() == Some(h.hold.sha@),
        h.status is None ==> h.state_text() == "repo is gone"@,
        h.status is Some && h.is_active() ==> h.state_text() == "holding"@,
        h.status is Some && !h.is_active() ==> h.state_text() == "lifted, HEAD moved"@,
{
}

/// A hold has a cell under each heading.
pub proof fn law_a_hold_has_a_cell_for_each_heading(
    h: &HeldRepo,
    now: int,
    home: Option<Seq<char>>,
)
    ensures
        ({
            let row = held_row(h, now, home);
            &&& row.len() == held_header().len() && held_aligns().len() == held_header().len()
            &&& held_header()[0] == "REPO"@
            &&& h.status is None ==> row[0] == crate::paths::contracted(h.root@, home)
            &&& h.status matches Some(s) ==> row[0] == s.slug_text()
            &&& held_header()[1] == "BRANCH"@ && (h.hold.branch matches Some(b) ==> row[1] == b@)
            &&& held_header()[2] == "TAG"@ && (h.hold.tag matches Some(t) ==> row[2] == t@)
            &&& held_header()[3] == "COMMIT"@ && row[3] == h.hold.sha@
            &&& held_header()[4] == "HELD"@ && row[4] == crate::fmt::age_text(
                h.hold.at as int,
                now,
            ) && held_aligns()[4] == Align::Right
            &&& held_header()[5] == "STATE"@ && row[5] == h.state_text()
            &&& held_header()[6] == "NOTE"@ && (h.hold.note matches Some(n) ==> row[6] == n@)
            &&& h.hold.branch is None ==> row[1] == "·"@
            &&& h.hold.tag is None ==> row[2] == "·"@
            &&& h.hold.note is None ==> row[6] == "·"@
        }),
{
}

/// Holds that hold are counted one by one.
pub proof fn law_active_holds_add_up(held: Seq<HeldRepo>, h: HeldRepo)
    ensures
        active_upto(held.push(h), held.len() as int + 1) == active_upto(held, held.len() as int) + (
        if h.is_active() {
            1int
        } else {
            0
        }),
        active_upto(Seq::empty(), 0) == 0,
        h.is_active() ==> still_holding(held.push(h), h.root@),
{
    lemma_active_front(held, h, held.len() as int);
    let all = held.push(h);
    assert(all[held.len() as int] == h);
    assert(h.is_active() ==> all[held.len() as int].is_active());
}

proof fn lemma_active_front(held: Seq<HeldRepo>, h: HeldRepo, n: int)
    requires
        0 <= n <= held.len(),
    ensures
        active_upto(held.push(h), n) == active_upto(held, n),
    decreases n,
{
    if n > 0 {
        lemma_active_front(held, h, n - 1);
        assert(held.push(h)[n - 1] == held[n - 1]);
    }
}

/// The checkout around a place is the nearest directory above it that holds a repo.
pub proof fn law_the_nearest_checkout_counts(
    dirs: Seq<Seq<char>>,
    has_git: Seq<bool>,
    from: int,
    i: int,
)
    requires
        has_git.len() == dirs.len(),
        0 <= from <= i,
        forall|k: int| from <= k < i && k < dirs.len() ==> !#[trigger] has_git[k],
    ensures
        i < dirs.len() && has_git[i] ==> first_checkout(dirs, has_git, from) == Some(dirs[i]),
        i >= dirs.len() ==> first_checkout(dirs, has_git, from) is None,
    decreases i - from,
{
    if from < i && from < dirs.len() {
        assert(!has_git[from]);
        law_the_nearest_checkout_counts(dirs, has_git, from + 1, i);
    }
}

/// A repo outside every root goes by its name alone, and one inside by its path from the
/// first root it is in.
pub proof fn law_a_repo_is_shown_from_its_root(
    roots: Seq<Seq<char>>,
    i: int,
    group: Seq<char>,
    name: Seq<char>,
    base: Seq<char>,
)
    requires
        0 <= i < roots.len(),
        crate::pathname::plain_name(group),
        crate::pathname::plain_name(name),
        forall|k: int|
            0 <= k < i ==> !crate::pathname::under(
                crate::pathname::joined(crate::pathname::joined(roots[i], group), name),
                #[trigger] roots[k],
            ),
    ensures
        display_from(
            roots,
            crate::pathname::joined(crate::pathname::joined(roots[i], group), name),
            0,
        ) == (group, name),
        display_from(Seq::empty(), crate::pathname::joined(base, name), 0) == (
            Seq::<char>::empty(),
            name,
        ),
{
    let repo = crate::pathname::joined(crate::pathname::joined(roots[i], group), name);
    lemma_passes_over(roots, repo, i, 0);
    crate::pathname::law_a_name_is_what_is_left(roots[i], group, name);
    crate::pathname::law_a_joined_name_is_one_component_more(base, name);
    assert(seq![group, name].skip(1) =~= seq![name]);
}

proof fn lemma_passes_over(roots: Seq<Seq<char>>, repo: Seq<char>, i: int, from: int)
    requires
        0 <= from <= i < roots.len(),
        forall|k: int| 0 <= k < i ==> !crate::pathname::under(repo, #[trigger] roots[k]),
    ensures
        display_from(roots, repo, from) == display_from(roots, repo, i),
    decreases i - from,
{
    if from < i {
        assert(!crate::pathname::under(repo, roots[from]));
        crate::pathname::law_below_goes_on(repo, roots[from], repo);
        lemma_passes_over(roots, repo, i, from + 1);
    }
}

/// Fetches that failed are told with their number, and nothing is said where none did.
pub proof fn law_failed_fetches_are_told(n: int)
    ensures
        n <= 0 ==> failed_fetches(n).len() == 0,
        n > 0 ==> failed_fetches(n) == ", "@ + crate::number::decimal(n)
            + " could not be reached and still show their last known counts"@,
{
}

} // verus!
