//! Plain-text output for the non-interactive commands.

use vstd::prelude::*;

use crate::column::Column;
use crate::fmt::duration;
use crate::model::{ReleaseState, RepoStatus};
use crate::names::add_name;
use crate::number::to_decimal;
use crate::paths::{as_opt_str, home_dir};
use crate::probe::Timings;
use crate::text::{join_texts, push_text, same, to_chars};

pub use crate::detail::{detail, detail_from};
pub use crate::table::{table, Align};
pub use crate::view::{view, RepoView};

verus! {

// ---------------------------------------------------------------------------
// The list
// ---------------------------------------------------------------------------

pub open spec fn column_headers(columns: Seq<Column>, show_paths: bool) -> Seq<Seq<char>> {
    columns.map_values(|c: Column| c.header_text(show_paths))
}

pub open spec fn column_aligns(columns: Seq<Column>) -> Seq<Align> {
    columns.map_values(|c: Column| c.alignment())
}

/// One repo's cells.
pub open spec fn repo_cells(
    repo: &RepoStatus,
    now: int,
    show_paths: bool,
    columns: Seq<Column>,
    home: Option<Seq<char>>,
) -> Seq<Seq<char>> {
    columns.map_values(|c: Column| c.cell_text(repo, now, show_paths, home))
}

pub open spec fn list_rows(
    repos: Seq<&RepoStatus>,
    now: int,
    show_paths: bool,
    columns: Seq<Column>,
    home: Option<Seq<char>>,
) -> Seq<Seq<Seq<char>>> {
    repos.map_values(|r: &RepoStatus| repo_cells(r, now, show_paths, columns, home))
}

/// The fleet as a table.
pub open spec fn list_text(
    repos: Seq<&RepoStatus>,
    now: int,
    show_paths: bool,
    columns: Seq<Column>,
    home: Option<Seq<char>>,
) -> Seq<char> {
    crate::table::table_text(
        column_headers(columns, show_paths),
        column_aligns(columns),
        list_rows(repos, now, show_paths, columns, home),
    )
}

fn render_row(
    repo: &RepoStatus,
    now: i64,
    show_paths: bool,
    columns: &[Column],
    home: Option<&str>,
) -> (r: Vec<String>)
    ensures
        crate::text::texts(r@) == repo_cells(
            repo,
            now as int,
            show_paths,
            columns@,
            crate::hold::opt_str(home),
        ),
{
    let ghost want = repo_cells(
        repo,
        now as int,
        show_paths,
        columns@,
        crate::hold::opt_str(home),
    );
    let mut row: Vec<String> = Vec::new();
    let mut i: usize = 0;
    assert(crate::text::texts(row@) =~= want.take(0));
    while i < columns.len()
        invariant
            i <= columns@.len(),
            want == repo_cells(
                repo,
                now as int,
                show_paths,
                columns@,
                crate::hold::opt_str(home),
            ),
            crate::text::texts(row@) == want.take(i as int),
        decreases columns@.len() - i,
    {
        let cell = columns[i].cell_from(repo, now, show_paths, home);
        push_text(&mut row, cell.as_str());
        i = i + 1;
        assert(crate::text::texts(row@) =~= want.take(i as int));
    }
    assert(want.take(i as int) =~= want);
    row
}

/// [`list_table`] for a given home directory.
pub fn list_table_from(
    repos: &[&RepoStatus],
    now: i64,
    show_paths: bool,
    columns: &[Column],
    home: Option<&str>,
) -> (r: String)
    ensures
        r@ == list_text(repos@, now as int, show_paths, columns@, crate::hold::opt_str(home)),
{
    let ghost at = crate::hold::opt_str(home);
    let ghost want = list_rows(repos@, now as int, show_paths, columns@, at);
    let mut rows: Vec<Vec<String>> = Vec::new();
    let mut i: usize = 0;
    assert(crate::table::cells(rows@) =~= want.take(0));
    while i < repos.len()
        invariant
            i <= repos@.len(),
            at == crate::hold::opt_str(home),
            want == list_rows(repos@, now as int, show_paths, columns@, at),
            crate::table::cells(rows@) == want.take(i as int),
        decreases repos@.len() - i,
    {
        let row = render_row(repos[i], now, show_paths, columns, home);
        let ghost before = rows@;
        let ghost cells = crate::text::texts(row@);
        rows.push(row);
        assert(crate::table::cells(rows@) =~= crate::table::cells(before).push(cells));
        i = i + 1;
        assert(crate::table::cells(rows@) =~= want.take(i as int));
    }
    assert(want.take(i as int) =~= want);
    let mut headers: Vec<&str> = Vec::new();
    let mut aligns: Vec<Align> = Vec::new();
    let mut j: usize = 0;
    while j < columns.len()
        invariant
            j <= columns@.len(),
            headers@.len() == j,
            aligns@.len() == j,
            forall|k: int|
                0 <= k < j ==> (#[trigger] headers@[k])@ == columns@[k].header_text(show_paths),
            forall|k: int| 0 <= k < j ==> #[trigger] aligns@[k] == columns@[k].alignment(),
        decreases columns@.len() - j,
    {
        headers.push(columns[j].header(show_paths));
        aligns.push(columns[j].align());
        j = j + 1;
    }
    assert(crate::table::strs(headers@) =~= column_headers(columns@, show_paths));
    assert(aligns@ =~= column_aligns(columns@));
    table(headers.as_slice(), aligns.as_slice(), rows.as_slice())
}

/// The fleet as a table.
pub fn list_table(repos: &[&RepoStatus], now: i64, show_paths: bool, columns: &[Column]) -> (r:
    String)
    ensures
        exists|home: Option<Seq<char>>|
            r@ == #[trigger] list_text(repos@, now as int, show_paths, columns@, home),
{
    let home = home_dir();
    list_table_from(repos, now, show_paths, columns, as_opt_str(&home))
}

// ---------------------------------------------------------------------------
// Counting
// ---------------------------------------------------------------------------

/// Something to count repos by.
#[derive(Clone, Copy, Debug, PartialEq, Eq, Structural)]
pub enum Trait {
    Any,
    Dirty,
    Unpushed,
    NeedsRelease,
    Unreleased,
    Attention,
    Errored,
    NeverFetched,
}

impl Trait {
    pub open spec fn holds(&self, repo: &RepoStatus) -> bool {
        match self {
            Trait::Any => true,
            Trait::Dirty => repo.the_flags().dirty,
            Trait::Unpushed => repo.the_flags().unpushed,
            Trait::NeedsRelease => repo.state() == ReleaseState::NeedsRelease,
            Trait::Unreleased => repo.state() == ReleaseState::Unreleased,
            Trait::Attention => !repo.the_flags().is_clean() || repo.state()
                == ReleaseState::NeedsRelease,
            Trait::Errored => repo.error is Some,
            Trait::NeverFetched => repo.is_never_fetched(),
        }
    }

    fn has(&self, repo: &RepoStatus) -> (r: bool)
        ensures
            r == self.holds(repo),
    {
        match self {
            Trait::Any => true,
            Trait::Dirty => repo.flags().dirty,
            Trait::Unpushed => repo.flags().unpushed,
            Trait::NeedsRelease => repo.release_state() == ReleaseState::NeedsRelease,
            Trait::Unreleased => repo.release_state() == ReleaseState::Unreleased,
            Trait::Attention => !repo.flags().clean() || repo.release_state()
                == ReleaseState::NeedsRelease,
            Trait::Errored => repo.error.is_some(),
            Trait::NeverFetched => repo.never_fetched(),
        }
    }
}

/// How many of the first `n` repos, in a group where one is given, this is true of.
pub open spec fn tally_upto(
    repos: Seq<RepoStatus>,
    group: Option<Seq<char>>,
    what: Trait,
    n: int,
) -> int
    decreases n,
{
    if n <= 0 {
        0
    } else if in_group(&repos[n - 1], group) && what.holds(&repos[n - 1]) {
        tally_upto(repos, group, what, n - 1) + 1
    } else {
        tally_upto(repos, group, what, n - 1)
    }
}

/// How many repos, in a group where one is given, this is true of.
pub open spec fn tally(repos: Seq<RepoStatus>, group: Option<Seq<char>>, what: Trait) -> int {
    tally_upto(repos, group, what, repos.len() as int)
}

/// The name of a repo's group, or a dot where it has none.
pub open spec fn group_label(repo: &RepoStatus) -> Seq<char> {
    if repo.group@.len() == 0 {
        "·"@
    } else {
        repo.group@
    }
}

pub open spec fn in_group(repo: &RepoStatus, group: Option<Seq<char>>) -> bool {
    match group {
        Some(label) => group_label(repo) == label,
        None => true,
    }
}

fn label_of(repo: &RepoStatus) -> (r: String)
    ensures
        r@ == group_label(repo),
{
    if to_chars(repo.group.as_str()).len() == 0 {
        "·".to_owned()
    } else {
        repo.group.clone()
    }
}

fn count_in(repos: &[RepoStatus], group: Option<&str>, what: Trait) -> (r: usize)
    ensures
        r == tally(repos@, crate::hold::opt_str(group), what),
{
    let ghost label = crate::hold::opt_str(group);
    let mut n: usize = 0;
    let mut i: usize = 0;
    let total: usize = repos.len();
    while i < total
        invariant
            i <= total,
            total == repos@.len(),
            label == crate::hold::opt_str(group),
            n <= i,
            n == tally_upto(repos@, label, what, i as int),
        decreases total - i,
    {
        let member = match group {
            Some(name) => {
                let own = label_of(&repos[i]);
                same(own.as_str(), name)
            },
            None => true,
        };
        if member && what.has(&repos[i]) {
            n = n + 1;
        }
        i = i + 1;
    }
    n
}

/// How many repos this is true of.
pub fn count_repos(repos: &[RepoStatus], what: Trait) -> (r: usize)
    ensures
        r == tally(repos@, None, what),
{
    count_in(repos, None, what)
}

// ---------------------------------------------------------------------------
// The summary
// ---------------------------------------------------------------------------

pub open spec fn counted(n: int, what: Seq<char>) -> Seq<char> {
    crate::number::decimal(n) + what
}

/// The counts a summary always has.
pub open spec fn summary_counts(repos: Seq<RepoStatus>) -> Seq<Seq<char>> {
    seq![
        counted(repos.len() as int, " repos"@),
        counted(tally(repos, None, Trait::Dirty), " dirty"@),
        counted(tally(repos, None, Trait::Unpushed), " unpushed"@),
        counted(tally(repos, None, Trait::NeedsRelease), " need release"@),
        counted(tally(repos, None, Trait::Unreleased), " unreleased"@),
        counted(tally(repos, None, Trait::Attention), " need attention"@),
    ]
}

/// What a sweep cost.
pub open spec fn timing_text(t: &Timings) -> Seq<char> {
    "scanned in "@ + t.total.text() + " (walk "@ + t.discovery.text() + ", refs "@ + t.refs.text()
        + (if t.work_cached > 0 {
        ", "@ + crate::number::decimal(t.work_cached as int) + " from cache"@
    } else {
        Seq::empty()
    }) + ")"@
}

pub open spec fn summary_parts(repos: Seq<RepoStatus>, timings: Option<&Timings>) -> Seq<
    Seq<char>,
> {
    summary_counts(repos) + (if tally(repos, None, Trait::Errored) > 0 {
        seq![counted(tally(repos, None, Trait::Errored), " errored"@)]
    } else {
        Seq::empty()
    }) + (match timings {
        Some(t) => seq![timing_text(t)],
        None => Seq::empty(),
    })
}

fn count_text(n: usize, what: &str) -> (r: String)
    ensures
        r@ == counted(n as int, what@),
{
    let mut out = to_decimal(n as u64);
    out.append(what);
    out
}

fn write_timing(t: &Timings) -> (r: String)
    ensures
        r@ == timing_text(t),
{
    let mut out = "scanned in ".to_owned();
    let total = duration(&t.total);
    out.append(total.as_str());
    out.append(" (walk ");
    let walk = duration(&t.discovery);
    out.append(walk.as_str());
    out.append(", refs ");
    let refs = duration(&t.refs);
    out.append(refs.as_str());
    let mut note = String::new();
    if t.work_cached > 0 {
        note = ", ".to_owned();
        let n = to_decimal(t.work_cached as u64);
        note.append(n.as_str());
        note.append(" from cache");
    } else {
        assert(note@ =~= Seq::empty());
    }
    out.append(note.as_str());
    out.append(")");
    out
}

/// One line about the fleet.
pub fn summary(repos: &[RepoStatus], timings: Option<&Timings>) -> (r: String)
    ensures
        r@ == crate::text::join(summary_parts(repos@, timings), " · "@),
{
    let mut parts: Vec<String> = Vec::new();
    parts.push(count_text(repos.len(), " repos"));
    parts.push(count_text(count_repos(repos, Trait::Dirty), " dirty"));
    parts.push(count_text(count_repos(repos, Trait::Unpushed), " unpushed"));
    parts.push(count_text(count_repos(repos, Trait::NeedsRelease), " need release"));
    parts.push(count_text(count_repos(repos, Trait::Unreleased), " unreleased"));
    parts.push(count_text(count_repos(repos, Trait::Attention), " need attention"));
    assert(crate::text::texts(parts@) =~= summary_counts(repos@));
    let errors: usize = count_repos(repos, Trait::Errored);
    if errors > 0 {
        let text = count_text(errors, " errored");
        push_text(&mut parts, text.as_str());
    }
    if let Some(t) = timings {
        let text = write_timing(t);
        push_text(&mut parts, text.as_str());
    }
    assert(crate::text::texts(parts@) =~= summary_parts(repos@, timings));
    join_texts(parts.as_slice(), " · ")
}

// ---------------------------------------------------------------------------
// The groups
// ---------------------------------------------------------------------------

pub open spec fn group_labels(repos: Seq<RepoStatus>) -> Seq<Seq<char>> {
    repos.map_values(|r: RepoStatus| group_label(&r))
}

/// The line of one group.
pub open spec fn group_row(repos: Seq<RepoStatus>, label: Seq<char>) -> Seq<Seq<char>> {
    seq![
        label,
        crate::number::decimal(tally(repos, Some(label), Trait::Any)),
        crate::number::decimal(tally(repos, Some(label), Trait::Dirty)),
        crate::number::decimal(tally(repos, Some(label), Trait::Unpushed)),
        crate::number::decimal(tally(repos, Some(label), Trait::NeedsRelease)),
        crate::number::decimal(tally(repos, Some(label), Trait::Unreleased)),
    ]
}

/// The lines of all groups, by name.
pub open spec fn group_rows(repos: Seq<RepoStatus>) -> Seq<Seq<Seq<char>>> {
    crate::names::sorted_set(group_labels(repos)).map_values(
        |label: Seq<char>| group_row(repos, label),
    )
}

pub open spec fn groups_header() -> Seq<Seq<char>> {
    seq!["GROUP"@, "REPOS"@, "DIRTY"@, "UNPUSHED"@, "NEEDS RELEASE"@, "UNRELEASED"@]
}

pub open spec fn groups_aligns() -> Seq<Align> {
    seq![Align::Left, Align::Right, Align::Right, Align::Right, Align::Right, Align::Right]
}

fn list_groups(repos: &[RepoStatus]) -> (r: Vec<String>)
    ensures
        crate::text::texts(r@) == crate::names::sorted_set(group_labels(repos@)),
{
    let ghost labels = group_labels(repos@);
    let mut out: Vec<String> = Vec::new();
    let mut i: usize = 0;
    assert(crate::text::texts(out@) =~= crate::names::sorted_set(labels.take(0)));
    while i < repos.len()
        invariant
            i <= repos@.len(),
            labels == group_labels(repos@),
            crate::text::texts(out@) == crate::names::sorted_set(labels.take(i as int)),
        decreases repos@.len() - i,
    {
        let label = label_of(&repos[i]);
        assert(labels.take(i + 1).take(i as int) =~= labels.take(i as int));
        add_name(&mut out, label.as_str());
        i = i + 1;
    }
    assert(labels.take(i as int) =~= labels);
    out
}

/// Group summary: repo counts and how many need attention in each.
pub fn groups_table(repos: &[RepoStatus]) -> (r: String)
    ensures
        r@ == crate::table::table_text(groups_header(), groups_aligns(), group_rows(repos@)),
{
    let labels = list_groups(repos);
    let ghost names = crate::text::texts(labels@);
    let ghost want = group_rows(repos@);
    let mut rows: Vec<Vec<String>> = Vec::new();
    let mut i: usize = 0;
    assert(want.len() == labels@.len());
    assert(crate::table::cells(rows@) =~= want.take(0));
    while i < labels.len()
        invariant
            i <= labels@.len(),
            names == crate::text::texts(labels@),
            want == names.map_values(|label: Seq<char>| group_row(repos@, label)),
            crate::table::cells(rows@) == want.take(i as int),
        decreases labels@.len() - i,
    {
        let label = labels[i].as_str();
        let mut row: Vec<String> = Vec::new();
        row.push(label.to_owned());
        row.push(to_decimal(count_in(repos, Some(label), Trait::Any) as u64));
        row.push(to_decimal(count_in(repos, Some(label), Trait::Dirty) as u64));
        row.push(to_decimal(count_in(repos, Some(label), Trait::Unpushed) as u64));
        row.push(to_decimal(count_in(repos, Some(label), Trait::NeedsRelease) as u64));
        row.push(to_decimal(count_in(repos, Some(label), Trait::Unreleased) as u64));
        assert(crate::text::texts(row@) =~= group_row(repos@, label@));
        let ghost before = rows@;
        rows.push(row);
        assert(crate::table::cells(rows@) =~= crate::table::cells(before).push(want[i as int]));
        i = i + 1;
        assert(crate::table::cells(rows@) =~= want.take(i as int));
    }
    assert(want.take(i as int) =~= want);
    let headers: [&str; 6] = [
        "GROUP",
        "REPOS",
        "DIRTY",
        "UNPUSHED",
        "NEEDS RELEASE",
        "UNRELEASED",
    ];
    assert(crate::table::strs(headers@) =~= groups_header());
    let aligns: [Align; 6] = [
        Align::Left,
        Align::Right,
        Align::Right,
        Align::Right,
        Align::Right,
        Align::Right,
    ];
    assert(aligns@ =~= groups_aligns());
    table(&headers, &aligns, rows.as_slice())
}

// ---------------------------------------------------------------------------
// Laws
// ---------------------------------------------------------------------------

/// No count is higher than the number of repos, and a group's count of anything is no
/// higher than its number of repos.
pub proof fn law_counts_are_bounded(
    repos: Seq<RepoStatus>,
    group: Option<Seq<char>>,
    what: Trait,
)
    ensures
        0 <= tally(repos, group, what) <= tally(repos, group, Trait::Any) <= repos.len(),
        tally(repos, None, Trait::Any) == repos.len(),
{
    lemma_tally_bounds(repos, group, what, repos.len() as int);
    lemma_tally_bounds(repos, None, what, repos.len() as int);
}

proof fn lemma_tally_bounds(
    repos: Seq<RepoStatus>,
    group: Option<Seq<char>>,
    what: Trait,
    n: int,
)
    requires
        0 <= n,
    ensures
        0 <= tally_upto(repos, group, what, n) <= tally_upto(repos, group, Trait::Any, n) <= n,
        group is None ==> tally_upto(repos, group, Trait::Any, n) == n,
    decreases n,
{
    if n > 0 {
        lemma_tally_bounds(repos, group, what, n - 1);
    }
}

/// Every group has a line, and only groups have one: a repo's group is among the
/// lines, and each line has at least one repo.
pub proof fn law_every_group_has_a_line(repos: Seq<RepoStatus>, i: int, label: Seq<char>)
    requires
        0 <= i < repos.len(),
    ensures
        crate::names::sorted_set(group_labels(repos)).contains(group_label(&repos[i])),
        crate::names::sorted_set(group_labels(repos)).contains(label) ==> tally(
            repos,
            Some(label),
            Trait::Any,
        ) > 0,
{
    let labels = group_labels(repos);
    crate::names::law_sorted_set(labels);
    assert(labels[i] == group_label(&repos[i]));
    assert(labels.contains(group_label(&repos[i])));
    if crate::names::sorted_set(labels).contains(label) {
        assert(labels.contains(label));
        let k = choose|k: int| 0 <= k < labels.len() && labels[k] == label;
        lemma_tally_has(repos, label, k, repos.len() as int);
    }
}

/// The REPOS column of the first `n` lines, added up.
pub open spec fn repos_upto(repos: Seq<RepoStatus>, labels: Seq<Seq<char>>, n: int) -> int
    decreases n,
{
    if n <= 0 {
        0
    } else {
        repos_upto(repos, labels, n - 1) + tally(repos, Some(labels[n - 1]), Trait::Any)
    }
}

/// What the lines count of the first `m` repos, added up.
spec fn counted_upto(repos: Seq<RepoStatus>, labels: Seq<Seq<char>>, n: int, m: int) -> int
    decreases n,
{
    if n <= 0 {
        0
    } else {
        counted_upto(repos, labels, n - 1, m) + tally_upto(
            repos,
            Some(labels[n - 1]),
            Trait::Any,
            m,
        )
    }
}

/// One more repo is one more in the line of its group.
proof fn lemma_one_more(repos: Seq<RepoStatus>, labels: Seq<Seq<char>>, n: int, m: int, at: int)
    requires
        0 <= n <= labels.len(),
        0 < m <= repos.len(),
        0 <= at < labels.len(),
        labels[at] == group_label(&repos[m - 1]),
        forall|i: int, j: int| 0 <= i < j < labels.len() ==> labels[i] != labels[j],
    ensures
        counted_upto(repos, labels, n, m) == counted_upto(repos, labels, n, m - 1) + (if at < n {
            1int
        } else {
            0
        }),
    decreases n,
{
    if n > 0 {
        lemma_one_more(repos, labels, n - 1, m, at);
        if at != n - 1 {
            assert(labels[at] != labels[n - 1]);
        }
    }
}

proof fn lemma_counted(repos: Seq<RepoStatus>, labels: Seq<Seq<char>>, m: int)
    requires
        0 <= m <= repos.len(),
        labels == crate::names::sorted_set(group_labels(repos)),
    ensures
        counted_upto(repos, labels, labels.len() as int, m) == m,
    decreases m,
{
    let all = group_labels(repos);
    crate::names::law_sorted_set(all);
    if m > 0 {
        lemma_counted(repos, labels, m - 1);
        assert(all[m - 1] == group_label(&repos[m - 1]));
        assert(all.contains(all[m - 1]));
        assert(labels.contains(all[m - 1]));
        let at = choose|at: int| 0 <= at < labels.len() && labels[at] == all[m - 1];
        assert forall|i: int, j: int| 0 <= i < j < labels.len() implies labels[i] != labels[j] by {
            crate::names::lemma_name_total(labels[i], labels[j]);
        }
        lemma_one_more(repos, labels, labels.len() as int, m, at);
    } else {
        lemma_counted_none(repos, labels, labels.len() as int);
    }
}

proof fn lemma_counted_none(repos: Seq<RepoStatus>, labels: Seq<Seq<char>>, n: int)
    ensures
        counted_upto(repos, labels, n, 0) == 0,
    decreases n,
{
    if n > 0 {
        lemma_counted_none(repos, labels, n - 1);
    }
}

proof fn lemma_counted_all(repos: Seq<RepoStatus>, labels: Seq<Seq<char>>, n: int)
    ensures
        repos_upto(repos, labels, n) == counted_upto(repos, labels, n, repos.len() as int),
    decreases n,
{
    if n > 0 {
        lemma_counted_all(repos, labels, n - 1);
    }
}

/// The REPOS column adds up to the number of repos: every repo is in one line.
pub proof fn law_the_groups_add_up(repos: Seq<RepoStatus>)
    ensures
        ({
            let labels = crate::names::sorted_set(group_labels(repos));
            &&& group_rows(repos).len() == labels.len()
            &&& forall|i: int|
                0 <= i < labels.len() ==> (#[trigger] group_rows(repos)[i])[1]
                    == crate::number::decimal(tally(repos, Some(labels[i]), Trait::Any))
            &&& repos_upto(repos, labels, labels.len() as int) == repos.len()
        }),
{
    let labels = crate::names::sorted_set(group_labels(repos));
    lemma_counted(repos, labels, repos.len() as int);
    lemma_counted_all(repos, labels, labels.len() as int);
}

proof fn lemma_tally_has(repos: Seq<RepoStatus>, label: Seq<char>, k: int, n: int)
    requires
        0 <= k < n <= repos.len(),
        group_label(&repos[k]) == label,
    ensures
        tally_upto(repos, Some(label), Trait::Any, n) > 0,
    decreases n,
{
    lemma_tally_bounds(repos, Some(label), Trait::Any, n - 1);
    if k < n - 1 {
        lemma_tally_has(repos, label, k, n - 1);
    }
}

/// Counts add up over the repos, in a group as over all.
pub proof fn law_counts_add_up(
    a: Seq<RepoStatus>,
    b: Seq<RepoStatus>,
    group: Option<Seq<char>>,
    what: Trait,
)
    ensures
        tally(a + b, group, what) == tally(a, group, what) + tally(b, group, what),
{
    lemma_tally_front(a, b, group, what, a.len() as int);
    lemma_tally_back(a, b, group, what, b.len() as int);
}

proof fn lemma_tally_front(
    a: Seq<RepoStatus>,
    b: Seq<RepoStatus>,
    group: Option<Seq<char>>,
    what: Trait,
    n: int,
)
    requires
        0 <= n <= a.len(),
    ensures
        tally_upto(a + b, group, what, n) == tally_upto(a, group, what, n),
    decreases n,
{
    if n > 0 {
        lemma_tally_front(a, b, group, what, n - 1);
        assert((a + b)[n - 1] == a[n - 1]);
    }
}

proof fn lemma_tally_back(
    a: Seq<RepoStatus>,
    b: Seq<RepoStatus>,
    group: Option<Seq<char>>,
    what: Trait,
    n: int,
)
    requires
        0 <= n <= b.len(),
    ensures
        tally_upto(a + b, group, what, a.len() + n) == tally_upto(
            a + b,
            group,
            what,
            a.len() as int,
        ) + tally_upto(b, group, what, n),
    decreases n,
{
    if n > 0 {
        lemma_tally_back(a, b, group, what, n - 1);
        assert((a + b)[a.len() + n - 1] == b[n - 1]);
    }
}

/// One repo counts once, for what is true of it, and in its own group; repos in no group
/// go under a dot.
pub proof fn law_a_repo_counts_for_what_it_is(repo: RepoStatus, label: Seq<char>, what: Trait)
    ensures
        tally(seq![repo], None, what) == (if what.holds(&repo) {
            1int
        } else {
            0
        }),
        tally(seq![repo], Some(label), what) == (if what.holds(&repo) && label == (if repo.group@.len()
            == 0 {
            "·"@
        } else {
            repo.group@
        }) {
            1int
        } else {
            0
        }),
        tally(Seq::<RepoStatus>::empty(), None, what) == 0,
{
    reveal_with_fuel(tally_upto, 2);
    assert(seq![repo][0] == repo);
}

/// What is counted. A repo needs attention where anything is outstanding in it or it needs
/// a release.
pub proof fn law_what_is_counted(repo: &RepoStatus)
    ensures
        Trait::Any.holds(repo),
        Trait::Dirty.holds(repo) <==> crate::model::has_changes(repo.work),
        Trait::Unpushed.holds(repo) <==> repo.unpushed_count() > 0,
        Trait::NeedsRelease.holds(repo) <==> repo.state() == ReleaseState::NeedsRelease,
        Trait::Unreleased.holds(repo) <==> repo.state() == ReleaseState::Unreleased,
        Trait::Errored.holds(repo) <==> repo.error is Some,
        Trait::NeverFetched.holds(repo) <==> repo.refs is Some && repo.refs->0.remote_url is Some
            && repo.refs->0.fetched_at is None,
        Trait::Attention.holds(repo) <==> crate::model::has_changes(repo.work)
            || repo.unpushed_count() > 0 || (repo.work is Some && repo.work->0.conflicts > 0) || (
        repo.refs is Some && repo.refs->0.operation is Some) || repo.error is Some || repo.state()
            == ReleaseState::NeedsRelease,
{
}

/// The line about the fleet counts repos, then what is outstanding among them, each number
/// in front of its word; errors are told where there are any, and the time last where it
/// is known.
pub proof fn law_the_summary_counts_the_fleet(repos: Seq<RepoStatus>, timings: Option<&Timings>)
    ensures
        ({
            let parts = summary_parts(repos, timings);
            let errored = tally(repos, None, Trait::Errored);
            let plain = 6 + (if errored > 0 {
                1int
            } else {
                0
            });
            &&& parts.len() == plain + (if timings is Some {
                1int
            } else {
                0
            })
            &&& parts[0] == crate::number::decimal(repos.len() as int) + " repos"@
            &&& parts[1] == crate::number::decimal(tally(repos, None, Trait::Dirty)) + " dirty"@
            &&& parts[2] == crate::number::decimal(tally(repos, None, Trait::Unpushed))
                + " unpushed"@
            &&& parts[3] == crate::number::decimal(tally(repos, None, Trait::NeedsRelease))
                + " need release"@
            &&& parts[4] == crate::number::decimal(tally(repos, None, Trait::Unreleased))
                + " unreleased"@
            &&& parts[5] == crate::number::decimal(tally(repos, None, Trait::Attention))
                + " need attention"@
            &&& errored > 0 ==> parts[6] == crate::number::decimal(errored) + " errored"@
            &&& timings matches Some(t) ==> parts[plain] == timing_text(t)
        }),
{
}

/// The line of a group: its name, and how many of its repos there are, are dirty, are
/// unpushed, need a release and were never released.
pub proof fn law_the_line_of_a_group(repos: Seq<RepoStatus>, label: Seq<char>)
    ensures
        group_row(repos, label).len() == 6,
        groups_header().len() == 6,
        group_row(repos, label)[0] == label,
        group_row(repos, label)[1] == crate::number::decimal(tally(repos, Some(label), Trait::Any)),
        group_row(repos, label)[2] == crate::number::decimal(tally(repos, Some(label), Trait::Dirty)),
        group_row(repos, label)[3] == crate::number::decimal(
            tally(repos, Some(label), Trait::Unpushed),
        ),
        group_row(repos, label)[4] == crate::number::decimal(
            tally(repos, Some(label), Trait::NeedsRelease),
        ),
        group_row(repos, label)[5] == crate::number::decimal(
            tally(repos, Some(label), Trait::Unreleased),
        ),
        groups_header() == seq![
            "GROUP"@,
            "REPOS"@,
            "DIRTY"@,
            "UNPUSHED"@,
            "NEEDS RELEASE"@,
            "UNRELEASED"@,
        ],
{
}

/// A table of repos has a line for each repo in their order, a cell for each column in
/// theirs, and over each the column's header.
pub proof fn law_a_listing_has_a_cell_for_each_column(
    repos: Seq<&RepoStatus>,
    now: int,
    show_paths: bool,
    columns: Seq<Column>,
    home: Option<Seq<char>>,
    i: int,
    j: int,
)
    requires
        0 <= i < repos.len(),
        0 <= j < columns.len(),
    ensures
        list_rows(repos, now, show_paths, columns, home).len() == repos.len(),
        list_rows(repos, now, show_paths, columns, home)[i].len() == columns.len(),
        list_rows(repos, now, show_paths, columns, home)[i][j] == columns[j].cell_text(
            repos[i],
            now,
            show_paths,
            home,
        ),
        column_headers(columns, show_paths)[j] == columns[j].header_text(show_paths),
        column_aligns(columns)[j] == columns[j].alignment(),
        list_text(repos, now, show_paths, columns, home) == crate::table::table_text(
            column_headers(columns, show_paths),
            column_aligns(columns),
            list_rows(repos, now, show_paths, columns, home),
        ),
{
}

/// What a sweep cost is told as a whole and in its parts, and what came from the cache
/// where anything did.
pub proof fn law_what_a_sweep_cost_is_told(t: &Timings)
    ensures
        ({
            let front = "scanned in "@ + t.total.text() + " (walk "@ + t.discovery.text()
                + ", refs "@ + t.refs.text();
            &&& t.work_cached == 0 ==> timing_text(t) == front + ")"@
            &&& t.work_cached > 0 ==> timing_text(t) == front + (", "@ + crate::number::decimal(
                t.work_cached as int,
            ) + " from cache"@) + ")"@
        }),
{
    let front = "scanned in "@ + t.total.text() + " (walk "@ + t.discovery.text() + ", refs "@
        + t.refs.text();
    assert(front + Seq::<char>::empty() =~= front);
}

} // verus!
