//! Filtering, searching and sorting.
//!
//! The same [`Query`] drives both `drydock list` and the dashboard, so the two
//! can never disagree about what "dirty in the last day" means.

use vstd::prelude::*;
use vstd::slice::slice_subrange;

use crate::duration::{parse_duration, Duration};
use crate::model::{ReleaseState, RepoStatus, Visibility, VisibilityStatus};
use crate::number::{add32, sub64};
use crate::order::{code_row, pick, sort_indices, Key};
use crate::pathname::{path_key, same_key};
use crate::text::{
    find_char, find_chars, from_chars, quoted, replace_char, same, same_chars, same_ignoring_case,
    to_chars, to_lowercase, trimmed, utf8_length,
};

verus! {

/// A state a repo can be in. Toggling these is the main way to narrow the list.
#[derive(Clone, Copy, Debug, PartialEq, Eq, Hash, Structural)]
pub enum Filter {
    Dirty,
    Unpushed,
    /// Never released: no tags at all.
    Unreleased,
    /// Tagged, with commits or uncommitted changes past the tag.
    NeedsRelease,
    /// Tagged, with nothing since.
    Released,
    /// Past its tag, and held at the commit that is checked out.
    Held,
    Behind,
    Conflicted,
    InProgress,
    Detached,
    NoRemote,
    NoUpstream,
    Stashed,
    Clean,
    Error,
    /// Checked and public. Only ever true when `visibility.enabled` is on.
    Public,
    /// Checked and private or internal.
    Private,
}

pub open spec fn every_filter() -> Seq<Filter> {
    seq![
        Filter::Dirty,
        Filter::Unpushed,
        Filter::Unreleased,
        Filter::NeedsRelease,
        Filter::Released,
        Filter::Held,
        Filter::Behind,
        Filter::Conflicted,
        Filter::InProgress,
        Filter::Detached,
        Filter::NoRemote,
        Filter::NoUpstream,
        Filter::Stashed,
        Filter::Clean,
        Filter::Error,
        Filter::Public,
        Filter::Private,
    ]
}

/// How a name is spelled once case, spaces around it and underscores are out of
/// the way.
pub open spec fn dashed_key(s: Seq<char>) -> Seq<char> {
    crate::text::replaced(crate::text::lowercase(crate::text::trim(s)), '_', '-')
}

fn to_dashed_key(s: &str) -> (r: String)
    ensures
        r@ == dashed_key(s@),
{
    let v = to_chars(s);
    let lowered = to_lowercase(trimmed(v.as_slice()));
    from_chars(replace_char(lowered.as_slice(), '_', '-').as_slice())
}

/// The first filter at or after `i` with this label.
pub open spec fn filter_from(key: Seq<char>, i: int) -> Option<Filter>
    decreases 17 - i,
{
    if i < 0 || i >= 17 {
        None
    } else if every_filter()[i].label_text() == key {
        Some(every_filter()[i])
    } else {
        filter_from(key, i + 1)
    }
}

impl Filter {
    /// Whether a repo is in this state.
    pub open spec fn holds(&self, repo: &RepoStatus) -> bool {
        let f = repo.the_flags();
        match self {
            Filter::Dirty => f.dirty,
            Filter::Unpushed => f.unpushed,
            Filter::Unreleased => repo.state() == ReleaseState::Unreleased,
            Filter::NeedsRelease => repo.state() == ReleaseState::NeedsRelease,
            Filter::Released => repo.state() == ReleaseState::Released,
            Filter::Held => repo.state() == ReleaseState::Held,
            Filter::Behind => repo.behind_count() > 0,
            Filter::Conflicted => f.conflicted,
            Filter::InProgress => f.in_progress,
            Filter::Detached => f.detached,
            Filter::NoRemote => f.no_remote,
            Filter::NoUpstream => f.no_upstream,
            Filter::Stashed => f.stashed,
            Filter::Clean => f.is_clean(),
            Filter::Error => f.error,
            Filter::Public => repo.visibility is Some && repo.visibility->0.status
                == VisibilityStatus::Known(Visibility::Public),
            Filter::Private => repo.visibility is Some && (repo.visibility->0.status
                == VisibilityStatus::Known(Visibility::Private) || repo.visibility->0.status
                == VisibilityStatus::Known(Visibility::Internal)),
        }
    }

    pub open spec fn label_text(&self) -> Seq<char> {
        match self {
            Filter::Dirty => "dirty"@,
            Filter::Unpushed => "unpushed"@,
            Filter::Unreleased => "unreleased"@,
            Filter::NeedsRelease => "needs-release"@,
            Filter::Released => "released"@,
            Filter::Held => "held"@,
            Filter::Behind => "behind"@,
            Filter::Conflicted => "conflicted"@,
            Filter::InProgress => "in-progress"@,
            Filter::Detached => "detached"@,
            Filter::NoRemote => "no-remote"@,
            Filter::NoUpstream => "no-upstream"@,
            Filter::Stashed => "stashed"@,
            Filter::Clean => "clean"@,
            Filter::Error => "error"@,
            Filter::Public => "public"@,
            Filter::Private => "private"@,
        }
    }

    /// The filter a name means.
    pub open spec fn meaning(s: Seq<char>) -> Option<Filter> {
        filter_from(dashed_key(s), 0)
    }

    pub fn matches(&self, repo: &RepoStatus) -> (r: bool)
        ensures
            r == self.holds(repo),
    {
        let f = repo.flags();
        match self {
            Filter::Dirty => f.dirty,
            Filter::Unpushed => f.unpushed,
            Filter::Unreleased => matches!(repo.release_state(), ReleaseState::Unreleased),
            Filter::NeedsRelease => matches!(repo.release_state(), ReleaseState::NeedsRelease),
            Filter::Released => matches!(repo.release_state(), ReleaseState::Released),
            Filter::Held => matches!(repo.release_state(), ReleaseState::Held),
            Filter::Behind => repo.behind_total() > 0,
            Filter::Conflicted => f.conflicted,
            Filter::InProgress => f.in_progress,
            Filter::Detached => f.detached,
            Filter::NoRemote => f.no_remote,
            Filter::NoUpstream => f.no_upstream,
            Filter::Stashed => f.stashed,
            Filter::Clean => f.clean(),
            Filter::Error => f.error,
            Filter::Public => match &repo.visibility {
                Some(v) => matches!(v.status, VisibilityStatus::Known(Visibility::Public)),
                None => false,
            },
            Filter::Private => match &repo.visibility {
                Some(v) => matches!(v.status, VisibilityStatus::Known(Visibility::Private))
                    || matches!(v.status, VisibilityStatus::Known(Visibility::Internal)),
                None => false,
            },
        }
    }

    pub fn label(&self) -> (r: &'static str)
        ensures
            r@ == self.label_text(),
    {
        match self {
            Filter::Dirty => "dirty",
            Filter::Unpushed => "unpushed",
            Filter::Unreleased => "unreleased",
            Filter::NeedsRelease => "needs-release",
            Filter::Released => "released",
            Filter::Held => "held",
            Filter::Behind => "behind",
            Filter::Conflicted => "conflicted",
            Filter::InProgress => "in-progress",
            Filter::Detached => "detached",
            Filter::NoRemote => "no-remote",
            Filter::NoUpstream => "no-upstream",
            Filter::Stashed => "stashed",
            Filter::Clean => "clean",
            Filter::Error => "error",
            Filter::Public => "public",
            Filter::Private => "private",
        }
    }

    pub fn all() -> (r: &'static [Filter])
        ensures
            r@ == every_filter(),
    {
        let list: &'static [Filter; 17] = &[
            Filter::Dirty,
            Filter::Unpushed,
            Filter::Unreleased,
            Filter::NeedsRelease,
            Filter::Released,
            Filter::Held,
            Filter::Behind,
            Filter::Conflicted,
            Filter::InProgress,
            Filter::Detached,
            Filter::NoRemote,
            Filter::NoUpstream,
            Filter::Stashed,
            Filter::Clean,
            Filter::Error,
            Filter::Public,
            Filter::Private,
        ];
        assert(list@ =~= every_filter());
        list
    }

    /// The filter a name means, or what is wrong with the name.
    pub fn parse(s: &str) -> (r: Result<Filter, String>)
        ensures
            (match r {
                Ok(f) => Filter::meaning(s@) == Some(f),
                Err(e) => Filter::meaning(s@) is None && e@ == "unknown filter: "@ + s@,
            }),
    {
        let key = to_dashed_key(s);
        let list = Filter::all();
        let mut i: usize = 0;
        while i < list.len()
            invariant
                i <= list@.len() == 17,
                list@ == every_filter(),
                key@ == dashed_key(s@),
                filter_from(key@, 0) == filter_from(key@, i as int),
            decreases list@.len() - i,
        {
            if same(list[i].label(), key.as_str()) {
                return Ok(list[i]);
            }
            i = i + 1;
        }
        let mut message = "unknown filter: ".to_owned();
        message.append(s);
        Err(message)
    }
}

impl std::str::FromStr for Filter {
    type Err = String;

    fn from_str(s: &str) -> (r: Result<Self, Self::Err>)
        ensures
            (match r {
                Ok(f) => Filter::meaning(s@) == Some(f),
                Err(e) => Filter::meaning(s@) is None && e@ == "unknown filter: "@ + s@,
            }),
    {
        Filter::parse(s)
    }
}

/// Whether several active filters narrow or widen the result.
///
/// `Any` is the default. Toggling `dirty` and `unpushed` almost always means
/// "show me anything in either state" rather than the much smaller set that is
/// in both at once.
#[derive(Clone, Copy, Debug, PartialEq, Eq, Structural)]
pub enum MatchMode {
    Any,
    All,
}

impl MatchMode {
    pub open spec fn label_text(&self) -> Seq<char> {
        match self {
            MatchMode::Any => "any"@,
            MatchMode::All => "all"@,
        }
    }

    /// The mode a word means.
    pub open spec fn meaning(s: Seq<char>) -> Option<MatchMode> {
        let key = crate::text::lowercase(crate::text::trim(s));
        if key == "any"@ || key == "or"@ {
            Some(MatchMode::Any)
        } else if key == "all"@ || key == "and"@ {
            Some(MatchMode::All)
        } else {
            None
        }
    }

    pub fn label(&self) -> (r: &'static str)
        ensures
            r@ == self.label_text(),
    {
        match self {
            MatchMode::Any => "any",
            MatchMode::All => "all",
        }
    }

    pub fn toggled(&self) -> (r: Self)
        ensures
            r == (match self {
                MatchMode::Any => MatchMode::All,
                MatchMode::All => MatchMode::Any,
            }),
    {
        match self {
            MatchMode::Any => MatchMode::All,
            MatchMode::All => MatchMode::Any,
        }
    }

    /// The mode a word means, or what is wrong with the word.
    pub fn parse(s: &str) -> (r: Result<MatchMode, String>)
        ensures
            (match r {
                Ok(m) => MatchMode::meaning(s@) == Some(m),
                Err(e) => MatchMode::meaning(s@) is None && e@ == "unknown match mode: "@
                    + crate::text::lowercase(crate::text::trim(s@)),
            }),
    {
        let v = to_chars(s);
        let key = from_chars(to_lowercase(trimmed(v.as_slice())).as_slice());
        if same(key.as_str(), "any") || same(key.as_str(), "or") {
            Ok(MatchMode::Any)
        } else if same(key.as_str(), "all") || same(key.as_str(), "and") {
            Ok(MatchMode::All)
        } else {
            let mut message = "unknown match mode: ".to_owned();
            message.append(key.as_str());
            Err(message)
        }
    }
}

impl std::str::FromStr for MatchMode {
    type Err = String;

    fn from_str(s: &str) -> (r: Result<Self, Self::Err>)
        ensures
            (match r {
                Ok(m) => MatchMode::meaning(s@) == Some(m),
                Err(e) => MatchMode::meaning(s@) is None && e@ == "unknown match mode: "@
                    + crate::text::lowercase(crate::text::trim(s@)),
            }),
    {
        MatchMode::parse(s)
    }
}

#[derive(Clone, Copy, Debug, PartialEq, Eq, Structural)]
pub enum Sort {
    Activity,
    Name,
    Group,
    Dirty,
    Stashes,
    Ahead,
    Behind,
    SinceTag,
    State,
    Visibility,
}

pub open spec fn every_sort() -> Seq<Sort> {
    seq![
        Sort::Activity,
        Sort::Name,
        Sort::Group,
        Sort::Dirty,
        Sort::Stashes,
        Sort::Ahead,
        Sort::Behind,
        Sort::SinceTag,
        Sort::State,
        Sort::Visibility,
    ]
}

/// The first sort key at or after `i` with this label.
pub open spec fn sort_from(key: Seq<char>, i: int) -> Option<Sort>
    decreases 10 - i,
{
    if i < 0 || i >= 10 {
        None
    } else if every_sort()[i].label_text() == key {
        Some(every_sort()[i])
    } else {
        sort_from(key, i + 1)
    }
}

impl Sort {
    pub open spec fn label_text(&self) -> Seq<char> {
        match self {
            Sort::Activity => "activity"@,
            Sort::Name => "name"@,
            Sort::Group => "group"@,
            Sort::Dirty => "changes"@,
            Sort::Stashes => "stashes"@,
            Sort::Ahead => "unpushed"@,
            Sort::Behind => "behind"@,
            Sort::SinceTag => "since-tag"@,
            Sort::State => "state"@,
            Sort::Visibility => "visibility"@,
        }
    }

    /// The sort key a name means.
    pub open spec fn meaning(s: Seq<char>) -> Option<Sort> {
        sort_from(dashed_key(s), 0)
    }

    /// Where this key stands in the cycle.
    pub open spec fn place(&self) -> int {
        match self {
            Sort::Activity => 0,
            Sort::Name => 1,
            Sort::Group => 2,
            Sort::Dirty => 3,
            Sort::Stashes => 4,
            Sort::Ahead => 5,
            Sort::Behind => 6,
            Sort::SinceTag => 7,
            Sort::State => 8,
            Sort::Visibility => 9,
        }
    }

    /// The key after this one in the cycle, passing over VISIBILITY where
    /// checking is off.
    pub open spec fn following(&self, visibility_enabled: bool) -> Sort {
        let after = every_sort()[(self.place() + 1) % 10];
        if after == Sort::Visibility && !visibility_enabled {
            every_sort()[(self.place() + 2) % 10]
        } else {
            after
        }
    }

    /// Most of these read better biggest-first; names read better A to Z.
    pub open spec fn descends(&self) -> bool {
        *self != Sort::Name && *self != Sort::Group
    }

    pub fn label(&self) -> (r: &'static str)
        ensures
            r@ == self.label_text(),
    {
        match self {
            Sort::Activity => "activity",
            Sort::Name => "name",
            Sort::Group => "group",
            Sort::Dirty => "changes",
            Sort::Stashes => "stashes",
            Sort::Ahead => "unpushed",
            Sort::Behind => "behind",
            Sort::SinceTag => "since-tag",
            Sort::State => "state",
            Sort::Visibility => "visibility",
        }
    }

    pub fn all() -> (r: &'static [Sort])
        ensures
            r@ == every_sort(),
    {
        let list: &'static [Sort; 10] = &[
            Sort::Activity,
            Sort::Name,
            Sort::Group,
            Sort::Dirty,
            Sort::Stashes,
            Sort::Ahead,
            Sort::Behind,
            Sort::SinceTag,
            Sort::State,
            Sort::Visibility,
        ];
        assert(list@ =~= every_sort());
        list
    }

    /// Step to the next sort key in the `s`-cycle.
    ///
    /// `visibility_enabled` skips `Sort::Visibility` in that cycle when
    /// false, the same gate `Column::defaults` already applies to the
    /// VISIBILITY column. This is the ambient, no-argument-needed path
    /// through the sort keys, so it's the one place that matters most:
    /// someone who has never turned visibility checking on shouldn't find
    /// an extra stop added to the key they already press, offering a sort
    /// that can only ever tie. Explicit requests -- `--sort visibility`,
    /// `default_sort = "visibility"` -- go through `FromStr` instead and
    /// are always honoured, the same way `--public`/`--private` already
    /// work regardless of the flag: asking by name is always answered,
    /// only the ambient default stays out of the way until asked for.
    pub fn next(&self, visibility_enabled: bool) -> (r: Sort)
        ensures
            r == self.following(visibility_enabled),
    {
        match self {
            Sort::Activity => Sort::Name,
            Sort::Name => Sort::Group,
            Sort::Group => Sort::Dirty,
            Sort::Dirty => Sort::Stashes,
            Sort::Stashes => Sort::Ahead,
            Sort::Ahead => Sort::Behind,
            Sort::Behind => Sort::SinceTag,
            Sort::SinceTag => Sort::State,
            Sort::State => {
                if visibility_enabled {
                    Sort::Visibility
                } else {
                    Sort::Activity
                }
            },
            Sort::Visibility => Sort::Activity,
        }
    }

    fn descending_by_default(&self) -> (r: bool)
        ensures
            r == self.descends(),
    {
        !matches!(self, Sort::Name | Sort::Group)
    }

    /// The sort key a name means, or what is wrong with the name.
    pub fn parse(s: &str) -> (r: Result<Sort, String>)
        ensures
            (match r {
                Ok(k) => Sort::meaning(s@) == Some(k),
                Err(e) => Sort::meaning(s@) is None && e@ == "unknown sort key: "@ + s@,
            }),
    {
        let key = to_dashed_key(s);
        let list = Sort::all();
        let mut i: usize = 0;
        while i < list.len()
            invariant
                i <= list@.len() == 10,
                list@ == every_sort(),
                key@ == dashed_key(s@),
                sort_from(key@, 0) == sort_from(key@, i as int),
            decreases list@.len() - i,
        {
            if same(list[i].label(), key.as_str()) {
                return Ok(list[i]);
            }
            i = i + 1;
        }
        let mut message = "unknown sort key: ".to_owned();
        message.append(s);
        Err(message)
    }
}

impl std::str::FromStr for Sort {
    type Err = String;

    fn from_str(s: &str) -> (r: Result<Self, Self::Err>)
        ensures
            (match r {
                Ok(k) => Sort::meaning(s@) == Some(k),
                Err(e) => Sort::meaning(s@) is None && e@ == "unknown sort key: "@ + s@,
            }),
    {
        Sort::parse(s)
    }
}

#[derive(Clone, Debug)]
pub struct Query {
    pub filters: Vec<Filter>,
    pub match_mode: MatchMode,
    /// Only repos active within this window.
    pub since: Option<Duration>,
    /// Only repos in this group.
    pub group: Option<String>,
    pub search: String,
    pub sort: Sort,
    /// Flip the sort key's natural direction.
    pub reverse: bool,
}

impl Default for Query {
    fn default() -> (r: Self)
        ensures
            r.filters@ == Seq::<Filter>::empty(),
            r.match_mode == MatchMode::Any,
            r.since is None,
            r.group is None,
            r.search@ == Seq::<char>::empty(),
            r.sort == Sort::Activity,
            !r.reverse,
    {
        Query {
            filters: Vec::new(),
            match_mode: MatchMode::Any,
            since: None,
            group: None,
            search: String::new(),
            sort: Sort::Activity,
            reverse: false,
        }
    }
}

// ---------------------------------------------------------------------------
// What a query selects
// ---------------------------------------------------------------------------

/// Whether a repo passes the filters: no filters pass everything.
pub open spec fn passes_list(filters: Seq<Filter>, mode: MatchMode, repo: &RepoStatus) -> bool {
    filters.len() == 0 || match mode {
        MatchMode::Any => exists|i: int|
            0 <= i < filters.len() && (#[trigger] filters[i]).holds(repo),
        MatchMode::All => forall|i: int|
            0 <= i < filters.len() ==> (#[trigger] filters[i]).holds(repo),
    }
}

/// Whether `needle` can be read off `hay` from left to right.
pub open spec fn is_subsequence_of(needle: Seq<char>, hay: Seq<char>) -> bool
    decreases needle.len(),
{
    if needle.len() == 0 {
        true
    } else {
        let i = crate::text::pos(hay, needle[0]);
        i < hay.len() && is_subsequence_of(needle.skip(1), hay.skip(i + 1))
    }
}

/// How well a repo matches a search text; lower is better. Places are counted in
/// bytes, and the number in 32 bits.
pub open spec fn match_score(needle: Seq<char>, repo: &RepoStatus) -> Option<int> {
    let n = crate::text::lowercase(crate::text::trim(needle));
    let name = crate::text::lowercase(repo.name@);
    let slug = crate::text::lowercase(repo.slug_text());
    let branch = crate::text::lowercase(repo.branch_text());
    if n.len() == 0 || crate::text::starts_with(name, n) {
        Some(0)
    } else {
        match crate::text::find(name, n) {
            Some(i) => Some(crate::number::wrap32(10 + crate::text::byte_len(name.take(i)))),
            None => match crate::text::find(slug, n) {
                Some(i) => Some(crate::number::wrap32(100 + crate::text::byte_len(slug.take(i)))),
                None => if crate::text::contains(branch, n) {
                    Some(500)
                } else if is_subsequence_of(n, slug) {
                    Some(1_000)
                } else {
                    None
                },
            },
        }
    }
}

/// The oldest activity a window lets through.
pub open spec fn cutoff(since: Duration, now: int) -> int {
    crate::number::wrap64(now - crate::number::wrap64(since.secs as int))
}

impl Query {
    /// Whether a repo is selected.
    pub open spec fn selects(&self, repo: &RepoStatus, now: int) -> bool {
        &&& self.group matches Some(g) ==> crate::text::lowercase(repo.group@)
            == crate::text::lowercase(g@)
        &&& self.since matches Some(d) ==> repo.last_activity().0 >= cutoff(d, now)
        &&& self.search@.len() > 0 ==> match_score(self.search@, repo) is Some
        &&& passes_list(self.filters@, self.match_mode, repo)
    }

    /// Which of the first `n` repos are selected.
    pub open spec fn chosen(&self, repos: Seq<RepoStatus>, now: int, n: int) -> Seq<int>
        decreases n,
    {
        if n <= 0 {
            Seq::empty()
        } else if self.selects(&repos[n - 1], now) {
            self.chosen(repos, now, n - 1).push(n - 1)
        } else {
            self.chosen(repos, now, n - 1)
        }
    }

    /// The selected repos in order, by position.
    pub open spec fn ranked(&self, repos: Seq<RepoStatus>, now: int) -> Seq<int> {
        let chosen = self.chosen(repos, now, repos.len() as int);
        crate::order::permute(
            chosen,
            crate::order::stable_order(
                chosen.map_values(|i: int| sort_rows(self.sort, &repos[i])),
                self.sort.descends() != self.reverse,
            ),
        )
    }

    /// What [`Query::apply_indices`] gives: the selected repos in order, each by
    /// the last position that holds its path.
    pub open spec fn answer(&self, repos: Seq<RepoStatus>, now: int) -> Seq<int> {
        self.ranked(repos, now).map_values(
            |i: int| last_at(repos, repos[i].root@, repos.len() as int),
        )
    }
}

/// The last of the first `n` repos with this path.
pub open spec fn last_at(repos: Seq<RepoStatus>, path: Seq<char>, n: int) -> int
    decreases n,
{
    if n <= 0 {
        -1
    } else if crate::pathname::same_path(repos[n - 1].root@, path) {
        n - 1
    } else {
        last_at(repos, path, n - 1)
    }
}

// ---------------------------------------------------------------------------
// The order
// ---------------------------------------------------------------------------

/// Ranking for state sort: the things most likely to need attention first.
pub open spec fn state_rank_of(repo: &RepoStatus) -> int {
    let f = repo.the_flags();
    if f.error {
        7
    } else if f.conflicted {
        6
    } else if f.in_progress {
        5
    } else if f.dirty {
        4
    } else if f.unpushed {
        3
    } else if repo.state() == ReleaseState::NeedsRelease {
        2
    } else if repo.work is None {
        1
    } else {
        0
    }
}

/// Ranking for visibility sort: a failed check first, then private, then public,
/// then everything that no check has told apart.
pub open spec fn visibility_rank_of(repo: &RepoStatus) -> int {
    match repo.visibility {
        None => 0,
        Some(v) => match v.status {
            VisibilityStatus::CheckFailed(_) => 3,
            VisibilityStatus::Known(Visibility::Private) => 2,
            VisibilityStatus::Known(Visibility::Public) => 1,
            _ => 0,
        },
    }
}

/// A number as a row.
pub open spec fn num_row(n: int) -> Seq<i64> {
    seq![n as i64]
}

/// A name as a row, whatever its case.
pub open spec fn name_row(s: Seq<char>) -> Seq<i64> {
    crate::order::codes(crate::text::lowercase(s))
}

/// What a sort key compares first.
pub open spec fn primary_rows(sort: Sort, repo: &RepoStatus) -> Seq<Seq<i64>> {
    match sort {
        Sort::Activity => seq![num_row(repo.last_activity().0)],
        Sort::Name => seq![name_row(repo.name@)],
        Sort::Group => seq![name_row(repo.group@), name_row(repo.name@)],
        Sort::Dirty => seq![num_row(repo.dirty_count())],
        Sort::Stashes => seq![
            num_row(
                match repo.refs {
                    Some(refs) => refs.stashes as int,
                    None => 0,
                },
            ),
        ],
        Sort::Ahead => seq![num_row(repo.unpushed_count())],
        Sort::Behind => seq![num_row(repo.behind_count())],
        Sort::SinceTag => seq![num_row(repo.since_tag())],
        Sort::State => seq![num_row(state_rank_of(repo))],
        Sort::Visibility => seq![num_row(visibility_rank_of(repo))],
    }
}

/// Ties fall back to activity, then path, so the order is stable across
/// repaints.
pub open spec fn tie_rows(repo: &RepoStatus) -> Seq<Seq<i64>> {
    seq![num_row(repo.last_activity().0)] + crate::pathname::path_rows(repo.root@)
}

/// The whole key.
pub open spec fn sort_rows(sort: Sort, repo: &RepoStatus) -> Seq<Seq<i64>> {
    primary_rows(sort, repo) + tie_rows(repo)
}

fn state_rank(repo: &RepoStatus) -> (r: u8)
    ensures
        r == state_rank_of(repo),
{
    let f = repo.flags();
    if f.error {
        7
    } else if f.conflicted {
        6
    } else if f.in_progress {
        5
    } else if f.dirty {
        4
    } else if f.unpushed {
        3
    } else if matches!(repo.release_state(), ReleaseState::NeedsRelease) {
        2
    } else if repo.work.is_none() {
        1
    } else {
        0
    }
}

/// Ranking for visibility sort: a failed check first, then private, then
/// public. Everything else -- internal, no remote, an unsupported host, a
/// repo that couldn't be read, checking turned off, or never probed at all
/// -- ties in one bottom tier rather than being split out into tiers of its
/// own.
///
/// Reaching for a visibility sort means wanting the closed work collected
/// in one place -- the repos with a client's name in them, the ones not
/// ready to be read yet -- so private leads. Public is the state you can
/// already see from anywhere, and there's nothing to scroll past to find
/// it. Above both sits a failed check, because it's the only non-answer
/// there's anything to do about: the tool tried to ask and couldn't, which
/// is worth a second look in a way that "no remote" or "checking is off"
/// never is.
///
/// The bottom tier being one tier, not several, is a separate decision:
/// `NoRemote` and `Unsupported` are "free" facts, computed straight from
/// the remote URL whether or not `visibility.enabled` is on, and giving
/// them their own tiers would mean choosing this sort key still reshuffles
/// the list even for someone who has never turned visibility checking on at
/// all. With only CheckFailed, Private and Public able to earn a distinct
/// rank, a repo can't move until it's actually been checked -- so with
/// checking off, this sort is a true no-op, identical to the activity/path
/// tie-break every other sort already falls back to.
///
/// The sort descends by default, so the highest rank is what lands at the
/// top of the table.
fn visibility_rank(repo: &RepoStatus) -> (r: u8)
    ensures
        r == visibility_rank_of(repo),
{
    match &repo.visibility {
        None => 0,
        Some(v) => match &v.status {
            VisibilityStatus::CheckFailed(_) => 3,
            VisibilityStatus::Known(Visibility::Private) => 2,
            VisibilityStatus::Known(Visibility::Public) => 1,
            _ => 0,
        },
    }
}

fn push_num(key: &mut Key, n: i64)
    ensures
        crate::order::rows(final(key)@) == crate::order::rows(old(key)@).push(num_row(n as int)),
{
    let mut row: Vec<i64> = Vec::new();
    row.push(n);
    assert(row@ =~= num_row(n as int));
    key.push(row);
    assert(crate::order::rows(key@) =~= crate::order::rows(old(key)@).push(num_row(n as int)));
}

fn push_name(key: &mut Key, s: &str)
    ensures
        crate::order::rows(final(key)@) == crate::order::rows(old(key)@).push(name_row(s@)),
{
    let v = to_chars(s);
    let row = code_row(to_lowercase(v.as_slice()).as_slice());
    key.push(row);
    assert(crate::order::rows(key@) =~= crate::order::rows(old(key)@).push(name_row(s@)));
}

fn sort_key(sort: Sort, repo: &RepoStatus) -> (r: Key)
    ensures
        crate::order::rows(r@) == sort_rows(sort, repo),
{
    let mut key: Key = Vec::new();
    assert(crate::order::rows(key@) =~= Seq::empty());
    match sort {
        Sort::Activity => push_num(&mut key, repo.activity_at()),
        Sort::Name => push_name(&mut key, repo.name.as_str()),
        Sort::Group => {
            push_name(&mut key, repo.group.as_str());
            push_name(&mut key, repo.name.as_str());
        },
        Sort::Dirty => push_num(&mut key, repo.dirty_total() as i64),
        // A repo nothing has probed yet sorts with the empty ones: this key
        // exists to bring stashes to the top, and "no answer" isn't a stash.
        // Unlike `visibility`, it isn't gated out of the `s` cycle -- the
        // count is always probed, so the ordering is always real.
        Sort::Stashes => {
            let n: u32 = match repo.stash_count() {
                Some(n) => n,
                None => 0,
            };
            push_num(&mut key, n as i64);
        },
        Sort::Ahead => push_num(&mut key, repo.unpushed_total() as i64),
        Sort::Behind => push_num(&mut key, repo.behind_total() as i64),
        Sort::SinceTag => push_num(&mut key, repo.commits_since_tag() as i64),
        Sort::State => push_num(&mut key, state_rank(repo) as i64),
        Sort::Visibility => push_num(&mut key, visibility_rank(repo) as i64),
    }
    assert(crate::order::rows(key@) =~= primary_rows(sort, repo));
    push_num(&mut key, repo.activity_at());
    let mut tail = path_key(repo.root.as_str());
    let ghost head = key@;
    let ghost rest = tail@;
    key.append(&mut tail);
    assert(crate::order::rows(key@) =~= crate::order::rows(head) + crate::order::rows(rest));
    assert(crate::order::rows(key@) =~= sort_rows(sort, repo));
    key
}

/// The keys of a list of repos.
pub open spec fn ref_keys(repos: Seq<&RepoStatus>, sort: Sort) -> Seq<Seq<Seq<i64>>> {
    repos.map_values(|r: &RepoStatus| sort_rows(sort, r))
}

fn sort_keys(repos: &Vec<&RepoStatus>, sort: Sort) -> (r: Vec<Key>)
    ensures
        crate::order::key_rows(r@) == ref_keys(repos@, sort),
        r@.len() == repos@.len(),
{
    let mut out: Vec<Key> = Vec::new();
    let mut i: usize = 0;
    while i < repos.len()
        invariant
            i <= repos@.len(),
            out@.len() == i,
            forall|k: int|
                0 <= k < i ==> crate::order::rows(#[trigger] out@[k]@) == sort_rows(sort, repos@[k]),
        decreases repos@.len() - i,
    {
        out.push(sort_key(sort, repos[i]));
        i = i + 1;
    }
    assert(crate::order::key_rows(out@) =~= ref_keys(repos@, sort));
    out
}

/// Puts repos in the order a sort key asks for, biggest first unless it is a
/// name; `reverse` turns that round.
pub fn sort_repos(repos: &mut Vec<&RepoStatus>, sort: Sort, reverse: bool)
    ensures
        final(repos)@ == sorted_repos(old(repos)@, sort, reverse),
{
    let keys = sort_keys(repos, sort);
    let order = sort_indices(&keys, sort.descending_by_default() != reverse);
    let sorted = pick(repos, &order);
    *repos = sorted;
}

// ---------------------------------------------------------------------------
// Searching
// ---------------------------------------------------------------------------

fn byte_offset(v: &[char], n: usize) -> (r: u32)
    requires
        n <= v@.len(),
    ensures
        r == crate::number::wrap32(crate::text::byte_len(v@.take(n as int))),
{
    let mut total: u32 = 0;
    let mut i: usize = 0;
    while i < n
        invariant
            i <= n <= v@.len(),
            total == crate::number::wrap32(crate::text::byte_len(v@.take(i as int))),
        decreases n - i,
    {
        let size: u64 = utf8_length(v[i]);
        proof {
            assert(v@.take(i + 1).take(i as int) =~= v@.take(i as int));
            crate::number::lemma_wrap32_add(
                crate::text::byte_len(v@.take(i as int)),
                size as int,
            );
        }
        total = add32(total, size as u32);
        i = i + 1;
    }
    total
}

fn is_subsequence(needle: &[char], hay: &[char]) -> (r: bool)
    ensures
        r == is_subsequence_of(needle@, hay@),
{
    let mut n: &[char] = needle;
    let mut h: &[char] = hay;
    while n.len() > 0
        invariant
            is_subsequence_of(needle@, hay@) == is_subsequence_of(n@, h@),
        decreases n@.len(),
    {
        let i: usize = find_char(h, n[0], 0);
        assert(h@.skip(0) =~= h@);
        if i >= h.len() {
            return false;
        }
        assert(n@.subrange(1, n@.len() as int) =~= n@.skip(1));
        assert(h@.subrange(i + 1, h@.len() as int) =~= h@.skip(i + 1));
        n = slice_subrange(n, 1, n.len());
        h = slice_subrange(h, i + 1, h.len());
    }
    true
}

/// Score a repo against a search string.
///
/// An exact substring anywhere in `group/name` wins, a prefix match on the name
/// scores higher still, and failing that a subsequence match lets `gpapi` find
/// `grav/grav-plugin-api`. Lower is better. `None` means no match.
pub fn score(needle: &str, repo: &RepoStatus) -> (r: Option<u32>)
    ensures
        (match r {
            Some(n) => match_score(needle@, repo) == Some(n as int),
            None => match_score(needle@, repo) is None,
        }),
{
    let v = to_chars(needle);
    let n = to_lowercase(trimmed(v.as_slice()));
    if n.len() == 0 {
        return Some(0);
    }
    let raw_name = to_chars(repo.name.as_str());
    let name = to_lowercase(raw_name.as_slice());
    let raw_slug = to_chars(repo.slug().as_str());
    let slug = to_lowercase(raw_slug.as_slice());
    let raw_branch = to_chars(repo.branch_label().as_str());
    let branch = to_lowercase(raw_branch.as_slice());

    if n.len() <= name.len() {
        assert(name@.subrange(0, n@.len() as int) =~= name@.take(n@.len() as int));
        if same_chars(slice_subrange(name.as_slice(), 0, n.len()), n.as_slice()) {
            return Some(0);
        }
    }
    if let Some(i) = find_chars(name.as_slice(), n.as_slice(), 0) {
        let at: u32 = byte_offset(name.as_slice(), i);
        proof {
            crate::number::lemma_wrap32_add(crate::text::byte_len(name@.take(i as int)), 10);
        }
        return Some(add32(at, 10));
    }
    if let Some(i) = find_chars(slug.as_slice(), n.as_slice(), 0) {
        let at: u32 = byte_offset(slug.as_slice(), i);
        proof {
            crate::number::lemma_wrap32_add(crate::text::byte_len(slug@.take(i as int)), 100);
        }
        return Some(add32(at, 100));
    }
    if find_chars(branch.as_slice(), n.as_slice(), 0).is_some() {
        return Some(500);
    }
    if is_subsequence(n.as_slice(), slug.as_slice()) {
        return Some(1_000);
    }
    None
}

// ---------------------------------------------------------------------------
// Running a query
// ---------------------------------------------------------------------------

/// Index of the first `f` at or after `i`.
pub open spec fn place_from(filters: Seq<Filter>, f: Filter, i: int) -> Option<int>
    decreases filters.len() - i,
{
    if i < 0 || i >= filters.len() {
        None
    } else if filters[i] == f {
        Some(i)
    } else {
        place_from(filters, f, i + 1)
    }
}

/// The filters after toggling one: the first of it taken out, or it added.
pub open spec fn toggled_filters(filters: Seq<Filter>, f: Filter) -> Seq<Filter> {
    match place_from(filters, f, 0) {
        Some(i) => filters.remove(i),
        None => filters.push(f),
    }
}

fn find_filter(filters: &Vec<Filter>, f: Filter) -> (r: Option<usize>)
    ensures
        (match r {
            Some(i) => place_from(filters@, f, 0) == Some(i as int) && i < filters@.len(),
            None => place_from(filters@, f, 0) is None,
        }),
{
    let mut i: usize = 0;
    while i < filters.len()
        invariant
            i <= filters@.len(),
            place_from(filters@, f, 0) == place_from(filters@, f, i as int),
        decreases filters@.len() - i,
    {
        if filters[i] == f {
            return Some(i);
        }
        i = i + 1;
    }
    None
}

proof fn lemma_place_from(filters: Seq<Filter>, f: Filter, i: int)
    requires
        0 <= i,
    ensures
        place_from(filters, f, i) matches Some(k) ==> i <= k < filters.len() && filters[k] == f,
        place_from(filters, f, i) is None ==> forall|k: int|
            i <= k < filters.len() ==> #[trigger] filters[k] != f,
    decreases filters.len() - i,
{
    if i < filters.len() && filters[i] != f {
        lemma_place_from(filters, f, i + 1);
    }
}

impl Query {
    pub fn toggle(&mut self, filter: Filter)
        ensures
            final(self).filters@ == toggled_filters(old(self).filters@, filter),
            final(self).match_mode == old(self).match_mode,
            final(self).since == old(self).since,
            final(self).group == old(self).group,
            final(self).search == old(self).search,
            final(self).sort == old(self).sort,
            final(self).reverse == old(self).reverse,
    {
        match find_filter(&self.filters, filter) {
            Some(i) => {
                let _gone = self.filters.remove(i);
            },
            None => {
                self.filters.push(filter);
            },
        }
    }

    pub fn has(&self, filter: Filter) -> (r: bool)
        ensures
            r == self.filters@.contains(filter),
    {
        let found = find_filter(&self.filters, filter);
        proof {
            lemma_place_from(self.filters@, filter, 0);
            if let Some(i) = found {
                assert(self.filters@[i as int] == filter);
            }
        }
        found.is_some()
    }

    pub fn set_since(&mut self, spec: &str) -> (r: Result<(), String>)
        ensures
            final(self).filters == old(self).filters,
            final(self).match_mode == old(self).match_mode,
            final(self).group == old(self).group,
            final(self).search == old(self).search,
            final(self).sort == old(self).sort,
            final(self).reverse == old(self).reverse,
            (if crate::text::trim(spec@).len() == 0 {
                r is Ok && final(self).since is None
            } else {
                match crate::duration::duration_meaning(spec@) {
                    Some(d) => r is Ok && final(self).since == Some(d),
                    None => final(self).since == old(self).since && r is Err && r->Err_0@
                        == "could not read a duration from "@ + crate::text::debug_quoted(spec@),
                }
            }),
    {
        let v = to_chars(spec);
        if trimmed(v.as_slice()).len() == 0 {
            self.since = None;
            return Ok(());
        }
        match parse_duration(spec) {
            Some(d) => {
                self.since = Some(d);
                Ok(())
            },
            None => {
                let mut message = "could not read a duration from ".to_owned();
                message.append(quoted(spec).as_str());
                Err(message)
            },
        }
    }

    fn passes_filters(&self, repo: &RepoStatus) -> (r: bool)
        ensures
            r == passes_list(self.filters@, self.match_mode, repo),
    {
        if self.filters.len() == 0 {
            return true;
        }
        let any = matches!(self.match_mode, MatchMode::Any);
        let mut i: usize = 0;
        while i < self.filters.len()
            invariant
                i <= self.filters@.len(),
                any == (self.match_mode == MatchMode::Any),
                any ==> forall|k: int|
                    0 <= k < i ==> !(#[trigger] self.filters@[k]).holds(repo),
                !any ==> forall|k: int| 0 <= k < i ==> (#[trigger] self.filters@[k]).holds(repo),
            decreases self.filters@.len() - i,
        {
            let hit = self.filters[i].matches(repo);
            assert(hit == self.filters@[i as int].holds(repo));
            if any && hit {
                return true;
            }
            if !any && !hit {
                return false;
            }
            i = i + 1;
        }
        !any
    }

    /// Whether a repo is selected. `now` is passed in so a whole render uses one
    /// clock.
    fn selects_repo(&self, repo: &RepoStatus, now: i64) -> (r: bool)
        ensures
            r == self.selects(repo, now as int),
    {
        if let Some(group) = &self.group {
            if !same_ignoring_case(repo.group.as_str(), group.as_str()) {
                return false;
            }
        }
        if let Some(d) = &self.since {
            let secs: u64 = d.as_secs();
            let window: i64 = if secs <= 0x7fff_ffff_ffff_ffff {
                secs as i64
            } else {
                -1 - ((u64::MAX - secs) as i64)
            };
            assert(window == crate::number::wrap64(secs as int));
            if repo.activity_at() < sub64(now, window) {
                return false;
            }
        }
        if to_chars(self.search.as_str()).len() > 0 && score(self.search.as_str(), repo).is_none() {
            return false;
        }
        self.passes_filters(repo)
    }

    /// Same as [`Query::apply`], but returning positions. The dashboard keeps
    /// indices rather than references so it can hold the list mutably between
    /// repaints.
    pub fn apply_indices(&self, repos: &[RepoStatus], now: i64) -> (r: Vec<usize>)
        ensures
            crate::order::indices(r@) == self.answer(repos@, now as int),
            forall|k: int| 0 <= k < r@.len() ==> #[trigger] r@[k] < repos@.len(),
    {
        let ghost all = repos@;
        let mut chosen: Vec<usize> = Vec::new();
        let mut kept: Vec<&RepoStatus> = Vec::new();
        let mut i: usize = 0;
        assert(crate::order::indices(chosen@) =~= self.chosen(all, now as int, 0));
        while i < repos.len()
            invariant
                i <= repos@.len(),
                all == repos@,
                crate::order::indices(chosen@) == self.chosen(all, now as int, i as int),
                chosen@.len() == kept@.len(),
                forall|k: int|
                    0 <= k < chosen@.len() ==> #[trigger] chosen@[k] < repos@.len() && *kept@[k]
                        == all[chosen@[k] as int],
            decreases repos@.len() - i,
        {
            if self.selects_repo(&repos[i], now) {
                let ghost before = chosen@;
                chosen.push(i);
                kept.push(&repos[i]);
                assert(crate::order::indices(chosen@) =~= crate::order::indices(before).push(
                    i as int,
                ));
            }
            i = i + 1;
        }
        let ghost picked = self.chosen(all, now as int, all.len() as int);
        let keys = sort_keys(&kept, self.sort);
        let descending = self.sort.descending_by_default() != self.reverse;
        let order = sort_indices(&keys, descending);
        proof {
            assert(picked.len() == chosen@.len());
            assert forall|k: int| 0 <= k < kept@.len() implies ref_keys(kept@, self.sort)[k]
                == picked.map_values(|i: int| sort_rows(self.sort, &all[i]))[k] by {
                assert(chosen@[k] < repos@.len());
                assert(crate::order::indices(chosen@)[k] == chosen@[k] as int);
            }
            assert(ref_keys(kept@, self.sort) =~= picked.map_values(
                |i: int| sort_rows(self.sort, &all[i]),
            ));
        }
        // Turn the sorted references back into positions, through their paths.
        let mut roots: Vec<Key> = Vec::new();
        let mut p: usize = 0;
        while p < repos.len()
            invariant
                p <= repos@.len(),
                all == repos@,
                roots@.len() == p,
                forall|k: int|
                    0 <= k < p ==> crate::order::rows(#[trigger] roots@[k]@)
                        == crate::pathname::path_rows(all[k].root@),
            decreases repos@.len() - p,
        {
            roots.push(path_key(repos[p].root.as_str()));
            p = p + 1;
        }
        let mut out: Vec<usize> = Vec::new();
        let mut j: usize = 0;
        let ghost ranked = self.ranked(all, now as int);
        assert(ranked.len() == order@.len()) by {
            assert(crate::order::indices(order@).len() == order@.len());
        }
        while j < order.len()
            invariant
                j <= order@.len(),
                all == repos@,
                ranked == self.ranked(all, now as int),
                ranked == crate::order::permute(
                    self.chosen(all, now as int, all.len() as int),
                    crate::order::indices(order@),
                ),
                order@.len() == chosen@.len() == ranked.len(),
                crate::order::indices(chosen@) == self.chosen(all, now as int, all.len() as int),
                forall|a: int| 0 <= a < order@.len() ==> #[trigger] order@[a] < chosen@.len(),
                forall|k: int| 0 <= k < chosen@.len() ==> #[trigger] chosen@[k] < repos@.len(),
                roots@.len() == repos@.len(),
                forall|k: int|
                    0 <= k < roots@.len() ==> crate::order::rows(#[trigger] roots@[k]@)
                        == crate::pathname::path_rows(all[k].root@),
                out@.len() == j,
                forall|k: int|
                    0 <= k < j ==> #[trigger] out@[k] as int == last_at(
                        all,
                        all[ranked[k]].root@,
                        all.len() as int,
                    ) && out@[k] < repos@.len(),
            decreases order@.len() - j,
        {
            let at: usize = chosen[order[j]];
            proof {
                assert(crate::order::indices(order@)[j as int] == order@[j as int] as int);
                assert(crate::order::indices(chosen@)[order@[j as int] as int] == at as int);
                assert(ranked[j as int] == at as int);
            }
            let last: usize = last_position(&roots, at, repos);
            out.push(last);
            j = j + 1;
        }
        assert(crate::order::indices(out@) =~= self.answer(all, now as int));
        out
    }

    /// Apply the query: the repos it selects, in order.
    pub fn apply<'a>(&self, repos: &'a [RepoStatus], now: i64) -> (r: Vec<&'a RepoStatus>)
        ensures
            r@.len() == self.answer(repos@, now as int).len(),
            forall|k: int|
                0 <= k < r@.len() ==> *(#[trigger] r@[k]) == repos@[self.answer(
                    repos@,
                    now as int,
                )[k]],
    {
        let at = self.apply_indices(repos, now);
        let ghost answer = self.answer(repos@, now as int);
        assert(answer.len() == at@.len()) by {
            assert(crate::order::indices(at@).len() == at@.len());
        }
        let mut out: Vec<&'a RepoStatus> = Vec::new();
        let mut i: usize = 0;
        while i < at.len()
            invariant
                i <= at@.len(),
                answer == crate::order::indices(at@),
                forall|k: int| 0 <= k < at@.len() ==> #[trigger] at@[k] < repos@.len(),
                out@.len() == i,
                forall|k: int| 0 <= k < i ==> *(#[trigger] out@[k]) == repos@[answer[k]],
            decreases at@.len() - i,
        {
            let p: usize = at[i];
            assert(answer[i as int] == p as int);
            out.push(&repos[p]);
            i = i + 1;
        }
        out
    }
}

/// The last repo with the path of the one at `at`.
fn last_position(roots: &Vec<Key>, at: usize, repos: &[RepoStatus]) -> (r: usize)
    requires
        at < repos@.len(),
        roots@.len() == repos@.len(),
        forall|k: int|
            0 <= k < roots@.len() ==> crate::order::rows(#[trigger] roots@[k]@)
                == crate::pathname::path_rows(repos@[k].root@),
    ensures
        r < repos@.len(),
        r as int == last_at(repos@, repos@[at as int].root@, repos@.len() as int),
{
    let mut n: usize = roots.len();
    let ghost path = repos@[at as int].root@;
    loop
        invariant
            at < n <= roots@.len(),
            path == repos@[at as int].root@,
            roots@.len() == repos@.len(),
            forall|k: int|
                0 <= k < roots@.len() ==> crate::order::rows(#[trigger] roots@[k]@)
                    == crate::pathname::path_rows(repos@[k].root@),
            last_at(repos@, path, repos@.len() as int) == last_at(repos@, path, n as int),
        decreases n,
    {
        proof {
            crate::pathname::law_path_rows_identify_paths(repos@[n - 1].root@, path);
        }
        if same_key(&roots[n - 1], &roots[at]) {
            return n - 1;
        }
        assert(n - 1 != at);
        n = n - 1;
    }
}

// ---------------------------------------------------------------------------
// Laws
// ---------------------------------------------------------------------------

/// With "any", one more filter lets more through; with "all", less. (The first
/// filter always narrows, for no filters let everything through.)
pub proof fn law_any_widens_and_all_narrows(filters: Seq<Filter>, f: Filter, repo: &RepoStatus)
    requires
        filters.len() > 0,
    ensures
        passes_list(filters, MatchMode::Any, repo) ==> passes_list(
            filters.push(f),
            MatchMode::Any,
            repo,
        ),
        passes_list(filters.push(f), MatchMode::All, repo) ==> passes_list(
            filters,
            MatchMode::All,
            repo,
        ),
        passes_list(filters, MatchMode::All, repo) ==> passes_list(filters, MatchMode::Any, repo),
{
    let more = filters.push(f);
    if passes_list(filters, MatchMode::Any, repo) {
        let i = choose|i: int| 0 <= i < filters.len() && (#[trigger] filters[i]).holds(repo);
        assert(more[i].holds(repo));
    }
    if passes_list(more, MatchMode::All, repo) {
        assert forall|i: int| 0 <= i < filters.len() implies (#[trigger] filters[i]).holds(
            repo,
        ) by {
            assert(more[i].holds(repo));
        }
    }
    if passes_list(filters, MatchMode::All, repo) {
        assert(filters[0].holds(repo));
    }
}

/// Whether `at` says where the characters of `needle` stand in `hay`, from left to
/// right.
pub open spec fn reads_at(needle: Seq<char>, hay: Seq<char>, at: Seq<int>) -> bool {
    &&& at.len() == needle.len()
    &&& forall|i: int|
        0 <= i < at.len() ==> 0 <= #[trigger] at[i] < hay.len() && hay[at[i]] == needle[i]
    &&& forall|i: int, j: int| 0 <= i < j < at.len() ==> #[trigger] at[i] < #[trigger] at[j]
}

/// A search text matches wherever its characters stand in order, with anything in
/// between: taking the first place for each misses none of them.
pub proof fn law_a_subsequence_is_always_found(needle: Seq<char>, hay: Seq<char>)
    ensures
        is_subsequence_of(needle, hay) <==> exists|at: Seq<int>| #[trigger]
            reads_at(needle, hay, at),
{
    if is_subsequence_of(needle, hay) {
        lemma_reading(needle, hay);
    }
    if exists|at: Seq<int>| #[trigger] reads_at(needle, hay, at) {
        let at = choose|at: Seq<int>| #[trigger] reads_at(needle, hay, at);
        lemma_reading_is_found(needle, hay, at);
    }
}

proof fn lemma_reading(needle: Seq<char>, hay: Seq<char>)
    requires
        is_subsequence_of(needle, hay),
    ensures
        exists|at: Seq<int>| #[trigger] reads_at(needle, hay, at),
    decreases needle.len(),
{
    if needle.len() == 0 {
        assert(reads_at(needle, hay, Seq::<int>::empty()));
    } else {
        let first = crate::text::pos(hay, needle[0]);
        crate::text::lemma_pos(hay, needle[0]);
        let less = needle.skip(1);
        let rest = hay.skip(first + 1);
        lemma_reading(less, rest);
        let tail = choose|at: Seq<int>| #[trigger] reads_at(less, rest, at);
        let at = Seq::new(
            needle.len(),
            |i: int|
                if i == 0 {
                    first
                } else {
                    tail[i - 1] + first + 1
                },
        );
        assert forall|i: int| 0 <= i < at.len() implies 0 <= #[trigger] at[i] < hay.len()
            && hay[at[i]] == needle[i] by {
            if i > 0 {
                assert(0 <= tail[i - 1] < rest.len());
                assert(rest[tail[i - 1]] == less[i - 1]);
            }
        }
        assert forall|i: int, j: int| 0 <= i < j < at.len() implies #[trigger] at[i]
            < #[trigger] at[j] by {
            assert(0 <= tail[j - 1]);
            if i > 0 {
                assert(tail[i - 1] < tail[j - 1]);
            }
        }
        assert(reads_at(needle, hay, at));
    }
}

proof fn lemma_reading_is_found(needle: Seq<char>, hay: Seq<char>, at: Seq<int>)
    requires
        reads_at(needle, hay, at),
    ensures
        is_subsequence_of(needle, hay),
    decreases needle.len(),
{
    if needle.len() > 0 {
        let first = crate::text::pos(hay, needle[0]);
        crate::text::lemma_pos(hay, needle[0]);
        assert(hay[at[0]] == needle[0]);
        assert(first <= at[0]);
        let less = needle.skip(1);
        let rest = hay.skip(first + 1);
        let tail = Seq::new(less.len(), |i: int| at[i + 1] - first - 1);
        assert forall|i: int| 0 <= i < tail.len() implies 0 <= #[trigger] tail[i] < rest.len()
            && rest[tail[i]] == less[i] by {
            assert(at[0] < at[i + 1]);
            assert(hay[at[i + 1]] == needle[i + 1]);
        }
        assert forall|i: int, j: int| 0 <= i < j < tail.len() implies #[trigger] tail[i]
            < #[trigger] tail[j] by {
            assert(at[i + 1] < at[j + 1]);
        }
        lemma_reading_is_found(less, rest, tail);
    }
}

/// Toggling a filter turns it on if it was off and off if it was on, and leaves
/// the others as they were; toggling one that was off twice gives back the list.
#[verifier::spinoff_prover]
#[verifier::rlimit(60)]
pub proof fn law_toggle(filters: Seq<Filter>, f: Filter, g: Filter)
    requires
        forall|i: int, j: int| 0 <= i < j < filters.len() ==> filters[i] != filters[j],
    ensures
        toggled_filters(filters, f).contains(f) <==> !filters.contains(f),
        g != f ==> (toggled_filters(filters, f).contains(g) <==> filters.contains(g)),
        !filters.contains(f) ==> toggled_filters(toggled_filters(filters, f), f) == filters,
{
    let out = toggled_filters(filters, f);
    lemma_place_from(filters, f, 0);
    match place_from(filters, f, 0) {
        Some(i) => {
            assert(filters[i] == f);
            if out.contains(f) {
                let k = choose|k: int| 0 <= k < out.len() && out[k] == f;
                assert(filters[if k < i { k } else { k + 1 }] == f);
            }
            if g != f {
                if out.contains(g) {
                    let k = choose|k: int| 0 <= k < out.len() && out[k] == g;
                    assert(filters[if k < i { k } else { k + 1 }] == g);
                }
                if filters.contains(g) {
                    let k = choose|k: int| 0 <= k < filters.len() && filters[k] == g;
                    assert(out[if k < i { k } else { k - 1 }] == g);
                }
            }
        },
        None => {
            assert(out[filters.len() as int] == f);
            if g != f {
                if out.contains(g) {
                    let k = choose|k: int| 0 <= k < out.len() && out[k] == g;
                    assert(filters[k] == g);
                }
                if filters.contains(g) {
                    let k = choose|k: int| 0 <= k < filters.len() && filters[k] == g;
                    assert(out[k] == g);
                }
            }
            lemma_place_from(out, f, 0);
            let k = place_from(out, f, 0)->0;
            if k < filters.len() {
                assert(filters[k] == f);
            }
            assert(out.remove(filters.len() as int) =~= filters);
        },
    }
}

proof fn lemma_chosen(query: &Query, repos: Seq<RepoStatus>, now: int, n: int)
    requires
        0 <= n <= repos.len(),
    ensures
        forall|k: int|
            0 <= k < query.chosen(repos, now, n).len() ==> 0 <= #[trigger] query.chosen(
                repos,
                now,
                n,
            )[k] < n,
        forall|i: int| #[trigger]
            query.chosen(repos, now, n).contains(i) <==> 0 <= i < n && query.selects(
                &repos[i],
                now,
            ),
        forall|a: int, b: int|
            0 <= a < b < query.chosen(repos, now, n).len() ==> query.chosen(repos, now, n)[a]
                < query.chosen(repos, now, n)[b],
    decreases n,
{
    if n > 0 {
        lemma_chosen(query, repos, now, n - 1);
        let prev = query.chosen(repos, now, n - 1);
        let out = query.chosen(repos, now, n);
        assert forall|i: int| #[trigger]
            out.contains(i) <==> 0 <= i < n && query.selects(&repos[i], now) by {
            assert(prev.contains(i) <==> 0 <= i < n - 1 && query.selects(&repos[i], now));
            if out.contains(i) {
                let k = choose|k: int| 0 <= k < out.len() && out[k] == i;
                if k < prev.len() {
                    assert(prev[k] == i);
                }
            }
            if prev.contains(i) {
                let k = choose|k: int| 0 <= k < prev.len() && prev[k] == i;
                assert(out[k] == i);
            }
            if i == n - 1 && query.selects(&repos[i], now) {
                assert(out[prev.len() as int] == i);
            }
        }
    }
}

proof fn lemma_last_at(repos: Seq<RepoStatus>, i: int, n: int)
    requires
        0 <= i < n <= repos.len(),
        forall|a: int, b: int|
            0 <= a < b < repos.len() ==> !crate::pathname::same_path(
                (#[trigger] repos[a]).root@,
                (#[trigger] repos[b]).root@,
            ),
    ensures
        last_at(repos, repos[i].root@, n) == i,
    decreases n,
{
    if n - 1 > i {
        let a = repos[i];
        let b = repos[n - 1];
        assert(!crate::pathname::same_path(repos[i].root@, repos[n - 1].root@));
        lemma_last_at(repos, i, n - 1);
    }
}

/// Where no two repos share a path, a query answers with exactly the repos it
/// selects, each once, in the order its sort key asks for.
pub proof fn law_answer_is_the_selection(query: &Query, repos: Seq<RepoStatus>, now: int)
    requires
        forall|a: int, b: int|
            0 <= a < b < repos.len() ==> !crate::pathname::same_path(
                (#[trigger] repos[a]).root@,
                (#[trigger] repos[b]).root@,
            ),
    ensures
        forall|i: int| #[trigger]
            query.answer(repos, now).contains(i) <==> 0 <= i < repos.len() && query.selects(
                &repos[i],
                now,
            ),
        forall|a: int, b: int|
            0 <= a < b < query.answer(repos, now).len() ==> query.answer(repos, now)[a]
                != query.answer(repos, now)[b],
        forall|a: int, b: int|
            0 <= a < b < query.answer(repos, now).len() ==> crate::order::before(
                sort_rows(query.sort, &repos[#[trigger] query.answer(repos, now)[a]]),
                sort_rows(query.sort, &repos[#[trigger] query.answer(repos, now)[b]]),
                query.sort.descends() != query.reverse,
            ) || sort_rows(query.sort, &repos[query.answer(repos, now)[a]]) == sort_rows(
                query.sort,
                &repos[query.answer(repos, now)[b]],
            ),
{
    let chosen = query.chosen(repos, now, repos.len() as int);
    let keys = chosen.map_values(|i: int| sort_rows(query.sort, &repos[i]));
    let desc = query.sort.descends() != query.reverse;
    let order = crate::order::stable_order(keys, desc);
    let ranked = query.ranked(repos, now);
    let answer = query.answer(repos, now);
    lemma_chosen(query, repos, now, repos.len() as int);
    crate::order::law_stable_order(keys, desc);
    assert(keys.len() == chosen.len());
    assert forall|k: int| 0 <= k < answer.len() implies #[trigger] answer[k] == chosen[order[k]] by {
        assert(0 <= order[k] < chosen.len());
        assert(ranked[k] == chosen[order[k]]);
        lemma_last_at(repos, ranked[k], repos.len() as int);
    }
    assert forall|i: int| #[trigger]
        answer.contains(i) <==> 0 <= i < repos.len() && query.selects(&repos[i], now) by {
        assert(chosen.contains(i) <==> 0 <= i < repos.len() && query.selects(&repos[i], now));
        if answer.contains(i) {
            let k = choose|k: int| 0 <= k < answer.len() && answer[k] == i;
            assert(0 <= order[k] < chosen.len());
            assert(chosen[order[k]] == i);
        }
        if chosen.contains(i) {
            let m = choose|m: int| 0 <= m < chosen.len() && chosen[m] == i;
            assert(order.contains(m));
            let k = choose|k: int| 0 <= k < order.len() && order[k] == m;
            assert(answer[k] == i);
        }
    }
    assert forall|a: int, b: int| 0 <= a < b < answer.len() implies answer[a] != answer[b] by {
        assert(order[a] != order[b]);
        let x = order[a];
        let y = order[b];
        assert(0 <= x < chosen.len() && 0 <= y < chosen.len());
        if x < y {
            assert(chosen[x] < chosen[y]);
        } else {
            assert(chosen[y] < chosen[x]);
        }
    }
    assert forall|a: int, b: int| 0 <= a < b < answer.len() implies crate::order::before(
        sort_rows(query.sort, &repos[#[trigger] answer[a]]),
        sort_rows(query.sort, &repos[#[trigger] answer[b]]),
        desc,
    ) || sort_rows(query.sort, &repos[answer[a]]) == sort_rows(
        query.sort,
        &repos[answer[b]],
    ) by {
        assert(0 <= order[a] < chosen.len() && 0 <= order[b] < chosen.len());
        assert(keys[order[a]] == sort_rows(query.sort, &repos[answer[a]]));
        assert(keys[order[b]] == sort_rows(query.sort, &repos[answer[b]]));
    }
}

/// Two lists of keys that compare alike sort alike.
proof fn lemma_same_order(a: Seq<Seq<Seq<i64>>>, b: Seq<Seq<Seq<i64>>>, desc: bool, n: int)
    requires
        a.len() == b.len(),
        0 <= n <= a.len(),
        forall|i: int, j: int|
            0 <= i < a.len() && 0 <= j < a.len() ==> crate::order::before(a[i], a[j], desc)
                == crate::order::before(b[i], b[j], desc),
    ensures
        crate::order::order_upto(a, desc, n) == crate::order::order_upto(b, desc, n),
    decreases n,
{
    if n > 0 {
        lemma_same_order(a, b, desc, n - 1);
        crate::order::lemma_order_upto(a, desc, n - 1);
        lemma_same_insert(a, b, desc, crate::order::order_upto(a, desc, n - 1), n - 1);
    }
}

proof fn lemma_same_insert(
    a: Seq<Seq<Seq<i64>>>,
    b: Seq<Seq<Seq<i64>>>,
    desc: bool,
    order: Seq<int>,
    i: int,
)
    requires
        a.len() == b.len(),
        0 <= i < a.len(),
        forall|i: int, j: int|
            0 <= i < a.len() && 0 <= j < a.len() ==> crate::order::before(a[i], a[j], desc)
                == crate::order::before(b[i], b[j], desc),
        forall|k: int| 0 <= k < order.len() ==> 0 <= #[trigger] order[k] < a.len(),
    ensures
        crate::order::insert_index(order, a, desc, i) == crate::order::insert_index(
            order,
            b,
            desc,
            i,
        ),
    decreases order.len(),
{
    if order.len() > 0 {
        let last = order[order.len() - 1];
        assert(0 <= last < a.len());
        assert(crate::order::before(a[i], a[last], desc) == crate::order::before(
            b[i],
            b[last],
            desc,
        ));
        let init = order.take(order.len() - 1);
        assert forall|k: int| 0 <= k < init.len() implies 0 <= #[trigger] init[k] < a.len() by {
            assert(init[k] == order[k]);
        }
        lemma_same_insert(a, b, desc, init, i);
    }
}

proof fn lemma_no_visibility_key(a: &RepoStatus, b: &RepoStatus)
    requires
        visibility_rank_of(a) == 0,
        visibility_rank_of(b) == 0,
    ensures
        crate::order::key_less(sort_rows(Sort::Visibility, a), sort_rows(Sort::Visibility, b))
            == crate::order::key_less(sort_rows(Sort::Activity, a), sort_rows(Sort::Activity, b)),
{
    let va = sort_rows(Sort::Visibility, a);
    let vb = sort_rows(Sort::Visibility, b);
    let aa = sort_rows(Sort::Activity, a);
    let ab = sort_rows(Sort::Activity, b);
    assert(va[0] == vb[0]);
    assert(va.skip(1) =~= tie_rows(a));
    assert(vb.skip(1) =~= tie_rows(b));
    assert(aa.skip(1) =~= tie_rows(a));
    assert(ab.skip(1) =~= tie_rows(b));
    assert(aa[0] == tie_rows(a)[0]);
    assert(ab[0] == tie_rows(b)[0]);
    assert(tie_rows(a).len() > 0 && tie_rows(b).len() > 0);
    assert(crate::order::key_less(va, vb) == crate::order::key_less(tie_rows(a), tie_rows(b)));
    if aa[0] != ab[0] {
        assert(crate::order::key_less(tie_rows(a), tie_rows(b)) == crate::order::row_less(
            aa[0],
            ab[0],
        ));
    } else {
        assert(crate::order::key_less(aa, ab) == crate::order::key_less(aa.skip(1), ab.skip(1)));
    }
}

/// Until a check has told repos apart, sorting by visibility is sorting by
/// activity: whoever never turned checking on sees nothing move.
pub proof fn law_visibility_sort_is_a_no_op_until_checked(
    repos: Seq<&RepoStatus>,
    reverse: bool,
)
    requires
        forall|i: int| 0 <= i < repos.len() ==> visibility_rank_of(#[trigger] repos[i]) == 0,
    ensures
        crate::order::permute(
            repos,
            crate::order::stable_order(
                ref_keys(repos, Sort::Visibility),
                Sort::Visibility.descends() != reverse,
            ),
        ) == crate::order::permute(
            repos,
            crate::order::stable_order(
                ref_keys(repos, Sort::Activity),
                Sort::Activity.descends() != reverse,
            ),
        ),
{
    let a = ref_keys(repos, Sort::Visibility);
    let b = ref_keys(repos, Sort::Activity);
    let desc = !reverse;
    assert forall|i: int, j: int|
        0 <= i < a.len() && 0 <= j < a.len() implies crate::order::before(a[i], a[j], desc)
        == crate::order::before(b[i], b[j], desc) by {
        let x = repos[i];
        let y = repos[j];
        lemma_no_visibility_key(x, y);
        lemma_no_visibility_key(y, x);
    }
    lemma_same_order(a, b, desc, a.len() as int);
}

/// What a sort key leaves undecided is decided by activity and then by path: only one
/// path can tie with itself.
pub proof fn law_ties_are_settled_by_path(sort: Sort, a: &RepoStatus, b: &RepoStatus)
    requires
        sort_rows(sort, a) == sort_rows(sort, b),
    ensures
        crate::pathname::same_path(a.root@, b.root@),
{
    let n = primary_rows(sort, a).len() as int;
    assert(primary_rows(sort, b).len() == n);
    assert(sort_rows(sort, a).skip(n) =~= tie_rows(a));
    assert(sort_rows(sort, b).skip(n) =~= tie_rows(b));
    assert(tie_rows(a).skip(1) =~= crate::pathname::path_rows(a.root@));
    assert(tie_rows(b).skip(1) =~= crate::pathname::path_rows(b.root@));
    crate::pathname::law_path_rows_identify_paths(a.root@, b.root@);
}

/// The repos in the order a sort key asks for.
pub open spec fn sorted_repos(repos: Seq<&RepoStatus>, sort: Sort, reverse: bool) -> Seq<
    &RepoStatus,
> {
    crate::order::permute(
        repos,
        crate::order::stable_order(ref_keys(repos, sort), sort.descends() != reverse),
    )
}

/// Whether no path stands for two different repos.
pub open spec fn one_repo_a_path(repos: Seq<&RepoStatus>) -> bool {
    forall|i: int, j: int|
        #![trigger repos[i], repos[j]]
        0 <= i < repos.len() && 0 <= j < repos.len() && crate::pathname::same_path(
            repos[i].root@,
            repos[j].root@,
        ) ==> repos[i] == repos[j]
}

/// Sorting gives one result, in whatever order the repos come.
pub proof fn law_sorting_ignores_the_order_given(
    a: Seq<&RepoStatus>,
    b: Seq<&RepoStatus>,
    sort: Sort,
    reverse: bool,
)
    requires
        a.to_multiset() == b.to_multiset(),
        one_repo_a_path(a),
    ensures
        sorted_repos(a, sort, reverse) == sorted_repos(b, sort, reverse),
{
    let key = |r: &RepoStatus| sort_rows(sort, r);
    let desc = sort.descends() != reverse;
    assert(ref_keys(a, sort) =~= a.map_values(key));
    assert(ref_keys(b, sort) =~= b.map_values(key));
    lemma_told_apart(a, sort);
    crate::order::lemma_stably_sorted(a, key, desc);
    crate::order::lemma_stably_sorted(b, key, desc);
    crate::order::lemma_sorted_in_one_way(
        sorted_repos(a, sort, reverse),
        sorted_repos(b, sort, reverse),
        key,
        desc,
    );
}

/// Reversing a sort turns its result round, ties and all.
pub proof fn law_reversing_turns_the_result_round(
    repos: Seq<&RepoStatus>,
    sort: Sort,
    reverse: bool,
)
    requires
        one_repo_a_path(repos),
    ensures
        sorted_repos(repos, sort, !reverse) == sorted_repos(repos, sort, reverse).reverse(),
{
    let key = |r: &RepoStatus| sort_rows(sort, r);
    let desc = sort.descends() != reverse;
    let out = sorted_repos(repos, sort, reverse);
    let round = out.reverse();
    assert(ref_keys(repos, sort) =~= repos.map_values(key));
    lemma_told_apart(repos, sort);
    crate::order::lemma_stably_sorted(repos, key, desc);
    crate::order::lemma_stably_sorted(repos, key, !desc);
    crate::order::lemma_reverse_multiset(out);
    assert(crate::order::sorted_by(round, key, !desc)) by {
        assert forall|i: int, j: int|
            #![trigger round[i], round[j]]
            0 <= i < j < round.len() implies crate::order::before(
            key(round[i]),
            key(round[j]),
            !desc,
        ) || key(round[i]) == key(round[j]) by {
            assert(round[i] == out[out.len() - 1 - i] && round[j] == out[out.len() - 1 - j]);
        }
    }
    assert(crate::order::told_apart(round, key)) by {
        assert forall|i: int, j: int|
            #![trigger round[i], round[j]]
            0 <= i < round.len() && 0 <= j < round.len() && key(round[i]) == key(
                round[j],
            ) implies round[i] == round[j] by {
            assert(round[i] == out[out.len() - 1 - i] && round[j] == out[out.len() - 1 - j]);
        }
    }
    crate::order::lemma_sorted_in_one_way(
        round,
        sorted_repos(repos, sort, !reverse),
        key,
        !desc,
    );
}

proof fn lemma_told_apart(repos: Seq<&RepoStatus>, sort: Sort)
    requires
        one_repo_a_path(repos),
    ensures
        crate::order::told_apart(repos, |r: &RepoStatus| sort_rows(sort, r)),
{
    assert forall|i: int, j: int|
        #![trigger repos[i], repos[j]]
        0 <= i < repos.len() && 0 <= j < repos.len() && sort_rows(sort, repos[i]) == sort_rows(
            sort,
            repos[j],
        ) implies repos[i] == repos[j] by {
        law_ties_are_settled_by_path(sort, repos[i], repos[j]);
    }
}

/// Every filter is reached by its own label.
pub proof fn law_filter_labels_round_trip(f: Filter)
    ensures
        Filter::meaning(f.label_text()) == Some(f),
{
    reveal_strlit("dirty");
    reveal_strlit("unpushed");
    reveal_strlit("unreleased");
    reveal_strlit("needs-release");
    reveal_strlit("released");
    reveal_strlit("held");
    reveal_strlit("behind");
    reveal_strlit("conflicted");
    reveal_strlit("in-progress");
    reveal_strlit("detached");
    reveal_strlit("no-remote");
    reveal_strlit("no-upstream");
    reveal_strlit("stashed");
    reveal_strlit("clean");
    reveal_strlit("error");
    reveal_strlit("public");
    reveal_strlit("private");
    let k = f.label_text();
    crate::text::lemma_trim_is(k);
    assert(dashed_key(k) =~= k) by {
        assert(crate::text::lowercase(k) =~= k);
        assert(crate::text::replaced(k, '_', '-') =~= k);
    }
    assert(filter_from(k, 0) == Some(f)) by {
        reveal_with_fuel(filter_from, 18);
        assert forall|d: Filter| #[trigger] d.label_text() == k implies d == f by {
            let a = d.label_text();
            assert(a.len() == k.len());
            assert(a[0] == k[0] && a[1] == k[1] && a[2] == k[2] && a[3] == k[3]);
        }
    }
}

/// Every sort key is reached by its own label.
pub proof fn law_sort_labels_round_trip(s: Sort)
    ensures
        Sort::meaning(s.label_text()) == Some(s),
{
    reveal_strlit("activity");
    reveal_strlit("name");
    reveal_strlit("group");
    reveal_strlit("changes");
    reveal_strlit("stashes");
    reveal_strlit("unpushed");
    reveal_strlit("behind");
    reveal_strlit("since-tag");
    reveal_strlit("state");
    reveal_strlit("visibility");
    let k = s.label_text();
    crate::text::lemma_trim_is(k);
    assert(dashed_key(k) =~= k) by {
        assert(crate::text::lowercase(k) =~= k);
        assert(crate::text::replaced(k, '_', '-') =~= k);
    }
    assert(sort_from(k, 0) == Some(s)) by {
        reveal_with_fuel(sort_from, 11);
        assert forall|d: Sort| #[trigger] d.label_text() == k implies d == s by {
            let a = d.label_text();
            assert(a.len() == k.len());
            assert(a[0] == k[0] && a[1] == k[1] && a[2] == k[2] && a[3] == k[3]);
        }
    }
}

/// Stepping through the sort keys visits all of them and comes back round; with
/// checking off, all but VISIBILITY.
pub proof fn law_next_cycles(s: Sort, visibility_enabled: bool)
    ensures
        !visibility_enabled ==> s.following(false) != Sort::Visibility,
        visibility_enabled ==> s.following(true).place() == (s.place() + 1) % 10,
        !visibility_enabled && s != Sort::Visibility ==> s.following(false).place() == (s.place()
            + 1) % 9,
{
}

/// Whether a text stands in another from `i` on.
pub open spec fn stands_at(hay: Seq<char>, needle: Seq<char>, i: int) -> bool {
    0 <= i <= hay.len() - needle.len() && hay.subrange(i, i + needle.len()) == needle
}

proof fn lemma_find_stands(hay: Seq<char>, needle: Seq<char>)
    ensures
        (match crate::text::find(hay, needle) {
            Some(i) => stands_at(hay, needle, i) && forall|k: int|
                0 <= k < i ==> !#[trigger] stands_at(hay, needle, k),
            None => forall|k: int| !#[trigger] stands_at(hay, needle, k),
        }),
{
    crate::text::lemma_find_from(hay, needle, 0);
    assert forall|k: int| #[trigger] stands_at(hay, needle, k) implies crate::text::occurs_at(
        hay,
        needle,
        k,
    ) by {}
}

proof fn lemma_ascii_bytes(s: Seq<char>)
    requires
        forall|i: int| 0 <= i < s.len() ==> (#[trigger] s[i] as u32) < 0x80,
    ensures
        crate::text::byte_len(s) == s.len(),
    decreases s.len(),
{
    if s.len() > 0 {
        lemma_ascii_bytes(s.take(s.len() - 1));
    }
}

/// A search always finds a repo that has the text in its name, its slug or its branch,
/// whatever the case and the white space around the text; and it finds no other but those
/// that have the characters of the text in their slug in order.
pub proof fn law_a_search_finds_what_holds_the_text(needle: Seq<char>, repo: &RepoStatus, i: int)
    ensures
        ({
            let n = crate::text::lowercase(crate::text::trim(needle));
            let name = crate::text::lowercase(repo.name@);
            let slug = crate::text::lowercase(repo.slug_text());
            let branch = crate::text::lowercase(repo.branch_text());
            &&& stands_at(name, n, i) || stands_at(slug, n, i) || stands_at(branch, n, i)
                ==> match_score(needle, repo) is Some
            &&& n.len() == 0 ==> match_score(needle, repo) == Some(0int)
            &&& match_score(needle, repo) is Some ==> ({
                ||| exists|k: int| #[trigger] stands_at(name, n, k)
                ||| exists|k: int| #[trigger] stands_at(slug, n, k)
                ||| exists|k: int| #[trigger] stands_at(branch, n, k)
                ||| exists|at: Seq<int>| #[trigger] reads_at(n, slug, at)
            })
            &&& (exists|at: Seq<int>| #[trigger] reads_at(n, slug, at)) ==> match_score(
                needle,
                repo,
            ) is Some
        }),
{
    let n = crate::text::lowercase(crate::text::trim(needle));
    let name = crate::text::lowercase(repo.name@);
    let slug = crate::text::lowercase(repo.slug_text());
    let branch = crate::text::lowercase(repo.branch_text());
    lemma_find_stands(name, n);
    lemma_find_stands(slug, n);
    lemma_find_stands(branch, n);
    law_a_subsequence_is_always_found(n, slug);
    if crate::text::starts_with(name, n) {
        assert(name.subrange(0, n.len() as int) =~= name.take(n.len() as int));
        assert(stands_at(name, n, 0));
    }
    if n.len() == 0 {
        assert(name.subrange(0, 0) =~= n);
        assert(stands_at(name, n, 0));
    }
}

/// Lower is better: a text that starts the name comes first, then one further on in the
/// name, by how far on, then one in the slug, by how far on, then one in the branch, and
/// last one whose characters are only there in order. The two that go by how far on are
/// told where nothing in front is longer than a byte.
pub proof fn law_the_closer_the_match_the_lower_the_score(
    needle: Seq<char>,
    repo: &RepoStatus,
    i: int,
)
    ensures
        ({
            let n = crate::text::lowercase(crate::text::trim(needle));
            let name = crate::text::lowercase(repo.name@);
            let slug = crate::text::lowercase(repo.slug_text());
            let branch = crate::text::lowercase(repo.branch_text());
            let in_name = exists|k: int| #[trigger] stands_at(name, n, k);
            let in_slug = exists|k: int| #[trigger] stands_at(slug, n, k);
            let in_branch = exists|k: int| #[trigger] stands_at(branch, n, k);
            &&& stands_at(name, n, 0) ==> match_score(needle, repo) == Some(0int)
            &&& !stands_at(name, n, 0) && stands_at(name, n, i) && (forall|k: int|
                0 <= k < i ==> !#[trigger] stands_at(name, n, k)) && (forall|k: int|
                0 <= k < i ==> (#[trigger] name[k] as u32) < 0x80) ==> match_score(needle, repo)
                == Some((10 + i) % 0x1_0000_0000)
            &&& !in_name && stands_at(slug, n, i) && (forall|k: int|
                0 <= k < i ==> !#[trigger] stands_at(slug, n, k)) && (forall|k: int|
                0 <= k < i ==> (#[trigger] slug[k] as u32) < 0x80) ==> match_score(needle, repo)
                == Some((100 + i) % 0x1_0000_0000)
            &&& !in_name && !in_slug && in_branch ==> match_score(needle, repo) == Some(500int)
            &&& !in_name && !in_slug && !in_branch && match_score(needle, repo) is Some
                ==> match_score(needle, repo) == Some(1_000int)
        }),
{
    let n = crate::text::lowercase(crate::text::trim(needle));
    let name = crate::text::lowercase(repo.name@);
    let slug = crate::text::lowercase(repo.slug_text());
    let branch = crate::text::lowercase(repo.branch_text());
    lemma_find_stands(name, n);
    lemma_find_stands(slug, n);
    lemma_find_stands(branch, n);
    if crate::text::starts_with(name, n) || stands_at(name, n, 0) {
        assert(name.subrange(0, n.len() as int) =~= name.take(n.len() as int));
        assert(stands_at(name, n, 0));
    }
    if n.len() == 0 {
        assert(name.subrange(0, 0) =~= n);
        assert(stands_at(name, n, 0));
    }
    if stands_at(name, n, i) && (forall|k: int| 0 <= k < i ==> (#[trigger] name[k] as u32) < 0x80) {
        assert forall|k: int| 0 <= k < name.take(i).len() implies (#[trigger] name.take(i)[k] as u32)
            < 0x80 by {
            assert(name.take(i)[k] == name[k]);
        }
        lemma_ascii_bytes(name.take(i));
    }
    if stands_at(slug, n, i) && (forall|k: int| 0 <= k < i ==> (#[trigger] slug[k] as u32) < 0x80) {
        assert forall|k: int| 0 <= k < slug.take(i).len() implies (#[trigger] slug.take(i)[k] as u32)
            < 0x80 by {
            assert(slug.take(i)[k] == slug[k]);
        }
        lemma_ascii_bytes(slug.take(i));
    }
}

/// What each filter keeps. A repo is in one release state, so one of the four release
/// filters keeps it and the others do not; a repo with nothing outstanding is kept by
/// `clean` and by none of those that say what is.
pub proof fn law_a_filter_keeps_what_it_names(repo: &RepoStatus)
    ensures
        Filter::Dirty.holds(repo) <==> crate::model::has_changes(repo.work),
        Filter::Unpushed.holds(repo) <==> repo.unpushed_count() > 0,
        Filter::Behind.holds(repo) <==> repo.behind_count() > 0,
        Filter::Conflicted.holds(repo) <==> repo.work is Some && repo.work->0.conflicts > 0,
        Filter::InProgress.holds(repo) <==> repo.refs is Some && repo.refs->0.operation is Some,
        Filter::Detached.holds(repo) <==> repo.refs is Some && repo.refs->0.head is Detached,
        Filter::NoRemote.holds(repo) <==> repo.refs is Some && repo.refs->0.remote_url is None,
        Filter::NoUpstream.holds(repo) <==> repo.refs is Some && repo.refs->0.current() is Some
            && repo.refs->0.current()->0.upstream is None,
        Filter::Stashed.holds(repo) <==> repo.refs is Some && repo.refs->0.stashes > 0,
        Filter::Error.holds(repo) <==> repo.error is Some,
        Filter::Clean.holds(repo) <==> !Filter::Dirty.holds(repo) && !Filter::Unpushed.holds(repo)
            && !Filter::Conflicted.holds(repo) && !Filter::InProgress.holds(repo)
            && !Filter::Error.holds(repo),
        Filter::Unreleased.holds(repo) <==> repo.state() == ReleaseState::Unreleased,
        Filter::NeedsRelease.holds(repo) <==> repo.state() == ReleaseState::NeedsRelease,
        Filter::Released.holds(repo) <==> repo.state() == ReleaseState::Released,
        Filter::Held.holds(repo) <==> repo.state() == ReleaseState::Held,
        Filter::Public.holds(repo) ==> !Filter::Private.holds(repo),
        Filter::Public.holds(repo) <==> repo.visibility is Some && repo.visibility->0.status
            == VisibilityStatus::Known(Visibility::Public),
        repo.visibility is Some && (repo.visibility->0.status == VisibilityStatus::Known(
            Visibility::Private,
        ) || repo.visibility->0.status == VisibilityStatus::Known(Visibility::Internal))
            <==> Filter::Private.holds(repo),
{
}

/// With no filters everything passes; with "any", what some filter of the list keeps; with
/// "all", what every filter of the list keeps.
pub proof fn law_any_asks_for_one_and_all_for_every(filters: Seq<Filter>, repo: &RepoStatus)
    ensures
        filters.len() == 0 ==> passes_list(filters, MatchMode::Any, repo) && passes_list(
            filters,
            MatchMode::All,
            repo,
        ),
        filters.len() > 0 ==> (passes_list(filters, MatchMode::Any, repo) <==> exists|f: Filter|
            #[trigger] filters.contains(f) && f.holds(repo)),
        passes_list(filters, MatchMode::All, repo) <==> forall|f: Filter| #[trigger]
            filters.contains(f) ==> f.holds(repo),
{
    if filters.len() > 0 && passes_list(filters, MatchMode::Any, repo) {
        let i = choose|i: int| 0 <= i < filters.len() && (#[trigger] filters[i]).holds(repo);
        assert(filters.contains(filters[i]));
    }
    if exists|f: Filter| #[trigger] filters.contains(f) && f.holds(repo) {
        let f = choose|f: Filter| #[trigger] filters.contains(f) && f.holds(repo);
        let i = choose|i: int| 0 <= i < filters.len() && filters[i] == f;
        assert(filters[i].holds(repo));
    }
    if forall|f: Filter| #[trigger] filters.contains(f) ==> f.holds(repo) {
        assert forall|i: int| 0 <= i < filters.len() implies (#[trigger] filters[i]).holds(
            repo,
        ) by {
            assert(filters.contains(filters[i]));
        }
    }
}

/// A filter goes by its name on the command line, in either case, with white space around
/// it, and with underscores for its dashes.
pub proof fn law_a_filter_goes_by_its_name(s: Seq<char>)
    ensures
        ({
            let key = crate::text::replaced(
                crate::text::lowercase(crate::text::trim(s)),
                '_',
                '-',
            );
            &&& key == "dirty"@ ==> Filter::meaning(s) == Some(Filter::Dirty)
            &&& key == "unpushed"@ ==> Filter::meaning(s) == Some(Filter::Unpushed)
            &&& key == "unreleased"@ ==> Filter::meaning(s) == Some(Filter::Unreleased)
            &&& key == "needs-release"@ ==> Filter::meaning(s) == Some(Filter::NeedsRelease)
            &&& key == "released"@ ==> Filter::meaning(s) == Some(Filter::Released)
            &&& key == "held"@ ==> Filter::meaning(s) == Some(Filter::Held)
            &&& key == "behind"@ ==> Filter::meaning(s) == Some(Filter::Behind)
            &&& key == "conflicted"@ ==> Filter::meaning(s) == Some(Filter::Conflicted)
            &&& key == "in-progress"@ ==> Filter::meaning(s) == Some(Filter::InProgress)
            &&& key == "detached"@ ==> Filter::meaning(s) == Some(Filter::Detached)
            &&& key == "no-remote"@ ==> Filter::meaning(s) == Some(Filter::NoRemote)
            &&& key == "no-upstream"@ ==> Filter::meaning(s) == Some(Filter::NoUpstream)
            &&& key == "stashed"@ ==> Filter::meaning(s) == Some(Filter::Stashed)
            &&& key == "clean"@ ==> Filter::meaning(s) == Some(Filter::Clean)
            &&& key == "error"@ ==> Filter::meaning(s) == Some(Filter::Error)
            &&& key == "public"@ ==> Filter::meaning(s) == Some(Filter::Public)
            &&& key == "private"@ ==> Filter::meaning(s) == Some(Filter::Private)
            &&& Filter::meaning(s) matches Some(f) ==> f.label_text() == key
        }),
{
    let key = dashed_key(s);
    lemma_filter_from(key, 0);
    assert forall|f: Filter| #[trigger] f.label_text() == key implies Filter::meaning(s) == Some(
        f,
    ) by {
        law_filter_labels_round_trip(f);
        lemma_label_is_its_key(f);
    }
    assert(Filter::Dirty.label_text() == "dirty"@);
    assert(Filter::Unpushed.label_text() == "unpushed"@);
    assert(Filter::Unreleased.label_text() == "unreleased"@);
    assert(Filter::NeedsRelease.label_text() == "needs-release"@);
    assert(Filter::Released.label_text() == "released"@);
    assert(Filter::Held.label_text() == "held"@);
    assert(Filter::Behind.label_text() == "behind"@);
    assert(Filter::Conflicted.label_text() == "conflicted"@);
    assert(Filter::InProgress.label_text() == "in-progress"@);
    assert(Filter::Detached.label_text() == "detached"@);
    assert(Filter::NoRemote.label_text() == "no-remote"@);
    assert(Filter::NoUpstream.label_text() == "no-upstream"@);
    assert(Filter::Stashed.label_text() == "stashed"@);
    assert(Filter::Clean.label_text() == "clean"@);
    assert(Filter::Error.label_text() == "error"@);
    assert(Filter::Public.label_text() == "public"@);
    assert(Filter::Private.label_text() == "private"@);
}

proof fn lemma_filter_from(key: Seq<char>, i: int)
    requires
        0 <= i <= 17,
    ensures
        filter_from(key, i) matches Some(f) ==> f.label_text() == key,
    decreases 17 - i,
{
    if i < 17 {
        lemma_filter_from(key, i + 1);
    }
}

proof fn lemma_label_is_its_key(f: Filter)
    ensures
        dashed_key(f.label_text()) == f.label_text(),
{
    reveal_strlit("dirty");
    reveal_strlit("unpushed");
    reveal_strlit("unreleased");
    reveal_strlit("needs-release");
    reveal_strlit("released");
    reveal_strlit("held");
    reveal_strlit("behind");
    reveal_strlit("conflicted");
    reveal_strlit("in-progress");
    reveal_strlit("detached");
    reveal_strlit("no-remote");
    reveal_strlit("no-upstream");
    reveal_strlit("stashed");
    reveal_strlit("clean");
    reveal_strlit("error");
    reveal_strlit("public");
    reveal_strlit("private");
    let k = f.label_text();
    crate::text::lemma_trim_is(k);
    assert(dashed_key(k) =~= k);
}

/// Filters are widened by "any" or "or" and narrowed by "all" or "and", in either case and
/// with white space around the word; no other word is a mode.
pub proof fn law_a_mode_goes_by_two_words(s: Seq<char>)
    ensures
        ({
            let key = crate::text::lowercase(crate::text::trim(s));
            &&& MatchMode::meaning(s) == Some(MatchMode::Any) <==> key == "any"@ || key == "or"@
            &&& MatchMode::meaning(s) == Some(MatchMode::All) <==> key == "all"@ || key == "and"@
            &&& MatchMode::meaning(MatchMode::Any.label_text()) == Some(MatchMode::Any)
            &&& MatchMode::meaning(MatchMode::All.label_text()) == Some(MatchMode::All)
        }),
{
    reveal_strlit("any");
    reveal_strlit("or");
    reveal_strlit("all");
    reveal_strlit("and");
    assert("any"@[1] == 'n' && "all"@[1] == 'l' && "and"@[1] == 'n');
    assert("any"@[2] == 'y' && "and"@[2] == 'd');
    assert("or"@.len() == 2);
    crate::text::lemma_trim_is("any"@);
    crate::text::lemma_trim_is("all"@);
    assert(crate::text::lowercase("any"@) =~= "any"@);
    assert(crate::text::lowercase("all"@) =~= "all"@);
}

/// A sort key goes by its name on the command line, in either case, with white space
/// around it, and with underscores for its dashes.
pub proof fn law_a_sort_key_goes_by_its_name(s: Seq<char>)
    ensures
        ({
            let key = crate::text::replaced(
                crate::text::lowercase(crate::text::trim(s)),
                '_',
                '-',
            );
            &&& key == "activity"@ ==> Sort::meaning(s) == Some(Sort::Activity)
            &&& key == "name"@ ==> Sort::meaning(s) == Some(Sort::Name)
            &&& key == "group"@ ==> Sort::meaning(s) == Some(Sort::Group)
            &&& key == "changes"@ ==> Sort::meaning(s) == Some(Sort::Dirty)
            &&& key == "stashes"@ ==> Sort::meaning(s) == Some(Sort::Stashes)
            &&& key == "unpushed"@ ==> Sort::meaning(s) == Some(Sort::Ahead)
            &&& key == "behind"@ ==> Sort::meaning(s) == Some(Sort::Behind)
            &&& key == "since-tag"@ ==> Sort::meaning(s) == Some(Sort::SinceTag)
            &&& key == "state"@ ==> Sort::meaning(s) == Some(Sort::State)
            &&& key == "visibility"@ ==> Sort::meaning(s) == Some(Sort::Visibility)
            &&& Sort::meaning(s) matches Some(k) ==> k.label_text() == key
        }),
{
    let key = dashed_key(s);
    lemma_sort_from(key, 0);
    assert forall|k: Sort| #[trigger] k.label_text() == key implies Sort::meaning(s) == Some(k) by {
        law_sort_labels_round_trip(k);
        lemma_sort_label_is_its_key(k);
    }
    assert(Sort::Activity.label_text() == "activity"@);
    assert(Sort::Name.label_text() == "name"@);
    assert(Sort::Group.label_text() == "group"@);
    assert(Sort::Dirty.label_text() == "changes"@);
    assert(Sort::Stashes.label_text() == "stashes"@);
    assert(Sort::Ahead.label_text() == "unpushed"@);
    assert(Sort::Behind.label_text() == "behind"@);
    assert(Sort::SinceTag.label_text() == "since-tag"@);
    assert(Sort::State.label_text() == "state"@);
    assert(Sort::Visibility.label_text() == "visibility"@);
}

proof fn lemma_sort_from(key: Seq<char>, i: int)
    requires
        0 <= i <= 10,
    ensures
        sort_from(key, i) matches Some(k) ==> k.label_text() == key,
    decreases 10 - i,
{
    if i < 10 {
        lemma_sort_from(key, i + 1);
    }
}

proof fn lemma_sort_label_is_its_key(s: Sort)
    ensures
        dashed_key(s.label_text()) == s.label_text(),
{
    reveal_strlit("activity");
    reveal_strlit("name");
    reveal_strlit("group");
    reveal_strlit("changes");
    reveal_strlit("stashes");
    reveal_strlit("unpushed");
    reveal_strlit("behind");
    reveal_strlit("since-tag");
    reveal_strlit("state");
    reveal_strlit("visibility");
    let k = s.label_text();
    crate::text::lemma_trim_is(k);
    assert(dashed_key(k) =~= k);
}

/// A query keeps a repo that is in the group it names, in either case, was touched within
/// its window, matches its search, and passes its filters; what it does not name does not
/// narrow.
pub proof fn law_a_query_narrows_by_all_it_names(query: &Query, repo: &RepoStatus, now: int)
    requires
        query.since matches Some(d) ==> d.secs <= i64::MAX && i64::MIN <= now - d.secs <= i64::MAX,
    ensures
        query.selects(repo, now) <==> ({
            &&& query.group is Some ==> repo.group@.len() == query.group->0@.len() && forall|k: int|
                0 <= k < repo.group@.len() ==> crate::text::lower(#[trigger] repo.group@[k])
                    == crate::text::lower(query.group->0@[k])
            &&& query.since is Some ==> repo.last_activity().0 >= now - query.since->0.secs
            &&& query.search@.len() == 0 || match_score(query.search@, repo) is Some
            &&& passes_list(query.filters@, query.match_mode, repo)
        }),
{
    if let Some(g) = query.group {
        let (a, b) = (repo.group@, g@);
        if crate::text::lowercase(a) == crate::text::lowercase(b) {
            assert(a.len() == crate::text::lowercase(a).len());
            assert(b.len() == crate::text::lowercase(b).len());
            assert forall|k: int| 0 <= k < a.len() implies crate::text::lower(#[trigger] a[k])
                == crate::text::lower(b[k]) by {
                assert(crate::text::lowercase(a)[k] == crate::text::lowercase(b)[k]);
            }
        } else if a.len() == b.len() && forall|k: int|
            0 <= k < a.len() ==> crate::text::lower(#[trigger] a[k]) == crate::text::lower(b[k]) {
            assert(crate::text::lowercase(a) =~= crate::text::lowercase(b));
        }
    }
}

/// What a sort key goes by where it is a number.
pub open spec fn measure(sort: Sort, repo: &RepoStatus) -> int {
    match sort {
        Sort::Activity => repo.last_activity().0,
        Sort::Dirty => repo.dirty_count(),
        Sort::Stashes => if repo.refs is Some {
            repo.refs->0.stashes as int
        } else {
            0
        },
        Sort::Ahead => repo.unpushed_count(),
        Sort::Behind => repo.behind_count(),
        Sort::SinceTag => repo.since_tag(),
        Sort::State => urgency(repo),
        Sort::Visibility => closedness(repo),
        Sort::Name | Sort::Group => 0,
    }
}

/// How urgent a repo's state is.
pub open spec fn urgency(repo: &RepoStatus) -> int {
    if repo.error is Some {
        7
    } else if repo.work is Some && repo.work->0.conflicts > 0 {
        6
    } else if repo.refs is Some && repo.refs->0.operation is Some {
        5
    } else if crate::model::has_changes(repo.work) {
        4
    } else if repo.unpushed_count() > 0 {
        3
    } else if repo.state() is NeedsRelease {
        2
    } else if repo.work is None {
        1
    } else {
        0
    }
}

/// How far up a repo goes by its visibility: a failed check, then private, then public,
/// and the rest as one.
pub open spec fn closedness(repo: &RepoStatus) -> int {
    if repo.visibility is None {
        0
    } else if repo.visibility->0.status is CheckFailed {
        3
    } else if repo.visibility->0.status == VisibilityStatus::Known(Visibility::Private) {
        2
    } else if repo.visibility->0.status == VisibilityStatus::Known(Visibility::Public) {
        1
    } else {
        0
    }
}

/// Sorting by a number puts the larger first, and by a name or a group the earlier in the
/// alphabet, case aside; reversing turns that round.
pub proof fn law_a_sort_goes_by_its_key(
    repos: Seq<&RepoStatus>,
    sort: Sort,
    reverse: bool,
    i: int,
    j: int,
)
    requires
        0 <= i < j < repos.len(),
    ensures
        sorted_repos(repos, sort, reverse).len() == repos.len(),
        ({
            let (a, b) = (sorted_repos(repos, sort, reverse)[i], sorted_repos(repos, sort, reverse)[j]);
            let (first, second) = if reverse {
                (b, a)
            } else {
                (a, b)
            };
            match sort {
                Sort::Name => !crate::names::name_less(
                    crate::text::lowercase(second.name@),
                    crate::text::lowercase(first.name@),
                ),
                Sort::Group => !crate::names::name_less(
                    crate::text::lowercase(second.group@),
                    crate::text::lowercase(first.group@),
                ) && (crate::text::lowercase(first.group@) == crate::text::lowercase(second.group@)
                    ==> !crate::names::name_less(
                    crate::text::lowercase(second.name@),
                    crate::text::lowercase(first.name@),
                )),
                _ => measure(sort, first) >= measure(sort, second),
            }
        }),
{
    let key = |r: &RepoStatus| sort_rows(sort, r);
    let desc = sort.descends() != reverse;
    assert(ref_keys(repos, sort) =~= repos.map_values(key));
    crate::order::lemma_stably_sorted(repos, key, desc);
    let out = sorted_repos(repos, sort, reverse);
    let (a, b) = (out[i], out[j]);
    let (ka, kb) = (sort_rows(sort, a), sort_rows(sort, b));
    assert(key(out[i]) == ka && key(out[j]) == kb);
    assert(crate::order::before(ka, kb, desc) || ka == kb);
    crate::order::lemma_row_total(ka[0], kb[0]);
    crate::order::lemma_row_total(kb[0], ka[0]);
    crate::order::lemma_key_total(ka, kb);
    assert(ka[0] == primary_rows(sort, a)[0] && kb[0] == primary_rows(sort, b)[0]);
    if sort == Sort::Name {
        lemma_name_rows(a.name@, b.name@);
        lemma_name_rows(b.name@, a.name@);
    } else if sort == Sort::Group {
        assert(ka[1] == name_row(a.name@) && kb[1] == name_row(b.name@));
        crate::order::lemma_row_total(ka[1], kb[1]);
        crate::order::lemma_row_total(kb[1], ka[1]);
        lemma_name_rows(a.name@, b.name@);
        lemma_name_rows(b.name@, a.name@);
        lemma_name_rows(a.group@, b.group@);
        lemma_name_rows(b.group@, a.group@);
        assert(ka.skip(1)[0] == ka[1] && kb.skip(1)[0] == kb[1]);
        crate::order::lemma_key_total(ka.skip(1), kb.skip(1));
    } else {
        lemma_number_rows(sort, a, b);
    }
}

proof fn lemma_name_rows(a: Seq<char>, b: Seq<char>)
    ensures
        crate::order::row_less(name_row(a), name_row(b)) == crate::names::name_less(
            crate::text::lowercase(a),
            crate::text::lowercase(b),
        ),
        name_row(a) == name_row(b) <==> crate::text::lowercase(a) == crate::text::lowercase(b),
{
    crate::order::lemma_codes_injective(crate::text::lowercase(a), crate::text::lowercase(b));
}

proof fn lemma_number_rows(sort: Sort, a: &RepoStatus, b: &RepoStatus)
    requires
        sort != Sort::Name,
        sort != Sort::Group,
    ensures
        primary_rows(sort, a)[0] == primary_rows(sort, b)[0] ==> measure(sort, a) == measure(
            sort,
            b,
        ),
        crate::order::row_less(primary_rows(sort, a)[0], primary_rows(sort, b)[0]) ==> measure(
            sort,
            a,
        ) < measure(sort, b),
        crate::order::row_less(primary_rows(sort, b)[0], primary_rows(sort, a)[0]) ==> measure(
            sort,
            b,
        ) < measure(sort, a),
{
    reveal_with_fuel(crate::order::row_less, 2);
    lemma_measure(sort, a);
    lemma_measure(sort, b);
    let (x, y) = (primary_rows(sort, a)[0], primary_rows(sort, b)[0]);
    assert(x[0] == measure(sort, a) && y[0] == measure(sort, b));
}

proof fn lemma_measure(sort: Sort, a: &RepoStatus)
    requires
        sort != Sort::Name,
        sort != Sort::Group,
    ensures
        primary_rows(sort, a)[0].len() == 1,
        primary_rows(sort, a)[0][0] == measure(sort, a),
{
    if a.refs is Some && a.refs->0.branches@.len() > 0 {
        crate::model::law_the_newest_commit_is_on_a_branch(a.refs->0.branches@, 0);
    }
}

/// Equal in their key, repos go by last activity and then by path.
pub proof fn law_equal_repos_go_by_activity(
    repos: Seq<&RepoStatus>,
    sort: Sort,
    reverse: bool,
    i: int,
    j: int,
)
    requires
        0 <= i < j < repos.len(),
        primary_rows(sort, sorted_repos(repos, sort, reverse)[i]) == primary_rows(
            sort,
            sorted_repos(repos, sort, reverse)[j],
        ),
    ensures
        ({
            let (a, b) = (sorted_repos(repos, sort, reverse)[i], sorted_repos(repos, sort, reverse)[j]);
            if sort.descends() != reverse {
                a.last_activity().0 >= b.last_activity().0
            } else {
                a.last_activity().0 <= b.last_activity().0
            }
        }),
{
    let key = |r: &RepoStatus| sort_rows(sort, r);
    let desc = sort.descends() != reverse;
    assert(ref_keys(repos, sort) =~= repos.map_values(key));
    crate::order::lemma_stably_sorted(repos, key, desc);
    let out = sorted_repos(repos, sort, reverse);
    let (a, b) = (out[i], out[j]);
    assert(key(out[i]) == sort_rows(sort, a) && key(out[j]) == sort_rows(sort, b));
    assert(crate::order::before(sort_rows(sort, a), sort_rows(sort, b), desc) || sort_rows(sort, a)
        == sort_rows(sort, b));
    lemma_same_front(primary_rows(sort, a), tie_rows(a), tie_rows(b));
    lemma_same_front(primary_rows(sort, a), tie_rows(b), tie_rows(a));
    let (x, y) = (tie_rows(a), tie_rows(b));
    if sort_rows(sort, a) == sort_rows(sort, b) {
        let n = primary_rows(sort, a).len() as int;
        assert(sort_rows(sort, a).skip(n) =~= x);
        assert(sort_rows(sort, b).skip(n) =~= y);
    }
    assert(x[0] == num_row(a.last_activity().0) && y[0] == num_row(b.last_activity().0));
    lemma_measure(Sort::Activity, a);
    lemma_measure(Sort::Activity, b);
    lemma_number_rows(Sort::Activity, a, b);
    assert(primary_rows(Sort::Activity, a)[0] == x[0]);
    assert(primary_rows(Sort::Activity, b)[0] == y[0]);
    crate::order::lemma_row_total(x[0], y[0]);
}

proof fn lemma_same_front(front: Seq<Seq<i64>>, a: Seq<Seq<i64>>, b: Seq<Seq<i64>>)
    requires
        a.len() > 0,
        b.len() > 0,
    ensures
        crate::order::key_less(front + a, front + b) == crate::order::key_less(a, b),
    decreases front.len(),
{
    if front.len() == 0 {
        assert(front + a =~= a && front + b =~= b);
    } else {
        assert((front + a).skip(1) =~= front.skip(1) + a);
        assert((front + b).skip(1) =~= front.skip(1) + b);
        assert((front + a)[0] == (front + b)[0]);
        lemma_same_front(front.skip(1), a, b);
    }
}

/// A query chooses all it selects and no other, each once and in their order; they come
/// out ranked by the key, the best first unless that is turned round.
pub proof fn law_a_query_ranks_what_it_chooses(
    query: &Query,
    repos: Seq<RepoStatus>,
    now: int,
    i: int,
    j: int,
)
    ensures
        query.chosen(repos, now, repos.len() as int).contains(i) <==> 0 <= i < repos.len()
            && query.selects(&repos[i], now),
        query.ranked(repos, now).to_multiset() == query.chosen(
            repos,
            now,
            repos.len() as int,
        ).to_multiset(),
        0 <= i < j < query.ranked(repos, now).len() ==> ({
            let (a, b) = (
                sort_rows(query.sort, &repos[query.ranked(repos, now)[i]]),
                sort_rows(query.sort, &repos[query.ranked(repos, now)[j]]),
            );
            if query.sort.descends() != query.reverse {
                !crate::order::key_less(a, b)
            } else {
                !crate::order::key_less(b, a)
            }
        }),
{
    let chosen = query.chosen(repos, now, repos.len() as int);
    lemma_chosen(query, repos, now, repos.len() as int);
    let key = |k: int| sort_rows(query.sort, &repos[k]);
    let desc = query.sort.descends() != query.reverse;
    assert(chosen.map_values(|k: int| sort_rows(query.sort, &repos[k])) =~= chosen.map_values(key));
    crate::order::lemma_stably_sorted(chosen, key, desc);
    let out = query.ranked(repos, now);
    if 0 <= i < j < out.len() {
        let (a, b) = (sort_rows(query.sort, &repos[out[i]]), sort_rows(query.sort, &repos[out[j]]));
        assert(key(out[i]) == a && key(out[j]) == b);
        assert(crate::order::before(a, b, desc) || a == b);
        crate::order::lemma_key_total(a, b);
    }
}

/// Of repos with one path the last counts.
pub proof fn law_the_last_of_a_path_counts(repos: Seq<RepoStatus>, path: Seq<char>, n: int, i: int)
    requires
        0 <= i < n <= repos.len(),
        crate::pathname::same_path(repos[i].root@, path),
        forall|k: int|
            i < k < n ==> !crate::pathname::same_path((#[trigger] repos[k]).root@, path),
    ensures
        last_at(repos, path, n) == i,
    decreases n,
{
    if n - 1 > i {
        assert(!crate::pathname::same_path(repos[n - 1].root@, path));
        law_the_last_of_a_path_counts(repos, path, n - 1, i);
    }
}

} // verus!
