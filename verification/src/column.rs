//! Which columns the table shows, in what order, and how wide each one is.
//!
//! One place, because a column is four things that have to agree: a header, an
//! alignment, a width, and a cell renderer. A column is one variant, and the
//! width arithmetic is visible in one function.

use vstd::prelude::*;

use crate::fmt;
use crate::model::RepoStatus;
use crate::paths::{as_opt_str, contract_from, home_dir};
use crate::table::Align;
use crate::text::{from_chars, quoted, replace_char, same, to_chars, to_lowercase, trimmed};

verus! {

#[derive(Clone, Copy, Debug, PartialEq, Eq, Hash, Structural)]
pub enum Column {
    Group,
    Repo,
    Branch,
    State,
    Release,
    Visibility,
    /// The same value as [`Visibility`](Column::Visibility), rendered as just
    /// its marker. Once you know the glyphs the words are redundant, and this
    /// buys back ten characters of every row for the repo name.
    VisibilityShort,
    Changes,
    /// How many stash entries are parked on this repo.
    Stashes,
    Ahead,
    Behind,
    /// How long since anything fetched this repo. The freshness date on the
    /// BEHIND column beside it.
    Fetched,
    Tag,
    SinceTag,
    Age,
}

/// How a column claims horizontal space in the dashboard. The plain table sizes
/// itself to its content instead.
#[derive(Clone, Copy, Debug, PartialEq, Eq, Structural)]
pub enum Width {
    /// Always this many characters, whatever else is on screen.
    Fixed(usize),
    /// Sized to the branch names actually listed, within a floor and a cap.
    Branch,
    /// Absorbs whatever the fixed columns leave behind.
    Fill,
}

/// Every column, in the order they're laid out by default.
pub open spec fn every_column() -> Seq<Column> {
    seq![
        Column::Group,
        Column::Repo,
        Column::Branch,
        Column::State,
        Column::Release,
        Column::Visibility,
        Column::VisibilityShort,
        Column::Changes,
        Column::Stashes,
        Column::Ahead,
        Column::Behind,
        Column::Fetched,
        Column::Tag,
        Column::SinceTag,
        Column::Age,
    ]
}

/// Whether a column shows when nothing is configured.
pub open spec fn shown_by_default(c: Column, visibility_enabled: bool) -> bool {
    &&& c != Column::VisibilityShort
    &&& c != Column::Fetched
    &&& c != Column::Stashes
    &&& c == Column::Visibility ==> visibility_enabled
}

/// The first column at or after `i` that goes by this key.
pub open spec fn keyed_from(key: Seq<char>, i: int) -> Option<Column>
    decreases 15 - i,
{
    if i < 0 || i >= 15 {
        None
    } else if every_column()[i].key_text() == key {
        Some(every_column()[i])
    } else {
        keyed_from(key, i + 1)
    }
}

/// How a column's name is spelled once case, dashes and spaces are out of the
/// way.
pub open spec fn column_key(s: Seq<char>) -> Seq<char> {
    crate::text::replaced(
        crate::text::replaced(crate::text::lowercase(crate::text::trim(s)), '-', '_'),
        ' ',
        '_',
    )
}

/// The columns of the first `n` that show by default.
pub open spec fn default_upto(visibility_enabled: bool, n: int) -> Seq<Column>
    decreases n,
{
    if n <= 0 {
        Seq::empty()
    } else if shown_by_default(every_column()[n - 1], visibility_enabled) {
        default_upto(visibility_enabled, n - 1).push(every_column()[n - 1])
    } else {
        default_upto(visibility_enabled, n - 1)
    }
}

impl Column {
    pub open spec fn key_text(&self) -> Seq<char> {
        match self {
            Column::Group => "group"@,
            Column::Repo => "repo"@,
            Column::Branch => "branch"@,
            Column::State => "state"@,
            Column::Release => "release"@,
            Column::Visibility => "visibility"@,
            Column::VisibilityShort => "visibility_short"@,
            Column::Changes => "changes"@,
            Column::Stashes => "stashes"@,
            Column::Ahead => "ahead"@,
            Column::Behind => "behind"@,
            Column::Fetched => "fetched"@,
            Column::Tag => "tag"@,
            Column::SinceTag => "since_tag"@,
            Column::Age => "age"@,
        }
    }

    pub open spec fn header_text(&self, show_paths: bool) -> Seq<char> {
        match self {
            Column::Group => "GROUP"@,
            Column::Repo => if show_paths {
                "PATH"@
            } else {
                "REPO"@
            },
            Column::Branch => "BRANCH"@,
            Column::State => "STATE"@,
            Column::Release => "RELEASE"@,
            Column::Visibility => "VISIBILITY"@,
            Column::VisibilityShort => "VIS"@,
            Column::Changes => "CHANGES"@,
            Column::Stashes => "STASH"@,
            Column::Ahead => "AHEAD"@,
            Column::Behind => "BEHIND"@,
            Column::Fetched => "FETCHED"@,
            Column::Tag => "TAG"@,
            Column::SinceTag => "+TAG"@,
            Column::Age => "AGE"@,
        }
    }

    pub open spec fn description(&self) -> Seq<char> {
        match self {
            Column::Group => "first path segment below the scan root"@,
            Column::Repo => "repo name, or full path with --paths"@,
            Column::Branch => "current branch, or the detached HEAD"@,
            Column::State => "dirty, unpushed, conflict, bare, clean"@,
            Column::Release => "whether there's work past the newest tag"@,
            Column::Visibility => "public or private, asked of the host via `gh`"@,
            Column::VisibilityShort => "the same, as just its marker: ● public, ⊘ private"@,
            Column::Changes => "staged, unstaged and untracked counts"@,
            Column::Stashes => "how many stash entries are parked here"@,
            Column::Ahead => "commits this branch hasn't pushed, * if another branch has some too"@,
            Column::Behind =>
                "commits the upstream has and this branch doesn't, ? if never fetched"@,
            Column::Fetched => "how long since anything fetched this repo"@,
            Column::Tag => "the newest tag"@,
            Column::SinceTag => "commits since that tag"@,
            Column::Age => "time since the last activity"@,
        }
    }

    pub open spec fn alignment(&self) -> Align {
        match self {
            Column::Ahead => Align::Right,
            Column::Behind => Align::Right,
            Column::SinceTag => Align::Right,
            Column::Age => Align::Right,
            Column::Fetched => Align::Right,
            Column::Stashes => Align::Right,
            _ => Align::Left,
        }
    }

    pub open spec fn room(&self) -> Width {
        match self {
            Column::Group => Width::Fixed(14),
            Column::Repo => Width::Fill,
            Column::Branch => Width::Branch,
            Column::State => Width::Fixed(12),
            Column::Release => Width::Fixed(16),
            Column::Visibility => Width::Fixed(15),
            Column::VisibilityShort => Width::Fixed(4),
            Column::Changes => Width::Fixed(12),
            Column::Stashes => Width::Fixed(6),
            Column::Ahead => Width::Fixed(6),
            Column::Behind => Width::Fixed(7),
            Column::Fetched => Width::Fixed(8),
            Column::Tag => Width::Fixed(14),
            Column::SinceTag => Width::Fixed(5),
            Column::Age => Width::Fixed(5),
        }
    }

    /// The column a name means. `+tag` is what the header says, so it counts as
    /// well as the `since_tag` the config uses.
    pub open spec fn meaning(s: Seq<char>) -> Option<Column> {
        match keyed_from(column_key(s), 0) {
            Some(c) => Some(c),
            None => if column_key(s) == "+tag"@ {
                Some(Column::SinceTag)
            } else {
                None
            },
        }
    }

    /// The cell for the plain-text table, for a given home directory.
    pub open spec fn cell_text(
        &self,
        repo: &RepoStatus,
        now: int,
        show_paths: bool,
        home: Option<Seq<char>>,
    ) -> Seq<char> {
        match self {
            Column::Group => if repo.group@.len() == 0 {
                "·"@
            } else {
                repo.group@
            },
            Column::Repo => if show_paths {
                crate::paths::contracted(repo.root@, home)
            } else {
                repo.name@
            },
            Column::Branch => crate::fmt::truncated(repo.branch_text(), 24),
            Column::State => repo.state_text(),
            Column::Release => repo.state().label_text(),
            Column::Visibility => repo.visibility_text(),
            Column::VisibilityShort => repo.marker_text(),
            Column::Changes => match repo.work {
                Some(w) => crate::fmt::changes_text(
                    w.staged as int,
                    w.unstaged as int,
                    w.untracked as int,
                    w.conflicts as int,
                ),
                None => if repo.bare() {
                    "·"@
                } else {
                    "?"@
                },
            },
            Column::Stashes => match repo.refs {
                Some(refs) => crate::fmt::count_text(refs.stashes as int),
                None => "?"@,
            },
            Column::Ahead => crate::fmt::marked_text(
                crate::fmt::count_text(repo.branch_ahead()),
                repo.unpushed_count() > repo.branch_ahead(),
            ),
            Column::Behind => if repo.behind_count() == 0 && repo.is_never_fetched() {
                "?"@
            } else {
                crate::fmt::marked_text(
                    crate::fmt::count_text(repo.branch_back()),
                    repo.behind_count() > repo.branch_back(),
                )
            },
            Column::Fetched => fetched_text(repo, now),
            Column::Tag => crate::fmt::truncated(repo.tag_text(), 18),
            Column::SinceTag => crate::fmt::count_text(repo.since_tag()),
            Column::Age => crate::fmt::age_text(repo.last_activity().0, now),
        }
    }

    /// Every column, in the order they're laid out by default.
    pub fn all() -> (r: &'static [Column])
        ensures
            r@ == every_column(),
    {
        let list: &'static [Column; 15] = &[
            Column::Group,
            Column::Repo,
            Column::Branch,
            Column::State,
            Column::Release,
            Column::Visibility,
            Column::VisibilityShort,
            Column::Changes,
            Column::Stashes,
            Column::Ahead,
            Column::Behind,
            Column::Fetched,
            Column::Tag,
            Column::SinceTag,
            Column::Age,
        ];
        assert(list@ =~= every_column());
        list
    }

    /// What's shown when nothing is configured. VISIBILITY is in here only
    /// when checking is actually on: it costs real width on every row, and
    /// with checking off every cell would read "checking off" forever.
    ///
    /// Every other column is free — it's already been probed — but free to
    /// compute isn't free to show. FETCHED and STASH are held back too, not
    /// because they cost anything to know but because on most fleets they'd
    /// read the same on nearly every row while charging the repo name for
    /// the privilege.
    pub fn defaults(visibility_enabled: bool) -> (r: Vec<Column>)
        ensures
            r@ == default_upto(visibility_enabled, 15),
    {
        let list = Column::all();
        let mut out: Vec<Column> = Vec::new();
        let mut i: usize = 0;
        while i < list.len()
            invariant
                i <= list@.len() == 15,
                list@ == every_column(),
                out@ == default_upto(visibility_enabled, i as int),
            decreases list@.len() - i,
        {
            let c = list[i];
            let show = match c {
                // The short form is opt-in: someone has to have learnt the
                // glyphs before a column of bare glyphs is an improvement.
                Column::VisibilityShort => false,
                Column::Visibility => visibility_enabled,
                // FETCHED is opt-in too: BEHIND already says `?` when nothing
                // has ever fetched, which is the part you have to know. The
                // exact age of the last fetch is for people who want to watch
                // it, and it's in the detail view for everyone else.
                Column::Fetched => false,
                // STASH is opt-in on the same reasoning: most repos have no
                // stashes, so on most fleets it would be a column of `·`.
                Column::Stashes => false,
                _ => true,
            };
            if show {
                out.push(c);
            }
            i = i + 1;
        }
        out
    }

    /// The name used in `[ui] columns` and in the picker.
    pub fn key(&self) -> (r: &'static str)
        ensures
            r@ == self.key_text(),
    {
        match self {
            Column::Group => "group",
            Column::Repo => "repo",
            Column::Branch => "branch",
            Column::State => "state",
            Column::Release => "release",
            Column::Visibility => "visibility",
            Column::VisibilityShort => "visibility_short",
            Column::Changes => "changes",
            Column::Stashes => "stashes",
            Column::Ahead => "ahead",
            Column::Behind => "behind",
            Column::Fetched => "fetched",
            Column::Tag => "tag",
            Column::SinceTag => "since_tag",
            Column::Age => "age",
        }
    }

    /// The table header. REPO becomes PATH when full paths are being shown.
    pub fn header(&self, show_paths: bool) -> (r: &'static str)
        ensures
            r@ == self.header_text(show_paths),
    {
        match self {
            Column::Group => "GROUP",
            Column::Repo => {
                if show_paths {
                    "PATH"
                } else {
                    "REPO"
                }
            },
            Column::Branch => "BRANCH",
            Column::State => "STATE",
            Column::Release => "RELEASE",
            Column::Visibility => "VISIBILITY",
            Column::VisibilityShort => "VIS",
            Column::Changes => "CHANGES",
            Column::Stashes => "STASH",
            Column::Ahead => "AHEAD",
            Column::Behind => "BEHIND",
            Column::Fetched => "FETCHED",
            Column::Tag => "TAG",
            Column::SinceTag => "+TAG",
            Column::Age => "AGE",
        }
    }

    /// One line for the picker, saying what the column is actually for.
    pub fn describe(&self) -> (r: &'static str)
        ensures
            r@ == self.description(),
    {
        match self {
            Column::Group => "first path segment below the scan root",
            Column::Repo => "repo name, or full path with --paths",
            Column::Branch => "current branch, or the detached HEAD",
            Column::State => "dirty, unpushed, conflict, bare, clean",
            Column::Release => "whether there's work past the newest tag",
            Column::Visibility => "public or private, asked of the host via `gh`",
            Column::VisibilityShort => "the same, as just its marker: ● public, ⊘ private",
            Column::Changes => "staged, unstaged and untracked counts",
            Column::Stashes => "how many stash entries are parked here",
            Column::Ahead => "commits this branch hasn't pushed, * if another branch has some too",
            Column::Behind =>
                "commits the upstream has and this branch doesn't, ? if never fetched",
            Column::Fetched => "how long since anything fetched this repo",
            Column::Tag => "the newest tag",
            Column::SinceTag => "commits since that tag",
            Column::Age => "time since the last activity",
        }
    }

    pub fn align(&self) -> (r: Align)
        ensures
            r == self.alignment(),
    {
        match self {
            Column::Ahead => Align::Right,
            Column::Behind => Align::Right,
            Column::SinceTag => Align::Right,
            Column::Age => Align::Right,
            Column::Fetched => Align::Right,
            Column::Stashes => Align::Right,
            _ => Align::Left,
        }
    }

    pub fn width(&self) -> (r: Width)
        ensures
            r == self.room(),
    {
        match self {
            Column::Group => Width::Fixed(14),
            // Absorbs the leftover, so the right-hand numbers stay put as the
            // terminal resizes.
            Column::Repo => Width::Fill,
            Column::Branch => Width::Branch,
            Column::State => Width::Fixed(12),
            // "◆ needs release" is 15 wide, plus a space before the next.
            Column::Release => Width::Fixed(16),
            // "· check failed" is 14, wider than the header, so 15 leaves a
            // gap before CHANGES.
            Column::Visibility => Width::Fixed(15),
            // Just the header's own width plus a single-space gutter: the
            // marker underneath is one character.
            Column::VisibilityShort => Width::Fixed(4),
            Column::Changes => Width::Fixed(12),
            // The header's own five characters plus a single-space gutter.
            // Nobody has a five-digit stash.
            Column::Stashes => Width::Fixed(6),
            Column::Ahead => Width::Fixed(6),
            Column::Behind => Width::Fixed(7),
            // "never" is 5, the header is 7, and one more leaves a gutter.
            Column::Fetched => Width::Fixed(8),
            Column::Tag => Width::Fixed(14),
            Column::SinceTag => Width::Fixed(5),
            Column::Age => Width::Fixed(5),
        }
    }

    /// Whether this column can be turned off. Only REPO can't: a table of
    /// rows you can't identify isn't worth rendering.
    pub fn toggleable(&self) -> (r: bool)
        ensures
            r == (*self != Column::Repo),
    {
        !matches!(self, Column::Repo)
    }

    /// [`Column::cell`] for a given home directory.
    pub fn cell_from(
        &self,
        repo: &RepoStatus,
        now: i64,
        show_paths: bool,
        home: Option<&str>,
    ) -> (r: String)
        ensures
            r@ == self.cell_text(repo, now as int, show_paths, crate::hold::opt_str(home)),
    {
        match self {
            Column::Group => {
                if to_chars(repo.group.as_str()).len() == 0 {
                    "·".to_owned()
                } else {
                    repo.group.clone()
                }
            },
            Column::Repo => {
                if show_paths {
                    contract_from(repo.root.as_str(), home)
                } else {
                    repo.name.clone()
                }
            },
            Column::Branch => fmt::truncate(repo.branch_label().as_str(), 24),
            Column::State => repo.state_label().to_owned(),
            Column::Release => repo.release_state().label().to_owned(),
            Column::Visibility => repo.visibility_label().to_owned(),
            Column::VisibilityShort => repo.visibility_marker().to_owned(),
            Column::Changes => match &repo.work {
                Some(w) => fmt::changes(w.staged, w.unstaged, w.untracked, w.conflicts),
                // `?` means "not scanned yet". A bare repo has nothing to
                // scan, which is a different thing and reads as `·` like
                // every other known-nothing in this table.
                None => {
                    if repo.is_bare() {
                        "·".to_owned()
                    } else {
                        "?".to_owned()
                    }
                },
            },
            // `?` means "not probed yet", the same as CHANGES. A bare repo
            // isn't in that state: its stash reflog is read off disk like
            // anyone else's, and simply isn't there, which is a real zero.
            Column::Stashes => match repo.stash_count() {
                Some(n) => fmt::count(n),
                None => "?".to_owned(),
            },
            // The checked-out branch, not every branch summed: this cell sits
            // next to BRANCH and has to mean the branch BRANCH names. `*`
            // marks a repo where some *other* local branch is unpushed too,
            // so a stale side branch still shows up in the table.
            Column::Ahead => fmt::marked(
                fmt::count(repo.branch_unpushed()),
                repo.other_branches_unpushed(),
            ),
            // `?` rather than `·` when nothing has ever fetched: the count is
            // zero because there was nothing to compare against, not because
            // the remote has nothing new. Same reading as CHANGES' `?`.
            Column::Behind => {
                if repo.behind_total() == 0 && repo.never_fetched() {
                    "?".to_owned()
                } else {
                    fmt::marked(fmt::count(repo.branch_behind()), repo.other_branches_behind())
                }
            },
            Column::Fetched => fetched_label(repo, now),
            Column::Tag => fmt::truncate(repo.tag_label().as_str(), 18),
            Column::SinceTag => fmt::count(repo.commits_since_tag()),
            Column::Age => fmt::age(repo.activity_at(), now),
        }
    }

    /// The cell for the plain-text table. Only the path in front of a repo
    /// depends on the home directory, and only where paths are shown.
    pub fn cell(&self, repo: &RepoStatus, now: i64, show_paths: bool) -> (r: String)
        ensures
            exists|home: Option<Seq<char>>|
                r@ == #[trigger] self.cell_text(repo, now as int, show_paths, home),
            !(show_paths && *self == Column::Repo) ==> r@ == self.cell_text(
                repo,
                now as int,
                show_paths,
                None,
            ),
    {
        let home = home_dir();
        self.cell_from(repo, now, show_paths, as_opt_str(&home))
    }

    /// The column a name means, or what is wrong with the name.
    pub fn parse(s: &str) -> (r: Result<Column, String>)
        ensures
            (match r {
                Ok(c) => Column::meaning(s@) == Some(c),
                Err(e) => Column::meaning(s@) is None && e@ == "unknown column "@
                    + crate::text::debug_quoted(s@),
            }),
    {
        let v = to_chars(s);
        let lowered = to_lowercase(trimmed(v.as_slice()));
        let dashes = replace_char(lowered.as_slice(), '-', '_');
        let key = from_chars(replace_char(dashes.as_slice(), ' ', '_').as_slice());
        let list = Column::all();
        let mut i: usize = 0;
        while i < list.len()
            invariant
                i <= list@.len() == 15,
                list@ == every_column(),
                key@ == column_key(s@),
                keyed_from(key@, 0) == keyed_from(key@, i as int),
            decreases list@.len() - i,
        {
            if same(list[i].key(), key.as_str()) {
                return Ok(list[i]);
            }
            i = i + 1;
        }
        if same(key.as_str(), "+tag") {
            return Ok(Column::SinceTag);
        }
        let mut message = "unknown column ".to_owned();
        message.append(quoted(s).as_str());
        Err(message)
    }
}

impl std::str::FromStr for Column {
    type Err = String;

    fn from_str(s: &str) -> (r: Result<Self, Self::Err>)
        ensures
            (match r {
                Ok(c) => Column::meaning(s@) == Some(c),
                Err(e) => Column::meaning(s@) is None && e@ == "unknown column "@
                    + crate::text::debug_quoted(s@),
            }),
    {
        Column::parse(s)
    }
}

pub open spec fn fetched_text(repo: &RepoStatus, now: int) -> Seq<char> {
    match repo.fetch_time() {
        Some(at) => crate::fmt::age_text(at as int, now),
        None => if repo.is_never_fetched() {
            "never"@
        } else {
            "·"@
        },
    }
}

/// The FETCHED cell, and the same wording the detail view uses. `never` is a
/// worse state than an old fetch, not a missing value, so it gets a word
/// rather than the `·` that means "nothing to say here" -- which is what a
/// repo with no remote does get.
pub fn fetched_label(repo: &RepoStatus, now: i64) -> (r: String)
    ensures
        r@ == fetched_text(repo, now as int),
{
    match repo.fetched_at() {
        Some(at) => fmt::age(at, now),
        None => {
            if repo.never_fetched() {
                "never".to_owned()
            } else {
                "·".to_owned()
            }
        },
    }
}

// ---------------------------------------------------------------------------
// Cleaning up a configured list
// ---------------------------------------------------------------------------

/// Every column where it is first named.
pub open spec fn without_repeats(cols: Seq<Column>) -> Seq<Column>
    decreases cols.len(),
{
    if cols.len() == 0 {
        Seq::empty()
    } else {
        let rest = without_repeats(cols.take(cols.len() - 1));
        if rest.contains(cols[cols.len() - 1]) {
            rest
        } else {
            rest.push(cols[cols.len() - 1])
        }
    }
}

/// The two visibility forms are the same column twice.
pub open spec fn is_visibility(c: Column) -> bool {
    c == Column::Visibility || c == Column::VisibilityShort
}

/// The first visibility form at or after `i`.
pub open spec fn form_from(cols: Seq<Column>, i: int) -> Option<Column>
    decreases cols.len() - i,
{
    if i < 0 || i >= cols.len() {
        None
    } else if is_visibility(cols[i]) {
        Some(cols[i])
    } else {
        form_from(cols, i + 1)
    }
}

/// The columns but for visibility forms other than this one.
pub open spec fn with_form(cols: Seq<Column>, form: Option<Column>) -> Seq<Column>
    decreases cols.len(),
{
    if cols.len() == 0 {
        Seq::empty()
    } else {
        let rest = with_form(cols.take(cols.len() - 1), form);
        let last = cols[cols.len() - 1];
        if is_visibility(last) && form != Some(last) {
            rest
        } else {
            rest.push(last)
        }
    }
}

/// Index of the first BRANCH at or after `i`; zero where there is none.
pub open spec fn branch_from(cols: Seq<Column>, i: int) -> int
    decreases cols.len() - i,
{
    if i < 0 || i >= cols.len() {
        0
    } else if cols[i] == Column::Branch {
        i
    } else {
        branch_from(cols, i + 1)
    }
}

/// REPO in front of BRANCH, or at the front, where it is missing.
pub open spec fn with_repo(cols: Seq<Column>) -> Seq<Column> {
    if cols.contains(Column::Repo) {
        cols
    } else {
        cols.insert(branch_from(cols, 0), Column::Repo)
    }
}

/// A configured list, cleaned up.
pub open spec fn sanitised(cols: Seq<Column>) -> Seq<Column> {
    let once = without_repeats(cols);
    with_repo(with_form(once, form_from(once, 0)))
}

fn has_column(cols: &Vec<Column>, c: Column) -> (r: bool)
    ensures
        r == cols@.contains(c),
{
    let mut i: usize = 0;
    while i < cols.len()
        invariant
            i <= cols@.len(),
            forall|k: int| 0 <= k < i ==> cols@[k] != c,
        decreases cols@.len() - i,
    {
        if cols[i] == c {
            assert(cols@[i as int] == c);
            return true;
        }
        i = i + 1;
    }
    false
}

proof fn lemma_branch_from(cols: Seq<Column>, i: int)
    requires
        0 <= i,
    ensures
        0 <= branch_from(cols, i) <= cols.len(),
        branch_from(cols, i) < cols.len() || cols.len() == 0,
    decreases cols.len() - i,
{
    if i < cols.len() && cols[i] != Column::Branch {
        lemma_branch_from(cols, i + 1);
    }
}

/// Clean up a configured list: drop anything listed twice, collapse the two
/// visibility forms to one, and put REPO back if it's missing. A list is
/// someone's explicit choice, so it's honoured as written otherwise — including
/// the order, and including leaving out columns the defaults would have shown.
pub fn sanitise(columns: Vec<Column>) -> (r: Vec<Column>)
    ensures
        r@ == sanitised(columns@),
{
    let ghost cols = columns@;
    let mut once: Vec<Column> = Vec::new();
    let mut i: usize = 0;
    assert(cols.take(0) =~= Seq::empty());
    while i < columns.len()
        invariant
            i <= columns@.len(),
            cols == columns@,
            once@ == without_repeats(cols.take(i as int)),
        decreases columns@.len() - i,
    {
        assert(cols.take(i + 1).take(i as int) =~= cols.take(i as int));
        if !has_column(&once, columns[i]) {
            once.push(columns[i]);
        }
        i = i + 1;
    }
    assert(cols.take(i as int) =~= cols);
    // The two visibility forms are the same column twice. Whichever was asked
    // for first wins; showing both would render the value beside itself.
    let mut form: Option<Column> = None;
    let mut j: usize = 0;
    while j < once.len() && form.is_none()
        invariant
            j <= once@.len(),
            form is None ==> form_from(once@, 0) == form_from(once@, j as int),
            form is Some ==> form_from(once@, 0) == form,
        decreases once@.len() - j,
    {
        if matches!(once[j], Column::Visibility | Column::VisibilityShort) {
            form = Some(once[j]);
        }
        j = j + 1;
    }
    let mut out: Vec<Column> = Vec::new();
    let mut k: usize = 0;
    assert(once@.take(0) =~= Seq::empty());
    while k < once.len()
        invariant
            k <= once@.len(),
            out@ == with_form(once@.take(k as int), form),
        decreases once@.len() - k,
    {
        assert(once@.take(k + 1).take(k as int) =~= once@.take(k as int));
        let c = once[k];
        let drop_it = matches!(c, Column::Visibility | Column::VisibilityShort) && match form {
            Some(f) => f != c,
            None => true,
        };
        if !drop_it {
            out.push(c);
        }
        k = k + 1;
    }
    assert(once@.take(k as int) =~= once@);
    if !has_column(&out, Column::Repo) {
        // Restore it in its canonical position rather than at the front, so a
        // list that simply forgot it still reads the way it was meant to.
        let mut at: usize = 0;
        let mut found = false;
        let mut m: usize = 0;
        while m < out.len() && !found
            invariant
                m <= out@.len(),
                at <= out@.len(),
                !found ==> at == 0 && branch_from(out@, 0) == branch_from(out@, m as int),
                found ==> branch_from(out@, 0) == at,
            decreases out@.len() - m,
        {
            if matches!(out[m], Column::Branch) {
                at = m;
                found = true;
            }
            m = m + 1;
        }
        out.insert(at, Column::Repo);
    }
    out
}

// ---------------------------------------------------------------------------
// Laws
// ---------------------------------------------------------------------------

/// No column twice.
pub open spec fn distinct(cols: Seq<Column>) -> bool {
    forall|i: int, j: int| 0 <= i < j < cols.len() ==> cols[i] != cols[j]
}

proof fn lemma_without_repeats(cols: Seq<Column>)
    ensures
        distinct(without_repeats(cols)),
        forall|c: Column| #[trigger] without_repeats(cols).contains(c) <==> cols.contains(c),
        distinct(cols) ==> without_repeats(cols) == cols,
    decreases cols.len(),
{
    if cols.len() > 0 {
        let init = cols.take(cols.len() - 1);
        let last = cols[cols.len() - 1];
        let rest = without_repeats(init);
        let out = without_repeats(cols);
        lemma_without_repeats(init);
        assert forall|c: Column| #[trigger] out.contains(c) <==> cols.contains(c) by {
            assert(rest.contains(c) <==> init.contains(c));
            if cols.contains(c) {
                let k = choose|k: int| 0 <= k < cols.len() && cols[k] == c;
                if k < init.len() {
                    assert(init[k] == c);
                    let m = choose|m: int| 0 <= m < rest.len() && rest[m] == c;
                    assert(out[m] == c);
                } else if !rest.contains(last) {
                    assert(out[rest.len() as int] == c);
                }
            }
            if out.contains(c) {
                let m = choose|m: int| 0 <= m < out.len() && out[m] == c;
                if m < rest.len() {
                    assert(rest[m] == c);
                    let k = choose|k: int| 0 <= k < init.len() && init[k] == c;
                    assert(cols[k] == c);
                } else {
                    assert(cols[cols.len() - 1] == c);
                }
            }
        }
        assert forall|i: int, j: int| 0 <= i < j < out.len() implies out[i] != out[j] by {
            if j == rest.len() {
                assert(rest.contains(rest[i]));
            }
        }
        if distinct(cols) {
            assert(distinct(init)) by {
                assert forall|i: int, j: int| 0 <= i < j < init.len() implies init[i]
                    != init[j] by {
                    assert(cols[i] != cols[j]);
                }
            }
            if rest.contains(last) {
                let k = choose|k: int| 0 <= k < init.len() && init[k] == last;
                assert(cols[k] == cols[cols.len() - 1]);
            }
            assert(out =~= cols);
        }
    } else {
        assert(without_repeats(cols) =~= cols);
    }
}

proof fn lemma_with_form(cols: Seq<Column>, form: Option<Column>)
    requires
        distinct(cols),
    ensures
        distinct(with_form(cols, form)),
        forall|c: Column| #[trigger]
            with_form(cols, form).contains(c) <==> cols.contains(c) && (is_visibility(c) ==> form
                == Some(c)),
        (forall|c: Column| cols.contains(c) && is_visibility(c) ==> form == Some(c)) ==> with_form(
            cols,
            form,
        ) == cols,
    decreases cols.len(),
{
    if cols.len() > 0 {
        let init = cols.take(cols.len() - 1);
        let last = cols[cols.len() - 1];
        assert forall|i: int, j: int| 0 <= i < j < init.len() implies init[i] != init[j] by {
            assert(cols[i] != cols[j]);
        }
        lemma_with_form(init, form);
        let rest = with_form(init, form);
        let out = with_form(cols, form);
        assert forall|c: Column| #[trigger]
            out.contains(c) <==> cols.contains(c) && (is_visibility(c) ==> form == Some(c)) by {
            assert(rest.contains(c) <==> init.contains(c) && (is_visibility(c) ==> form == Some(
                c,
            )));
            if cols.contains(c) && (is_visibility(c) ==> form == Some(c)) {
                let k = choose|k: int| 0 <= k < cols.len() && cols[k] == c;
                if k < init.len() {
                    assert(init[k] == c);
                    let m = choose|m: int| 0 <= m < rest.len() && rest[m] == c;
                    assert(out[m] == c);
                } else {
                    assert(out[rest.len() as int] == c);
                }
            }
            if out.contains(c) {
                let m = choose|m: int| 0 <= m < out.len() && out[m] == c;
                if m < rest.len() {
                    assert(rest[m] == c);
                    let k = choose|k: int| 0 <= k < init.len() && init[k] == c;
                    assert(cols[k] == c);
                } else {
                    assert(cols[cols.len() - 1] == c);
                }
            }
        }
        assert forall|i: int, j: int| 0 <= i < j < out.len() implies out[i] != out[j] by {
            if j == rest.len() {
                assert(rest.contains(rest[i]));
                let k = choose|k: int| 0 <= k < init.len() && init[k] == rest[i];
                assert(cols[k] != cols[cols.len() - 1]);
            }
        }
        if forall|c: Column| cols.contains(c) && is_visibility(c) ==> form == Some(c) {
            assert forall|c: Column| init.contains(c) && is_visibility(c) implies form == Some(
                c,
            ) by {
                let k = choose|k: int| 0 <= k < init.len() && init[k] == c;
                assert(cols[k] == c);
            }
            assert(cols.contains(last));
            assert(out =~= cols);
        }
    } else {
        assert(with_form(cols, form) =~= cols);
    }
}

proof fn lemma_form_from(cols: Seq<Column>, i: int)
    requires
        0 <= i,
    ensures
        form_from(cols, i) matches Some(f) ==> is_visibility(f) && cols.contains(f),
        form_from(cols, i) is None ==> forall|k: int|
            i <= k < cols.len() ==> !is_visibility(#[trigger] cols[k]),
    decreases cols.len() - i,
{
    if i < cols.len() && !is_visibility(cols[i]) {
        lemma_form_from(cols, i + 1);
    }
}

/// A cleaned-up list names REPO, names nothing twice, shows one visibility form
/// at most, and leaves a list that is already in that shape as it is. Cleaning up
/// twice changes nothing more.
pub proof fn law_sanitise(cols: Seq<Column>)
    ensures
        sanitised(cols).contains(Column::Repo),
        distinct(sanitised(cols)),
        !(sanitised(cols).contains(Column::Visibility) && sanitised(cols).contains(
            Column::VisibilityShort,
        )),
        forall|c: Column|
            cols.contains(c) && !is_visibility(c) ==> #[trigger] sanitised(cols).contains(c),
        forall|c: Column| #[trigger]
            sanitised(cols).contains(c) ==> cols.contains(c) || c == Column::Repo,
        sanitised(sanitised(cols)) == sanitised(cols),
{
    lemma_tidy(cols);
    lemma_tidy(sanitised(cols));
}

proof fn lemma_tidy(cols: Seq<Column>)
    ensures
        sanitised(cols).contains(Column::Repo),
        distinct(sanitised(cols)),
        !(sanitised(cols).contains(Column::Visibility) && sanitised(cols).contains(
            Column::VisibilityShort,
        )),
        forall|c: Column|
            cols.contains(c) && !is_visibility(c) ==> #[trigger] sanitised(cols).contains(c),
        forall|c: Column| #[trigger]
            sanitised(cols).contains(c) ==> cols.contains(c) || c == Column::Repo,
        distinct(cols) && cols.contains(Column::Repo) && !(cols.contains(Column::Visibility)
            && cols.contains(Column::VisibilityShort)) ==> sanitised(cols) == cols,
{
    let once = without_repeats(cols);
    let form = form_from(once, 0);
    let one = with_form(once, form);
    let out = sanitised(cols);
    lemma_without_repeats(cols);
    lemma_form_from(once, 0);
    lemma_with_form(once, form);
    lemma_branch_from(one, 0);
    let at = branch_from(one, 0);
    assert forall|c: Column| out.contains(c) <==> one.contains(c) || c == Column::Repo by {
        if !one.contains(Column::Repo) {
            assert(out == one.insert(at, Column::Repo));
            if out.contains(c) {
                let k = choose|k: int| 0 <= k < out.len() && out[k] == c;
                if k < at {
                    assert(one[k] == c);
                } else if k > at {
                    assert(one[k - 1] == c);
                }
            }
            if one.contains(c) {
                let k = choose|k: int| 0 <= k < one.len() && one[k] == c;
                assert(out[if k < at { k } else { k + 1 }] == c);
            }
            assert(out[at] == Column::Repo);
        }
    }
    assert forall|i: int, j: int| 0 <= i < j < out.len() implies out[i] != out[j] by {
        if !one.contains(Column::Repo) {
            if i == at {
                assert(one.contains(one[j - 1]));
            } else if j == at {
                assert(one.contains(one[i]));
            }
        }
    }
    assert forall|c: Column|
        cols.contains(c) && !is_visibility(c) implies #[trigger] out.contains(c) by {
        assert(once.contains(c));
        assert(one.contains(c));
    }
    assert forall|c: Column| #[trigger]
        out.contains(c) implies cols.contains(c) || c == Column::Repo by {
        if c != Column::Repo {
            assert(one.contains(c));
            assert(once.contains(c));
        }
    }
    assert(!(out.contains(Column::Visibility) && out.contains(Column::VisibilityShort))) by {
        if out.contains(Column::Visibility) && out.contains(Column::VisibilityShort) {
            assert(one.contains(Column::Visibility));
            assert(one.contains(Column::VisibilityShort));
        }
    }
    if distinct(cols) && cols.contains(Column::Repo) && !(cols.contains(Column::Visibility)
        && cols.contains(Column::VisibilityShort)) {
        assert forall|c: Column| once.contains(c) && is_visibility(c) implies form == Some(c) by {
            let k = choose|k: int| 0 <= k < once.len() && once[k] == c;
            assert(is_visibility(once[k]));
            if form is Some {
                assert(once.contains(form->0));
            }
        }
        assert(one == cols);
    }
}

/// Every column is reached by its own key.
pub proof fn law_keys_round_trip(c: Column)
    ensures
        Column::meaning(c.key_text()) == Some(c),
{
    reveal_strlit("group");
    reveal_strlit("repo");
    reveal_strlit("branch");
    reveal_strlit("state");
    reveal_strlit("release");
    reveal_strlit("visibility");
    reveal_strlit("visibility_short");
    reveal_strlit("changes");
    reveal_strlit("stashes");
    reveal_strlit("ahead");
    reveal_strlit("behind");
    reveal_strlit("fetched");
    reveal_strlit("tag");
    reveal_strlit("since_tag");
    reveal_strlit("age");
    let k = c.key_text();
    crate::text::lemma_trim_is(k);
    assert(column_key(k) =~= k) by {
        assert(crate::text::lowercase(k) =~= k);
        assert(crate::text::replaced(k, '-', '_') =~= k);
        assert(crate::text::replaced(k, ' ', '_') =~= k);
    }
    assert(keyed_from(k, 0) == Some(c)) by {
        reveal_with_fuel(keyed_from, 16);
        lemma_keys_differ(c);
    }
}

/// Whether a text spells a key: in either case, with a dash or a space where the key
/// has an underscore.
pub open spec fn spells(s: Seq<char>, key: Seq<char>) -> bool {
    &&& s.len() == key.len()
    &&& forall|i: int|
        0 <= i < key.len() ==> crate::text::lower(#[trigger] s[i]) == key[i] || key[i] == '_' && (
        s[i] == '-' || s[i] == ' ')
}

/// Every column is reached by its own key, however it is spelled and whatever white
/// space is around it.
pub proof fn law_any_spelling_of_a_key_will_do(
    c: Column,
    front: Seq<char>,
    s: Seq<char>,
    back: Seq<char>,
)
    requires
        spells(s, c.key_text()),
        forall|i: int| 0 <= i < front.len() ==> crate::text::is_whitespace(#[trigger] front[i]),
        forall|i: int| 0 <= i < back.len() ==> crate::text::is_whitespace(#[trigger] back[i]),
    ensures
        Column::meaning(front + s + back) == Some(c),
{
    let k = c.key_text();
    lemma_key_letters(c);
    crate::text::lemma_trim_around(front, s, back);
    crate::text::lemma_trim_is(k);
    assert(column_key(front + s + back) =~= k);
    assert(column_key(k) =~= k);
    law_keys_round_trip(c);
}

/// `+tag` is the column its header stands over, in either case and whatever white
/// space is around it.
pub proof fn law_the_header_of_since_tag_will_do(
    front: Seq<char>,
    s: Seq<char>,
    back: Seq<char>,
)
    requires
        crate::text::lowercase(s) == "+tag"@,
        forall|i: int| 0 <= i < front.len() ==> crate::text::is_whitespace(#[trigger] front[i]),
        forall|i: int| 0 <= i < back.len() ==> crate::text::is_whitespace(#[trigger] back[i]),
    ensures
        Column::meaning(front + s + back) == Some(Column::SinceTag),
{
    reveal_strlit("+tag");
    let k = "+tag"@;
    let low = crate::text::lowercase(s);
    assert(low.len() == s.len());
    assert(k.len() == 4 && k[0] == '+' && k[3] == 'g');
    assert(low[0] == crate::text::lower(s[0]));
    assert(low[3] == crate::text::lower(s[3]));
    assert(s[0] == '+');
    crate::text::lemma_trim_around(front, s, back);
    assert(column_key(front + s + back) =~= k);
    assert forall|c: Column| #[trigger] c.key_text() != k by {
        lemma_key_letters(c);
    }
    assert(keyed_from(k, 0) is None) by {
        reveal_with_fuel(keyed_from, 16);
    }
}

/// A key is made of small letters and underscores, and starts and ends with a letter.
proof fn lemma_key_letters(c: Column)
    ensures
        c.key_text().len() > 0,
        'a' <= c.key_text()[0] <= 'z',
        'a' <= c.key_text()[c.key_text().len() - 1] <= 'z',
        forall|i: int|
            0 <= i < c.key_text().len() ==> 'a' <= #[trigger] c.key_text()[i] <= 'z'
                || c.key_text()[i] == '_',
{
    reveal_strlit("group");
    reveal_strlit("repo");
    reveal_strlit("branch");
    reveal_strlit("state");
    reveal_strlit("release");
    reveal_strlit("visibility");
    reveal_strlit("visibility_short");
    reveal_strlit("changes");
    reveal_strlit("stashes");
    reveal_strlit("ahead");
    reveal_strlit("behind");
    reveal_strlit("fetched");
    reveal_strlit("tag");
    reveal_strlit("since_tag");
    reveal_strlit("age");
}

/// No two columns go by one key.
proof fn lemma_keys_differ(c: Column)
    ensures
        forall|d: Column| #[trigger] d.key_text() == c.key_text() ==> d == c,
{
    reveal_strlit("group");
    reveal_strlit("repo");
    reveal_strlit("branch");
    reveal_strlit("state");
    reveal_strlit("release");
    reveal_strlit("visibility");
    reveal_strlit("visibility_short");
    reveal_strlit("changes");
    reveal_strlit("stashes");
    reveal_strlit("ahead");
    reveal_strlit("behind");
    reveal_strlit("fetched");
    reveal_strlit("tag");
    reveal_strlit("since_tag");
    reveal_strlit("age");
    assert forall|d: Column| #[trigger] d.key_text() == c.key_text() implies d == c by {
        let a = d.key_text();
        let b = c.key_text();
        assert(a.len() == b.len());
        assert(a[0] == b[0] && a[1] == b[1] && a[2] == b[2]);
    }
}

/// What each column shows of a repo.
pub proof fn law_a_cell_shows_its_column(
    repo: &RepoStatus,
    now: int,
    show_paths: bool,
    home: Option<Seq<char>>,
)
    ensures
        repo.group@.len() > 0 ==> Column::Group.cell_text(repo, now, show_paths, home)
            == repo.group@,
        repo.group@.len() == 0 ==> Column::Group.cell_text(repo, now, show_paths, home) == "·"@,
        !show_paths ==> Column::Repo.cell_text(repo, now, show_paths, home) == repo.name@,
        show_paths ==> Column::Repo.cell_text(repo, now, show_paths, home)
            == crate::paths::contracted(repo.root@, home),
        repo.branch_text().len() <= 24 ==> Column::Branch.cell_text(repo, now, show_paths, home)
            == repo.branch_text(),
        repo.branch_text().len() > 24 ==> Column::Branch.cell_text(repo, now, show_paths, home)
            == repo.branch_text().take(23) + seq!['…'],
        Column::State.cell_text(repo, now, show_paths, home) == repo.state_text(),
        Column::Release.cell_text(repo, now, show_paths, home) == repo.state().label_text(),
        Column::Visibility.cell_text(repo, now, show_paths, home) == repo.visibility_text(),
        Column::VisibilityShort.cell_text(repo, now, show_paths, home) == repo.marker_text(),
        repo.work matches Some(w) ==> Column::Changes.cell_text(repo, now, show_paths, home)
            == crate::fmt::changes_text(
            w.staged as int,
            w.unstaged as int,
            w.untracked as int,
            w.conflicts as int,
        ),
        repo.work is None && repo.refs is Some && repo.refs->0.is_bare ==> Column::Changes.cell_text(
            repo,
            now,
            show_paths,
            home,
        ) == "·"@,
        repo.work is None && !(repo.refs is Some && repo.refs->0.is_bare)
            ==> Column::Changes.cell_text(repo, now, show_paths, home) == "?"@,
        repo.refs is None ==> Column::Stashes.cell_text(repo, now, show_paths, home) == "?"@,
        repo.refs is Some && repo.refs->0.stashes == 0 ==> Column::Stashes.cell_text(
            repo,
            now,
            show_paths,
            home,
        ) == "·"@,
        repo.refs is Some && repo.refs->0.stashes > 0 ==> Column::Stashes.cell_text(
            repo,
            now,
            show_paths,
            home,
        ) == crate::number::decimal(repo.refs->0.stashes as int),
        repo.tag_text().len() <= 18 ==> Column::Tag.cell_text(repo, now, show_paths, home)
            == repo.tag_text(),
        repo.tag_text().len() > 18 ==> Column::Tag.cell_text(repo, now, show_paths, home)
            == repo.tag_text().take(17) + seq!['…'],
        repo.since_tag() == 0 ==> Column::SinceTag.cell_text(repo, now, show_paths, home) == "·"@,
        repo.since_tag() != 0 ==> Column::SinceTag.cell_text(repo, now, show_paths, home)
            == crate::number::decimal(repo.since_tag()),
        Column::Age.cell_text(repo, now, show_paths, home) == crate::fmt::age_text(
            repo.last_activity().0,
            now,
        ),
{
    crate::fmt::law_what_is_cut_keeps_its_start(repo.branch_text(), 24);
    crate::fmt::law_what_is_cut_keeps_its_start(repo.tag_text(), 18);
}

/// AHEAD and BEHIND count the checked-out branch, with a star where another branch has
/// some too; behind is a question mark where nothing was ever fetched.
pub proof fn law_ahead_and_behind_are_of_the_branch(
    repo: &RepoStatus,
    now: int,
    show_paths: bool,
    home: Option<Seq<char>>,
)
    ensures
        ({
            let own = if repo.branch_ahead() == 0 {
                "·"@
            } else {
                crate::number::decimal(repo.branch_ahead())
            };
            Column::Ahead.cell_text(repo, now, show_paths, home) == (if repo.unpushed_count()
                > repo.branch_ahead() {
                own + seq!['*']
            } else {
                own
            })
        }),
        ({
            let own = if repo.branch_back() == 0 {
                "·"@
            } else {
                crate::number::decimal(repo.branch_back())
            };
            let blind = repo.behind_count() == 0 && repo.refs is Some && repo.refs->0.remote_url is Some
                && repo.refs->0.fetched_at is None;
            Column::Behind.cell_text(repo, now, show_paths, home) == (if blind {
                "?"@
            } else if repo.behind_count() > repo.branch_back() {
                own + seq!['*']
            } else {
                own
            })
        }),
{
    reveal_strlit("*");
    assert("*"@ =~= seq!['*']);
}

/// FETCHED is the age of the last fetch, a word where there was none to a remote, and a
/// dot where there is no remote.
pub proof fn law_fetched_is_an_age_or_a_word(
    repo: &RepoStatus,
    now: int,
    show_paths: bool,
    home: Option<Seq<char>>,
)
    ensures
        ({
            let cell = Column::Fetched.cell_text(repo, now, show_paths, home);
            &&& repo.refs is Some && repo.refs->0.fetched_at is Some ==> cell
                == crate::fmt::age_text(repo.refs->0.fetched_at->0 as int, now)
            &&& repo.refs is Some && repo.refs->0.fetched_at is None && repo.refs->0.remote_url is Some
                ==> cell == "never"@
            &&& repo.refs is None || (repo.refs->0.fetched_at is None
                && repo.refs->0.remote_url is None) ==> cell == "·"@
        }),
{
}

/// A column goes by a word, and stands under that word in capitals; four have a header of
/// their own.
pub proof fn law_a_header_is_its_key_in_capitals(c: Column, show_paths: bool)
    ensures
        c != Column::VisibilityShort && c != Column::Stashes && c != Column::SinceTag && !(c
            == Column::Repo && show_paths) ==> c.header_text(show_paths) == crate::text::uppercase(
            c.key_text(),
        ),
        Column::VisibilityShort.header_text(show_paths) == "VIS"@,
        Column::Stashes.header_text(show_paths) == "STASH"@,
        Column::SinceTag.header_text(show_paths) == "+TAG"@,
        Column::Repo.header_text(true) == "PATH"@,
        Column::Group.key_text() == "group"@,
        Column::Repo.key_text() == "repo"@,
        Column::Branch.key_text() == "branch"@,
        Column::State.key_text() == "state"@,
        Column::Release.key_text() == "release"@,
        Column::Visibility.key_text() == "visibility"@,
        Column::VisibilityShort.key_text() == "visibility_short"@,
        Column::Changes.key_text() == "changes"@,
        Column::Stashes.key_text() == "stashes"@,
        Column::Ahead.key_text() == "ahead"@,
        Column::Behind.key_text() == "behind"@,
        Column::Fetched.key_text() == "fetched"@,
        Column::Tag.key_text() == "tag"@,
        Column::SinceTag.key_text() == "since_tag"@,
        Column::Age.key_text() == "age"@,
{
    reveal_strlit("group");
    reveal_strlit("GROUP");
    reveal_strlit("repo");
    reveal_strlit("REPO");
    reveal_strlit("branch");
    reveal_strlit("BRANCH");
    reveal_strlit("state");
    reveal_strlit("STATE");
    reveal_strlit("release");
    reveal_strlit("RELEASE");
    reveal_strlit("visibility");
    reveal_strlit("VISIBILITY");
    reveal_strlit("changes");
    reveal_strlit("CHANGES");
    reveal_strlit("ahead");
    reveal_strlit("AHEAD");
    reveal_strlit("behind");
    reveal_strlit("BEHIND");
    reveal_strlit("fetched");
    reveal_strlit("FETCHED");
    reveal_strlit("tag");
    reveal_strlit("TAG");
    reveal_strlit("age");
    reveal_strlit("AGE");
    if c != Column::VisibilityShort && c != Column::Stashes && c != Column::SinceTag && !(c
        == Column::Repo && show_paths) {
        assert(c.header_text(show_paths) =~= crate::text::uppercase(c.key_text()));
    }
}

/// Counts and ages stand to the right, and all else to the left.
pub proof fn law_numbers_stand_to_the_right(c: Column)
    ensures
        c.alignment() == Align::Right <==> c == Column::Ahead || c == Column::Behind || c
            == Column::SinceTag || c == Column::Age || c == Column::Fetched || c == Column::Stashes,
{
}

/// By default every column shows but the short visibility, the last fetch and the stashes,
/// and visibility only where it is checked; in the order that all columns have.
pub proof fn law_the_default_columns(visibility_enabled: bool, c: Column, i: int, j: int)
    ensures
        default_upto(visibility_enabled, 15).contains(c) <==> c != Column::VisibilityShort && c
            != Column::Fetched && c != Column::Stashes && (c == Column::Visibility
            ==> visibility_enabled),
        0 <= i < j < default_upto(visibility_enabled, 15).len() ==> place_of(
            default_upto(visibility_enabled, 15)[i],
        ) < place_of(default_upto(visibility_enabled, 15)[j]),
        every_column().contains(c),
        every_column()[place_of(c)] == c,
        every_column().len() == 15,
{
    lemma_default_upto(visibility_enabled, 15);
    assert(every_column()[place_of(c)] == c);
}

/// Where a column stands among all.
pub open spec fn place_of(c: Column) -> int {
    match c {
        Column::Group => 0,
        Column::Repo => 1,
        Column::Branch => 2,
        Column::State => 3,
        Column::Release => 4,
        Column::Visibility => 5,
        Column::VisibilityShort => 6,
        Column::Changes => 7,
        Column::Stashes => 8,
        Column::Ahead => 9,
        Column::Behind => 10,
        Column::Fetched => 11,
        Column::Tag => 12,
        Column::SinceTag => 13,
        Column::Age => 14,
    }
}

proof fn lemma_default_upto(visibility_enabled: bool, n: int)
    requires
        0 <= n <= 15,
    ensures
        forall|c: Column| #[trigger]
            default_upto(visibility_enabled, n).contains(c) <==> place_of(c) < n
                && shown_by_default(c, visibility_enabled),
        forall|i: int, j: int|
            0 <= i < j < default_upto(visibility_enabled, n).len() ==> place_of(
                #[trigger] default_upto(visibility_enabled, n)[i],
            ) < place_of(#[trigger] default_upto(visibility_enabled, n)[j]),
    decreases n,
{
    if n > 0 {
        lemma_default_upto(visibility_enabled, n - 1);
        let before = default_upto(visibility_enabled, n - 1);
        let after = default_upto(visibility_enabled, n);
        let last = every_column()[n - 1];
        assert(place_of(last) == n - 1);
        assert forall|c: Column| #[trigger] after.contains(c) <==> place_of(c) < n
            && shown_by_default(c, visibility_enabled) by {
            if before.contains(c) {
                let k = choose|k: int| 0 <= k < before.len() && before[k] == c;
                assert(after[k] == c);
            }
            if place_of(c) == n - 1 {
                assert(c == last);
                if shown_by_default(c, visibility_enabled) {
                    assert(after[before.len() as int] == c);
                }
            }
            if after.contains(c) {
                let k = choose|k: int| 0 <= k < after.len() && after[k] == c;
                if k < before.len() {
                    assert(before[k] == c);
                    assert(before.contains(c));
                }
            }
        }
        assert forall|i: int, j: int| 0 <= i < j < after.len() implies place_of(
            #[trigger] after[i],
        ) < place_of(#[trigger] after[j]) by {
            assert(before.contains(before[i]) && after[i] == before[i]);
            if j < before.len() {
                assert(after[j] == before[j]);
            }
        }
    }
}

/// Whether one column is named in a list before any mention of another.
pub open spec fn named_before(cols: Seq<Column>, a: Column, b: Column) -> bool {
    exists|p: int|
        0 <= p < cols.len() && #[trigger] cols[p] == a && forall|q: int|
            0 <= q <= p ==> cols[q] != b
}

proof fn lemma_repeats_order(cols: Seq<Column>, i: int, j: int)
    requires
        0 <= i < j < without_repeats(cols).len(),
    ensures
        named_before(cols, without_repeats(cols)[i], without_repeats(cols)[j]),
    decreases cols.len(),
{
    let init = cols.take(cols.len() - 1);
    let last = cols[cols.len() - 1];
    let rest = without_repeats(init);
    let out = without_repeats(cols);
    lemma_without_repeats(init);
    if j < rest.len() {
        lemma_repeats_order(init, i, j);
        let (a, b) = (rest[i], rest[j]);
        let p = choose|p: int|
            0 <= p < init.len() && #[trigger] init[p] == a && forall|q: int|
                0 <= q <= p ==> init[q] != b;
        assert(cols[p] == a);
        assert forall|q: int| 0 <= q <= p implies cols[q] != b by {
            assert(init[q] == cols[q]);
        }
    } else {
        let a = rest[i];
        assert(rest.contains(a));
        assert(init.contains(a));
        let p = choose|p: int| 0 <= p < init.len() && init[p] == a;
        assert(cols[p] == a);
        assert forall|q: int| 0 <= q <= p implies cols[q] != last by {
            assert(init[q] == cols[q]);
            assert(init.contains(init[q]));
        }
    }
}

/// Where a column that is kept stood before.
proof fn lemma_form_order(cols: Seq<Column>, form: Option<Column>, i: int, j: int) -> (at: (int, int))
    requires
        0 <= i < j < with_form(cols, form).len(),
    ensures
        0 <= at.0 < at.1 < cols.len(),
        cols[at.0] == with_form(cols, form)[i],
        cols[at.1] == with_form(cols, form)[j],
    decreases cols.len(),
{
    let init = cols.take(cols.len() - 1);
    let rest = with_form(init, form);
    if j < rest.len() {
        let at = lemma_form_order(init, form, i, j);
        assert(init[at.0] == cols[at.0] && init[at.1] == cols[at.1]);
        at
    } else {
        let p = lemma_form_place(init, form, i);
        assert(init[p] == cols[p]);
        (p, cols.len() - 1)
    }
}

proof fn lemma_form_place(cols: Seq<Column>, form: Option<Column>, i: int) -> (at: int)
    requires
        0 <= i < with_form(cols, form).len(),
    ensures
        0 <= at < cols.len(),
        cols[at] == with_form(cols, form)[i],
    decreases cols.len(),
{
    let init = cols.take(cols.len() - 1);
    let rest = with_form(init, form);
    if i < rest.len() {
        let at = lemma_form_place(init, form, i);
        assert(init[at] == cols[at]);
        at
    } else {
        cols.len() - 1
    }
}

/// A list is honoured in the order it was written: of two columns it names, the one named
/// first comes first.
pub proof fn law_the_order_is_honoured(cols: Seq<Column>, i: int, j: int)
    requires
        0 <= i < j < sanitised(cols).len(),
        cols.contains(sanitised(cols)[i]),
        cols.contains(sanitised(cols)[j]),
    ensures
        named_before(cols, sanitised(cols)[i], sanitised(cols)[j]),
{
    let once = without_repeats(cols);
    let form = form_from(once, 0);
    let one = with_form(once, form);
    let out = sanitised(cols);
    lemma_without_repeats(cols);
    lemma_with_form(once, form);
    lemma_branch_from(one, 0);
    let at = branch_from(one, 0);
    let (a, b) = if one.contains(Column::Repo) {
        (i, j)
    } else {
        assert(once.contains(Column::Repo) ==> one.contains(Column::Repo));
        assert(!cols.contains(Column::Repo));
        assert(out[at] == Column::Repo);
        (if i < at { i } else { i - 1 }, if j < at { j } else { j - 1 })
    };
    assert(one[a] == out[i] && one[b] == out[j]);
    let from = lemma_form_order(once, form, a, b);
    lemma_repeats_order(cols, from.0, from.1);
}

/// Of the two visibility forms the one that was named first is shown; and where REPO was
/// left out it stands in front of BRANCH, or first where there is no BRANCH.
pub proof fn law_the_first_form_is_shown(cols: Seq<Column>, c: Column, d: Column)
    ensures
        c != d && is_visibility(c) && is_visibility(d) && sanitised(cols).contains(c)
            && cols.contains(d) ==> named_before(cols, c, d),
        is_visibility(c) && cols.contains(c) ==> sanitised(cols).contains(Column::Visibility)
            || sanitised(cols).contains(Column::VisibilityShort),
        !cols.contains(Column::Repo) && !cols.contains(Column::Branch) ==> sanitised(cols)[0]
            == Column::Repo,
        !cols.contains(Column::Repo) && cols.contains(Column::Branch) ==> exists|k: int|
            0 <= k < sanitised(cols).len() - 1 && #[trigger] sanitised(cols)[k] == Column::Repo
                && sanitised(cols)[k + 1] == Column::Branch,
{
    let once = without_repeats(cols);
    let form = form_from(once, 0);
    let one = with_form(once, form);
    let out = sanitised(cols);
    lemma_without_repeats(cols);
    lemma_form_from(once, 0);
    lemma_form_is_first(once, 0);
    lemma_with_form(once, form);
    lemma_branch_from(one, 0);
    lemma_branch_place(one, 0);
    let at = branch_from(one, 0);
    assert forall|x: Column| one.contains(x) implies #[trigger] out.contains(x) by {
        let k = choose|k: int| 0 <= k < one.len() && one[k] == x;
        if one.contains(Column::Repo) {
            assert(out[k] == x);
        } else {
            assert(out[if k < at { k } else { k + 1 }] == x);
        }
    }
    assert forall|x: Column| #[trigger] out.contains(x) && x != Column::Repo implies one.contains(
        x,
    ) by {
        let k = choose|k: int| 0 <= k < out.len() && out[k] == x;
        if !one.contains(Column::Repo) {
            assert(one[if k < at { k } else { k - 1 }] == x);
        }
    }
    if c != d && is_visibility(c) && is_visibility(d) && out.contains(c) && cols.contains(d) {
        assert(one.contains(c));
        assert(form == Some(c));
        assert(once.contains(c) && once.contains(d));
        let p = choose|p: int| 0 <= p < once.len() && once[p] == c;
        let q = choose|q: int| 0 <= q < once.len() && once[q] == d;
        let f = choose|f: int|
            0 <= f < once.len() && #[trigger] once[f] == form->0 && forall|k: int|
                0 <= k < f ==> !is_visibility(#[trigger] once[k]);
        assert(f == p);
        assert(p < q) by {
            if q < p {
                assert(!is_visibility(once[q]));
            }
        }
        lemma_repeats_order(cols, p, q);
    }
    if is_visibility(c) && cols.contains(c) {
        assert(once.contains(c));
        let k = choose|k: int| 0 <= k < once.len() && once[k] == c;
        assert(form is Some);
        assert(one.contains(form->0));
    }
    if !cols.contains(Column::Repo) {
        assert(!once.contains(Column::Repo));
        assert(!one.contains(Column::Repo));
        assert(out[at] == Column::Repo);
        if cols.contains(Column::Branch) {
            assert(once.contains(Column::Branch));
            assert(one.contains(Column::Branch));
            assert(out[at + 1] == one[at]);
        } else {
            assert(!once.contains(Column::Branch));
            assert(!one.contains(Column::Branch));
        }
    }
}

proof fn lemma_form_is_first(cols: Seq<Column>, i: int)
    requires
        0 <= i <= cols.len(),
    ensures
        form_from(cols, i) is Some ==> exists|f: int|
            i <= f < cols.len() && #[trigger] cols[f] == form_from(cols, i)->0 && forall|k: int|
                i <= k < f ==> !is_visibility(#[trigger] cols[k]),
    decreases cols.len() - i,
{
    if i < cols.len() {
        if is_visibility(cols[i]) {
            assert(cols[i] == form_from(cols, i)->0);
        } else {
            lemma_form_is_first(cols, i + 1);
            if form_from(cols, i) is Some {
                let f = choose|f: int|
                    i + 1 <= f < cols.len() && #[trigger] cols[f] == form_from(cols, i + 1)->0
                        && forall|k: int| i + 1 <= k < f ==> !is_visibility(#[trigger] cols[k]);
                assert(cols[f] == form_from(cols, i)->0);
            }
        }
    }
}

proof fn lemma_branch_place(cols: Seq<Column>, i: int)
    requires
        0 <= i <= cols.len(),
    ensures
        (exists|k: int| i <= k < cols.len() && #[trigger] cols[k] == Column::Branch)
            ==> branch_from(cols, i) < cols.len() && cols[branch_from(cols, i)] == Column::Branch,
        !(exists|k: int| i <= k < cols.len() && #[trigger] cols[k] == Column::Branch)
            ==> branch_from(cols, i) == 0,
    decreases cols.len() - i,
{
    if i < cols.len() && cols[i] != Column::Branch {
        lemma_branch_place(cols, i + 1);
        if exists|k: int| i <= k < cols.len() && #[trigger] cols[k] == Column::Branch {
            let k = choose|k: int| i <= k < cols.len() && #[trigger] cols[k] == Column::Branch;
            assert(i + 1 <= k);
            assert(cols[k] == Column::Branch);
        }
    }
}

/// The repo takes what room is left, the branch what its names need, and every other column
/// a room of its own, that of its numbers being the smaller.
pub proof fn law_every_column_has_its_room(c: Column)
    ensures
        c.room() == Width::Fill <==> c == Column::Repo,
        c.room() == Width::Branch <==> c == Column::Branch,
        c != Column::Repo && c != Column::Branch ==> (c.room() matches Width::Fixed(n) && 4 <= n
            <= 16),
        c == Column::Group || c == Column::Tag ==> c.room() == Width::Fixed(14),
        c == Column::State || c == Column::Changes ==> c.room() == Width::Fixed(12),
        c == Column::Release ==> c.room() == Width::Fixed(16),
        c == Column::Visibility ==> c.room() == Width::Fixed(15),
        c == Column::VisibilityShort ==> c.room() == Width::Fixed(4),
        c == Column::Stashes || c == Column::Ahead ==> c.room() == Width::Fixed(6),
        c == Column::Behind ==> c.room() == Width::Fixed(7),
        c == Column::Fetched ==> c.room() == Width::Fixed(8),
        c == Column::SinceTag || c == Column::Age ==> c.room() == Width::Fixed(5),
{
}

} // verus!
