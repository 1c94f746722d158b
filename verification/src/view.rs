//! A flattened view of a repo, for scripting.

use vstd::prelude::*;

use crate::fmt::age;
use crate::model::{copy_opt, Flags, RefsInfo, RepoStatus, VisibilityStatus};

verus! {

/// A flattened view for scripting. Derived values are computed here rather than
/// left for the consumer to work out.
#[derive(Debug)]
pub struct RepoView<'a> {
    pub path: &'a str,
    pub group: &'a str,
    pub name: &'a str,
    pub slug: String,
    pub state: &'a str,
    pub release_state: &'static str,
    /// `"public"`, `"private"`, `"internal"`, `"unsupported"` (a remote on a
    /// host nothing recognises), `"no remote configured"`, `"checking
    /// disabled"`, `"check failed"`, or nothing before the repo has been
    /// probed at all.
    pub visibility: Option<&'static str>,
    /// The reason, only present when `visibility` is `"check failed"`.
    pub visibility_error: Option<&'a str>,
    pub branch: String,
    pub upstream: Option<String>,
    /// Commits unpushed across *every* local branch, not just `branch`. What
    /// `--unpushed` and `--sort ahead` work from.
    ///
    /// This reads oddly next to `branch` and `upstream`; `branch_ahead` is the
    /// per-branch reading. Scripts rely on these fields, so neither is redefined.
    pub ahead: u32,
    /// Commits behind across *every* local branch, the counterpart to
    /// `ahead`. `--behind` and `--sort behind` work from this, and
    /// `branch_behind` is the per-branch reading.
    pub behind: u32,
    /// Commits the checked-out branch hasn't pushed. The one that reads
    /// against the `branch` and `upstream` above it, and what the AHEAD
    /// column shows.
    pub branch_ahead: u32,
    /// Commits `upstream` has that `branch` doesn't. Per-branch, like
    /// `branch_ahead`, and what the BEHIND column shows.
    pub branch_behind: u32,
    /// When anything last fetched this repo, from `FETCH_HEAD`. Nothing means
    /// nothing ever has, which is what makes `behind: 0` a number nobody
    /// checked rather than a repo in sync.
    pub fetched_at: Option<i64>,
    /// True when there is a remote to check against and nothing has ever
    /// checked. Derived from `fetched_at`, but worth its own field: it is the
    /// condition a script would otherwise have to know to look for.
    pub never_fetched: bool,
    pub staged: u32,
    pub unstaged: u32,
    pub untracked: u32,
    pub conflicts: u32,
    pub stashes: u32,
    pub operation: Option<&'static str>,
    pub last_tag: Option<String>,
    pub newest_tag: Option<String>,
    pub tag_off_branch: bool,
    pub commits_since_tag: u32,
    pub changelog_version: Option<String>,
    pub changelog_untagged: bool,
    pub remote_url: Option<String>,
    pub activity_at: i64,
    pub activity_source: &'static str,
    pub age: String,
    pub work_scanned: bool,
    pub error: Option<&'a str>,
    pub flags: Vec<&'static str>,
}

/// A flag's name, where the flag is set.
pub open spec fn flag(on: bool, label: Seq<char>) -> Seq<Seq<char>> {
    if on {
        seq![label]
    } else {
        Seq::empty()
    }
}

/// The names of the flags that are set.
pub open spec fn set_flags(f: Flags) -> Seq<Seq<char>> {
    flag(f.dirty, "dirty"@) + flag(f.unpushed, "unpushed"@) + flag(f.conflicted, "conflicted"@)
        + flag(f.in_progress, "in-progress"@) + flag(f.detached, "detached"@) + flag(
        f.no_remote,
        "no-remote"@,
    ) + flag(f.no_upstream, "no-upstream"@) + flag(f.stashed, "stashed"@) + flag(f.error, "error"@)
}

/// The names of the flags that are set; `clean` where none is.
pub open spec fn flag_names(f: Flags) -> Seq<Seq<char>> {
    if set_flags(f).len() == 0 {
        seq!["clean"@]
    } else {
        set_flags(f)
    }
}

fn add_flag(list: &mut Vec<&'static str>, on: bool, label: &'static str)
    ensures
        crate::table::strs(final(list)@) == crate::table::strs(old(list)@) + flag(on, label@),
{
    let ghost before = list@;
    if on {
        list.push(label);
    }
    assert(crate::table::strs(list@) =~= crate::table::strs(before) + flag(on, label@));
}

fn list_flags(f: &Flags) -> (r: Vec<&'static str>)
    ensures
        crate::table::strs(r@) == flag_names(*f),
{
    let mut out: Vec<&'static str> = Vec::new();
    add_flag(&mut out, f.dirty, "dirty");
    assert(crate::table::strs(out@) =~= flag(f.dirty, "dirty"@));
    add_flag(&mut out, f.unpushed, "unpushed");
    add_flag(&mut out, f.conflicted, "conflicted");
    add_flag(&mut out, f.in_progress, "in-progress");
    add_flag(&mut out, f.detached, "detached");
    add_flag(&mut out, f.no_remote, "no-remote");
    add_flag(&mut out, f.no_upstream, "no-upstream");
    add_flag(&mut out, f.stashed, "stashed");
    add_flag(&mut out, f.error, "error");
    assert(crate::table::strs(out@) == set_flags(*f));
    assert(crate::table::strs(out@).len() == out@.len());
    if out.len() == 0 {
        out.push("clean");
        assert(crate::table::strs(out@) =~= seq!["clean"@]);
    }
    out
}

/// Why a check failed, where one did.
pub open spec fn check_error(repo: &RepoStatus) -> Option<Seq<char>> {
    match repo.visibility {
        Some(v) => match v.status {
            VisibilityStatus::CheckFailed(reason) => Some(reason@),
            _ => None,
        },
        None => None,
    }
}

pub open spec fn known_text(repo: &RepoStatus) -> Option<Seq<char>> {
    match repo.visibility {
        Some(v) => Some(v.status.label_text()),
        None => None,
    }
}

/// What a refs-derived part of the view must be.
pub open spec fn refs_shown(v: &RepoView, refs: Option<RefsInfo>) -> bool {
    match refs {
        None => {
            &&& v.upstream is None
            &&& v.stashes == 0
            &&& v.operation is None
            &&& v.last_tag is None
            &&& v.newest_tag is None
            &&& !v.tag_off_branch
            &&& v.changelog_version is None
            &&& !v.changelog_untagged
            &&& v.remote_url is None
        },
        Some(r) => {
            &&& v.upstream == (match r.current() {
                Some(b) => b.upstream,
                None => None,
            })
            &&& v.stashes == r.stashes
            &&& crate::hold::opt_str(v.operation) == (match r.operation {
                Some(o) => Some(o.label_text()),
                None => None,
            })
            &&& v.last_tag == (match r.described_tag {
                Some(t) => Some(t.name),
                None => None,
            })
            &&& v.newest_tag == (match r.newest_tag {
                Some(t) => Some(t.name),
                None => None,
            })
            &&& v.tag_off_branch == r.is_tag_off_branch()
            &&& v.changelog_version == (match r.changelog {
                Some(c) => Some(c.version),
                None => None,
            })
            &&& v.changelog_untagged == (r.changelog matches Some(c) && !c.tagged)
            &&& v.remote_url == r.remote_url
        },
    }
}

/// What the view of a repo must be.
pub open spec fn shows(v: &RepoView, repo: &RepoStatus, now: int) -> bool {
    &&& v.path@ == repo.root@
    &&& v.group@ == repo.group@
    &&& v.name@ == repo.name@
    &&& v.slug@ == repo.slug_text()
    &&& v.state@ == repo.state_text()
    &&& v.release_state@ == repo.state().key_text()
    &&& crate::hold::opt_str(v.visibility) == known_text(repo)
    &&& crate::hold::opt_str(v.visibility_error) == check_error(repo)
    &&& v.branch@ == repo.branch_text()
    &&& v.ahead == repo.unpushed_count()
    &&& v.behind == repo.behind_count()
    &&& v.branch_ahead == repo.branch_ahead()
    &&& v.branch_behind == repo.branch_back()
    &&& v.fetched_at == repo.fetch_time()
    &&& v.never_fetched == repo.is_never_fetched()
    &&& match repo.work {
        Some(w) => v.staged == w.staged && v.unstaged == w.unstaged && v.untracked == w.untracked
            && v.conflicts == w.conflicts,
        None => v.staged == 0 && v.unstaged == 0 && v.untracked == 0 && v.conflicts == 0,
    }
    &&& v.commits_since_tag == repo.since_tag()
    &&& v.activity_at == repo.last_activity().0
    &&& v.activity_source@ == repo.last_activity().1.label_text()
    &&& v.age@ == crate::fmt::age_text(repo.last_activity().0, now)
    &&& v.work_scanned == repo.work is Some
    &&& crate::hold::opt_str(v.error) == crate::pathname::opt_text(repo.error)
    &&& crate::table::strs(v.flags@) == flag_names(repo.the_flags())
    &&& refs_shown(v, repo.refs)
}

fn upstream_of(refs: &Option<RefsInfo>) -> (r: Option<String>)
    ensures
        r == (match *refs {
            Some(x) => match x.current() {
                Some(b) => b.upstream,
                None => None,
            },
            None => None,
        }),
{
    match refs {
        Some(x) => match x.current_branch() {
            Some(b) => copy_opt(&b.upstream),
            None => None,
        },
        None => None,
    }
}

/// The view of a repo.
pub fn view<'a>(repo: &'a RepoStatus, now: i64) -> (r: RepoView<'a>)
    ensures
        shows(&r, repo, now as int),
{
    let (activity_at, source) = repo.activity();
    let flags = repo.flags();
    let (staged, unstaged, untracked, conflicts) = match &repo.work {
        Some(w) => (w.staged, w.unstaged, w.untracked, w.conflicts),
        None => (0, 0, 0, 0),
    };
    let visibility = match &repo.visibility {
        Some(v) => Some(v.status.label()),
        None => None,
    };
    let visibility_error = match &repo.visibility {
        Some(v) => match &v.status {
            VisibilityStatus::CheckFailed(reason) => Some(reason.as_str()),
            _ => None,
        },
        None => None,
    };
    let (stashes, operation, tag_off_branch) = match &repo.refs {
        Some(r) => (
            r.stashes,
            match r.operation {
                Some(o) => Some(o.label()),
                None => None,
            },
            r.tag_off_branch(),
        ),
        None => (0, None, false),
    };
    let last_tag = match &repo.refs {
        Some(r) => match &r.described_tag {
            Some(t) => Some(t.name.clone()),
            None => None,
        },
        None => None,
    };
    let newest_tag = match &repo.refs {
        Some(r) => match &r.newest_tag {
            Some(t) => Some(t.name.clone()),
            None => None,
        },
        None => None,
    };
    let (changelog_version, changelog_untagged) = match &repo.refs {
        Some(r) => match &r.changelog {
            Some(c) => (Some(c.version.clone()), !c.tagged),
            None => (None, false),
        },
        None => (None, false),
    };
    let remote_url = match &repo.refs {
        Some(r) => copy_opt(&r.remote_url),
        None => None,
    };
    let error = match &repo.error {
        Some(e) => Some(e.as_str()),
        None => None,
    };
    RepoView {
        path: repo.root.as_str(),
        group: repo.group.as_str(),
        name: repo.name.as_str(),
        slug: repo.slug(),
        state: repo.state_label(),
        release_state: repo.release_state().key(),
        visibility,
        visibility_error,
        branch: repo.branch_label(),
        upstream: upstream_of(&repo.refs),
        ahead: repo.unpushed_total(),
        behind: repo.behind_total(),
        branch_ahead: repo.branch_unpushed(),
        branch_behind: repo.branch_behind(),
        fetched_at: repo.fetched_at(),
        never_fetched: repo.never_fetched(),
        staged,
        unstaged,
        untracked,
        conflicts,
        stashes,
        operation,
        last_tag,
        newest_tag,
        tag_off_branch,
        commits_since_tag: repo.commits_since_tag(),
        changelog_version,
        changelog_untagged,
        remote_url,
        activity_at,
        activity_source: source.label(),
        age: age(activity_at, now),
        work_scanned: repo.work.is_some(),
        error,
        flags: list_flags(&flags),
    }
}

pub open spec fn one_if(on: bool) -> int {
    if on {
        1
    } else {
        0
    }
}

proof fn lemma_more_flags(list: Seq<Seq<char>>, on: bool, label: Seq<char>)
    ensures
        (list + flag(on, label)).len() == list.len() + one_if(on),
{
}

/// A view always has a flag, and it says `clean` exactly where nothing is
/// outstanding: otherwise it has as many as there are flags set.
pub proof fn law_clean_means_no_flag(f: Flags)
    ensures
        flag_names(f).len() > 0,
        set_flags(f).len() == one_if(f.dirty) + one_if(f.unpushed) + one_if(f.conflicted) + one_if(
            f.in_progress,
        ) + one_if(f.detached) + one_if(f.no_remote) + one_if(f.no_upstream) + one_if(f.stashed)
            + one_if(f.error),
{
    let a = flag(f.dirty, "dirty"@);
    let b = a + flag(f.unpushed, "unpushed"@);
    let c = b + flag(f.conflicted, "conflicted"@);
    let d = c + flag(f.in_progress, "in-progress"@);
    let e = d + flag(f.detached, "detached"@);
    let g = e + flag(f.no_remote, "no-remote"@);
    let h = g + flag(f.no_upstream, "no-upstream"@);
    let i = h + flag(f.stashed, "stashed"@);
    lemma_more_flags(a, f.unpushed, "unpushed"@);
    lemma_more_flags(b, f.conflicted, "conflicted"@);
    lemma_more_flags(c, f.in_progress, "in-progress"@);
    lemma_more_flags(d, f.detached, "detached"@);
    lemma_more_flags(e, f.no_remote, "no-remote"@);
    lemma_more_flags(g, f.no_upstream, "no-upstream"@);
    lemma_more_flags(h, f.stashed, "stashed"@);
    lemma_more_flags(i, f.error, "error"@);
    assert(a.len() == one_if(f.dirty));
}

proof fn lemma_flag_adds(list: Seq<Seq<char>>, on: bool, label: Seq<char>, x: Seq<char>)
    ensures
        (list + flag(on, label)).contains(x) <==> list.contains(x) || (on && label == x),
{
    let all = list + flag(on, label);
    if list.contains(x) {
        let i = choose|i: int| 0 <= i < list.len() && list[i] == x;
        assert(all[i] == x);
    }
    if on && label == x {
        assert(all[list.len() as int] == x);
    }
    if all.contains(x) {
        let i = choose|i: int| 0 <= i < all.len() && all[i] == x;
        if i < list.len() {
            assert(list[i] == x);
        }
    }
}

proof fn lemma_set_flags(f: Flags, x: Seq<char>)
    ensures
        set_flags(f).contains(x) <==> {
            ||| f.dirty && x == "dirty"@
            ||| f.unpushed && x == "unpushed"@
            ||| f.conflicted && x == "conflicted"@
            ||| f.in_progress && x == "in-progress"@
            ||| f.detached && x == "detached"@
            ||| f.no_remote && x == "no-remote"@
            ||| f.no_upstream && x == "no-upstream"@
            ||| f.stashed && x == "stashed"@
            ||| f.error && x == "error"@
        },
{
    let a = flag(f.dirty, "dirty"@);
    lemma_flag_adds(Seq::empty(), f.dirty, "dirty"@, x);
    assert(Seq::<Seq<char>>::empty() + a =~= a);
    let b = a + flag(f.unpushed, "unpushed"@);
    lemma_flag_adds(a, f.unpushed, "unpushed"@, x);
    let c = b + flag(f.conflicted, "conflicted"@);
    lemma_flag_adds(b, f.conflicted, "conflicted"@, x);
    let d = c + flag(f.in_progress, "in-progress"@);
    lemma_flag_adds(c, f.in_progress, "in-progress"@, x);
    let e = d + flag(f.detached, "detached"@);
    lemma_flag_adds(d, f.detached, "detached"@, x);
    let g = e + flag(f.no_remote, "no-remote"@);
    lemma_flag_adds(e, f.no_remote, "no-remote"@, x);
    let h = g + flag(f.no_upstream, "no-upstream"@);
    lemma_flag_adds(g, f.no_upstream, "no-upstream"@, x);
    let i = h + flag(f.stashed, "stashed"@);
    lemma_flag_adds(h, f.stashed, "stashed"@, x);
    lemma_flag_adds(i, f.error, "error"@, x);
}

/// A flag is named exactly where it is set, and "clean" where none is.
pub proof fn law_a_flag_is_named_where_it_is_set(f: Flags)
    ensures
        flag_names(f).contains("dirty"@) <==> f.dirty,
        flag_names(f).contains("unpushed"@) <==> f.unpushed,
        flag_names(f).contains("conflicted"@) <==> f.conflicted,
        flag_names(f).contains("in-progress"@) <==> f.in_progress,
        flag_names(f).contains("detached"@) <==> f.detached,
        flag_names(f).contains("no-remote"@) <==> f.no_remote,
        flag_names(f).contains("no-upstream"@) <==> f.no_upstream,
        flag_names(f).contains("stashed"@) <==> f.stashed,
        flag_names(f).contains("error"@) <==> f.error,
        flag_names(f).contains("clean"@) <==> !(f.dirty || f.unpushed || f.conflicted
            || f.in_progress || f.detached || f.no_remote || f.no_upstream || f.stashed || f.error),
{
    lemma_words_apart();
    law_clean_means_no_flag(f);
    lemma_set_flags(f, "dirty"@);
    lemma_set_flags(f, "unpushed"@);
    lemma_set_flags(f, "conflicted"@);
    lemma_set_flags(f, "in-progress"@);
    lemma_set_flags(f, "detached"@);
    lemma_set_flags(f, "no-remote"@);
    lemma_set_flags(f, "no-upstream"@);
    lemma_set_flags(f, "stashed"@);
    lemma_set_flags(f, "error"@);
    lemma_set_flags(f, "clean"@);
    if set_flags(f).len() == 0 {
        assert(flag_names(f)[0] == "clean"@);
    }
}

proof fn lemma_words_apart()
    ensures
        "dirty"@.len() == 5 && "dirty"@[0] == 'd',
        "unpushed"@.len() == 8 && "unpushed"@[0] == 'u',
        "conflicted"@.len() == 10,
        "in-progress"@.len() == 11 && "in-progress"@[0] == 'i',
        "detached"@.len() == 8 && "detached"@[0] == 'd',
        "no-remote"@.len() == 9,
        "no-upstream"@.len() == 11 && "no-upstream"@[0] == 'n',
        "stashed"@.len() == 7,
        "error"@.len() == 5 && "error"@[0] == 'e',
        "clean"@.len() == 5 && "clean"@[0] == 'c',
{
    reveal_strlit("dirty");
    reveal_strlit("unpushed");
    reveal_strlit("conflicted");
    reveal_strlit("in-progress");
    reveal_strlit("detached");
    reveal_strlit("no-remote");
    reveal_strlit("no-upstream");
    reveal_strlit("stashed");
    reveal_strlit("error");
    reveal_strlit("clean");
}

/// What is shown of a repo is its own: its name, its state, what waits on it and what
/// changed in it.
pub proof fn law_a_view_shows_its_repo(v: &RepoView, repo: &RepoStatus, now: int)
    requires
        shows(v, repo, now),
    ensures
        v.path@ == repo.root@ && v.group@ == repo.group@ && v.name@ == repo.name@,
        v.slug@ == repo.slug_text() && v.state@ == repo.state_text(),
        v.release_state@ == repo.state().key_text(),
        v.ahead == repo.unpushed_count() && v.behind == repo.behind_count(),
        v.branch_ahead == repo.branch_ahead() && v.branch_behind == repo.branch_back(),
        repo.work matches Some(w) ==> v.work_scanned && v.staged == w.staged && v.unstaged
            == w.unstaged && v.untracked == w.untracked && v.conflicts == w.conflicts,
        repo.work is None ==> !v.work_scanned && v.staged == 0 && v.unstaged == 0 && v.untracked
            == 0 && v.conflicts == 0,
        v.commits_since_tag == repo.since_tag(),
        v.activity_at == repo.last_activity().0,
        v.never_fetched == repo.is_never_fetched() && v.fetched_at == repo.fetch_time(),
        repo.refs matches Some(r) ==> v.stashes == r.stashes && v.remote_url == r.remote_url
            && v.tag_off_branch == r.is_tag_off_branch() && (v.changelog_untagged <==> (r.changelog
            is Some && !r.changelog->0.tagged)) && (v.last_tag is Some <==> r.described_tag is Some)
            && (v.newest_tag is Some <==> r.newest_tag is Some) && (v.operation is Some
            <==> r.operation is Some),
        repo.refs is None ==> v.stashes == 0 && v.remote_url is None && v.last_tag is None,
        v.error is Some <==> repo.error is Some,
        v.visibility is Some <==> repo.visibility is Some,
        v.visibility_error is Some <==> (repo.visibility is Some && repo.visibility->0.status
            is CheckFailed),
{
}

/// The tags, the changelog and the branch followed are shown by their names.
pub proof fn law_a_view_shows_names(v: &RepoView, repo: &RepoStatus, now: int)
    requires
        shows(v, repo, now),
        repo.refs is Some,
    ensures
        ({
            let r = repo.refs->0;
            &&& r.described_tag matches Some(t) ==> v.last_tag == Some(t.name)
            &&& r.newest_tag matches Some(t) ==> v.newest_tag == Some(t.name)
            &&& r.changelog matches Some(c) ==> v.changelog_version == Some(c.version)
            &&& r.current() matches Some(b) ==> v.upstream == b.upstream
            &&& r.current() is None ==> v.upstream is None
            &&& r.operation matches Some(o) ==> (v.operation matches Some(s) && s@ == o.label_text())
        }),
        repo.visibility matches Some(i) ==> (v.visibility matches Some(s) && s@
            == i.status.label_text()),
        v.branch@ == repo.branch_text(),
        v.activity_source@ == repo.last_activity().1.label_text(),
        v.age@ == crate::fmt::age_text(repo.last_activity().0, now),
        crate::table::strs(v.flags@) == flag_names(repo.the_flags()),
{
}

} // verus!
