//! Everything known about one repo, as text.

use vstd::prelude::*;

use crate::fmt;
use crate::model::{
    BranchInfo, ChangeKind, ChangedFile, RefsInfo, RepoStatus, VisibilityStatus,
};
use crate::number::push_decimal;
use crate::order::{sort_indices, Key};
use crate::paths::{as_opt_str, contract_from, home_dir};
use crate::table::{table, Align};
use crate::text::{push_chars, push_spaces, split_lines, to_chars};

verus! {

// ---------------------------------------------------------------------------
// What each part says
// ---------------------------------------------------------------------------

pub open spec fn head_lines(repo: &RepoStatus, home: Option<Seq<char>>) -> Seq<char> {
    repo.slug_text() + "\n  path         "@ + crate::paths::contracted(repo.root@, home)
        + "\n  state        "@ + repo.state_text() + "\n  release      "@
        + repo.state().label_text() + "\n"@
}

/// Only a check that was made has an age, and only a check that failed has a
/// reason.
pub open spec fn visibility_line(repo: &RepoStatus, now: int) -> Seq<char> {
    match repo.visibility {
        None => Seq::empty(),
        Some(v) => match v.status {
            VisibilityStatus::Known(_) => "  visibility   "@ + v.status.label_text()
                + " (checked "@ + crate::fmt::age_text(v.checked_at as int, now) + " ago)\n"@,
            VisibilityStatus::CheckFailed(reason) => "  visibility   check failed "@
                + crate::fmt::age_text(v.checked_at as int, now) + " ago: "@ + reason@ + "\n"@,
            _ => "  visibility   "@ + v.status.label_text() + "\n"@,
        },
    }
}

pub open spec fn activity_line(repo: &RepoStatus, now: int) -> Seq<char> {
    "  activity     "@ + crate::fmt::age_text(repo.last_activity().0, now) + " ago ("@
        + repo.last_activity().1.label_text() + ")\n"@
}

pub open spec fn remote_lines(refs: &RefsInfo, now: int) -> Seq<char> {
    "  head         "@ + refs.head.label_text() + "\n"@ + match refs.remote_url {
        None => "  remote       (none)\n"@,
        Some(url) => "  remote       "@ + url@ + "\n"@ + match refs.fetched_at {
            Some(at) => "  fetched      "@ + crate::fmt::age_text(at as int, now) + " ago\n"@,
            None => "  fetched      never — the behind count has never been checked\n"@,
        },
    }
}

pub open spec fn state_lines(refs: &RefsInfo) -> Seq<char> {
    (if refs.stashes > 0 {
        "  stashes      "@ + crate::number::decimal(refs.stashes as int) + "\n"@
    } else {
        Seq::empty()
    }) + (match refs.operation {
        Some(op) => "  in progress  "@ + op.label_text() + "\n"@,
        None => Seq::empty(),
    }) + (if refs.is_shallow {
        "  shallow      yes\n"@
    } else {
        Seq::empty()
    })
}

pub open spec fn plural(n: int) -> Seq<char> {
    if n == 1 {
        ""@
    } else {
        "s"@
    }
}

pub open spec fn tag_lines(refs: &RefsInfo, now: int) -> Seq<char> {
    (match (refs.described_tag, refs.commits_since_tag) {
        (Some(tag), Some(count)) => "  last tag     "@ + tag.name@ + " ("@ + crate::fmt::age_text(
            tag.at as int,
            now,
        ) + " ago), "@ + crate::number::decimal(count as int) + " commit"@ + plural(count as int)
            + " since\n"@,
        _ => "  last tag     (none reachable)\n"@,
    }) + (match refs.newest_tag {
        Some(newest) => if refs.is_tag_off_branch() {
            "  newest tag   "@ + newest.name@
                + " is not an ancestor of HEAD (normal with git-flow)\n"@
        } else {
            Seq::empty()
        },
        None => Seq::empty(),
    })
}

pub open spec fn changelog_line(refs: &RefsInfo) -> Seq<char> {
    match refs.changelog {
        None => Seq::empty(),
        Some(cl) => "  changelog    "@ + cl.version@ + " ("@ + (if cl.tagged {
            "matches a tag"@
        } else if cl.unreleased_blocks > 1 {
            "no tag yet, and "@ + crate::number::decimal(cl.unreleased_blocks as int)
                + " unreleased blocks have stacked up"@
        } else {
            "no tag yet"@
        }) + ")\n"@,
    }
}

/// Where a branch stands against its upstream.
pub open spec fn tracking_text(b: &BranchInfo) -> Seq<char> {
    if b.gone {
        "upstream gone"@
    } else {
        match b.upstream {
            None => "no upstream"@,
            Some(u) => u@ + (if b.ahead > 0 {
                " ↑"@ + crate::number::decimal(b.ahead as int)
            } else {
                Seq::empty()
            }) + (if b.behind > 0 {
                " ↓"@ + crate::number::decimal(b.behind as int)
            } else {
                Seq::empty()
            }),
        }
    }
}

pub open spec fn branch_row(b: BranchInfo, now: int) -> Seq<Seq<char>> {
    seq![
        b.name@,
        tracking_text(&b),
        crate::fmt::age_text(b.committed_at as int, now),
        crate::fmt::truncated(b.subject@, 60),
    ]
}

/// The branches by their newest commit, newest first.
pub open spec fn branch_order(bs: Seq<BranchInfo>) -> Seq<int> {
    crate::order::stable_order(branch_keys(bs), true)
}

pub open spec fn branch_keys(bs: Seq<BranchInfo>) -> Seq<Seq<Seq<i64>>> {
    bs.map_values(|b: BranchInfo| seq![seq![b.committed_at]])
}

/// One row for each of the twenty branches that were committed to last.
pub open spec fn branch_rows(bs: Seq<BranchInfo>, now: int) -> Seq<Seq<Seq<char>>> {
    Seq::new(
        if bs.len() < 20 {
            bs.len()
        } else {
            20
        },
        |i: int| branch_row(bs[branch_order(bs)[i]], now),
    )
}

/// Every line that says anything moved in by `n` spaces.
pub open spec fn indented(ls: Seq<Seq<char>>, n: int) -> Seq<char>
    decreases ls.len(),
{
    if ls.len() == 0 {
        Seq::empty()
    } else {
        let last = ls[ls.len() - 1];
        indented(ls.take(ls.len() - 1), n) + (if last.len() == 0 {
            "\n"@
        } else {
            crate::text::spaces(n) + last + "\n"@
        })
    }
}

pub open spec fn branches_part(refs: &RefsInfo, now: int) -> Seq<char> {
    if refs.branches@.len() == 0 {
        Seq::empty()
    } else {
        "\n  branches\n"@ + indented(
            crate::text::lines(
                crate::table::table_text(
                    seq!["BRANCH"@, "TRACKING"@, "AGE"@, "SUBJECT"@],
                    seq![Align::Left, Align::Left, Align::Right, Align::Left],
                    branch_rows(refs.branches@, now),
                ),
            ),
            4,
        )
    }
}

pub open spec fn subject_lines(subjects: Seq<String>) -> Seq<char>
    decreases subjects.len(),
{
    if subjects.len() == 0 {
        Seq::empty()
    } else {
        subject_lines(subjects.take(subjects.len() - 1)) + "    · "@ + crate::fmt::truncated(
            subjects[subjects.len() - 1]@,
            100,
        ) + "\n"@
    }
}

pub open spec fn subjects_part(refs: &RefsInfo) -> Seq<char> {
    if refs.since_tag_subjects@.len() == 0 {
        Seq::empty()
    } else {
        "\n  commits since "@ + (match refs.described_tag {
            Some(t) => t.name@,
            None => "last tag"@,
        }) + "\n"@ + subject_lines(refs.since_tag_subjects@)
    }
}

pub open spec fn refs_part(repo: &RepoStatus, now: int) -> Seq<char> {
    match repo.refs {
        None => Seq::empty(),
        Some(refs) => remote_lines(&refs, now) + state_lines(&refs) + tag_lines(&refs, now)
            + changelog_line(&refs) + branches_part(&refs, now) + subjects_part(&refs),
    }
}

pub open spec fn change_marker(kind: ChangeKind) -> Seq<char> {
    match kind {
        ChangeKind::Staged => "+"@,
        ChangeKind::Unstaged => "~"@,
        ChangeKind::Untracked => "?"@,
        ChangeKind::Conflicted => "!"@,
    }
}

pub open spec fn file_lines(files: Seq<ChangedFile>) -> Seq<char>
    decreases files.len(),
{
    if files.len() == 0 {
        Seq::empty()
    } else {
        let last = files[files.len() - 1];
        file_lines(files.take(files.len() - 1)) + "    "@ + change_marker(last.kind) + " "@
            + last.path@ + "\n"@
    }
}

/// The first forty changed files.
pub open spec fn first_files(files: Seq<ChangedFile>) -> Seq<ChangedFile> {
    if files.len() <= 40 {
        files
    } else {
        files.take(40)
    }
}

pub open spec fn work_part(repo: &RepoStatus) -> Seq<char> {
    match repo.work {
        Some(work) => "\n  changes      "@ + crate::fmt::changes_text(
            work.staged as int,
            work.unstaged as int,
            work.untracked as int,
            work.conflicts as int,
        ) + "\n"@ + file_lines(first_files(work.files@)) + (if work.files@.len() > 0 && (
        work.truncated || work.files@.len() > 40) {
            "    … more\n"@
        } else {
            Seq::empty()
        }),
        None => if repo.bare() {
            "\n  changes      (bare repo, no working tree)\n"@
        } else {
            "\n  changes      (working tree not scanned)\n"@
        },
    }
}

pub open spec fn error_part(repo: &RepoStatus) -> Seq<char> {
    match repo.error {
        Some(err) => "\n  error        "@ + err@ + "\n"@,
        None => Seq::empty(),
    }
}

/// The whole detail text, for a given home directory.
pub open spec fn detail_text(repo: &RepoStatus, now: int, home: Option<Seq<char>>) -> Seq<char> {
    head_lines(repo, home) + visibility_line(repo, now) + activity_line(repo, now) + refs_part(
        repo,
        now,
    ) + work_part(repo) + error_part(repo)
}

// ---------------------------------------------------------------------------
// Rendering
// ---------------------------------------------------------------------------

fn render_head(repo: &RepoStatus, home: Option<&str>) -> (r: String)
    ensures
        r@ == head_lines(repo, crate::hold::opt_str(home)),
{
    let mut out = repo.slug();
    out.append("\n  path         ");
    let path = contract_from(repo.root.as_str(), home);
    out.append(path.as_str());
    out.append("\n  state        ");
    out.append(repo.state_label());
    out.append("\n  release      ");
    out.append(repo.release_state().label());
    out.append("\n");
    out
}

fn render_visibility(repo: &RepoStatus, now: i64) -> (r: String)
    ensures
        r@ == visibility_line(repo, now as int),
{
    match &repo.visibility {
        None => String::new(),
        Some(v) => match &v.status {
            VisibilityStatus::Known(_) => {
                let mut out = "  visibility   ".to_owned();
                out.append(v.status.label());
                out.append(" (checked ");
                out.append(fmt::age(v.checked_at, now).as_str());
                out.append(" ago)\n");
                out
            },
            // A check really was attempted here, unlike the other non-Known
            // cases below, so this is the one place the reason gets spelled
            // out -- never in a table, only here and in --json.
            VisibilityStatus::CheckFailed(reason) => {
                let mut out = "  visibility   check failed ".to_owned();
                out.append(fmt::age(v.checked_at, now).as_str());
                out.append(" ago: ");
                out.append(reason.as_str());
                out.append("\n");
                out
            },
            // Not a real check against a provider, just a read of the remote
            // URL or the config, so there's no "checked ... ago" to report.
            _ => {
                let mut out = "  visibility   ".to_owned();
                out.append(v.status.label());
                out.append("\n");
                out
            },
        },
    }
}

fn render_activity(repo: &RepoStatus, now: i64) -> (r: String)
    ensures
        r@ == activity_line(repo, now as int),
{
    let activity = repo.activity();
    let mut out = "  activity     ".to_owned();
    out.append(fmt::age(activity.0, now).as_str());
    out.append(" ago (");
    out.append(activity.1.label());
    out.append(")\n");
    out
}

fn render_remote(refs: &RefsInfo, now: i64) -> (r: String)
    ensures
        r@ == remote_lines(refs, now as int),
{
    let mut out = "  head         ".to_owned();
    out.append(refs.head.label().as_str());
    out.append("\n");
    let tail: String = match &refs.remote_url {
        None => "  remote       (none)\n".to_owned(),
        Some(url) => {
            let mut s = "  remote       ".to_owned();
            s.append(url.as_str());
            s.append("\n");
            let fetched: String = match refs.fetched_at {
                Some(at) => {
                    let mut f = "  fetched      ".to_owned();
                    f.append(fmt::age(at, now).as_str());
                    f.append(" ago\n");
                    f
                },
                None =>
                    "  fetched      never — the behind count has never been checked\n".to_owned(),
            };
            s.append(fetched.as_str());
            s
        },
};
    out.append(tail.as_str());
    out
}

fn render_state(refs: &RefsInfo) -> (r: String)
    ensures
        r@ == state_lines(refs),
{
    let mut out = String::new();
    if refs.stashes > 0 {
        out = "  stashes      ".to_owned();
        push_decimal(&mut out, refs.stashes as u64);
        out.append("\n");
    }
    let operation: String = match refs.operation {
        Some(op) => {
            let mut s = "  in progress  ".to_owned();
            s.append(op.label());
            s.append("\n");
            s
        },
        None => String::new(),
};
    out.append(operation.as_str());
    let shallow: String = if refs.is_shallow {
        "  shallow      yes\n".to_owned()
    } else {
        String::new()
};
    out.append(shallow.as_str());
    out
}

pub fn plural_ending(n: u32) -> (r: &'static str)
    ensures
        r@ == plural(n as int),
{
    if n == 1 {
        ""
    } else {
        "s"
    }
}

fn render_tags(refs: &RefsInfo, now: i64) -> (r: String)
    ensures
        r@ == tag_lines(refs, now as int),
{
    let mut out: String = match (&refs.described_tag, refs.commits_since_tag) {
        (Some(tag), Some(count)) => {
            let mut s = "  last tag     ".to_owned();
            s.append(tag.name.as_str());
            s.append(" (");
            s.append(fmt::age(tag.at, now).as_str());
            s.append(" ago), ");
            push_decimal(&mut s, count as u64);
            s.append(" commit");
            s.append(plural_ending(count));
            s.append(" since\n");
            s
        },
        _ => "  last tag     (none reachable)\n".to_owned(),
};
    let newest: String = match &refs.newest_tag {
        Some(newest) => {
            if refs.tag_off_branch() {
                let mut s = "  newest tag   ".to_owned();
                s.append(newest.name.as_str());
                s.append(" is not an ancestor of HEAD (normal with git-flow)\n");
                s
            } else {
                String::new()
            }
        },
        None => String::new(),
};
    out.append(newest.as_str());
    out
}

fn render_changelog(refs: &RefsInfo) -> (r: String)
    ensures
        r@ == changelog_line(refs),
{
    match &refs.changelog {
        None => String::new(),
        Some(cl) => {
            let note: String = if cl.tagged {
                "matches a tag".to_owned()
            } else if cl.unreleased_blocks > 1 {
                let mut s = "no tag yet, and ".to_owned();
                push_decimal(&mut s, cl.unreleased_blocks as u64);
                s.append(" unreleased blocks have stacked up");
                s
            } else {
                "no tag yet".to_owned()
            };
            let mut out = "  changelog    ".to_owned();
            out.append(cl.version.as_str());
            out.append(" (");
            out.append(note.as_str());
            out.append(")\n");
            out
        },
    }
}

fn render_tracking(b: &BranchInfo) -> (r: String)
    ensures
        r@ == tracking_text(b),
{
    if b.gone {
        return "upstream gone".to_owned();
    }
    match &b.upstream {
        None => "no upstream".to_owned(),
        Some(u) => {
            let mut out = u.clone();
            let ahead: String = if b.ahead > 0 {
                let mut s = " ↑".to_owned();
                push_decimal(&mut s, b.ahead as u64);
                s
            } else {
                String::new()
            };
            out.append(ahead.as_str());
            let behind: String = if b.behind > 0 {
                let mut s = " ↓".to_owned();
                push_decimal(&mut s, b.behind as u64);
                s
            } else {
                String::new()
            };
            out.append(behind.as_str());
            out
        },
    }
}

fn render_branch_row(b: &BranchInfo, now: i64) -> (r: Vec<String>)
    ensures
        crate::text::texts(r@) == branch_row(*b, now as int),
{
    let mut row: Vec<String> = Vec::new();
    row.push(b.name.clone());
    row.push(render_tracking(b));
    row.push(fmt::age(b.committed_at, now));
    row.push(fmt::truncate(b.subject.as_str(), 60));
    assert(crate::text::texts(row@) =~= branch_row(*b, now as int));
    row
}

fn branch_key_list(bs: &Vec<BranchInfo>) -> (r: Vec<Key>)
    ensures
        crate::order::key_rows(r@) == branch_keys(bs@),
{
    let mut out: Vec<Key> = Vec::new();
    let mut i: usize = 0;
    while i < bs.len()
        invariant
            i <= bs@.len(),
            out@.len() == i,
            forall|k: int|
                0 <= k < i ==> crate::order::rows(#[trigger] out@[k]@) == seq![seq![
                    bs@[k].committed_at,
                ]],
        decreases bs@.len() - i,
    {
        let mut row: Vec<i64> = Vec::new();
        row.push(bs[i].committed_at);
        assert(row@ =~= seq![bs@[i as int].committed_at]);
        let mut key: Key = Vec::new();
        key.push(row);
        assert(crate::order::rows(key@) =~= seq![seq![bs@[i as int].committed_at]]);
        out.push(key);
        i = i + 1;
    }
    assert(crate::order::key_rows(out@) =~= branch_keys(bs@));
    out
}

fn render_branches(refs: &RefsInfo, now: i64) -> (r: String)
    ensures
        r@ == branches_part(refs, now as int),
{
    if refs.branches.len() == 0 {
        return String::new();
    }
    let ghost bs = refs.branches@;
    let keys = branch_key_list(&refs.branches);
    let order = sort_indices(&keys, true);
    assert(crate::order::indices(order@) == branch_order(bs));
    assert(keys@.len() == bs.len()) by {
        assert(crate::order::key_rows(keys@).len() == keys@.len());
        assert(branch_keys(bs).len() == bs.len());
    }
    let shown: usize = if order.len() < 20 {
        order.len()
    } else {
        20
};
    let mut rows: Vec<Vec<String>> = Vec::new();
    let mut i: usize = 0;
    while i < shown
        invariant
            i <= shown <= order@.len(),
            order@.len() == bs.len(),
            bs == refs.branches@,
            crate::order::indices(order@) == branch_order(bs),
            forall|a: int| 0 <= a < order@.len() ==> #[trigger] order@[a] < bs.len(),
            rows@.len() == i,
            forall|k: int|
                0 <= k < i ==> crate::text::texts(#[trigger] rows@[k]@) == branch_row(
                    bs[branch_order(bs)[k]],
                    now as int,
                ),
        decreases shown - i,
    {
        let at: usize = order[i];
        assert(crate::order::indices(order@)[i as int] == at as int);
        rows.push(render_branch_row(&refs.branches[at], now));
        i = i + 1;
    }
    assert(crate::table::cells(rows@) =~= branch_rows(bs, now as int));
    let headers: [&str; 4] = ["BRANCH", "TRACKING", "AGE", "SUBJECT"];
    let aligns: [Align; 4] = [Align::Left, Align::Left, Align::Right, Align::Left];
    assert(crate::table::strs(headers@) =~= seq!["BRANCH"@, "TRACKING"@, "AGE"@, "SUBJECT"@]);
    assert(aligns@ =~= seq![Align::Left, Align::Left, Align::Right, Align::Left]);
    let text = table(&headers, &aligns, rows.as_slice());
    let mut out = "\n  branches\n".to_owned();
    let body = indent(text.as_str(), 4);
    out.append(body.as_str());
    out
}

fn indent(text: &str, spaces: usize) -> (r: String)
    ensures
        r@ == indented(crate::text::lines(text@), spaces as int),
{
    let v = to_chars(text);
    let ls = split_lines(v.as_slice());
    let ghost all = crate::text::lines(text@);
    let mut out = String::new();
    let mut i: usize = 0;
    while i < ls.len()
        invariant
            i <= ls@.len(),
            all == crate::text::views(ls@),
            out@ == indented(all.take(i as int), spaces as int),
        decreases ls@.len() - i,
    {
        proof {
            assert(all.take(i + 1).take(i as int) =~= all.take(i as int));
            assert(all.take(i + 1)[i as int] == ls@[i as int]@);
        }
        if ls[i].len() == 0 {
            out.append("\n");
        } else {
            push_spaces(&mut out, spaces);
            push_chars(&mut out, ls[i].as_slice());
            out.append("\n");
        }
        assert(out@ =~= indented(all.take(i + 1), spaces as int));
        i = i + 1;
    }
    assert(all.take(i as int) =~= all);
    out
}

fn render_subjects(refs: &RefsInfo) -> (r: String)
    ensures
        r@ == subjects_part(refs),
{
    let subjects = &refs.since_tag_subjects;
    if subjects.len() == 0 {
        return String::new();
    }
    let mut out = "\n  commits since ".to_owned();
    match &refs.described_tag {
        Some(t) => out.append(t.name.as_str()),
        None => out.append("last tag"),
    }
    out.append("\n");
    let mut list = String::new();
    let mut i: usize = 0;
    while i < subjects.len()
        invariant
            i <= subjects@.len(),
            list@ == subject_lines(subjects@.take(i as int)),
        decreases subjects@.len() - i,
    {
        assert(subjects@.take(i + 1).take(i as int) =~= subjects@.take(i as int));
        list.append("    · ");
        list.append(fmt::truncate(subjects[i].as_str(), 100).as_str());
        list.append("\n");
        i = i + 1;
    }
    assert(subjects@.take(i as int) =~= subjects@);
    out.append(list.as_str());
    out
}

fn render_refs(repo: &RepoStatus, now: i64) -> (r: String)
    ensures
        r@ == refs_part(repo, now as int),
{
    match &repo.refs {
        None => String::new(),
        Some(refs) => {
            let mut out = render_remote(refs, now);
            out.append(render_state(refs).as_str());
            out.append(render_tags(refs, now).as_str());
            out.append(render_changelog(refs).as_str());
            out.append(render_branches(refs, now).as_str());
            out.append(render_subjects(refs).as_str());
            out
        },
    }
}

fn marker_of(kind: ChangeKind) -> (r: &'static str)
    ensures
        r@ == change_marker(kind),
{
    match kind {
        ChangeKind::Staged => "+",
        ChangeKind::Unstaged => "~",
        ChangeKind::Untracked => "?",
        ChangeKind::Conflicted => "!",
    }
}

fn render_files(files: &Vec<ChangedFile>) -> (r: String)
    ensures
        r@ == file_lines(first_files(files@)),
{
    let n: usize = if files.len() <= 40 {
        files.len()
    } else {
        40
};
    let mut out = String::new();
    let mut i: usize = 0;
    while i < n
        invariant
            i <= n <= files@.len(),
            out@ == file_lines(files@.take(i as int)),
        decreases n - i,
    {
        assert(files@.take(i + 1).take(i as int) =~= files@.take(i as int));
        out.append("    ");
        out.append(marker_of(files[i].kind));
        out.append(" ");
        out.append(files[i].path.as_str());
        out.append("\n");
        i = i + 1;
    }
    assert(files@.take(n as int) =~= first_files(files@));
    out
}

fn render_work(repo: &RepoStatus) -> (r: String)
    ensures
        r@ == work_part(repo),
{
    match &repo.work {
        Some(work) => {
            let mut out = "\n  changes      ".to_owned();
            out.append(
                fmt::changes(work.staged, work.unstaged, work.untracked, work.conflicts).as_str(),
            );
            out.append("\n");
            out.append(render_files(&work.files).as_str());
            let more: String = if work.files.len() > 0 && (work.truncated || work.files.len() > 40) {
                "    … more\n".to_owned()
            } else {
                String::new()
            };
            out.append(more.as_str());
            out
        },
        None => {
            if repo.is_bare() {
                "\n  changes      (bare repo, no working tree)\n".to_owned()
            } else {
                "\n  changes      (working tree not scanned)\n".to_owned()
            }
        },
    }
}

fn render_error(repo: &RepoStatus) -> (r: String)
    ensures
        r@ == error_part(repo),
{
    match &repo.error {
        Some(err) => {
            let mut out = "\n  error        ".to_owned();
            out.append(err.as_str());
            out.append("\n");
            out
        },
        None => String::new(),
    }
}

/// [`detail`] for a given home directory.
pub fn detail_from(repo: &RepoStatus, now: i64, home: Option<&str>) -> (r: String)
    ensures
        r@ == detail_text(repo, now as int, crate::hold::opt_str(home)),
{
    let mut out = render_head(repo, home);
    out.append(render_visibility(repo, now).as_str());
    out.append(render_activity(repo, now).as_str());
    out.append(render_refs(repo, now).as_str());
    out.append(render_work(repo).as_str());
    out.append(render_error(repo).as_str());
    out
}

/// Everything known about one repo, as text. The home directory, which only
/// decides how the path is written, is asked of the environment.
pub fn detail(repo: &RepoStatus, now: i64) -> (r: String)
    ensures
        exists|home: Option<Seq<char>>| r@ == #[trigger] detail_text(repo, now as int, home),
{
    let home = home_dir();
    detail_from(repo, now, as_opt_str(&home))
}

/// One is one, and any other number is several.
pub proof fn law_one_is_singular(n: int)
    ensures
        n == 1 <==> plural(n).len() == 0,
        n != 1 ==> plural(n) == "s"@,
{
    reveal_strlit("");
    reveal_strlit("s");
}

/// What a branch follows: gone where it is gone, nothing where there is none, else its
/// name with how far ahead and behind it is, where it is.
pub proof fn law_tracking_says_how_far(b: &BranchInfo)
    ensures
        b.gone ==> tracking_text(b) == "upstream gone"@,
        !b.gone && b.upstream is None ==> tracking_text(b) == "no upstream"@,
        !b.gone && b.upstream is Some && b.ahead == 0 && b.behind == 0 ==> tracking_text(b)
            == b.upstream->0@,
        !b.gone && b.upstream is Some && b.ahead > 0 && b.behind == 0 ==> tracking_text(b)
            == b.upstream->0@ + " ↑"@ + crate::number::decimal(b.ahead as int),
        !b.gone && b.upstream is Some && b.ahead == 0 && b.behind > 0 ==> tracking_text(b)
            == b.upstream->0@ + " ↓"@ + crate::number::decimal(b.behind as int),
        !b.gone && b.upstream is Some && b.ahead > 0 && b.behind > 0 ==> tracking_text(b)
            == b.upstream->0@ + " ↑"@ + crate::number::decimal(b.ahead as int) + " ↓"@
            + crate::number::decimal(b.behind as int),
{
    if b.upstream is Some {
        let u = b.upstream->0@;
        let none = Seq::<char>::empty();
        let x = " ↑"@ + crate::number::decimal(b.ahead as int);
        let y = " ↓"@ + crate::number::decimal(b.behind as int);
        assert(u + none + none =~= u);
        assert(u + x + none =~= u + " ↑"@ + crate::number::decimal(b.ahead as int));
        assert(u + none + y =~= u + " ↓"@ + crate::number::decimal(b.behind as int));
        assert(u + x + y =~= u + " ↑"@ + crate::number::decimal(b.ahead as int) + " ↓"@
            + crate::number::decimal(b.behind as int));
    }
}

/// The branches that are shown are the newest twenty, newest first, each in four cells.
pub proof fn law_the_newest_branches_are_shown(bs: Seq<BranchInfo>, now: int, i: int, j: int)
    requires
        0 <= i < j < branch_rows(bs, now).len(),
    ensures
        branch_rows(bs, now).len() == (if bs.len() < 20 {
            bs.len()
        } else {
            20
        }),
        0 <= branch_order(bs)[i] < bs.len(),
        bs[branch_order(bs)[i]].committed_at >= bs[branch_order(bs)[j]].committed_at,
        branch_order(bs)[i] != branch_order(bs)[j],
        ({
            let b = bs[branch_order(bs)[i]];
            let row = branch_rows(bs, now)[i];
            &&& row.len() == 4
            &&& row[0] == b.name@
            &&& row[1] == tracking_text(&b)
            &&& row[2] == crate::fmt::age_text(b.committed_at as int, now)
            &&& row[3] == crate::fmt::truncated(b.subject@, 60)
        }),
{
    let keys = branch_keys(bs);
    let order = branch_order(bs);
    crate::order::law_stable_order(keys, true);
    let (x, y) = (keys[order[i]], keys[order[j]]);
    assert(x == seq![seq![bs[order[i]].committed_at]]);
    assert(y == seq![seq![bs[order[j]].committed_at]]);
    assert(crate::order::before(x, y, true) || x == y);
    reveal_with_fuel(crate::order::key_less, 2);
    reveal_with_fuel(crate::order::row_less, 2);
    assert(x[0][0] == bs[order[i]].committed_at && y[0][0] == bs[order[j]].committed_at);
}

/// Lines that are moved in get blanks in front, but for empty ones.
pub proof fn law_lines_are_moved_in(ls: Seq<Seq<char>>, line: Seq<char>, n: int)
    ensures
        line.len() > 0 ==> indented(ls.push(line), n) == indented(ls, n) + crate::text::spaces(n)
            + line + "\n"@,
        line.len() == 0 ==> indented(ls.push(line), n) == indented(ls, n) + "\n"@,
        indented(Seq::empty(), n).len() == 0,
{
    let all = ls.push(line);
    assert(all.take(all.len() - 1) =~= ls);
    assert(indented(ls, n) + (crate::text::spaces(n) + line + "\n"@) =~= indented(ls, n)
        + crate::text::spaces(n) + line + "\n"@);
}

/// Each subject and each file has a line of its own, in their order, a file with the mark
/// of its kind.
pub proof fn law_each_has_a_line_of_its_own(
    subjects: Seq<String>,
    subject: String,
    files: Seq<ChangedFile>,
    file: ChangedFile,
)
    ensures
        subject_lines(subjects.push(subject)) == subject_lines(subjects) + "    · "@
            + crate::fmt::truncated(subject@, 100) + "\n"@,
        subject_lines(Seq::empty()).len() == 0,
        file_lines(files.push(file)) == file_lines(files) + "    "@ + change_marker(file.kind)
            + " "@ + file.path@ + "\n"@,
        file_lines(Seq::empty()).len() == 0,
        change_marker(ChangeKind::Staged) == "+"@,
        change_marker(ChangeKind::Unstaged) == "~"@,
        change_marker(ChangeKind::Untracked) == "?"@,
        change_marker(ChangeKind::Conflicted) == "!"@,
{
    let a = subjects.push(subject);
    assert(a.take(a.len() - 1) =~= subjects);
    let b = files.push(file);
    assert(b.take(b.len() - 1) =~= files);
}

/// Forty files are shown at most, and it is said where there are more.
pub proof fn law_so_many_files_are_shown(repo: &RepoStatus, i: int)
    ensures
        repo.work matches Some(w) ==> {
            let shown = first_files(w.files@);
            &&& shown.len() <= 40 && shown.len() <= w.files@.len()
            &&& w.files@.len() <= 40 ==> shown == w.files@
            &&& w.files@.len() > 40 ==> shown.len() == 40
            &&& 0 <= i < shown.len() ==> shown[i] == w.files@[i]
            &&& w.files@.len() > 40 || (w.truncated && w.files@.len() > 0) ==> crate::text::ends_with(
                work_part(repo),
                "    … more\n"@,
            )
            &&& crate::text::starts_with(
                work_part(repo),
                "\n  changes      "@ + crate::fmt::changes_text(
                    w.staged as int,
                    w.unstaged as int,
                    w.untracked as int,
                    w.conflicts as int,
                ) + "\n"@ + file_lines(shown),
            )
        },
        repo.work is None && repo.bare() ==> work_part(repo)
            == "\n  changes      (bare repo, no working tree)\n"@,
        repo.work is None && !repo.bare() ==> work_part(repo)
            == "\n  changes      (working tree not scanned)\n"@,
{
    if let Some(w) = repo.work {
        let front = "\n  changes      "@ + crate::fmt::changes_text(
            w.staged as int,
            w.unstaged as int,
            w.untracked as int,
            w.conflicts as int,
        ) + "\n"@ + file_lines(first_files(w.files@));
        crate::text::law_what_was_put_around_comes_off("    … more\n"@, front);
        crate::text::law_what_was_put_around_comes_off(front, "    … more\n"@);
        crate::text::law_what_was_put_around_comes_off(front, Seq::empty());
        assert(front + Seq::<char>::empty() =~= front);
    }
}

/// The last tag is told with its age and how much came since, or that none is reachable.
pub proof fn law_the_last_tag_is_told(refs: &RefsInfo, now: int)
    ensures
        refs.described_tag is Some && refs.commits_since_tag is Some ==> crate::text::starts_with(
            tag_lines(refs, now),
            "  last tag     "@ + refs.described_tag->0.name@ + " ("@ + crate::fmt::age_text(
                refs.described_tag->0.at as int,
                now,
            ) + " ago), "@ + crate::number::decimal(refs.commits_since_tag->0 as int) + " commit"@
                + plural(refs.commits_since_tag->0 as int) + " since\n"@,
        ),
        refs.described_tag is None || refs.commits_since_tag is None ==> crate::text::starts_with(
            tag_lines(refs, now),
            "  last tag     (none reachable)\n"@,
        ),
        refs.newest_tag is Some && refs.is_tag_off_branch() ==> crate::text::ends_with(
            tag_lines(refs, now),
            "  newest tag   "@ + refs.newest_tag->0.name@
                + " is not an ancestor of HEAD (normal with git-flow)\n"@,
        ),
{
    let first = match (refs.described_tag, refs.commits_since_tag) {
        (Some(tag), Some(count)) => "  last tag     "@ + tag.name@ + " ("@ + crate::fmt::age_text(
            tag.at as int,
            now,
        ) + " ago), "@ + crate::number::decimal(count as int) + " commit"@ + plural(count as int)
            + " since\n"@,
        _ => "  last tag     (none reachable)\n"@,
    };
    let whole = tag_lines(refs, now);
    assert(whole.len() >= first.len());
    assert(whole.take(first.len() as int) =~= first);
    if refs.newest_tag is Some && refs.is_tag_off_branch() {
        let second = "  newest tag   "@ + refs.newest_tag->0.name@
            + " is not an ancestor of HEAD (normal with git-flow)\n"@;
        crate::text::law_what_was_put_around_comes_off(second, first);
    }
}

/// The changelog is told with its version, and whether a tag has it, none has yet, or more
/// than one version waits.
pub proof fn law_the_changelog_is_told(refs: &RefsInfo)
    ensures
        refs.changelog is None ==> changelog_line(refs).len() == 0,
        refs.changelog matches Some(c) ==> {
            &&& c.tagged ==> changelog_line(refs) == "  changelog    "@ + c.version@ + " ("@
                + "matches a tag"@ + ")\n"@
            &&& !c.tagged && c.unreleased_blocks <= 1 ==> changelog_line(refs)
                == "  changelog    "@ + c.version@ + " ("@ + "no tag yet"@ + ")\n"@
            &&& !c.tagged && c.unreleased_blocks > 1 ==> changelog_line(refs)
                == "  changelog    "@ + c.version@ + " ("@ + ("no tag yet, and "@
                + crate::number::decimal(c.unreleased_blocks as int)
                + " unreleased blocks have stacked up"@) + ")\n"@
        },
{
}

/// The remote is told with its address and when it was fetched, and that it never was.
pub proof fn law_the_remote_is_told(refs: &RefsInfo, now: int)
    ensures
        ({
            let head = "  head         "@ + refs.head.label_text() + "\n"@;
            &&& refs.remote_url is None ==> remote_lines(refs, now) == head
                + "  remote       (none)\n"@
            &&& refs.remote_url matches Some(url) ==> {
                &&& refs.fetched_at matches Some(at) ==> remote_lines(refs, now) == head + (
                "  remote       "@ + url@ + "\n"@ + ("  fetched      "@ + crate::fmt::age_text(
                    at as int,
                    now,
                ) + " ago\n"@))
                &&& refs.fetched_at is None ==> remote_lines(refs, now) == head + (
                "  remote       "@ + url@ + "\n"@
                    + "  fetched      never — the behind count has never been checked\n"@)
            }
        }),
{
}

/// Stashes, what is under way and a shallow history are told where there are any.
pub proof fn law_what_is_unusual_is_told(refs: &RefsInfo)
    ensures
        refs.stashes == 0 && refs.operation is None && !refs.is_shallow ==> state_lines(refs).len()
            == 0,
        refs.stashes > 0 ==> crate::text::starts_with(
            state_lines(refs),
            "  stashes      "@ + crate::number::decimal(refs.stashes as int) + "\n"@,
        ),
        refs.is_shallow ==> crate::text::ends_with(state_lines(refs), "  shallow      yes\n"@),
        refs.stashes == 0 && refs.operation is Some && !refs.is_shallow ==> state_lines(refs)
            == "  in progress  "@ + refs.operation->0.label_text() + "\n"@,
{
    let none = Seq::<char>::empty();
    let a = if refs.stashes > 0 {
        "  stashes      "@ + crate::number::decimal(refs.stashes as int) + "\n"@
    } else {
        none
    };
    let b = match refs.operation {
        Some(op) => "  in progress  "@ + op.label_text() + "\n"@,
        None => none,
    };
    let whole = state_lines(refs);
    if refs.is_shallow {
        crate::text::law_what_was_put_around_comes_off("  shallow      yes\n"@, a + b);
    } else {
        assert(whole =~= a + b);
    }
    assert(whole.take(a.len() as int) =~= a);
    assert(none + b =~= b);
}

/// The visibility is told with when it was checked where that is known or went wrong, and
/// nothing is said where it was never asked for.
pub proof fn law_the_visibility_is_told(repo: &RepoStatus, now: int)
    ensures
        repo.visibility is None ==> visibility_line(repo, now).len() == 0,
        repo.visibility matches Some(v) ==> {
            &&& v.status is Known ==> visibility_line(repo, now) == "  visibility   "@
                + v.status.label_text() + " (checked "@ + crate::fmt::age_text(
                v.checked_at as int,
                now,
            ) + " ago)\n"@
            &&& v.status matches VisibilityStatus::CheckFailed(reason) ==> visibility_line(repo, now)
                == "  visibility   check failed "@ + crate::fmt::age_text(v.checked_at as int, now)
                + " ago: "@ + reason@ + "\n"@
            &&& !(v.status is Known) && !(v.status is CheckFailed) ==> visibility_line(repo, now)
                == "  visibility   "@ + v.status.label_text() + "\n"@
        },
        repo.error is None ==> error_part(repo).len() == 0,
        repo.error matches Some(e) ==> error_part(repo) == "\n  error        "@ + e@ + "\n"@,
{
}

/// The details of a repo start with its name, its path and its states, and end with its
/// error where it has one.
pub proof fn law_details_start_with_the_repo(repo: &RepoStatus, now: int, home: Option<Seq<char>>)
    ensures
        crate::text::starts_with(
            detail_text(repo, now, home),
            repo.slug_text() + "\n  path         "@ + crate::paths::contracted(repo.root@, home)
                + "\n  state        "@ + repo.state_text() + "\n  release      "@
                + repo.state().label_text() + "\n"@,
        ),
        crate::text::ends_with(detail_text(repo, now, home), error_part(repo)),
{
    let head = head_lines(repo, home);
    let whole = detail_text(repo, now, home);
    assert(whole.take(head.len() as int) =~= head);
    let e = error_part(repo);
    assert(whole.skip(whole.len() - e.len()) =~= e);
}

/// The branches stand in a table moved in under their heading, the subjects under theirs
/// with the tag they came since; and neither is shown where there are none.
pub proof fn law_branches_and_subjects_have_their_headings(refs: &RefsInfo, now: int)
    ensures
        refs.branches@.len() == 0 ==> branches_part(refs, now).len() == 0,
        refs.branches@.len() > 0 ==> branches_part(refs, now) == "\n  branches\n"@ + indented(
            crate::text::lines(
                crate::table::table_text(
                    seq!["BRANCH"@, "TRACKING"@, "AGE"@, "SUBJECT"@],
                    seq![Align::Left, Align::Left, Align::Right, Align::Left],
                    branch_rows(refs.branches@, now),
                ),
            ),
            4,
        ),
        refs.since_tag_subjects@.len() == 0 ==> subjects_part(refs).len() == 0,
        refs.since_tag_subjects@.len() > 0 && refs.described_tag is Some ==> subjects_part(refs)
            == "\n  commits since "@ + refs.described_tag->0.name@ + "\n"@ + subject_lines(
            refs.since_tag_subjects@,
        ),
        refs.since_tag_subjects@.len() > 0 && refs.described_tag is None ==> subjects_part(refs)
            == "\n  commits since "@ + "last tag"@ + "\n"@ + subject_lines(
            refs.since_tag_subjects@,
        ),
{
}

/// What is known of the refs comes in order, and nothing where nothing is; the last
/// activity is told with its age and where it was seen.
pub proof fn law_refs_are_told_in_order(repo: &RepoStatus, now: int)
    ensures
        repo.refs is None ==> refs_part(repo, now).len() == 0,
        repo.refs matches Some(r) ==> refs_part(repo, now) == remote_lines(&r, now) + state_lines(
            &r,
        ) + tag_lines(&r, now) + changelog_line(&r) + branches_part(&r, now) + subjects_part(&r),
        activity_line(repo, now) == "  activity     "@ + crate::fmt::age_text(
            repo.last_activity().0,
            now,
        ) + " ago ("@ + repo.last_activity().1.label_text() + ")\n"@,
{
}

} // verus!
