//! Tier 2: the working tree, as `git status --porcelain=v2` tells it.

use vstd::prelude::*;

use crate::config::{strings, StatusConfig};
use crate::model::{ChangeKind, ChangedFile, FileEntry, WorkInfo};
use crate::number::add32;
use crate::pathname::join_path;
use crate::text::{
    first_bytes, from_chars, spells, split_lines, split_once_at, splitn_at_char,
    to_chars, trimmed_end_char, up_to_char,
};

verus! {

/// The arguments for the working-tree scan. No `--branch`: that makes git compute
/// ahead/behind with a revwalk, and tier 1 already has those numbers from the
/// tracking refs.
pub fn status_args(cfg: &StatusConfig) -> (r: Vec<String>)
    ensures
        crate::text::texts(r@) == seq![
            "status"@,
            "--porcelain=v2"@,
            cfg.untracked.git_arg(),
            "--ignore-submodules=dirty"@,
        ],
{
    let args: [&str; 4] = [
        "status",
        "--porcelain=v2",
        cfg.untracked.as_git_arg(),
        "--ignore-submodules=dirty",
    ];
    assert(crate::table::strs(args@) =~= seq![
        "status"@,
        "--porcelain=v2"@,
        cfg.untracked.git_arg(),
        "--ignore-submodules=dirty"@,
    ]);
    strings(&args)
}

/// The final field of a porcelain v2 record, given how many fields there are
/// with the path. Paths can contain spaces, and for rename records a tab separates
/// the new path from the original.
pub open spec fn tail_field(rest: Seq<char>, fields: int) -> Seq<char> {
    let parts = crate::text::splitn(rest, fields as nat, ' ');
    if fields <= 0 {
        Seq::empty()
    } else {
        crate::text::before_char(parts[parts.len() - 1], '\t')
    }
}

proof fn lemma_splitn_some(s: Seq<char>, n: nat, c: char)
    requires
        n > 0,
    ensures
        crate::text::splitn(s, n, c).len() > 0,
{
}

/// Take the final field of a porcelain v2 record.
pub fn field_tail(rest: &str, field_count: usize) -> (r: String)
    ensures
        r@ == tail_field(rest@, field_count as int),
{
    if field_count == 0 {
        return String::new();
    }
    let v = to_chars(rest);
    let parts = splitn_at_char(v.as_slice(), field_count, ' ');
    let ghost all = crate::text::splitn(rest@, field_count as nat, ' ');
    proof {
        lemma_splitn_some(rest@, field_count as nat, ' ');
        assert(all.len() == parts@.len());
        assert(all[all.len() - 1] == parts@[parts@.len() - 1]@);
    }
    from_chars(up_to_char(parts[parts.len() - 1].as_slice(), '\t'))
}

/// The two-letter code a record starts with.
pub open spec fn record_code(rest: Seq<char>, missing: Seq<char>) -> Seq<char> {
    match crate::text::byte_prefix(rest, 2) {
        Some(xy) => xy,
        None => missing,
    }
}

/// One letter of a code; a dot where it has fewer.
pub open spec fn code_letter(xy: Seq<char>, i: int) -> char {
    if i < xy.len() {
        xy[i]
    } else {
        '.'
    }
}

/// What one record says: the file, and whether it counts as staged, unstaged,
/// untracked or in conflict.
pub struct Record {
    pub file: FileEntry,
    pub staged: bool,
    pub unstaged: bool,
    pub untracked: bool,
    pub conflict: bool,
}

/// The record on a line, if there is one.
pub open spec fn record_of(line: Seq<char>) -> Option<Record> {
    match crate::text::split_once(line, ' ') {
        None => None,
        Some((tag, rest)) => if tag == "1"@ || tag == "2"@ {
            // 1 <XY> <sub> <mH> <mI> <mW> <hH> <hI> <path>
            // 2 <XY> <sub> <mH> <mI> <mW> <hH> <hI> <X><score> <path><tab><orig>
            let xy = record_code(rest, ".."@);
            let staged = code_letter(xy, 0) != '.';
            let unstaged = code_letter(xy, 1) != '.';
            Some(
                Record {
                    file: FileEntry {
                        path: tail_field(
                            rest,
                            if tag == "2"@ {
                                9
                            } else {
                                8
                            },
                        ),
                        code: xy,
                        kind: if unstaged {
                            ChangeKind::Unstaged
                        } else {
                            ChangeKind::Staged
                        },
                        mtime: None,
                    },
                    staged,
                    unstaged,
                    untracked: false,
                    conflict: false,
                },
            )
        } else if tag == "u"@ {
            // u <XY> <sub> <m1> <m2> <m3> <mW> <h1> <h2> <h3> <path>
            Some(
                Record {
                    file: FileEntry {
                        path: tail_field(rest, 10),
                        code: record_code(rest, "UU"@),
                        kind: ChangeKind::Conflicted,
                        mtime: None,
                    },
                    staged: false,
                    unstaged: false,
                    untracked: false,
                    conflict: true,
                },
            )
        } else if tag == "?"@ {
            Some(
                Record {
                    file: FileEntry {
                        path: rest,
                        code: "??"@,
                        kind: ChangeKind::Untracked,
                        mtime: None,
                    },
                    staged: false,
                    unstaged: false,
                    untracked: true,
                    conflict: false,
                },
            )
        } else {
            None
        },
    }
}

/// Counts and files so far, and the newest time among them once they are stamped.
pub struct WorkText {
    pub staged: int,
    pub unstaged: int,
    pub untracked: int,
    pub conflicts: int,
    pub newest: Option<i64>,
    pub files: Seq<FileEntry>,
    pub truncated: bool,
}

pub open spec fn one_if(b: bool) -> int {
    if b {
        1
    } else {
        0
    }
}

/// What one line adds. Every record is counted; only so many files are kept.
pub open spec fn work_step(w: WorkText, line: Seq<char>, max_files: int) -> WorkText {
    match record_of(line) {
        None => w,
        Some(r) => WorkText {
            staged: crate::number::wrap32(w.staged + one_if(r.staged)),
            unstaged: crate::number::wrap32(w.unstaged + one_if(r.unstaged)),
            untracked: crate::number::wrap32(w.untracked + one_if(r.untracked)),
            conflicts: crate::number::wrap32(w.conflicts + one_if(r.conflict)),
            files: if w.files.len() < max_files {
                w.files.push(r.file)
            } else {
                w.files
            },
            truncated: w.truncated || w.files.len() >= max_files,
            ..w
        },
    }
}

pub open spec fn work_read(lines: Seq<Seq<char>>, max_files: int) -> WorkText
    decreases lines.len(),
{
    if lines.len() == 0 {
        WorkText {
            staged: 0,
            unstaged: 0,
            untracked: 0,
            conflicts: 0,
            newest: None,
            files: Seq::empty(),
            truncated: false,
        }
    } else {
        work_step(
            work_read(lines.take(lines.len() - 1), max_files),
            lines[lines.len() - 1],
            max_files,
        )
    }
}

pub open spec fn work_text(w: &WorkInfo) -> WorkText {
    WorkText {
        staged: w.staged as int,
        unstaged: w.unstaged as int,
        untracked: w.untracked as int,
        conflicts: w.conflicts as int,
        newest: w.newest_mtime,
        files: crate::model::file_entries(w.files@),
        truncated: w.truncated,
    }
}

fn read_code(rest: &[char], missing: &str) -> (r: String)
    ensures
        r@ == record_code(rest@, missing@),
{
    match first_bytes(rest, 2) {
        Some(xy) => from_chars(xy),
        None => missing.to_owned(),
    }
}

fn letter_at(xy: &str, i: usize) -> (r: char)
    ensures
        r == code_letter(xy@, i as int),
{
    let v = to_chars(xy);
    if i < v.len() {
        v[i]
    } else {
        '.'
    }
}

fn keep_file(info: &mut WorkInfo, file: ChangedFile, max_files: usize)
    ensures
        work_text(final(info)) == (WorkText {
            files: if old(info).files@.len() < max_files {
                crate::model::file_entries(old(info).files@).push(file@)
            } else {
                crate::model::file_entries(old(info).files@)
            },
            truncated: old(info).truncated || old(info).files@.len() >= max_files,
            ..work_text(old(info))
        }),
{
    let ghost before = info.files@;
    let ghost entry = file@;
    if info.files.len() < max_files {
        info.files.push(file);
        assert(crate::model::file_entries(info.files@) =~= crate::model::file_entries(before).push(
            entry,
        ));
    } else {
        info.truncated = true;
    }
}

fn work_line(info: &mut WorkInfo, line: &[char], max_files: usize)
    ensures
        work_text(final(info)) == work_step(work_text(old(info)), line@, max_files as int),
        final(info).newest_mtime == old(info).newest_mtime,
{
    assert(crate::model::file_entries(info.files@).len() == info.files@.len());
    let (tag, rest) = match split_once_at(line, ' ') {
        Some((tag, rest)) => (tag, rest),
        None => {
            return ;
        },
    };
    let text = from_chars(rest);
    let renamed = spells(tag, "2");
    if spells(tag, "1") || renamed {
        proof {
            reveal_strlit("1");
            reveal_strlit("2");
        }
        let code = read_code(rest, "..");
        let staged = letter_at(code.as_str(), 0) != '.';
        let unstaged = letter_at(code.as_str(), 1) != '.';
        let path = field_tail(
            text.as_str(),
            if renamed {
                9
            } else {
                8
            },
        );
        if staged {
            info.staged = add32(info.staged, 1);
        }
        if unstaged {
            info.unstaged = add32(info.unstaged, 1);
        }
        let kind = if unstaged {
            ChangeKind::Unstaged
        } else {
            ChangeKind::Staged
        };
        keep_file(info, ChangedFile { path, code, kind, mtime: None }, max_files);
    } else if spells(tag, "u") {
        info.conflicts = add32(info.conflicts, 1);
        let path = field_tail(text.as_str(), 10);
        let code = read_code(rest, "UU");
        keep_file(
            info,
            ChangedFile { path, code, kind: ChangeKind::Conflicted, mtime: None },
            max_files,
        );
    } else if spells(tag, "?") {
        info.untracked = add32(info.untracked, 1);
        keep_file(
            info,
            ChangedFile {
                path: text,
                code: "??".to_owned(),
                kind: ChangeKind::Untracked,
                mtime: None,
            },
            max_files,
        );
    }
}

/// The working tree in the output of `git status`. The files are not stamped
/// yet: see [`stat_changed_files`].
pub fn probe_work(raw: &str, cfg: &StatusConfig) -> (r: WorkInfo)
    ensures
        work_text(&r) == work_read(crate::text::lines(raw@), cfg.max_files as int),
        r.newest_mtime is None,
{
    let max_files: usize = cfg.max_files;
    let v = to_chars(raw);
    let ls = split_lines(v.as_slice());
    let ghost all = crate::text::lines(raw@);
    let mut info = WorkInfo {
        staged: 0,
        unstaged: 0,
        untracked: 0,
        conflicts: 0,
        newest_mtime: None,
        files: Vec::new(),
        truncated: false,
    };
    assert(crate::model::file_entries(info.files@) =~= Seq::empty());
    let mut i: usize = 0;
    while i < ls.len()
        invariant
            i <= ls@.len(),
            all == crate::text::views(ls@),
            work_text(&info) == work_read(all.take(i as int), max_files as int),
            info.newest_mtime is None,
        decreases ls@.len() - i,
    {
        assert(all.take(i + 1).take(i as int) =~= all.take(i as int));
        assert(all.take(i + 1)[i as int] == ls@[i as int]@);
        work_line(&mut info, ls[i].as_slice(), max_files);
        i = i + 1;
    }
    assert(all.take(i as int) =~= all);
    info
}

/// Where a changed file is: an untracked directory comes with a trailing slash.
pub fn changed_path(root: &str, file: &ChangedFile) -> (r: String)
    ensures
        r@ == crate::pathname::joined(root@, crate::text::trim_end_char(file.path@, '/')),
{
    let v = to_chars(file.path.as_str());
    let path = from_chars(trimmed_end_char(v.as_slice(), '/'));
    join_path(root, path.as_str())
}

/// The newest of the first `n` times that are known.
pub open spec fn newest_of(times: Seq<Option<i64>>, n: int) -> Option<i64>
    decreases n,
{
    if n <= 0 {
        None
    } else {
        let rest = newest_of(times, n - 1);
        match (times[n - 1], rest) {
            (None, r) => r,
            (Some(m), None) => Some(m),
            (Some(m), Some(best)) => if m > best {
                Some(m)
            } else {
                Some(best)
            },
        }
    }
}

/// Timestamp the changed files.
///
/// This is what makes "modified in the last hour" work at all: a working-tree
/// edit touches nothing under `.git`, so a dirty repo's real activity time can
/// only come from the files themselves. Status already named them, so this is
/// a handful of stat calls on the repos that have changes and nothing at all
/// on the ones that don't. `times` holds what each file's stat said.
pub fn stat_changed_files(info: WorkInfo, times: &Vec<Option<i64>>) -> (r: WorkInfo)
    requires
        times@.len() == info.files@.len(),
    ensures
        r.newest_mtime == newest_of(times@, times@.len() as int),
        r.staged == info.staged,
        r.unstaged == info.unstaged,
        r.untracked == info.untracked,
        r.conflicts == info.conflicts,
        r.truncated == info.truncated,
        r.files@.len() == info.files@.len(),
        forall|k: int|
            0 <= k < r.files@.len() ==> #[trigger] r.files@[k] == (ChangedFile {
                mtime: match times@[k] {
                    Some(m) => Some(m),
                    None => info.files@[k].mtime,
                },
                ..info.files@[k]
            }),
{
    let mut out = info;
    let ghost before = info.files@;
    let mut newest: Option<i64> = None;
    let mut i: usize = 0;
    while i < out.files.len()
        invariant
            i <= out.files@.len(),
            out.files@.len() == before.len() == times@.len(),
            before == info.files@,
            out.staged == info.staged,
            out.unstaged == info.unstaged,
            out.untracked == info.untracked,
            out.conflicts == info.conflicts,
            out.truncated == info.truncated,
            newest == newest_of(times@, i as int),
            forall|k: int|
                0 <= k < i ==> #[trigger] out.files@[k] == (ChangedFile {
                    mtime: match times@[k] {
                        Some(m) => Some(m),
                        None => before[k].mtime,
                    },
                    ..before[k]
                }),
            forall|k: int| i <= k < out.files@.len() ==> #[trigger] out.files@[k] == before[k],
        decreases out.files@.len() - i,
    {
        if let Some(m) = times[i] {
            out.files[i].mtime = Some(m);
            newest = match newest {
                None => Some(m),
                Some(best) => {
                    if m > best {
                        Some(m)
                    } else {
                        Some(best)
                    }
                },
            };
        }
        i = i + 1;
    }
    out.newest_mtime = newest;
    out
}

/// Fields with a space behind each, and then what follows them.
pub open spec fn fields_then(fields: Seq<Seq<char>>, tail: Seq<char>) -> Seq<char>
    decreases fields.len(),
{
    if fields.len() == 0 {
        tail
    } else {
        fields[0] + seq![' '] + fields_then(fields.skip(1), tail)
    }
}

/// Whether no field holds a space.
pub open spec fn are_fields(fields: Seq<Seq<char>>) -> bool {
    forall|i: int| 0 <= i < fields.len() ==> !(#[trigger] fields[i]).contains(' ')
}

proof fn lemma_tail_field(fields: Seq<Seq<char>>, tail: Seq<char>)
    requires
        are_fields(fields),
    ensures
        ({
            let parts = crate::text::splitn(
                fields_then(fields, tail),
                (fields.len() + 1) as nat,
                ' ',
            );
            parts.len() > 0 && parts[parts.len() - 1] == tail
        }),
    decreases fields.len(),
{
    let n = fields.len();
    if n == 0 {
        crate::text::law_splitn_leaves_the_rest_whole(Seq::empty(), tail, 1, ' ');
    } else {
        let rest = fields.skip(1);
        assert(!fields[0].contains(' '));
        assert forall|i: int| 0 <= i < rest.len() implies !(#[trigger] rest[i]).contains(' ') by {
            assert(rest[i] == fields[i + 1]);
        }
        lemma_tail_field(rest, tail);
        crate::text::law_splitn_leaves_the_rest_whole(
            fields[0],
            fields_then(rest, tail),
            (n + 1) as nat,
            ' ',
        );
    }
}

proof fn lemma_code(fields: Seq<Seq<char>>, tail: Seq<char>, missing: Seq<char>)
    requires
        fields.len() > 0,
        fields[0].len() == 2,
        (fields[0][0] as u32) < 0x80,
        (fields[0][1] as u32) < 0x80,
    ensures
        record_code(fields_then(fields, tail), missing) == fields[0],
{
    let rest = fields_then(fields, tail);
    assert(rest[0] == fields[0][0] && rest[1] == fields[0][1]);
    reveal_with_fuel(crate::text::boundary_from, 3);
    assert(rest.take(2) =~= fields[0]);
}

/// A record of a changed file: the first letter of its code says whether it is staged and
/// the second whether it is changed since, a dot for neither; and its path is all that
/// follows the seven fields, spaces and all. A rename has one field more, and its old path
/// behind a tab.
pub proof fn law_a_changed_file_is_read(
    line: Seq<char>,
    fields: Seq<Seq<char>>,
    path: Seq<char>,
    old_path: Seq<char>,
    renamed: bool,
)
    requires
        are_fields(fields),
        fields.len() == (if renamed {
            8int
        } else {
            7
        }),
        fields[0].len() == 2,
        (fields[0][0] as u32) < 0x80,
        (fields[0][1] as u32) < 0x80,
        !path.contains('\t'),
        line == seq![
            if renamed {
                '2'
            } else {
                '1'
            },
            ' ',
        ] + fields_then(
            fields,
            if renamed {
                path + seq!['\t'] + old_path
            } else {
                path
            },
        ),
    ensures
        record_of(line) is Some,
        record_of(line)->0.staged == (fields[0][0] != '.'),
        record_of(line)->0.unstaged == (fields[0][1] != '.'),
        !record_of(line)->0.untracked,
        !record_of(line)->0.conflict,
        record_of(line)->0.file.path == path,
        record_of(line)->0.file.code == fields[0],
        record_of(line)->0.file.kind == (if fields[0][1] != '.' {
            ChangeKind::Unstaged
        } else {
            ChangeKind::Staged
        }),
{
    let tag = seq![
        if renamed {
            '2'
        } else {
            '1'
        },
    ];
    let tail = if renamed {
        path + seq!['\t'] + old_path
    } else {
        path
    };
    let rest = fields_then(fields, tail);
    reveal_strlit("1");
    reveal_strlit("2");
    reveal_strlit("u");
    reveal_strlit("?");
    assert("1"@ =~= seq!['1']);
    assert("2"@ =~= seq!['2']);
    assert(!tag.contains(' ')) by {
        if tag.contains(' ') {
            assert(tag[0] == ' ');
        }
    }
    assert(line =~= tag + seq![' '] + rest);
    crate::text::law_split_once_goes_by_the_first(tag, rest, ' ');
    lemma_tail_field(fields, tail);
    lemma_code(fields, tail, ".."@);
    crate::text::law_split_once_goes_by_the_first(path, old_path, '\t');
    if renamed {
        assert(tag == "2"@);
    } else {
        assert(tag == "1"@);
        assert(tag != "2"@) by {
            assert(tag[0] == '1' && "2"@[0] == '2');
        }
    }
}

/// A record of a conflict counts as one and as nothing else; one of an untracked file
/// likewise. Their paths are all that follows.
pub proof fn law_conflicts_and_untracked_files_are_read(
    line: Seq<char>,
    fields: Seq<Seq<char>>,
    path: Seq<char>,
)
    requires
        are_fields(fields),
        fields.len() == 9,
        fields[0].len() == 2,
        (fields[0][0] as u32) < 0x80,
        (fields[0][1] as u32) < 0x80,
        !path.contains('\t'),
    ensures
        line == seq!['u', ' '] + fields_then(fields, path) ==> record_of(line) is Some
            && record_of(line)->0.conflict && !record_of(line)->0.staged
            && !record_of(line)->0.unstaged && !record_of(line)->0.untracked
            && record_of(line)->0.file.path == path && record_of(line)->0.file.code == fields[0]
            && record_of(line)->0.file.kind == ChangeKind::Conflicted,
        line == seq!['?', ' '] + path ==> record_of(line) is Some && record_of(line)->0.untracked
            && !record_of(line)->0.staged && !record_of(line)->0.unstaged
            && !record_of(line)->0.conflict && record_of(line)->0.file.path == path
            && record_of(line)->0.file.kind == ChangeKind::Untracked
            && record_of(line)->0.file.code == "??"@,
{
    reveal_strlit("1");
    reveal_strlit("2");
    reveal_strlit("u");
    reveal_strlit("?");
    assert("u"@ =~= seq!['u']);
    assert("?"@ =~= seq!['?']);
    if line == seq!['u', ' '] + fields_then(fields, path) {
        let rest = fields_then(fields, path);
        let tag = seq!['u'];
        assert(line =~= tag + seq![' '] + rest);
        assert(!tag.contains(' ')) by {
            if tag.contains(' ') {
                assert(tag[0] == ' ');
            }
        }
        assert(tag[0] == 'u');
        crate::text::law_split_once_goes_by_the_first(tag, rest, ' ');
        lemma_tail_field(fields, path);
        lemma_code(fields, path, "UU"@);
        crate::text::law_split_once_goes_by_the_first(path, path, '\t');
    }
    if line == seq!['?', ' '] + path {
        let tag = seq!['?'];
        assert(line =~= tag + seq![' '] + path);
        assert(!tag.contains(' ')) by {
            if tag.contains(' ') {
                assert(tag[0] == ' ');
            }
        }
        assert(tag[0] == '?' && "u"@[0] == 'u');
        crate::text::law_split_once_goes_by_the_first(tag, path, ' ');
    }
}

/// A line that starts with anything else is no record: branch headers, ignored files, and
/// lines without a space.
pub proof fn law_other_lines_are_no_records(tag: Seq<char>, rest: Seq<char>)
    requires
        !tag.contains(' '),
        tag != seq!['1'],
        tag != seq!['2'],
        tag != seq!['u'],
        tag != seq!['?'],
    ensures
        record_of(tag + seq![' '] + rest) is None,
        record_of(tag) is None,
{
    reveal_strlit("1");
    reveal_strlit("2");
    reveal_strlit("u");
    reveal_strlit("?");
    assert("1"@ =~= seq!['1']);
    assert("2"@ =~= seq!['2']);
    assert("u"@ =~= seq!['u']);
    assert("?"@ =~= seq!['?']);
    crate::text::law_split_once_goes_by_the_first(tag, rest, ' ');
}

/// What two outputs say counts together as what they say one after the other, past what a
/// `u32` holds starting over from nought; a line that is no record says nothing.
pub proof fn law_records_add_up(a: Seq<Seq<char>>, b: Seq<Seq<char>>, max_files: int)
    ensures
        ({
            let (x, y) = (work_read(a, max_files), work_read(b, max_files));
            let both = work_read(a + b, max_files);
            &&& both.staged == (x.staged + y.staged) % 0x1_0000_0000
            &&& both.unstaged == (x.unstaged + y.unstaged) % 0x1_0000_0000
            &&& both.untracked == (x.untracked + y.untracked) % 0x1_0000_0000
            &&& both.conflicts == (x.conflicts + y.conflicts) % 0x1_0000_0000
        }),
    decreases b.len(),
{
    let all = a + b;
    lemma_counts_fit(a, max_files);
    if b.len() == 0 {
        assert(all =~= a);
    } else {
        let less = b.take(b.len() - 1);
        assert(all.take(all.len() - 1) =~= a + less);
        assert(all[all.len() - 1] == b[b.len() - 1]);
        law_records_add_up(a, less, max_files);
        lemma_a_line_adds(all, max_files);
        lemma_a_line_adds(b, max_files);
        let (x, y) = (work_read(a, max_files), work_read(less, max_files));
        let d = line_counts(b[b.len() - 1]);
        lemma_added_later(x.staged, y.staged, d.0);
        lemma_added_later(x.unstaged, y.unstaged, d.1);
        lemma_added_later(x.untracked, y.untracked, d.2);
        lemma_added_later(x.conflicts, y.conflicts, d.3);
    }
}

/// What a line adds to the four counts.
pub open spec fn line_counts(line: Seq<char>) -> (int, int, int, int) {
    match record_of(line) {
        None => (0, 0, 0, 0),
        Some(r) => (
            if r.staged { 1 } else { 0 },
            if r.unstaged { 1 } else { 0 },
            if r.untracked { 1 } else { 0 },
            if r.conflict { 1 } else { 0 },
        ),
    }
}

proof fn lemma_a_line_adds(lines: Seq<Seq<char>>, max_files: int)
    requires
        lines.len() > 0,
    ensures
        ({
            let w = work_read(lines, max_files);
            let before = work_read(lines.take(lines.len() - 1), max_files);
            let d = line_counts(lines[lines.len() - 1]);
            &&& w.staged == (before.staged + d.0) % 0x1_0000_0000
            &&& w.unstaged == (before.unstaged + d.1) % 0x1_0000_0000
            &&& w.untracked == (before.untracked + d.2) % 0x1_0000_0000
            &&& w.conflicts == (before.conflicts + d.3) % 0x1_0000_0000
        }),
{
    lemma_counts_fit(lines.take(lines.len() - 1), max_files);
}

proof fn lemma_added_later(x: int, y: int, d: int)
    ensures
        ((x + y) % 0x1_0000_0000 + d) % 0x1_0000_0000 == (x + (y + d) % 0x1_0000_0000)
            % 0x1_0000_0000,
{
}

proof fn lemma_counts_fit(lines: Seq<Seq<char>>, max_files: int)
    ensures
        0 <= work_read(lines, max_files).staged < 0x1_0000_0000,
        0 <= work_read(lines, max_files).unstaged < 0x1_0000_0000,
        0 <= work_read(lines, max_files).untracked < 0x1_0000_0000,
        0 <= work_read(lines, max_files).conflicts < 0x1_0000_0000,
    decreases lines.len(),
{
    if lines.len() > 0 {
        lemma_counts_fit(lines.take(lines.len() - 1), max_files);
    }
}

/// One line counts for what its record says, and its file is the one kept.
pub proof fn law_a_line_counts_for_its_record(line: Seq<char>, max_files: int)
    ensures
        ({
            let w = work_read(seq![line], max_files);
            match record_of(line) {
                None => w.staged == 0 && w.unstaged == 0 && w.untracked == 0 && w.conflicts == 0
                    && w.files.len() == 0 && !w.truncated,
                Some(r) => {
                    &&& w.staged == (if r.staged { 1int } else { 0 })
                    &&& w.unstaged == (if r.unstaged { 1int } else { 0 })
                    &&& w.untracked == (if r.untracked { 1int } else { 0 })
                    &&& w.conflicts == (if r.conflict { 1int } else { 0 })
                    &&& max_files > 0 ==> w.files == seq![r.file] && !w.truncated
                    &&& max_files <= 0 ==> w.files.len() == 0 && w.truncated
                },
            }
        }),
{
    reveal_with_fuel(work_read, 2);
    let one = seq![line];
    assert(one.take(0) =~= Seq::empty());
    assert(one[0] == line);
}

/// Files are kept in the order they come, up to the limit, and the list is said to be cut
/// exactly where one was left out.
pub proof fn law_the_first_files_are_kept(lines: Seq<Seq<char>>, max_files: int, many: int)
    requires
        0 <= max_files,
        lines.len() <= many,
    ensures
        ({
            let all = work_read(lines, many);
            let w = work_read(lines, max_files);
            &&& all.files.len() <= lines.len()
            &&& !all.truncated
            &&& w.truncated <==> all.files.len() > max_files
            &&& w.files == (if all.files.len() > max_files {
                all.files.take(max_files)
            } else {
                all.files
            })
        }),
    decreases lines.len(),
{
    if lines.len() > 0 {
        let less = lines.take(lines.len() - 1);
        law_the_first_files_are_kept(less, max_files, many);
        let all = work_read(lines, many).files;
        let w = work_read(lines, max_files).files;
        if all.len() > max_files {
            assert(w =~= all.take(max_files));
        }
    }
}

/// The newest time is at least as new as every file's, and is one of them.
pub proof fn law_the_newest_time_is_a_files(times: Seq<Option<i64>>, n: int, i: int)
    requires
        0 <= i < n <= times.len(),
    ensures
        times[i] is Some ==> newest_of(times, n) is Some && newest_of(times, n)->0 >= times[i]->0,
        newest_of(times, n) is Some ==> exists|k: int|
            0 <= k < n && #[trigger] times[k] == newest_of(times, n),
    decreases n,
{
    if n > 1 {
        law_the_newest_time_is_a_files(times, n - 1, if i < n - 1 { i } else { 0 });
    }
    reveal_with_fuel(newest_of, 2);
    if newest_of(times, n) is Some {
        if times[n - 1] != newest_of(times, n) {
            assert(newest_of(times, n) == newest_of(times, n - 1));
            let k = choose|k: int| 0 <= k < n - 1 && #[trigger] times[k] == newest_of(times, n - 1);
            assert(times[k] == newest_of(times, n));
        }
    }
}

/// What is read of a working tree is what it holds, field by field.
pub proof fn law_a_work_text_is_its_value(w: &WorkInfo)
    ensures
        work_text(w).staged == w.staged && work_text(w).unstaged == w.unstaged && work_text(
            w,
        ).untracked == w.untracked && work_text(w).conflicts == w.conflicts,
        work_text(w).newest == w.newest_mtime,
        work_text(w).truncated == w.truncated,
        work_text(w).files == crate::model::file_entries(w.files@),
{
}

} // verus!
