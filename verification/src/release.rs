//! Which tags are releases, and what the changelog says about the next one.

use vstd::prelude::*;

use crate::glob::{set_matches, single};
use crate::model::{ChangelogInfo, TagInfo, TagText};
use crate::order::{sort_indices, Key};
use crate::text::{
    from_chars, has_char, same, same_chars, split_lines, split_words, to_chars, trimmed,
    trimmed_end_char, trimmed_start_char,
};

verus! {

/// How many tags to pull dates for. Only used to date the tag `describe`
/// picked, so the newest few hundred is plenty.
pub const TAG_LIMIT: usize = 400;

/// The items that got a yes, of the first `n`.
pub open spec fn kept<T>(items: Seq<T>, keep: Seq<bool>, n: int) -> Seq<T>
    decreases n,
{
    if n <= 0 {
        Seq::empty()
    } else if keep[n - 1] {
        kept(items, keep, n - 1).push(items[n - 1])
    } else {
        kept(items, keep, n - 1)
    }
}

pub open spec fn tag_keys(tags: Seq<TagText>) -> Seq<Seq<Seq<i64>>> {
    tags.map_values(|t: TagText| seq![seq![t.at as i64]])
}

/// The tags by their date, newest first.
pub open spec fn newest_first(tags: Seq<TagText>) -> Seq<TagText> {
    crate::order::permute(tags, crate::order::stable_order(tag_keys(tags), true))
}

/// The tags that count as releases. `keep` says of each tag whether it does; without
/// it all of them do.
pub open spec fn counted(tags: Seq<TagText>, keep: Option<Seq<bool>>) -> Seq<TagText> {
    match keep {
        Some(k) => kept(tags, k, tags.len() as int),
        None => tags,
    }
}

/// The releases among the tags, newest first, up to the limit.
pub open spec fn releases(tags: Seq<TagText>, keep: Option<Seq<bool>>) -> Seq<TagText> {
    let sorted = newest_first(counted(tags, keep));
    if sorted.len() <= TAG_LIMIT {
        sorted
    } else {
        sorted.take(TAG_LIMIT as int)
    }
}

/// Whether a release pattern rules anything out: an empty one and `*` match
/// everything, and so does one that cannot be compiled.
pub open spec fn pattern_counts(pattern: Seq<char>) -> bool {
    pattern.len() > 0 && pattern != "*"@ && crate::glob::compiles(pattern)
}

/// What a release pattern says of each tag.
pub open spec fn tag_verdicts(tags: Seq<TagText>, pattern: Seq<char>) -> Option<Seq<bool>> {
    if pattern_counts(pattern) {
        Some(tags.map_values(|t: TagText| crate::glob::glob_matches(pattern, t.name)))
    } else {
        None
    }
}

pub open spec fn opt_bools(v: Option<Vec<bool>>) -> Option<Seq<bool>> {
    match v {
        Some(b) => Some(b@),
        None => None,
    }
}

fn tag_key_list(tags: &Vec<TagInfo>) -> (r: Vec<Key>)
    ensures
        crate::order::key_rows(r@) == tag_keys(crate::model::tag_texts(tags@)),
        r@.len() == tags@.len(),
{
    let mut out: Vec<Key> = Vec::new();
    let mut i: usize = 0;
    while i < tags.len()
        invariant
            i <= tags@.len(),
            out@.len() == i,
            forall|k: int|
                0 <= k < i ==> crate::order::rows(#[trigger] out@[k]@) == seq![seq![tags@[k].at]],
        decreases tags@.len() - i,
    {
        let mut row: Vec<i64> = Vec::new();
        row.push(tags[i].at);
        assert(row@ =~= seq![tags@[i as int].at]);
        let mut key: Key = Vec::new();
        key.push(row);
        assert(crate::order::rows(key@) =~= seq![seq![tags@[i as int].at]]);
        out.push(key);
        i = i + 1;
    }
    assert(crate::order::key_rows(out@) =~= tag_keys(crate::model::tag_texts(tags@)));
    out
}

/// [`release_tags`] for given verdicts.
pub fn release_tags_from(tags: &Vec<TagInfo>, keep: &Option<Vec<bool>>) -> (r: Vec<TagInfo>)
    requires
        keep matches Some(k) ==> k@.len() == tags@.len(),
    ensures
        crate::model::tag_texts(r@) == releases(crate::model::tag_texts(tags@), opt_bools(*keep)),
{
    let ghost verdicts = opt_bools(*keep);
    let ghost all = crate::model::tag_texts(tags@);
    let mut counted: Vec<TagInfo> = Vec::new();
    let mut i: usize = 0;
    assert(crate::model::tag_texts(counted@) =~= all.take(0));
    while i < tags.len()
        invariant
            i <= tags@.len(),
            verdicts == opt_bools(*keep),
            all == crate::model::tag_texts(tags@),
            keep matches Some(k) ==> k@.len() == tags@.len(),
            crate::model::tag_texts(counted@) == (match verdicts {
                Some(k) => kept(all, k, i as int),
                None => all.take(i as int),
            }),
        decreases tags@.len() - i,
    {
        let wanted = match keep {
            Some(k) => k[i],
            None => true,
        };
        if wanted {
            let ghost before = counted@;
            counted.push(tags[i].clone());
            assert(crate::model::tag_texts(counted@) =~= crate::model::tag_texts(before).push(
                all[i as int],
            ));
        }
        i = i + 1;
    }
    assert(all.take(i as int) =~= all);
    let ghost chosen = crate::model::tag_texts(counted@);
    let keys = tag_key_list(&counted);
    let order = sort_indices(&keys, true);
    let ghost sorted = newest_first(chosen);
    assert(sorted.len() == order@.len()) by {
        assert(crate::order::indices(order@).len() == order@.len());
    }
    let n: usize = if order.len() <= TAG_LIMIT {
        order.len()
    } else {
        TAG_LIMIT
    };
    let mut out: Vec<TagInfo> = Vec::new();
    let mut j: usize = 0;
    assert(crate::model::tag_texts(out@) =~= sorted.take(0));
    while j < n
        invariant
            j <= n <= order@.len(),
            order@.len() == counted@.len(),
            chosen == crate::model::tag_texts(counted@),
            sorted == crate::order::permute(chosen, crate::order::indices(order@)),
            forall|a: int| 0 <= a < order@.len() ==> #[trigger] order@[a] < counted@.len(),
            crate::model::tag_texts(out@) == sorted.take(j as int),
        decreases n - j,
    {
        let at: usize = order[j];
        assert(crate::order::indices(order@)[j as int] == at as int);
        let ghost before = out@;
        out.push(counted[at].clone());
        assert(crate::model::tag_texts(out@) =~= crate::model::tag_texts(before).push(
            sorted[j as int],
        ));
        j = j + 1;
        assert(crate::model::tag_texts(out@) =~= sorted.take(j as int));
    }
    assert(sorted.take(n as int) =~= releases(all, verdicts));
    out
}

/// What the release pattern says of each tag; nothing where it matches all.
fn judge_tags(tags: &Vec<TagInfo>, pattern: &str) -> (r: Option<Vec<bool>>)
    ensures
        opt_bools(r) == tag_verdicts(crate::model::tag_texts(tags@), pattern@),
        r matches Some(k) ==> k@.len() == tags@.len(),
{
    if to_chars(pattern).len() == 0 || same(pattern, "*") {
        return None;
    }
    let set = match single(pattern) {
        Some(set) => set,
        None => {
            return None;
        },
    };
    let mut out: Vec<bool> = Vec::new();
    let mut i: usize = 0;
    while i < tags.len()
        invariant
            i <= tags@.len(),
            crate::glob::globs_in(set) == seq![pattern@],
            out@.len() == i,
            forall|k: int|
                0 <= k < i ==> #[trigger] out@[k] == crate::glob::glob_matches(
                    pattern@,
                    tags@[k].name@,
                ),
        decreases tags@.len() - i,
    {
        proof {
            crate::glob::lemma_single(pattern@, tags@[i as int].name@);
        }
        out.push(set_matches(&set, tags[i].name.as_str()));
        i = i + 1;
    }
    assert(out@ =~= crate::model::tag_texts(tags@).map_values(
        |t: TagText| crate::glob::glob_matches(pattern@, t.name),
    ));
    Some(out)
}

/// The releases among the tags, newest first.
///
/// Only tags matching the release pattern count. Without this, a marker tag
/// like `latest` or `polar-live` gets treated as the last release and the
/// "commits since tag" number becomes meaningless. An unparseable pattern
/// degrades to no filtering rather than to no tags.
pub fn release_tags(tags: &Vec<TagInfo>, pattern: &str) -> (r: Vec<TagInfo>)
    ensures
        crate::model::tag_texts(r@) == releases(
            crate::model::tag_texts(tags@),
            tag_verdicts(crate::model::tag_texts(tags@), pattern@),
        ),
{
    let verdicts = judge_tags(tags, pattern);
    release_tags_from(tags, &verdicts)
}

// ---------------------------------------------------------------------------
// The changelog
// ---------------------------------------------------------------------------

pub open spec fn is_version_char(c: char) -> bool {
    crate::text::is_alphanumeric(c) || c == '.' || c == '-' || c == '+' || c == '_'
}

/// The word a heading starts with, without its decoration.
pub open spec fn heading_token(line: Seq<char>) -> Option<Seq<char>> {
    let t = crate::text::trim(crate::text::trim_start_char(crate::text::trim(line), '#'));
    let ws = crate::text::words(crate::text::trim_start_char(t, '['));
    if ws.len() == 0 {
        None
    } else {
        Some(
            crate::text::trim_start_char(
                crate::text::trim_end_char(crate::text::trim_end_char(ws[0], ']'), ':'),
                'v',
            ),
        )
    }
}

/// The version a changelog heading names: a word that starts with a digit, has a
/// dot in it, and holds nothing a version could not.
pub open spec fn heading_version(line: Seq<char>) -> Option<Seq<char>> {
    match heading_token(line) {
        None => None,
        Some(token) => if token.len() > 0 && crate::text::is_digit(token[0]) && token.contains('.')
            && forall|i: int| 0 <= i < token.len() ==> is_version_char(#[trigger] token[i]) {
            Some(token)
        } else {
            None
        },
    }
}

fn version_char(c: char) -> (r: bool)
    ensures
        r == is_version_char(c),
{
    ('0' <= c && c <= '9') || ('a' <= c && c <= 'z') || ('A' <= c && c <= 'Z') || c == '.' || c
        == '-' || c == '+' || c == '_'
}

/// Recognise a changelog version heading. Covers `# 1.2.3`, `## [1.2.3]`,
/// `# v1.2.3 - date`, and the bare `1.2.3` headings Grav plugins use.
pub fn parse_changelog_version(line: &str) -> (r: Option<String>)
    ensures
        crate::pathname::opt_text(r) == heading_version(line@),
{
    let v = to_chars(line);
    let t = trimmed(trimmed_start_char(trimmed(v.as_slice()), '#'));
    let ws = split_words(trimmed_start_char(t, '['));
    let ghost all = crate::text::words(crate::text::trim_start_char(t@, '['));
    assert(all.len() == ws@.len());
    if ws.len() == 0 {
        return None;
    }
    assert(all[0] == ws@[0]@);
    let token = trimmed_start_char(
        trimmed_end_char(trimmed_end_char(ws[0].as_slice(), ']'), ':'),
        'v',
    );
    if token.len() == 0 || !('0' <= token[0] && token[0] <= '9') {
        return None;
    }
    if !has_char(token, '.') {
        return None;
    }
    let mut i: usize = 0;
    while i < token.len()
        invariant
            i <= token@.len(),
            heading_token(line@) == Some(token@),
            forall|k: int| 0 <= k < i ==> is_version_char(#[trigger] token@[k]),
        decreases token@.len() - i,
    {
        if !version_char(token[i]) {
            return None;
        }
        i = i + 1;
    }
    Some(from_chars(token))
}

/// Whether a tag names a version, give or take a leading `v`.
pub open spec fn names_version(tag: Seq<char>, version: Seq<char>) -> bool {
    crate::text::trim_start_char(tag, 'v') == crate::text::trim_start_char(version, 'v')
}

pub fn tag_eq_version(tag: &str, version: &str) -> (r: bool)
    ensures
        r == names_version(tag@, version@),
{
    let a = to_chars(tag);
    let b = to_chars(version);
    same_chars(trimmed_start_char(a.as_slice(), 'v'), trimmed_start_char(b.as_slice(), 'v'))
}

/// The versions named in the first `n` lines, up to twelve.
pub open spec fn versions_upto(lines: Seq<Seq<char>>, n: int) -> Seq<Seq<char>>
    decreases n,
{
    if n <= 0 {
        Seq::empty()
    } else {
        let above = versions_upto(lines, n - 1);
        match heading_version(lines[n - 1]) {
            Some(v) => if above.len() < 12 {
                above.push(v)
            } else {
                above
            },
            None => above,
        }
    }
}

/// The versions a changelog names in its first four hundred lines, up to twelve.
pub open spec fn changelog_versions(body: Seq<char>) -> Seq<Seq<char>> {
    let ls = crate::text::lines(body);
    versions_upto(
        ls,
        if ls.len() < 400 {
            ls.len() as int
        } else {
            400
        },
    )
}

/// Whether a version has a tag: the nearest one, or the newest.
pub open spec fn is_tagged(
    newest: Option<Seq<char>>,
    described: Option<Seq<char>>,
    version: Seq<char>,
) -> bool {
    newest is Some && (names_version(newest->0, version) || (described is Some && names_version(
        described->0,
        version,
    )))
}

/// How many versions stand in front of the first that has a tag.
pub open spec fn untagged_run(
    versions: Seq<Seq<char>>,
    newest: Option<Seq<char>>,
    described: Option<Seq<char>>,
) -> int
    decreases versions.len(),
{
    if versions.len() == 0 || is_tagged(newest, described, versions[0]) {
        0
    } else {
        1 + untagged_run(versions.skip(1), newest, described)
    }
}

fn tagged(newest: Option<&str>, described: Option<&str>, version: &str) -> (r: bool)
    ensures
        r == is_tagged(crate::hold::opt_str(newest), crate::hold::opt_str(described), version@),
{
    match newest {
        None => false,
        Some(n) => tag_eq_version(n, version) || match described {
            Some(d) => tag_eq_version(d, version),
            None => false,
        },
    }
}

fn list_versions(body: &str) -> (r: Vec<String>)
    ensures
        crate::text::texts(r@) == changelog_versions(body@),
        r@.len() <= 12,
{
    let v = to_chars(body);
    let ls = split_lines(v.as_slice());
    let ghost all = crate::text::lines(body@);
    assert(all.len() == ls@.len());
    let n: usize = if ls.len() < 400 {
        ls.len()
    } else {
        400
    };
    let mut out: Vec<String> = Vec::new();
    let mut i: usize = 0;
    assert(crate::text::texts(out@) =~= versions_upto(all, 0));
    while i < n
        invariant
            i <= n <= ls@.len(),
            all == crate::text::views(ls@),
            crate::text::texts(out@) == versions_upto(all, i as int),
            out@.len() <= 12,
        decreases n - i,
    {
        assert(all[i as int] == ls@[i as int]@);
        assert(crate::text::texts(out@).len() == out@.len());
        let line = from_chars(ls[i].as_slice());
        if let Some(version) = parse_changelog_version(line.as_str()) {
            if out.len() < 12 {
                let ghost before = out@;
                out.push(version);
                assert(crate::text::texts(out@) =~= crate::text::texts(before).push(version@));
            }
        }
        i = i + 1;
    }
    out
}

/// Compare the top version heading in the changelog against the tags that
/// exist. A changelog sitting above its newest tag is an in-flight release.
/// Nothing is said of a changelog without versions.
pub fn read_changelog(body: &str, newest: Option<&str>, described: Option<&str>) -> (r: Option<
    ChangelogInfo,
>)
    ensures
        ({
            let versions = changelog_versions(body@);
            let n = crate::hold::opt_str(newest);
            let d = crate::hold::opt_str(described);
            if versions.len() == 0 {
                r is None
            } else {
                &&& r is Some
                &&& r->0.version@ == versions[0]
                &&& r->0.tagged == is_tagged(n, d, versions[0])
                &&& r->0.unreleased_blocks == untagged_run(versions, n, d)
            }
        }),
{
    let versions = list_versions(body);
    let ghost all = changelog_versions(body@);
    let ghost n = crate::hold::opt_str(newest);
    let ghost d = crate::hold::opt_str(described);
    assert(all.len() == versions@.len());
    if versions.len() == 0 {
        return None;
    }
    // Count the leading run of versions that have no tag yet. More than one
    // means release blocks have stacked up instead of being consolidated.
    let mut run: u32 = 0;
    let mut i: usize = 0;
    let mut done = false;
    assert(all.skip(0) =~= all);
    while i < versions.len() && !done
        invariant
            i <= versions@.len() <= 12,
            all == crate::text::texts(versions@),
            n == crate::hold::opt_str(newest),
            d == crate::hold::opt_str(described),
            run <= i,
            !done ==> run == i && untagged_run(all, n, d) == i + untagged_run(
                all.skip(i as int),
                n,
                d,
            ),
            done ==> run == untagged_run(all, n, d),
        decreases versions@.len() - i,
    {
        assert(all.skip(i as int)[0] == versions@[i as int]@);
        assert(all.skip(i as int).skip(1) =~= all.skip(i + 1));
        if tagged(newest, described, versions[i].as_str()) {
            done = true;
        } else {
            run = run + 1;
        }
        i = i + 1;
    }
    assert(all[0] == versions@[0]@);
    Some(
        ChangelogInfo {
            version: versions[0].clone(),
            tagged: tagged(newest, described, versions[0].as_str()),
            unreleased_blocks: run,
        },
    )
}

proof fn lemma_run_bounds(
    versions: Seq<Seq<char>>,
    newest: Option<Seq<char>>,
    described: Option<Seq<char>>,
)
    ensures
        0 <= untagged_run(versions, newest, described) <= versions.len(),
    decreases versions.len(),
{
    if versions.len() > 0 {
        lemma_run_bounds(versions.skip(1), newest, described);
    }
}

/// A changelog whose top version has a tag has nothing stacked up; one whose top
/// version has none has at least that version waiting. No more can wait than there
/// are versions.
pub proof fn law_untagged_run(
    versions: Seq<Seq<char>>,
    newest: Option<Seq<char>>,
    described: Option<Seq<char>>,
)
    requires
        versions.len() > 0,
    ensures
        is_tagged(newest, described, versions[0]) <==> untagged_run(versions, newest, described)
            == 0,
        0 <= untagged_run(versions, newest, described) <= versions.len(),
{
    lemma_run_bounds(versions, newest, described);
    lemma_run_bounds(versions.skip(1), newest, described);
}

/// Whether a tag is among those that count as releases.
pub open spec fn counts(tags: Seq<TagText>, keep: Option<Seq<bool>>, tag: TagText) -> bool {
    counted(tags, keep).contains(tag)
}

/// The releases come newest first, at most so many of them; each is a tag that counts,
/// and no tag that counts is newer than the first.
pub proof fn law_releases_come_newest_first(
    tags: Seq<TagText>,
    keep: Option<Seq<bool>>,
    tag: TagText,
)
    requires
        forall|i: int| 0 <= i < tags.len() ==> i64::MIN <= (#[trigger] tags[i]).at <= i64::MAX,
    ensures
        releases(tags, keep).len() <= TAG_LIMIT,
        forall|i: int, j: int|
            #![trigger releases(tags, keep)[i], releases(tags, keep)[j]]
            0 <= i < j < releases(tags, keep).len() ==> releases(tags, keep)[i].at >= releases(
                tags,
                keep,
            )[j].at,
        releases(tags, keep).contains(tag) ==> counts(tags, keep, tag),
        counts(tags, keep, tag) ==> releases(tags, keep).len() > 0 && releases(tags, keep)[0].at
            >= tag.at,
{
    let some = counted(tags, keep);
    if let Some(k) = keep {
        lemma_kept(tags, k, tags.len() as int);
    }
    let keys = tag_keys(some);
    let order = crate::order::stable_order(keys, true);
    let sorted = newest_first(some);
    let out = releases(tags, keep);
    crate::order::law_stable_order(keys, true);
    assert forall|i: int, j: int|
        #![trigger sorted[i], sorted[j]]
        0 <= i < j < sorted.len() implies sorted[i].at >= sorted[j].at by {
        let a = order[i];
        let b = order[j];
        assert(sorted[i] == some[a] && sorted[j] == some[b]);
        lemma_date_keys(some[a], some[b]);
        assert(keys[a] == seq![seq![some[a].at as i64]]);
        assert(keys[b] == seq![seq![some[b].at as i64]]);
    }
    assert forall|i: int| 0 <= i < out.len() implies #[trigger] out[i] == sorted[i] by {}
    if out.contains(tag) {
        let i = choose|i: int| 0 <= i < out.len() && out[i] == tag;
        assert(sorted[i] == some[order[i]]);
    }
    if counts(tags, keep, tag) {
        let c = choose|c: int| 0 <= c < some.len() && some[c] == tag;
        assert(order.contains(c));
        let p = choose|p: int| 0 <= p < order.len() && order[p] == c;
        assert(sorted[p] == tag);
        assert(out[0] == sorted[0]);
    }
}

proof fn lemma_kept(tags: Seq<TagText>, keep: Seq<bool>, n: int)
    requires
        0 <= n <= tags.len(),
    ensures
        forall|i: int|
            0 <= i < kept(tags, keep, n).len() ==> tags.contains(
                #[trigger] kept(tags, keep, n)[i],
            ),
    decreases n,
{
    if n > 0 {
        lemma_kept(tags, keep, n - 1);
        let fewer = kept(tags, keep, n - 1);
        let out = kept(tags, keep, n);
        assert forall|i: int| 0 <= i < out.len() implies tags.contains(#[trigger] out[i]) by {
            if i < fewer.len() {
                assert(out[i] == fewer[i]);
            } else {
                assert(tags[n - 1] == out[i]);
            }
        }
    }
}

/// Keys of one number each compare as the numbers do.
proof fn lemma_date_keys(a: TagText, b: TagText)
    requires
        i64::MIN <= a.at <= i64::MAX,
        i64::MIN <= b.at <= i64::MAX,
    ensures
        crate::order::key_less(seq![seq![b.at as i64]], seq![seq![a.at as i64]]) ==> b.at < a.at,
        seq![seq![b.at as i64]] == seq![seq![a.at as i64]] ==> a.at == b.at,
{
    let x = seq![b.at as i64];
    let y = seq![a.at as i64];
    assert(seq![x][0] == x && seq![y][0] == y);
    assert(x[0] == b.at && y[0] == a.at);
    assert(seq![x].skip(1).len() == 0 && seq![y].skip(1).len() == 0);
    assert(x.skip(1).len() == 0 && y.skip(1).len() == 0);
    reveal_with_fuel(crate::order::key_less, 2);
    reveal_with_fuel(crate::order::row_less, 2);
    if x == y {
        assert(x[0] == y[0]);
    }
}

/// A heading names its version, bare or in brackets, with what follows it left out.
pub proof fn law_a_heading_names_its_version(v: Seq<char>, tail: Seq<char>)
    requires
        v.len() > 0,
        '0' <= v[0] <= '9',
        v.contains('.'),
        forall|i: int|
            0 <= i < v.len() ==> ('0' <= #[trigger] v[i] <= '9' || 'a' <= v[i] <= 'z' || 'A' <= v[i]
                <= 'Z' || v[i] == '.' || v[i] == '-' || v[i] == '+' || v[i] == '_'),
        tail.len() > 0 ==> tail[0] == ' ' && !crate::text::is_whitespace(tail[tail.len() - 1]),
    ensures
        heading_version(seq!['#', '#', ' ', '['] + v + seq![']'] + tail) == Some(v),
        heading_version(seq!['#', '#', ' '] + v + tail) == Some(v),
        heading_version(seq!['#', '#', ' ', 'v'] + v + tail) == Some(v),
{
    lemma_heading(seq!['['], v, seq![']'], tail);
    lemma_heading(Seq::empty(), v, Seq::empty(), tail);
    lemma_heading(seq!['v'], v, Seq::empty(), tail);
    let none = Seq::<char>::empty();
    assert(seq!['#', '#', ' '] + (seq!['['] + v + seq![']']) + tail =~= seq!['#', '#', ' ', '['] + v
        + seq![']'] + tail);
    assert(seq!['#', '#', ' '] + (none + v + none) + tail =~= seq!['#', '#', ' '] + v + tail);
    assert(seq!['#', '#', ' '] + (seq!['v'] + v + none) + tail =~= seq!['#', '#', ' ', 'v'] + v
        + tail);
}

proof fn lemma_heading(front: Seq<char>, v: Seq<char>, back: Seq<char>, tail: Seq<char>)
    requires
        v.len() > 0,
        '0' <= v[0] <= '9',
        v.contains('.'),
        forall|i: int| 0 <= i < v.len() ==> is_version_char(#[trigger] v[i]),
        tail.len() > 0 ==> tail[0] == ' ' && !crate::text::is_whitespace(tail[tail.len() - 1]),
        (front == seq!['['] && back == seq![']']) || ((front == seq!['v'] || front.len() == 0)
            && back.len() == 0),
    ensures
        heading_version(seq!['#', '#', ' '] + (front + v + back) + tail) == Some(v),
{
    let word = front + v + back;
    let line = seq!['#', '#', ' '] + word + tail;
    let body = word + tail;
    let spaced = seq![' '] + body;
    assert(is_version_char(v[0]));
    assert(is_version_char(v[v.len() - 1]));
    assert(word[word.len() - 1] == ']' || word[word.len() - 1] == v[v.len() - 1]);
    assert(word[0] == '[' || word[0] == 'v' || word[0] == v[0]);
    assert(body[0] == word[0]);
    assert(!crate::text::is_whitespace(body[body.len() - 1])) by {
        if tail.len() > 0 {
            assert(body[body.len() - 1] == tail[tail.len() - 1]);
        } else {
            assert(body[body.len() - 1] == word[word.len() - 1]);
        }
    }
    assert(line[0] == '#' && line[line.len() - 1] == body[body.len() - 1]);
    crate::text::lemma_trim_is(line);
    assert(line =~= seq!['#'] + (seq!['#'] + spaced));
    crate::text::law_a_character_is_trimmed(seq!['#'] + spaced, '#');
    crate::text::law_a_character_is_trimmed(spaced, '#');
    assert(spaced[0] == ' ');
    crate::text::lemma_trim_around(seq![' '], body, Seq::empty());
    assert(seq![' '] + body + Seq::<char>::empty() =~= spaced);
    let open = if front == seq!['['] {
        v + back
    } else {
        word
    };
    let t = open + tail;
    if front == seq!['['] {
        assert(body =~= seq!['['] + t);
    } else {
        assert(body =~= t);
    }
    assert(t[0] != '[') by {
        assert(t[0] == open[0]);
        assert(open[0] == v[0] || open[0] == 'v');
    }
    crate::text::law_a_character_is_trimmed(t, '[');
    assert forall|i: int| 0 <= i < open.len() implies !crate::text::is_whitespace(
        #[trigger] open[i],
    ) by {
        let at = if front == seq!['v'] {
            i - 1
        } else {
            i
        };
        if 0 <= at < v.len() {
            assert(open[i] == v[at]);
            assert(is_version_char(v[at]));
        }
    }
    if tail.len() > 0 {
        crate::text::law_a_text_is_read_by_word(open, ' ', tail.skip(1));
        assert(t =~= open + seq![' '] + tail.skip(1));
    } else {
        crate::text::law_a_text_is_read_by_word(open, ' ', Seq::empty());
        assert(t =~= open);
    }
    let ws = crate::text::words(t);
    assert(ws[0] == open);
    let bare = if front == seq!['v'] {
        seq!['v'] + v
    } else {
        v
    };
    if front == seq!['['] {
        assert(open =~= v.push(']'));
    } else {
        assert(open =~= bare);
    }
    assert(bare[bare.len() - 1] == v[v.len() - 1]);
    crate::text::law_a_character_is_trimmed(bare, ']');
    crate::text::law_a_character_is_trimmed(bare, ':');
    crate::text::law_a_character_is_trimmed(v, 'v');
}

/// Only what reads like a version is one: a digit first, a dot in it, and none but letters,
/// digits and `.-+_`.
pub proof fn law_a_version_reads_like_one(line: Seq<char>, i: int)
    requires
        heading_version(line) is Some,
        0 <= i < heading_version(line)->0.len(),
    ensures
        ({
            let v = heading_version(line)->0;
            let c = v[i];
            &&& v.contains('.')
            &&& '0' <= v[0] <= '9'
            &&& ('0' <= c <= '9' || 'a' <= c <= 'z' || 'A' <= c <= 'Z' || c == '.' || c == '-' || c
                == '+' || c == '_')
        }),
{
    assert(is_version_char(heading_version(line)->0[i]));
}

/// A tag names a version with a `v` in front or without; other names do not.
pub proof fn law_a_tag_names_its_version(v: Seq<char>, other: Seq<char>)
    requires
        v.len() > 0,
        v[0] != 'v',
        other.len() > 0,
        other[0] != 'v',
    ensures
        names_version(v, v),
        names_version(seq!['v'] + v, v),
        names_version(v, seq!['v'] + v),
        names_version(other, v) <==> other == v,
        names_version(seq!['v'] + other, v) <==> other == v,
{
    crate::text::law_a_character_is_trimmed(v, 'v');
    crate::text::law_a_character_is_trimmed(other, 'v');
}

/// A version is tagged where the newest tag names it, or the one that was reached does and
/// there is a newest.
pub proof fn law_a_version_is_tagged_by_name(
    newest: Seq<char>,
    described: Seq<char>,
    version: Seq<char>,
)
    ensures
        !is_tagged(None, Some(described), version),
        is_tagged(Some(newest), None, version) <==> names_version(newest, version),
        is_tagged(Some(newest), Some(described), version) <==> names_version(newest, version)
            || names_version(described, version),
{
}

/// The versions that wait for a tag are those above the first that has one.
pub proof fn law_the_run_ends_at_a_tagged_version(
    versions: Seq<Seq<char>>,
    newest: Option<Seq<char>>,
    described: Option<Seq<char>>,
    i: int,
)
    requires
        0 <= i < versions.len(),
    ensures
        ({
            let run = untagged_run(versions, newest, described);
            &&& 0 <= run <= versions.len()
            &&& i < run ==> !is_tagged(newest, described, versions[i])
            &&& run < versions.len() ==> is_tagged(newest, described, versions[run])
        }),
    decreases versions.len(),
{
    lemma_run_bounds(versions, newest, described);
    if !is_tagged(newest, described, versions[0]) && versions.len() > 1 {
        let rest = versions.skip(1);
        law_the_run_ends_at_a_tagged_version(rest, newest, described, if i > 0 { i - 1 } else { 0 });
        let run = untagged_run(rest, newest, described);
        if run < rest.len() {
            assert(rest[run] == versions[run + 1]);
        }
        if i > 0 {
            assert(rest[i - 1] == versions[i]);
        }
    } else if versions.len() == 1 {
        reveal_with_fuel(untagged_run, 2);
        assert(versions.skip(1).len() == 0);
    }
}

/// A changelog is read from the top: its first twelve versions, out of its first four
/// hundred lines.
pub proof fn law_a_changelog_is_read_from_the_top(lines: Seq<Seq<char>>, line: Seq<char>, body: Seq<char>)
    ensures
        ({
            let n = lines.len() as int;
            let above = versions_upto(lines, n);
            &&& above.len() <= 12
            &&& heading_version(line) is None || above.len() == 12 ==> versions_upto(
                lines.push(line),
                n + 1,
            ) == above
            &&& heading_version(line) is Some && above.len() < 12 ==> versions_upto(
                lines.push(line),
                n + 1,
            ) == above.push(heading_version(line)->0)
        }),
        ({
            let ls = crate::text::lines(body);
            &&& ls.len() <= 400 ==> changelog_versions(body) == versions_upto(ls, ls.len() as int)
            &&& ls.len() > 400 ==> changelog_versions(body) == versions_upto(ls.take(400), 400)
        }),
{
    lemma_versions_fit(lines, lines.len() as int);
    lemma_versions_front(lines, lines.push(line), lines.len() as int);
    let ls = crate::text::lines(body);
    if ls.len() > 400 {
        lemma_versions_front(ls.take(400), ls, 400);
    }
}

proof fn lemma_versions_fit(lines: Seq<Seq<char>>, n: int)
    ensures
        versions_upto(lines, n).len() <= 12,
    decreases n,
{
    if n > 0 {
        lemma_versions_fit(lines, n - 1);
    }
}

proof fn lemma_versions_front(a: Seq<Seq<char>>, b: Seq<Seq<char>>, n: int)
    requires
        0 <= n <= a.len() <= b.len(),
        forall|i: int| 0 <= i < a.len() ==> a[i] == #[trigger] b[i],
    ensures
        versions_upto(a, n) == versions_upto(b, n),
    decreases n,
{
    if n > 0 {
        lemma_versions_front(a, b, n - 1);
        assert(a[n - 1] == b[n - 1]);
    }
}

/// A tag counts exactly where its verdict says so, and those that count keep their order.
pub proof fn law_a_tag_counts_by_its_verdict(
    tags: Seq<TagText>,
    keep: Seq<bool>,
    tag: TagText,
    good: bool,
)
    requires
        keep.len() == tags.len(),
    ensures
        good ==> counted(tags.push(tag), Some(keep.push(good))) == counted(tags, Some(keep)).push(
            tag,
        ),
        !good ==> counted(tags.push(tag), Some(keep.push(good))) == counted(tags, Some(keep)),
        counted(tags, None) == tags,
{
    lemma_kept_front(tags, keep, tag, good, tags.len() as int);
}

proof fn lemma_kept_front(tags: Seq<TagText>, keep: Seq<bool>, tag: TagText, good: bool, n: int)
    requires
        keep.len() == tags.len(),
        0 <= n <= tags.len(),
    ensures
        kept(tags.push(tag), keep.push(good), n) == kept(tags, keep, n),
    decreases n,
{
    if n > 0 {
        lemma_kept_front(tags, keep, tag, good, n - 1);
        assert(tags.push(tag)[n - 1] == tags[n - 1]);
        assert(keep.push(good)[n - 1] == keep[n - 1]);
    }
}

/// Every tag counts where the pattern is empty, a lone star, or no pattern at all; else
/// those it matches do.
pub proof fn law_a_pattern_picks_tags(tags: Seq<TagText>, pattern: Seq<char>, i: int)
    requires
        0 <= i < tags.len(),
    ensures
        tag_verdicts(tags, Seq::empty()) is None,
        tag_verdicts(tags, seq!['*']) is None,
        !crate::glob::compiles(pattern) ==> tag_verdicts(tags, pattern) is None,
        pattern.len() > 0 && pattern != seq!['*'] && crate::glob::compiles(pattern) ==> tag_verdicts(
            tags,
            pattern,
        ) is Some && tag_verdicts(tags, pattern)->0.len() == tags.len() && tag_verdicts(
            tags,
            pattern,
        )->0[i] == crate::glob::glob_matches(pattern, tags[i].name),
{
    reveal_strlit("*");
    assert("*"@ =~= seq!['*']);
}

/// Four hundred releases are kept at most, and all of them where there are no more.
pub proof fn law_so_many_releases_are_kept(tags: Seq<TagText>, keep: Option<Seq<bool>>)
    ensures
        counted(tags, keep).len() >= 400 ==> releases(tags, keep).len() == 400,
        counted(tags, keep).len() <= 400 ==> releases(tags, keep).to_multiset() == counted(
            tags,
            keep,
        ).to_multiset(),
{
    let all = counted(tags, keep);
    let key = |t: TagText| seq![seq![t.at as i64]];
    assert(tag_keys(all) =~= all.map_values(key));
    crate::order::lemma_stably_sorted(all, key, true);
}

} // verus!
