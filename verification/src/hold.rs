//! Manual holds: "this commit state doesn't need a release".
//!
//! A repo reads as needing a release the moment anything lands past its newest
//! tag, and that is right far more often than it's wrong. But plenty of what
//! lands past a tag is a changelog line, a merge of a branch that was already
//! released, a README fix — work that is genuinely past the tag and genuinely
//! not worth cutting a version for. Across a few hundred repos those add up
//! until the needs-release list is mostly noise, which is the one thing a list
//! like that cannot afford to be.
//!
//! A hold takes one repo out of that list, and pins itself to the commit it
//! was placed at. That pin is the whole point: the hold covers *this* state
//! and nothing else, so the next commit lifts it on its own and the repo comes
//! back into the list without anyone having to remember it was ever held. A
//! hold that outlived the thing it described would be strictly worse than no
//! hold at all — it would hide real work while looking exactly like a repo
//! with nothing to ship.

use vstd::prelude::*;

use crate::model::{copy_opt, RepoStatus};
use crate::order::{rank_keys, Rank};
use crate::pathname::{path_key, paths_equal};
use crate::text::same;

verus! {

/// One repo's hold, pinned to the commit it was placed at.
#[derive(Debug, PartialEq, Eq)]
pub struct Hold {
    /// HEAD when the hold was placed, as the short sha the rest of the crate
    /// works in. The only field matched on: everything else here is for
    /// saying what was held and when.
    pub sha: String,
    /// The branch HEAD was on, or `None` on a detached HEAD.
    pub branch: Option<String>,
    /// The tag the repo was sitting past.
    pub tag: Option<String>,
    /// When the hold was placed, unix seconds.
    pub at: i64,
    /// Why, if whoever placed it said.
    pub note: Option<String>,
}

impl Clone for Hold {
    fn clone(&self) -> (r: Self)
        ensures
            r == *self,
    {
        Hold {
            sha: self.sha.clone(),
            branch: copy_opt(&self.branch),
            tag: copy_opt(&self.tag),
            at: self.at,
            note: copy_opt(&self.note),
        }
    }
}

impl Hold {
    pub open spec fn label_text(&self) -> Seq<char> {
        match self.tag {
            Some(tag) => tag@ + " ("@ + self.sha@ + ")"@,
            None => self.sha@,
        }
    }

    /// True when this hold still describes what's checked out.
    pub fn covers(&self, head_sha: Option<&str>) -> (r: bool)
        ensures
            r == (match head_sha {
                Some(sha) => sha@ == self.sha@,
                None => false,
            }),
    {
        match head_sha {
            Some(sha) => same(sha, self.sha.as_str()),
            None => false,
        }
    }

    /// `1.0.3 (a1b2c3d)`, or just the sha when the repo had no reachable tag.
    pub fn label(&self) -> (r: String)
        ensures
            r@ == self.label_text(),
    {
        match &self.tag {
            Some(tag) => {
                let mut out = tag.clone();
                out.append(" (");
                out.append(self.sha.as_str());
                out.append(")");
                out
            },
            None => self.sha.clone(),
        }
    }
}

/// A hold and the path it is filed under.
#[derive(Debug)]
pub struct HoldEntry {
    pub path: String,
    pub hold: Hold,
}

/// Every hold, keyed by repo root: at most one entry per path, in path order.
#[derive(Debug)]
pub struct Holds {
    entries: Vec<HoldEntry>,
}

/// Index of the entry filed under this path at or after `i`.
pub open spec fn entry_from(es: Seq<HoldEntry>, path: Seq<char>, i: int) -> Option<int>
    decreases es.len() - i,
{
    if i < 0 || i >= es.len() {
        None
    } else if crate::pathname::same_path(es[i].path@, path) {
        Some(i)
    } else {
        entry_from(es, path, i + 1)
    }
}

/// The hold filed under this path.
pub open spec fn filed(es: Seq<HoldEntry>, path: Seq<char>) -> Option<Hold> {
    match entry_from(es, path, 0) {
        Some(i) => Some(es[i].hold),
        None => None,
    }
}

/// The path a hold is filed under: resolved where it can be, taken as written
/// where it can't. Writing and reading both go through this, so a repo named
/// one way on the command line and another by the scan lands in one entry.
pub open spec fn filing_path(root: Seq<char>, resolved: Option<Seq<char>>) -> Seq<char> {
    match resolved {
        Some(p) => p,
        None => root,
    }
}

/// The hold on a repo: what is filed under its path as written or, failing
/// that, under the path it resolves to.
pub open spec fn found(
    es: Seq<HoldEntry>,
    root: Seq<char>,
    resolved: Option<Seq<char>>,
) -> Option<Hold> {
    match filed(es, root) {
        Some(h) => Some(h),
        None => match resolved {
            Some(p) => filed(es, p),
            None => None,
        },
    }
}

/// How many of the first `n` entries belong in front of this path.
pub open spec fn entries_before(es: Seq<HoldEntry>, path: Seq<char>, n: int) -> int
    decreases n,
{
    if n <= 0 {
        0
    } else {
        entries_before(es, path, n - 1) + (if crate::order::key_less(
            crate::pathname::path_rows(es[n - 1].path@),
            crate::pathname::path_rows(path),
        ) {
            1int
        } else {
            0
        })
    }
}

/// Entries in path order, no path twice.
pub open spec fn sorted_entries(es: Seq<HoldEntry>) -> bool {
    forall|i: int, j: int|
        #![trigger es[i], es[j]]
        0 <= i < j < es.len() ==> crate::order::key_less(
            crate::pathname::path_rows(es[i].path@),
            crate::pathname::path_rows(es[j].path@),
        )
}

/// What filing a hold does: one path has one entry, so an entry that is there
/// keeps its spelling and takes the new hold, and a new one goes where the path
/// order puts it.
pub open spec fn was_set(
    before: Seq<HoldEntry>,
    after: Seq<HoldEntry>,
    path: Seq<char>,
    hold: Hold,
) -> bool {
    match entry_from(before, path, 0) {
        Some(i) => {
            &&& after.len() == before.len()
            &&& after[i].path == before[i].path
            &&& after[i].hold == hold
            &&& forall|k: int|
                0 <= k < before.len() && k != i ==> #[trigger] after[k] == before[k]
        },
        None => {
            let at = entries_before(before, path, before.len() as int);
            &&& 0 <= at <= before.len()
            &&& after.len() == before.len() + 1
            &&& after[at].path@ == path
            &&& after[at].hold == hold
            &&& forall|k: int| 0 <= k < at ==> #[trigger] after[k] == before[k]
            &&& forall|k: int| at < k < after.len() ==> #[trigger] after[k] == before[k - 1]
        },
    }
}

/// The view of an optional path.
pub open spec fn opt_str(s: Option<&str>) -> Option<Seq<char>> {
    match s {
        Some(t) => Some(t@),
        None => None,
    }
}

proof fn lemma_entry_from(es: Seq<HoldEntry>, path: Seq<char>, i: int)
    requires
        0 <= i,
    ensures
        (match entry_from(es, path, i) {
            Some(k) => i <= k < es.len() && crate::pathname::same_path(es[k].path@, path),
            None => forall|k: int|
                i <= k < es.len() ==> !crate::pathname::same_path(#[trigger] es[k].path@, path),
        }),
    decreases es.len() - i,
{
    if i < es.len() && !crate::pathname::same_path(es[i].path@, path) {
        lemma_entry_from(es, path, i + 1);
    }
}

/// In entries without repeated paths, the entry of a path is the one found.
proof fn lemma_entry_is(es: Seq<HoldEntry>, path: Seq<char>, k: int)
    requires
        sorted_entries(es),
        0 <= k < es.len(),
        crate::pathname::same_path(es[k].path@, path),
    ensures
        entry_from(es, path, 0) == Some(k),
{
    lemma_entry_from(es, path, 0);
    let m = entry_from(es, path, 0)->0;
    crate::pathname::law_path_rows_identify_paths(es[k].path@, es[m].path@);
    crate::order::lemma_key_total(
        crate::pathname::path_rows(es[k].path@),
        crate::pathname::path_rows(es[m].path@),
    );
    if m != k {
        if m < k {
            let a = es[m];
            let b = es[k];
        } else {
            let a = es[k];
            let b = es[m];
        }
    }
}

impl View for Holds {
    type V = Seq<HoldEntry>;

    closed spec fn view(&self) -> Seq<HoldEntry> {
        self.entries@
    }
}

impl Default for Holds {
    fn default() -> (r: Self)
        ensures
            r@ == Seq::<HoldEntry>::empty(),
            r.wf(),
    {
        Holds { entries: Vec::new() }
    }
}

impl Holds {
    /// At most one entry per path, in path order.
    pub open spec fn wf(&self) -> bool {
        sorted_entries(self@)
    }

    fn position(&self, path: &str) -> (r: Option<usize>)
        ensures
            (match r {
                Some(i) => entry_from(self@, path@, 0) == Some(i as int) && i < self@.len(),
                None => entry_from(self@, path@, 0) is None,
            }),
    {
        let mut i: usize = 0;
        while i < self.entries.len()
            invariant
                i <= self.entries@.len(),
                entry_from(self@, path@, 0) == entry_from(self@, path@, i as int),
            decreases self.entries@.len() - i,
        {
            if paths_equal(self.entries[i].path.as_str(), path) {
                return Some(i);
            }
            i = i + 1;
        }
        None
    }

    /// The hold on this repo, if there is one. Says nothing about whether it
    /// still covers HEAD — that's [`Hold::covers`], and a lifted hold is still
    /// worth reporting.
    ///
    /// `resolved` is the path that `root` resolves to, where it resolves: a repo
    /// reached through a symlinked root is stored under that one.
    pub fn get(&self, root: &str, resolved: Option<&str>) -> (r: Option<&Hold>)
        ensures
            (match r {
                Some(h) => found(self@, root@, opt_str(resolved)) == Some(*h),
                None => found(self@, root@, opt_str(resolved)) is None,
            }),
    {
        if let Some(i) = self.position(root) {
            return Some(&self.entries[i].hold);
        }
        match resolved {
            Some(p) => match self.position(p) {
                Some(i) => Some(&self.entries[i].hold),
                None => None,
            },
            None => None,
        }
    }

    /// Files a hold. One path has one entry: an entry that is there keeps its
    /// spelling and takes the new hold, and a new one goes where the path order
    /// puts it.
    pub fn set(&mut self, root: &str, resolved: Option<&str>, hold: Hold)
        requires
            old(self).wf(),
        ensures
            final(self).wf(),
            was_set(old(self)@, final(self)@, filing_path(root@, opt_str(resolved)), hold),
    {
        let path: String = match resolved {
            Some(p) => p.to_owned(),
            None => root.to_owned(),
        };
        let ghost es = self@;
        let ghost target = filing_path(root@, opt_str(resolved));
        assert(path@ == target);
        match self.position(path.as_str()) {
            Some(i) => {
                let keep = self.entries[i].path.clone();
                self.entries.set(i, HoldEntry { path: keep, hold });
                assert forall|a: int, b: int|
                    #![trigger self@[a], self@[b]]
                    0 <= a < b < self@.len() implies crate::order::key_less(
                    crate::pathname::path_rows(self@[a].path@),
                    crate::pathname::path_rows(self@[b].path@),
                ) by {
                    assert(self@[a].path == es[a].path);
                    assert(self@[b].path == es[b].path);
                }
            },
            None => {
                let key = path_key(path.as_str());
                let mut at: usize = 0;
                let mut i: usize = 0;
                while i < self.entries.len()
                    invariant
                        i <= self.entries@.len(),
                        at <= i,
                        self@ == es,
                        path@ == target,
                        sorted_entries(es),
                        crate::order::rows(key@) == crate::pathname::path_rows(target),
                        at == entries_before(es, target, i as int),
                        forall|k: int|
                            0 <= k < i ==> (k < at <==> crate::order::key_less(
                                crate::pathname::path_rows(#[trigger] es[k].path@),
                                crate::pathname::path_rows(target),
                            )),
                    decreases self.entries@.len() - i,
                {
                    let other = path_key(self.entries[i].path.as_str());
                    if matches!(rank_keys(&other, &key), Rank::Before) {
                        proof {
                            if at < i {
                                let a = es[at as int];
                                let b = es[i as int];
                                crate::order::lemma_key_transitive(
                                    crate::pathname::path_rows(es[at as int].path@),
                                    crate::pathname::path_rows(es[i as int].path@),
                                    crate::pathname::path_rows(target),
                                );
                            }
                        }
                        at = at + 1;
                    }
                    i = i + 1;
                }
                let ghost entry = HoldEntry { path, hold };
                self.entries.insert(at, HoldEntry { path, hold });
                proof {
                    lemma_entry_from(es, target, 0);
                    assert(self@ == es.insert(at as int, entry));
                    assert forall|a: int, b: int|
                        #![trigger self@[a], self@[b]]
                        0 <= a < b < self@.len() implies crate::order::key_less(
                        crate::pathname::path_rows(self@[a].path@),
                        crate::pathname::path_rows(self@[b].path@),
                    ) by {
                        if a < at && b > at {
                            let x = es[a];
                            let y = es[b - 1];
                        } else if b < at {
                            let x = es[a];
                            let y = es[b];
                        } else if a > at {
                            let x = es[a - 1];
                            let y = es[b - 1];
                        } else if b == at {
                            let x = es[a];
                        } else {
                            let y = es[b - 1];
                            crate::pathname::law_path_rows_identify_paths(y.path@, target);
                            crate::order::lemma_key_total(
                                crate::pathname::path_rows(y.path@),
                                crate::pathname::path_rows(target),
                            );
                        }
                    }
                }
            },
        }
    }

    fn take_at(&mut self, i: usize) -> (r: Hold)
        requires
            i < old(self)@.len(),
            old(self).wf(),
        ensures
            final(self).wf(),
            final(self)@ == old(self)@.remove(i as int),
            r == old(self)@[i as int].hold,
    {
        let ghost es = self@;
        let entry = self.entries.remove(i);
        assert forall|a: int, b: int|
            #![trigger self@[a], self@[b]]
            0 <= a < b < self@.len() implies crate::order::key_less(
            crate::pathname::path_rows(self@[a].path@),
            crate::pathname::path_rows(self@[b].path@),
        ) by {
            let x = es[if a < i { a } else { a + 1 }];
            let y = es[if b < i { b } else { b + 1 }];
        }
        entry.hold
    }

    /// Takes a repo's hold out: the one under the path it resolves to or,
    /// failing that, the one under its path as written.
    pub fn remove(&mut self, root: &str, resolved: Option<&str>) -> (r: Option<Hold>)
        requires
            old(self).wf(),
        ensures
            final(self).wf(),
            ({
                let path = filing_path(root@, opt_str(resolved));
                match (entry_from(old(self)@, path, 0), entry_from(old(self)@, root@, 0)) {
                    (Some(i), _) => final(self)@ == old(self)@.remove(i) && r == Some(
                        old(self)@[i].hold,
                    ),
                    (None, Some(i)) => final(self)@ == old(self)@.remove(i) && r == Some(
                        old(self)@[i].hold,
                    ),
                    (None, None) => final(self)@ == old(self)@ && r is None,
                }
            }),
    {
        let first = match resolved {
            Some(p) => self.position(p),
            None => self.position(root),
        };
        match first {
            Some(i) => Some(self.take_at(i)),
            None => match self.position(root) {
                Some(i) => Some(self.take_at(i)),
                None => None,
            },
        }
    }

    /// Every hold with its path, in path order.
    pub fn iter(&self) -> (r: Vec<(&String, &Hold)>)
        ensures
            r@.len() == self@.len(),
            forall|i: int|
                0 <= i < self@.len() ==> *(#[trigger] r@[i]).0 == self@[i].path && *r@[i].1
                    == self@[i].hold,
    {
        let mut out: Vec<(&String, &Hold)> = Vec::new();
        let mut i: usize = 0;
        while i < self.entries.len()
            invariant
                i <= self.entries@.len(),
                out@.len() == i,
                forall|k: int|
                    0 <= k < i ==> *(#[trigger] out@[k]).0 == self@[k].path && *out@[k].1
                        == self@[k].hold,
            decreases self.entries@.len() - i,
        {
            out.push((&self.entries[i].path, &self.entries[i].hold));
            i = i + 1;
        }
        out
    }

    pub fn is_empty(&self) -> (r: bool)
        ensures
            r == (self@.len() == 0),
    {
        self.entries.len() == 0
    }

    /// Keeps the entries `keep` answers yes for, in their order.
    pub fn retain<F: Fn(&String, &Hold) -> bool>(&mut self, keep: F)
        requires
            old(self).wf(),
            forall|path: &String, hold: &Hold| #[trigger] keep.requires((path, hold)),
        ensures
            final(self).wf(),
            exists|answers: Seq<bool>|
                {
                    &&& #[trigger] answers.len() == old(self)@.len()
                    &&& forall|i: int|
                        0 <= i < answers.len() ==> keep.ensures(
                            (&old(self)@[i].path, &old(self)@[i].hold),
                            #[trigger] answers[i],
                        )
                    &&& final(self)@ == kept(old(self)@, answers, old(self)@.len() as int)
                },
    {
        let mut out: Vec<HoldEntry> = Vec::new();
        let ghost es = self@;
        let ghost mut answers: Seq<bool> = Seq::empty();
        let mut i: usize = 0;
        while i < self.entries.len()
            invariant
                i <= self.entries@.len(),
                self@ == es,
                answers.len() == i,
                forall|path: &String, hold: &Hold| #[trigger] keep.requires((path, hold)),
                forall|k: int|
                    0 <= k < i ==> keep.ensures(
                        (&es[k].path, &es[k].hold),
                        #[trigger] answers[k],
                    ),
                out@ == kept(es, answers, i as int),
            decreases self.entries@.len() - i,
        {
            let answer = keep(&self.entries[i].path, &self.entries[i].hold);
            let ghost before = answers;
            proof {
                answers = answers.push(answer);
                lemma_kept_prefix(es, before, answers, i as int);
            }
            if answer {
                out.push(
                    HoldEntry {
                        path: self.entries[i].path.clone(),
                        hold: self.entries[i].hold.clone(),
                    },
                );
            }
            i = i + 1;
        }
        proof {
            lemma_kept_sorted(es, answers, es.len() as int);
        }
        self.entries = out;
        assert(answers.len() == es.len());
    }
}

/// The first `n` entries that got a yes.
pub open spec fn kept(es: Seq<HoldEntry>, answers: Seq<bool>, n: int) -> Seq<HoldEntry>
    decreases n,
{
    if n <= 0 {
        Seq::empty()
    } else if answers[n - 1] {
        kept(es, answers, n - 1).push(es[n - 1])
    } else {
        kept(es, answers, n - 1)
    }
}

proof fn lemma_kept_prefix(es: Seq<HoldEntry>, a: Seq<bool>, b: Seq<bool>, n: int)
    requires
        0 <= n <= a.len() <= b.len(),
        forall|k: int| 0 <= k < n ==> a[k] == b[k],
    ensures
        kept(es, a, n) == kept(es, b, n),
    decreases n,
{
    if n > 0 {
        lemma_kept_prefix(es, a, b, n - 1);
    }
}

proof fn lemma_kept_sorted(es: Seq<HoldEntry>, answers: Seq<bool>, n: int)
    requires
        sorted_entries(es),
        0 <= n <= es.len(),
    ensures
        sorted_entries(kept(es, answers, n)),
        forall|i: int|
            0 <= i < kept(es, answers, n).len() ==> exists|k: int|
                0 <= k < n && #[trigger] kept(es, answers, n)[i] == #[trigger] es[k],
    decreases n,
{
    if n > 0 {
        lemma_kept_sorted(es, answers, n - 1);
        let prev = kept(es, answers, n - 1);
        let out = kept(es, answers, n);
        assert forall|i: int| 0 <= i < out.len() implies exists|k: int|
            0 <= k < n && #[trigger] out[i] == #[trigger] es[k] by {
            if i < prev.len() {
                assert(out[i] == prev[i]);
            } else {
                assert(out[i] == es[n - 1]);
            }
        }
        assert forall|a: int, b: int|
            #![trigger out[a], out[b]]
            0 <= a < b < out.len() implies crate::order::key_less(
            crate::pathname::path_rows(out[a].path@),
            crate::pathname::path_rows(out[b].path@),
        ) by {
            assert(out[a] == prev[a]);
            if b < prev.len() {
                assert(out[b] == prev[b]);
            } else {
                let k = choose|k: int| 0 <= k < n - 1 && prev[a] == #[trigger] es[k];
                let x = es[k];
                let y = es[n - 1];
            }
        }
    }
}

/// A hold as it stands in a file: the root it names, the path that resolves to,
/// where it resolves, and the hold.
#[derive(Debug)]
pub struct FiledHold {
    pub root: String,
    pub resolved: Option<String>,
    pub hold: Hold,
}

impl FiledHold {
    pub open spec fn filed_under(&self) -> Seq<char> {
        filing_path(self.root@, crate::pathname::opt_text(self.resolved))
    }
}

/// What the file says of a path: its last entry for it.
pub open spec fn last_filed(file: Seq<FiledHold>, path: Seq<char>) -> Option<Hold>
    decreases file.len(),
{
    if file.len() == 0 {
        None
    } else if crate::pathname::same_path(path, file[file.len() - 1].filed_under()) {
        Some(file[file.len() - 1].hold)
    } else {
        last_filed(file.take(file.len() - 1), path)
    }
}

/// The hold filed under a path depends on which path it is, not on how it is
/// written.
proof fn lemma_filed_by_path(es: Seq<HoldEntry>, a: Seq<char>, b: Seq<char>, i: int)
    requires
        crate::pathname::same_path(a, b),
        0 <= i,
    ensures
        entry_from(es, a, i) == entry_from(es, b, i),
    decreases es.len() - i,
{
    if i < es.len() {
        lemma_filed_by_path(es, a, b, i + 1);
    }
}

/// The holds of a file. A path named twice keeps what its last entry says.
pub fn parse(file: &Vec<FiledHold>) -> (r: Holds)
    ensures
        r.wf(),
        forall|path: Seq<char>| #[trigger] filed(r@, path) == last_filed(file@, path),
{
    let mut holds = Holds::default();
    let mut i: usize = 0;
    assert(file@.take(0) =~= Seq::empty());
    while i < file.len()
        invariant
            i <= file@.len(),
            holds.wf(),
            forall|path: Seq<char>| #[trigger]
                filed(holds@, path) == last_filed(file@.take(i as int), path),
        decreases file@.len() - i,
    {
        let ghost before = holds@;
        let entry = &file[i];
        let resolved: Option<&str> = match &entry.resolved {
            Some(p) => Some(p.as_str()),
            None => None,
        };
        holds.set(entry.root.as_str(), resolved, entry.hold.clone());
        proof {
            let done = file@.take(i + 1);
            assert(done.take(done.len() - 1) =~= file@.take(i as int));
            assert(opt_str(resolved) == crate::pathname::opt_text(entry.resolved));
            let under = entry.filed_under();
            assert forall|path: Seq<char>| #[trigger]
                filed(holds@, path) == last_filed(done, path) by {
                law_get_after_set(before, holds@, under, entry.hold, path);
                if crate::pathname::same_path(path, under) {
                    lemma_filed_by_path(holds@, path, under, 0);
                } else {
                    assert(filed(before, path) == last_filed(file@.take(i as int), path));
                }
            }
        }
        i = i + 1;
    }
    assert(file@.take(i as int) =~= file@);
    holds
}

/// Stamp the hold each of these repos is under, if any.
///
/// Called wherever repos come from — a sweep, the cache, a single probe — so
/// that [`RepoStatus::release_state`] can answer without having to reach for a
/// file of its own. `resolved` holds, repo by repo, the path its root resolves
/// to; nothing has to be resolved where nothing is held.
pub fn apply(repos: &mut Vec<RepoStatus>, holds: &Holds, resolved: &Vec<Option<String>>)
    requires
        resolved@.len() == old(repos)@.len(),
    ensures
        final(repos)@.len() == old(repos)@.len(),
        forall|i: int|
            0 <= i < old(repos)@.len() ==> #[trigger] final(repos)@[i] == (RepoStatus {
                hold: found(
                    holds@,
                    old(repos)@[i].root@,
                    crate::pathname::opt_text(resolved@[i]),
                ),
                ..old(repos)@[i]
            }),
{
    let ghost before = repos@;
    let mut i: usize = 0;
    while i < repos.len()
        invariant
            i <= repos@.len(),
            repos@.len() == before.len() == resolved@.len(),
            forall|k: int|
                0 <= k < i ==> #[trigger] repos@[k] == (RepoStatus {
                    hold: found(holds@, before[k].root@, crate::pathname::opt_text(resolved@[k])),
                    ..before[k]
                }),
            forall|k: int| i <= k < repos@.len() ==> #[trigger] repos@[k] == before[k],
        decreases repos@.len() - i,
    {
        let at: Option<&str> = match &resolved[i] {
            Some(p) => Some(p.as_str()),
            None => None,
        };
        let hold = match holds.get(repos[i].root.as_str(), at) {
            Some(h) => Some(h.clone()),
            None => None,
        };
        assert(opt_str(at) == crate::pathname::opt_text(resolved@[i as int]));
        repos[i].hold = hold;
        i = i + 1;
    }
}

// ---------------------------------------------------------------------------
// Laws
// ---------------------------------------------------------------------------

/// Reading a path gives back the hold that was last filed under it, and filing
/// one leaves every other path's hold as it was.
pub proof fn law_get_after_set(
    before: Seq<HoldEntry>,
    after: Seq<HoldEntry>,
    path: Seq<char>,
    hold: Hold,
    other: Seq<char>,
)
    requires
        sorted_entries(before),
        sorted_entries(after),
        was_set(before, after, path, hold),
    ensures
        filed(after, path) == Some(hold),
        !crate::pathname::same_path(other, path) ==> filed(after, other) == filed(before, other),
{
    lemma_entry_from(before, path, 0);
    lemma_entry_from(before, other, 0);
    lemma_entry_from(after, other, 0);
    match entry_from(before, path, 0) {
        Some(i) => {
            lemma_entry_is(after, path, i);
            if !crate::pathname::same_path(other, path) {
                match entry_from(before, other, 0) {
                    Some(k) => {
                        assert(after[k] == before[k]);
                        lemma_entry_is(after, other, k);
                    },
                    None => {
                        if let Some(k) = entry_from(after, other, 0) {
                            if k != i {
                                assert(after[k] == before[k]);
                            }
                            assert(crate::pathname::same_path(before[k].path@, other));
                        }
                    },
                }
            }
        },
        None => {
            let at = entries_before(before, path, before.len() as int);
            lemma_entry_is(after, path, at);
            if !crate::pathname::same_path(other, path) {
                match entry_from(before, other, 0) {
                    Some(k) => {
                        let m = if k < at {
                            k
                        } else {
                            k + 1
                        };
                        assert(after[m] == before[k]);
                        lemma_entry_is(after, other, m);
                    },
                    None => {
                        if let Some(k) = entry_from(after, other, 0) {
                            if k < at {
                                assert(after[k] == before[k]);
                                assert(crate::pathname::same_path(before[k].path@, other));
                            } else if k > at {
                                assert(after[k] == before[k - 1]);
                                assert(crate::pathname::same_path(before[k - 1].path@, other));
                            }
                        }
                    },
                }
            }
        },
    }
}

/// Nothing is held under a path whose entry was removed, and removing it leaves
/// every other path's hold as it was.
pub proof fn law_get_after_remove(before: Seq<HoldEntry>, path: Seq<char>, other: Seq<char>)
    requires
        sorted_entries(before),
        entry_from(before, path, 0) is Some,
    ensures
        filed(before.remove(entry_from(before, path, 0)->0), path) is None,
        !crate::pathname::same_path(other, path) ==> filed(
            before.remove(entry_from(before, path, 0)->0),
            other,
        ) == filed(before, other),
{
    let i = entry_from(before, path, 0)->0;
    let after = before.remove(i);
    lemma_entry_from(before, path, 0);
    lemma_entry_from(after, path, 0);
    lemma_entry_from(before, other, 0);
    lemma_entry_from(after, other, 0);
    assert(sorted_entries(after)) by {
        assert forall|a: int, b: int|
            #![trigger after[a], after[b]]
            0 <= a < b < after.len() implies crate::order::key_less(
            crate::pathname::path_rows(after[a].path@),
            crate::pathname::path_rows(after[b].path@),
        ) by {
            let x = before[if a < i { a } else { a + 1 }];
            let y = before[if b < i { b } else { b + 1 }];
        }
    }
    if let Some(k) = entry_from(after, path, 0) {
        let m = if k < i {
            k
        } else {
            k + 1
        };
        assert(before[m] == after[k]);
        lemma_entry_is(before, path, m);
    }
    if !crate::pathname::same_path(other, path) {
        match entry_from(before, other, 0) {
            Some(k) => {
                assert(k != i);
                let m = if k < i {
                    k
                } else {
                    k - 1
                };
                assert(after[m] == before[k]);
                lemma_entry_is(after, other, m);
            },
            None => {
                if let Some(k) = entry_from(after, other, 0) {
                    let m = if k < i {
                        k
                    } else {
                        k + 1
                    };
                    assert(before[m] == after[k]);
                    assert(crate::pathname::same_path(before[m].path@, other));
                }
            },
        }
    }
}

/// What is written down reads back: a file with one entry for each hold, each naming
/// the path it is filed under, holds the same for every path.
pub proof fn law_holds_read_back(es: Seq<HoldEntry>, file: Seq<FiledHold>, path: Seq<char>)
    requires
        sorted_entries(es),
        file.len() == es.len(),
        forall|i: int|
            0 <= i < es.len() ==> (#[trigger] file[i]).hold == es[i].hold
                && crate::pathname::same_path(file[i].filed_under(), es[i].path@),
    ensures
        last_filed(file, path) == filed(es, path),
    decreases es.len(),
{
    if es.len() > 0 {
        let n = es.len() - 1;
        lemma_entry_from(es, path, 0);
        if crate::pathname::same_path(path, file[n].filed_under()) {
            lemma_entry_is(es, path, n);
        } else {
            let fewer = es.take(n);
            law_holds_read_back(fewer, file.take(n), path);
            lemma_entry_from(fewer, path, 0);
            match entry_from(fewer, path, 0) {
                Some(k) => {
                    assert(fewer[k] == es[k]);
                    lemma_entry_is(es, path, k);
                },
                None => {
                    if let Some(k) = entry_from(es, path, 0) {
                        assert(crate::pathname::same_path(file[k].filed_under(), es[k].path@));
                        if k < n {
                            assert(fewer[k] == es[k]);
                            assert(crate::pathname::same_path(fewer[k].path@, path));
                        }
                    }
                },
            }
        }
    }
}

/// A hold is found under the path itself, or else under where the path leads; the path's
/// own wins.
pub proof fn law_a_hold_is_found_by_either_path(
    es: Seq<HoldEntry>,
    root: Seq<char>,
    resolved: Option<Seq<char>>,
    i: int,
)
    requires
        sorted_entries(es),
        0 <= i < es.len(),
    ensures
        crate::pathname::same_path(es[i].path@, root) ==> found(es, root, resolved) == Some(
            es[i].hold,
        ),
        filed(es, root) is None && resolved is Some && crate::pathname::same_path(
            es[i].path@,
            resolved->0,
        ) ==> found(es, root, resolved) == Some(es[i].hold),
        found(es, root, resolved) is Some ==> exists|k: int|
            0 <= k < es.len() && (#[trigger] es[k]).hold == found(es, root, resolved)->0 && (
            crate::pathname::same_path(es[k].path@, root) || (resolved is Some
                && crate::pathname::same_path(es[k].path@, resolved->0))),
{
    if crate::pathname::same_path(es[i].path@, root) {
        lemma_entry_is(es, root, i);
    }
    if let Some(p) = resolved {
        if crate::pathname::same_path(es[i].path@, p) {
            lemma_entry_is(es, p, i);
        }
        lemma_entry_from(es, p, 0);
    }
    lemma_entry_from(es, root, 0);
}

/// A hold is filed under where its repo's path leads, where that is known.
pub proof fn law_a_hold_is_filed_where_the_path_leads(
    root: Seq<char>,
    p: Seq<char>,
    hold: &Hold,
)
    ensures
        filing_path(root, Some(p)) == p,
        filing_path(root, None) == root,
        hold.tag is None ==> hold.label_text() == hold.sha@,
        hold.tag matches Some(t) ==> hold.label_text() == t@ + seq![' ', '('] + hold.sha@ + seq![
            ')',
        ],
{
    reveal_strlit(" (");
    reveal_strlit(")");
    assert(" ("@ =~= seq![' ', '(']);
    assert(")"@ =~= seq![')']);
}

/// Of the holds that are gone through, exactly those that are to be kept stay, in their
/// order.
pub proof fn law_what_is_kept_stays(es: Seq<HoldEntry>, answers: Seq<bool>, n: int, i: int)
    requires
        0 <= n <= es.len(),
        n <= answers.len(),
        0 <= i < n,
    ensures
        answers[i] ==> kept(es, answers, n).contains(es[i]),
        kept(es, answers, n).len() <= n,
        (forall|k: int| 0 <= k < n ==> #[trigger] answers[k]) ==> kept(es, answers, n) == es.take(n),
        (forall|k: int| 0 <= k < n ==> !#[trigger] answers[k]) ==> kept(es, answers, n).len() == 0,
        !answers[n - 1] ==> kept(es, answers, n) == kept(es, answers, n - 1),
        answers[n - 1] ==> kept(es, answers, n) == kept(es, answers, n - 1).push(es[n - 1]),
    decreases n,
{
    reveal_with_fuel(kept, 2);
    if n > 1 {
        law_what_is_kept_stays(es, answers, n - 1, if i < n - 1 { i } else { 0 });
    }
    let out = kept(es, answers, n);
    if answers[i] {
        if i < n - 1 {
            let before = kept(es, answers, n - 1);
            let k = choose|k: int| 0 <= k < before.len() && before[k] == es[i];
            assert(out[k] == es[i]);
        } else {
            assert(out[out.len() - 1] == es[i]);
        }
    }
    if forall|k: int| 0 <= k < n ==> #[trigger] answers[k] {
        assert(answers[n - 1]);
        assert(out =~= es.take(n));
    }
    if forall|k: int| 0 <= k < n ==> !#[trigger] answers[k] {
        assert(!answers[n - 1]);
    }
}

/// Where a file names a path twice the last entry counts.
pub proof fn law_the_last_entry_counts(file: Seq<FiledHold>, path: Seq<char>, i: int)
    requires
        0 <= i < file.len(),
        crate::pathname::same_path(path, file[i].filed_under()),
        forall|k: int|
            i < k < file.len() ==> !crate::pathname::same_path(
                path,
                (#[trigger] file[k]).filed_under(),
            ),
    ensures
        last_filed(file, path) == Some(file[i].hold),
    decreases file.len(),
{
    let n = file.len() - 1;
    if i < n {
        assert(!crate::pathname::same_path(path, file[n].filed_under()));
        let fewer = file.take(n);
        assert forall|k: int| i < k < fewer.len() implies !crate::pathname::same_path(
            path,
            (#[trigger] fewer[k]).filed_under(),
        ) by {
            assert(fewer[k] == file[k]);
        }
        law_the_last_entry_counts(fewer, path, i);
    }
}

} // verus!
