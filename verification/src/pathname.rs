//! File system paths as text.
//!
//! A path is a string; what it names is its list of components. Repeated
//! separators, trailing separators and `.` (but for a leading one) name nothing,
//! so two texts with the same components are the same path.

use vstd::prelude::*;
use vstd::slice::slice_subrange;

use crate::order::{code_row, rank_keys, Key, Rank};
use crate::text::{copy_chars, from_chars, join_chars, same_chars, split_at_char, to_chars};

verus! {

pub open spec fn is_absolute(p: Seq<char>) -> bool {
    p.len() > 0 && p[0] == '/'
}

/// What stands between the separators.
pub open spec fn pieces(p: Seq<char>) -> Seq<Seq<char>> {
    crate::text::split(p, '/')
}

/// Whether a piece names something.
pub open spec fn real_at(ps: Seq<Seq<char>>, i: int) -> bool {
    ps[i].len() > 0 && (ps[i] != seq!['.'] || i == 0)
}

/// Which of the first `n` pieces name something.
pub open spec fn real_indices(ps: Seq<Seq<char>>, n: int) -> Seq<int>
    decreases n,
{
    if n <= 0 {
        Seq::empty()
    } else if real_at(ps, n - 1) {
        real_indices(ps, n - 1).push(n - 1)
    } else {
        real_indices(ps, n - 1)
    }
}

pub open spec fn named(p: Seq<char>) -> Seq<int> {
    real_indices(pieces(p), pieces(p).len() as int)
}

/// The components: the root, if the path starts there, and every piece that
/// names something.
pub open spec fn components(p: Seq<char>) -> Seq<Seq<char>> {
    (if is_absolute(p) {
        seq![seq!['/']]
    } else {
        Seq::empty()
    }) + named(p).map_values(|i: int| pieces(p)[i])
}

/// Whether two texts are the same path.
pub open spec fn same_path(a: Seq<char>, b: Seq<char>) -> bool {
    components(a) == components(b)
}

/// Whether `base` leads to `p`: its components come first.
pub open spec fn under(p: Seq<char>, base: Seq<char>) -> bool {
    components(base).len() <= components(p).len() && components(p).take(
        components(base).len() as int,
    ) == components(base)
}

/// `child` seen from `base`; an absolute `child` stands for itself.
pub open spec fn joined(base: Seq<char>, child: Seq<char>) -> Seq<char> {
    if is_absolute(child) {
        child
    } else if base.len() == 0 || base[base.len() - 1] == '/' {
        base + child
    } else {
        base + seq!['/'] + child
    }
}

/// The pieces `a..b` as text.
pub open spec fn span(p: Seq<char>, a: int, b: int) -> Seq<char> {
    crate::text::join(pieces(p).subrange(a, b), "/"@)
}

/// The path without its last component; none for the root and the empty path.
pub open spec fn parent(p: Seq<char>) -> Option<Seq<char>> {
    let n = named(p);
    if n.len() == 0 {
        None
    } else if n.len() == 1 {
        Some(
            if is_absolute(p) {
                seq!['/']
            } else {
                Seq::empty()
            },
        )
    } else {
        Some(span(p, 0, n[n.len() - 2] + 1))
    }
}

/// The last component, where it is a name.
pub open spec fn file_name(p: Seq<char>) -> Option<Seq<char>> {
    let n = named(p);
    if n.len() == 0 {
        None
    } else {
        let last = pieces(p)[n[n.len() - 1]];
        if last == seq!['.'] || last == seq!['.', '.'] {
            None
        } else {
            Some(last)
        }
    }
}

/// What is left of `p` below `base`, as it is written in `p`.
pub open spec fn relative(p: Seq<char>, base: Seq<char>) -> Option<Seq<char>> {
    let n = named(p);
    let skipped = components(base).len() - (if is_absolute(p) { 1int } else { 0 });
    if !under(p, base) {
        None
    } else if skipped < 0 {
        Some(
            if n.len() == 0 {
                seq!['/']
            } else {
                span(p, 0, n[n.len() - 1] + 1)
            },
        )
    } else if skipped >= n.len() {
        Some(Seq::empty())
    } else {
        Some(span(p, n[skipped], n[n.len() - 1] + 1))
    }
}

/// Where a component stands among others: the root first, then `.`, then `..`,
/// then names by their code points.
pub open spec fn component_row(c: Seq<char>) -> Seq<i64> {
    if c == seq!['/'] {
        seq![0i64]
    } else if c == seq!['.'] {
        seq![1i64]
    } else if c == seq!['.', '.'] {
        seq![2i64]
    } else {
        seq![3i64] + crate::order::codes(c)
    }
}

/// The key that orders paths, component by component.
pub open spec fn path_rows(p: Seq<char>) -> Seq<Seq<i64>> {
    components(p).map_values(|c: Seq<char>| component_row(c))
}

proof fn lemma_component_row(a: Seq<char>, b: Seq<char>)
    ensures
        component_row(a) == component_row(b) ==> a == b,
{
    if component_row(a) == component_row(b) {
        let x = component_row(a);
        let y = component_row(b);
        assert(x[0] == y[0]);
        if x[0] == 3 {
            assert(x.skip(1) =~= crate::order::codes(a));
            assert(y.skip(1) =~= crate::order::codes(b));
            crate::order::lemma_codes_injective(a, b);
        }
    }
}

/// Paths with one key are the same path, and the other way round.
pub proof fn law_path_rows_identify_paths(a: Seq<char>, b: Seq<char>)
    ensures
        path_rows(a) == path_rows(b) <==> same_path(a, b),
{
    if path_rows(a) == path_rows(b) {
        let x = components(a);
        let y = components(b);
        assert(path_rows(a).len() == x.len());
        assert(path_rows(b).len() == y.len());
        assert forall|i: int| 0 <= i < x.len() implies x[i] == y[i] by {
            assert(path_rows(a)[i] == path_rows(b)[i]);
            lemma_component_row(x[i], y[i]);
        }
        assert(x =~= y);
    }
}

proof fn lemma_real_indices(ps: Seq<Seq<char>>, n: int)
    requires
        0 <= n <= ps.len(),
    ensures
        real_indices(ps, n).len() <= n,
        forall|k: int|
            0 <= k < real_indices(ps, n).len() ==> 0 <= #[trigger] real_indices(ps, n)[k] < n,
        forall|j: int, k: int|
            0 <= j < k < real_indices(ps, n).len() ==> #[trigger] real_indices(ps, n)[j]
                < #[trigger] real_indices(ps, n)[k],
    decreases n,
{
    if n > 0 {
        lemma_real_indices(ps, n - 1);
    }
}

/// A path taken apart.
pub struct Parsed {
    pub absolute: bool,
    pub pieces: Vec<Vec<char>>,
    pub named: Vec<usize>,
}

impl Parsed {
    /// Whether this is `p` taken apart.
    pub open spec fn of(&self, p: Seq<char>) -> bool {
        &&& self.absolute == is_absolute(p)
        &&& crate::text::views(self.pieces@) == pieces(p)
        &&& crate::order::indices(self.named@) == named(p)
        &&& forall|k: int|
            0 <= k < self.named@.len() ==> #[trigger] self.named@[k] < self.pieces@.len()
        &&& forall|j: int, k: int|
            0 <= j < k < self.named@.len() ==> #[trigger] self.named@[j] < #[trigger] self.named@[k]
    }
}

pub fn parse_path(p: &str) -> (r: Parsed)
    ensures
        r.of(p@),
{
    let v = to_chars(p);
    let absolute = v.len() > 0 && v[0] == '/';
    let parts = split_at_char(v.as_slice(), '/');
    let ghost ps = pieces(p@);
    let mut found: Vec<usize> = Vec::new();
    let mut i: usize = 0;
    assert(crate::order::indices(found@) =~= real_indices(ps, 0));
    while i < parts.len()
        invariant
            i <= parts@.len(),
            crate::text::views(parts@) == ps,
            crate::order::indices(found@) == real_indices(ps, i as int),
        decreases parts@.len() - i,
    {
        let piece = &parts[i];
        assert(ps[i as int] == piece@);
        let dot = piece.len() == 1 && piece[0] == '.';
        proof {
            if dot {
                assert(piece@ =~= seq!['.']);
            }
        }
        if piece.len() > 0 && (!dot || i == 0) {
            let ghost before = found@;
            found.push(i);
            assert(crate::order::indices(found@) =~= crate::order::indices(before).push(i as int));
        }
        i = i + 1;
    }
    proof {
        lemma_real_indices(ps, ps.len() as int);
        assert forall|k: int| 0 <= k < found@.len() implies #[trigger] found@[k] < parts@.len() by {
            assert(crate::order::indices(found@)[k] == found@[k] as int);
        }
        assert forall|j: int, k: int| 0 <= j < k < found@.len() implies #[trigger] found@[j]
            < #[trigger] found@[k] by {
            assert(crate::order::indices(found@)[j] == found@[j] as int);
            assert(crate::order::indices(found@)[k] == found@[k] as int);
        }
    }
    Parsed { absolute, pieces: parts, named: found }
}

/// The components of a path.
pub fn split_path(p: &str) -> (r: Vec<Vec<char>>)
    ensures
        crate::text::views(r@) == components(p@),
{
    let parsed = parse_path(p);
    let mut out: Vec<Vec<char>> = Vec::new();
    if parsed.absolute {
        let mut root: Vec<char> = Vec::new();
        root.push('/');
        assert(root@ =~= seq!['/']);
        out.push(root);
    }
    let ghost start = crate::text::views(out@);
    proof {
        if parsed.absolute {
            assert(start =~= seq![seq!['/']]);
        } else {
            assert(start =~= Seq::empty());
        }
        assert(crate::text::views(out@) =~= start + named(p@).take(0).map_values(
            |i: int| pieces(p@)[i],
        ));
    }
    let mut i: usize = 0;
    while i < parsed.named.len()
        invariant
            i <= parsed.named@.len(),
            parsed.of(p@),
            crate::text::views(out@) == start + named(p@).take(i as int).map_values(
                |i: int| pieces(p@)[i],
            ),
        decreases parsed.named@.len() - i,
    {
        let at: usize = parsed.named[i];
        let ghost before = out@;
        out.push(copy_chars(parsed.pieces[at].as_slice()));
        proof {
            assert(crate::order::indices(parsed.named@)[i as int] == at as int);
            assert(crate::text::views(parsed.pieces@)[at as int] == parsed.pieces@[at as int]@);
            assert(crate::text::views(out@) =~= crate::text::views(before).push(
                pieces(p@)[at as int],
            ));
            assert(named(p@).take(i + 1).map_values(|i: int| pieces(p@)[i]) =~= named(p@).take(
                i as int,
            ).map_values(|i: int| pieces(p@)[i]).push(pieces(p@)[at as int]));
            assert(crate::text::views(out@) =~= start + named(p@).take(i + 1).map_values(
                |i: int| pieces(p@)[i],
            ));
        }
        i = i + 1;
    }
    assert(named(p@).take(i as int) =~= named(p@));
    out
}

fn copy_span(parsed: &Parsed, a: usize, b: usize) -> (r: String)
    requires
        a <= b <= parsed.pieces@.len(),
    ensures
        r@ == crate::text::join(
            crate::text::views(parsed.pieces@).subrange(a as int, b as int),
            "/"@,
        ),
{
    let part = slice_subrange(parsed.pieces.as_slice(), a, b);
    assert(crate::text::views(part@) =~= crate::text::views(parsed.pieces@).subrange(
        a as int,
        b as int,
    ));
    join_chars(part, "/")
}

/// Whether a path starts at the root.
pub fn absolute(p: &str) -> (r: bool)
    ensures
        r == is_absolute(p@),
{
    parse_path(p).absolute
}

/// The view of an optional string.
pub open spec fn opt_text(s: Option<String>) -> Option<Seq<char>> {
    match s {
        Some(t) => Some(t@),
        None => None,
    }
}

/// The path without its last component.
pub fn parent_of(p: &str) -> (r: Option<String>)
    ensures
        opt_text(r) == parent(p@),
{
    let parsed = parse_path(p);
    let n: usize = parsed.named.len();
    assert(crate::order::indices(parsed.named@).len() == n);
    if n == 0 {
        return None;
    }
    if n == 1 {
        let mut out = String::new();
        if parsed.absolute {
            out.push('/');
        }
        assert(out@ =~= parent(p@)->0);
        return Some(out);
    }
    let last: usize = parsed.named[n - 2];
    assert(crate::order::indices(parsed.named@)[n - 2] == last as int);
    assert(last < parsed.pieces.len());
    Some(copy_span(&parsed, 0, last + 1))
}

/// The path cut behind its `k`th name; the root or the empty path where none is
/// kept.
pub open spec fn cut(p: Seq<char>, k: int) -> Seq<char> {
    if k <= 0 {
        if is_absolute(p) {
            seq!['/']
        } else {
            Seq::empty()
        }
    } else {
        span(p, 0, named(p)[k - 1] + 1)
    }
}

/// The directories above a path, nearest first.
pub open spec fn above(p: Seq<char>) -> Seq<Seq<char>> {
    Seq::new(named(p).len(), |i: int| cut(p, named(p).len() - 1 - i))
}

/// The directories above a path, nearest first.
pub fn dirs_above(p: &str) -> (r: Vec<String>)
    ensures
        crate::text::texts(r@) == above(p@),
{
    let parsed = parse_path(p);
    let n: usize = parsed.named.len();
    let ghost want = above(p@);
    assert(crate::order::indices(parsed.named@).len() == n);
    let mut out: Vec<String> = Vec::new();
    let mut i: usize = 0;
    assert(crate::text::texts(out@) =~= want.take(0));
    while i < n
        invariant
            i <= n,
            n == parsed.named@.len(),
            parsed.of(p@),
            want == above(p@),
            want.len() == n,
            crate::text::texts(out@) == want.take(i as int),
        decreases n - i,
    {
        let kept: usize = n - 1 - i;
        let dir = if kept == 0 {
            let mut top = String::new();
            if parsed.absolute {
                top.push('/');
            }
            assert(top@ =~= cut(p@, 0));
            top
        } else {
            let last: usize = parsed.named[kept - 1];
            assert(crate::order::indices(parsed.named@)[kept - 1] == last as int);
            assert(last < parsed.named@[kept as int]);
            copy_span(&parsed, 0, last + 1)
        };
        assert(dir@ == want[i as int]);
        crate::text::push_text(&mut out, dir.as_str());
        i = i + 1;
        assert(crate::text::texts(out@) =~= want.take(i as int));
    }
    assert(want.take(i as int) =~= want);
    out
}

/// The last component, where it is a name.
pub fn file_name_of(p: &str) -> (r: Option<String>)
    ensures
        opt_text(r) == file_name(p@),
{
    let parsed = parse_path(p);
    let n: usize = parsed.named.len();
    assert(crate::order::indices(parsed.named@).len() == n);
    if n == 0 {
        return None;
    }
    let at: usize = parsed.named[n - 1];
    assert(crate::order::indices(parsed.named@)[n - 1] == at as int);
    let last = &parsed.pieces[at];
    assert(crate::text::views(parsed.pieces@)[at as int] == last@);
    if last.len() == 1 && last[0] == '.' {
        assert(last@ =~= seq!['.']);
        return None;
    }
    if last.len() == 2 && last[0] == '.' && last[1] == '.' {
        assert(last@ =~= seq!['.', '.']);
        return None;
    }
    Some(from_chars(last.as_slice()))
}

fn leads(base: &Vec<Vec<char>>, p: &Vec<Vec<char>>) -> (r: bool)
    ensures
        r == (base@.len() <= p@.len() && crate::text::views(p@).take(base@.len() as int)
            == crate::text::views(base@)),
{
    if base.len() > p.len() {
        return false;
    }
    let mut i: usize = 0;
    while i < base.len()
        invariant
            i <= base@.len() <= p@.len(),
            forall|k: int| 0 <= k < i ==> #[trigger] base@[k]@ == p@[k]@,
        decreases base@.len() - i,
    {
        if !same_chars(base[i].as_slice(), p[i].as_slice()) {
            assert(crate::text::views(p@).take(base@.len() as int)[i as int] == p@[i as int]@);
            assert(crate::text::views(base@)[i as int] == base@[i as int]@);
            return false;
        }
        i = i + 1;
    }
    assert(crate::text::views(p@).take(base@.len() as int) =~= crate::text::views(base@));
    true
}

/// Whether `base` leads to `p`.
pub fn is_under(p: &str, base: &str) -> (r: bool)
    ensures
        r == under(p@, base@),
{
    let a = split_path(p);
    let b = split_path(base);
    assert(crate::text::views(a@).len() == a@.len());
    assert(crate::text::views(b@).len() == b@.len());
    leads(&b, &a)
}

/// Whether two texts are the same path.
pub fn paths_equal(a: &str, b: &str) -> (r: bool)
    ensures
        r == same_path(a@, b@),
{
    let x = split_path(a);
    let y = split_path(b);
    assert(crate::text::views(x@).len() == x@.len());
    assert(crate::text::views(y@).len() == y@.len());
    if x.len() != y.len() {
        return false;
    }
    assert(crate::text::views(y@).take(y@.len() as int) =~= crate::text::views(y@));
    leads(&x, &y)
}

/// What is left of `p` below `base`.
pub fn relative_to(p: &str, base: &str) -> (r: Option<String>)
    ensures
        opt_text(r) == relative(p@, base@),
{
    if !is_under(p, base) {
        return None;
    }
    let taken: usize = split_path(base).len();
    let parsed = parse_path(p);
    let n: usize = parsed.named.len();
    proof {
        assert(taken == components(base@).len());
        assert(crate::order::indices(parsed.named@).len() == n);
        if n > 0 {
            assert(crate::order::indices(parsed.named@)[n - 1] == parsed.named@[n - 1] as int);
        }
    }
    if parsed.absolute && taken == 0 {
        if n == 0 {
            let mut out = String::new();
            out.push('/');
            assert(out@ =~= seq!['/']);
            return Some(out);
        }
        return Some(copy_span(&parsed, 0, parsed.named[n - 1] + 1));
    }
    let skipped: usize = if parsed.absolute {
        taken - 1
    } else {
        taken
    };
    if skipped >= n {
        return Some(String::new());
    }
    assert(crate::order::indices(parsed.named@)[skipped as int] == parsed.named@[skipped as int] as int);
    assert(skipped < n - 1 ==> parsed.named@[skipped as int] < parsed.named@[n - 1]);
    Some(copy_span(&parsed, parsed.named[skipped], parsed.named[n - 1] + 1))
}

/// `child` seen from `base`.
pub fn join_path(base: &str, child: &str) -> (r: String)
    ensures
        r@ == joined(base@, child@),
{
    let b = to_chars(base);
    let c = to_chars(child);
    if c.len() > 0 && c[0] == '/' {
        return child.to_owned();
    }
    let mut out = base.to_owned();
    if b.len() > 0 && b[b.len() - 1] != '/' {
        out.push('/');
        assert(base@.push('/') =~= base@ + seq!['/']);
    }
    out.append(child);
    out
}

fn row_of(c: &Vec<char>) -> (r: Vec<i64>)
    ensures
        r@ == component_row(c@),
{
    let mut out: Vec<i64> = Vec::new();
    if c.len() == 1 && c[0] == '/' {
        assert(c@ =~= seq!['/']);
        out.push(0);
    } else if c.len() == 1 && c[0] == '.' {
        assert(c@ =~= seq!['.']);
        assert(c@ != seq!['/']) by {
            assert(c@[0] != seq!['/'][0]);
        }
        out.push(1);
    } else if c.len() == 2 && c[0] == '.' && c[1] == '.' {
        assert(c@ =~= seq!['.', '.']);
        out.push(2);
    } else {
        out.push(3);
        let mut tail = code_row(c.as_slice());
        out.append(&mut tail);
    }
    assert(out@ =~= component_row(c@));
    out
}

/// The key of a path.
pub fn path_key(p: &str) -> (r: Key)
    ensures
        crate::order::rows(r@) == path_rows(p@),
{
    let parts = split_path(p);
    let ghost cs = components(p@);
    let mut out: Key = Vec::new();
    let mut i: usize = 0;
    while i < parts.len()
        invariant
            i <= parts@.len(),
            crate::text::views(parts@) == cs,
            crate::order::rows(out@) == cs.take(i as int).map_values(
                |c: Seq<char>| component_row(c),
            ),
        decreases parts@.len() - i,
    {
        let ghost before = out@;
        out.push(row_of(&parts[i]));
        proof {
            assert(cs[i as int] == parts@[i as int]@);
            assert(crate::order::rows(out@) =~= crate::order::rows(before).push(
                component_row(cs[i as int]),
            ));
            assert(crate::order::rows(before).push(component_row(cs[i as int])) =~= cs.take(i + 1).map_values(
                |c: Seq<char>| component_row(c),
            ));
        }
        i = i + 1;
    }
    assert(cs.take(i as int) =~= cs);
    out
}

/// Whether the keys are those of one path.
pub fn same_key(a: &Key, b: &Key) -> (r: bool)
    ensures
        r == (crate::order::rows(a@) == crate::order::rows(b@)),
{
    matches!(rank_keys(a, b), Rank::Same)
}

// ---------------------------------------------------------------------------
// Laws
// ---------------------------------------------------------------------------

/// A text starts at the root where its first piece is empty and not its only one.
proof fn lemma_absolute(p: Seq<char>)
    ensures
        pieces(p).len() > 0,
        is_absolute(p) <==> pieces(p).len() > 1 && pieces(p)[0].len() == 0,
{
    crate::text::lemma_split_pieces(p, '/');
    crate::text::lemma_pos(p, '/');
    if is_absolute(p) {
        crate::text::lemma_pos_is(p, '/', 0);
        crate::text::lemma_split_pieces(p.skip(1), '/');
        assert(p.take(0).len() == 0);
    }
}

/// Which pieces name something depends on the pieces alone.
proof fn lemma_real_prefix(a: Seq<Seq<char>>, b: Seq<Seq<char>>, n: int)
    requires
        0 <= n <= a.len(),
        n <= b.len(),
        forall|i: int| 0 <= i < n ==> a[i] == b[i],
    ensures
        real_indices(a, n) == real_indices(b, n),
    decreases n,
{
    if n > 0 {
        lemma_real_prefix(a, b, n - 1);
    }
}

/// The pieces up to a name hold the names up to it.
proof fn lemma_named_upto(ps: Seq<Seq<char>>, n: int, k: int)
    requires
        0 <= n <= ps.len(),
        0 < k <= real_indices(ps, n).len(),
    ensures
        real_indices(ps, real_indices(ps, n)[k - 1] + 1) == real_indices(ps, n).take(k),
    decreases n,
{
    lemma_real_indices(ps, n);
    if n > 0 {
        let all = real_indices(ps, n);
        let fewer = real_indices(ps, n - 1);
        if real_at(ps, n - 1) {
            if k == all.len() {
                assert(all[k - 1] == n - 1);
                assert(all.take(k) =~= all);
            } else {
                lemma_named_upto(ps, n - 1, k);
                assert(all[k - 1] == fewer[k - 1]);
                assert(all.take(k) =~= fewer.take(k));
            }
        } else {
            lemma_named_upto(ps, n - 1, k);
        }
    }
}

/// A path cut behind a name has the pieces and the names up to there.
proof fn lemma_cut(p: Seq<char>, k: int)
    requires
        0 < k <= named(p).len(),
    ensures
        0 <= named(p)[k - 1] < pieces(p).len(),
        pieces(cut(p, k)) == pieces(p).take(named(p)[k - 1] + 1),
        named(cut(p, k)) == named(p).take(k),
        is_absolute(cut(p, k)) == is_absolute(p),
{
    let ps = pieces(p);
    let all = named(p);
    lemma_real_indices(ps, ps.len() as int);
    let m = all[k - 1];
    let parts = ps.take(m + 1);
    crate::text::lemma_split_pieces(p, '/');
    assert forall|i: int| 0 <= i < parts.len() implies !(#[trigger] parts[i]).contains('/') by {
        assert(parts[i] == ps[i]);
    }
    crate::text::lemma_split_joined(parts, '/');
    reveal_strlit("/");
    assert("/"@ =~= seq!['/']);
    assert(ps.subrange(0, m + 1) =~= parts);
    assert(cut(p, k) == crate::text::join(parts, seq!['/']));
    lemma_named_upto(ps, ps.len() as int, k);
    lemma_real_prefix(ps, parts, m + 1);
    lemma_absolute(p);
    lemma_absolute(cut(p, k));
    lemma_name_is_real(ps, ps.len() as int, k - 1);
    assert(parts[0] == ps[0]);
}

proof fn lemma_name_is_real(ps: Seq<Seq<char>>, n: int, k: int)
    requires
        0 <= n <= ps.len(),
        0 <= k < real_indices(ps, n).len(),
    ensures
        real_at(ps, real_indices(ps, n)[k]),
    decreases n,
{
    if n > 0 {
        let fewer = real_indices(ps, n - 1);
        if k < fewer.len() {
            lemma_name_is_real(ps, n - 1, k);
        }
    }
}

/// The root and the empty path name nothing below themselves.
proof fn lemma_ends(p: Seq<char>)
    requires
        p == seq!['/'] || p.len() == 0,
    ensures
        named(p).len() == 0,
{
    crate::text::lemma_split_pieces(p, '/');
    if p.len() == 0 {
        crate::text::lemma_split_whole(p, '/');
        assert(pieces(p) == seq![p]);
        reveal_with_fuel(real_indices, 2);
    } else {
        let none = Seq::<char>::empty();
        crate::text::lemma_split_around(none, none, '/');
        assert(none + seq!['/'] + none =~= p);
        crate::text::lemma_split_whole(none, '/');
        assert(pieces(p) =~= seq![none, none]);
        reveal_with_fuel(real_indices, 3);
    }
}

/// Going up from a path one parent at a time meets the directories above it, in
/// order, and ends with the last of them.
pub proof fn law_directories_above_are_parents(p: Seq<char>, i: int)
    requires
        0 <= i < above(p).len(),
    ensures
        parent(p) == Some(above(p)[0]),
        parent(above(p)[i]) == (if i + 1 < above(p).len() {
            Some(above(p)[i + 1])
        } else {
            None
        }),
{
    let n = named(p).len() as int;
    let k = n - 1 - i;
    let d = above(p)[i];
    assert(d == cut(p, k));
    assert(above(p)[0] == cut(p, n - 1));
    if k == 0 {
        lemma_ends(d);
    } else {
        lemma_cut(p, k);
        assert(above(p)[i + 1] == cut(p, k - 1));
        if k > 1 {
            lemma_cut(p, k - 1);
            lemma_real_indices(pieces(p), pieces(p).len() as int);
            let m = named(p)[k - 2];
            assert(named(d)[k - 2] == m);
            assert(m < named(p)[k - 1]);
            assert(pieces(d).subrange(0, m + 1) =~= pieces(p).subrange(0, m + 1));
        }
    }
}

/// Whether a text is the name of something in a directory.
pub open spec fn plain_name(name: Seq<char>) -> bool {
    name.len() > 0 && !name.contains('/') && name != seq!['.'] && name != seq!['.', '.']
}

/// A name in a directory is one component more, the last one: the path lies below the
/// directory, and its file name is the name.
pub proof fn law_a_joined_name_is_one_component_more(base: Seq<char>, name: Seq<char>)
    requires
        plain_name(name),
    ensures
        components(joined(base, name)) == components(base).push(name),
        file_name(joined(base, name)) == Some(name),
        under(joined(base, name), base),
{
    let whole = joined(base, name);
    let slash = seq!['/'];
    let none = Seq::<char>::empty();
    crate::text::lemma_split_whole(name, '/');
    crate::text::lemma_split_pieces(base, '/');
    assert(!is_absolute(name)) by {
        if name[0] == '/' {
            assert(name.contains(name[0]));
        }
    }
    // The pieces in front of the name are those of the directory, without the empty
    // one that a separator at its end makes.
    let front = if base.len() == 0 {
        Seq::<Seq<char>>::empty()
    } else if base[base.len() - 1] == '/' {
        pieces(base.take(base.len() - 1))
    } else {
        pieces(base)
    };
    assert(pieces(whole) =~= front.push(name)) by {
        if base.len() == 0 {
            assert(whole =~= name);
        } else if base[base.len() - 1] == '/' {
            let b = base.take(base.len() - 1);
            assert(whole =~= b + slash + name);
            crate::text::lemma_split_around(b, name, '/');
        } else {
            crate::text::lemma_split_around(base, name, '/');
        }
    }
    let ps = pieces(whole);
    let n = front.len() as int;
    assert(real_at(ps, n));
    lemma_real_prefix(ps, front, n);
    assert(named(whole) == real_indices(front, n).push(n));
    assert(named(base) == real_indices(front, n)) by {
        let bs = pieces(base);
        if base.len() == 0 {
            lemma_ends(base);
        } else if base[base.len() - 1] == '/' {
            let b = base.take(base.len() - 1);
            assert(base =~= b + slash + none);
            crate::text::lemma_split_around(b, none, '/');
            crate::text::lemma_split_whole(none, '/');
            assert(bs =~= front.push(none));
            assert(!real_at(bs, n));
            lemma_real_prefix(bs, front, n);
        }
    }
    lemma_real_indices(front, n);
    lemma_absolute(whole);
    lemma_absolute(base);
    assert(is_absolute(whole) == is_absolute(base)) by {
        if base.len() == 0 {
        } else {
            assert(whole[0] == base[0]);
        }
    }
    let a = named(whole).map_values(|i: int| pieces(whole)[i]);
    let b = named(base).map_values(|i: int| pieces(base)[i]);
    assert(a =~= b.push(name)) by {
        assert forall|i: int| 0 <= i < b.len() implies a[i] == b[i] by {
            let at = named(base)[i];
            assert(named(whole)[i] == at);
            assert(0 <= at < n);
            assert(pieces(whole)[at] == front[at]);
            if base.len() > 0 && base[base.len() - 1] == '/' {
                let cutoff = base.take(base.len() - 1);
                assert(base =~= cutoff + slash + none);
                crate::text::lemma_split_around(cutoff, none, '/');
                crate::text::lemma_split_whole(none, '/');
                assert(pieces(base)[at] == front[at]);
            }
        }
        assert(a[b.len() as int] == name);
    }
    assert(components(whole) =~= components(base).push(name));
    assert(components(whole).take(components(base).len() as int) =~= components(base));
}

/// The names among the pieces `a..b`.
spec fn names_in(ps: Seq<Seq<char>>, a: int, b: int) -> Seq<Seq<char>>
    decreases b - a,
{
    if b <= a {
        Seq::empty()
    } else if real_at(ps, b - 1) {
        names_in(ps, a, b - 1).push(ps[b - 1])
    } else {
        names_in(ps, a, b - 1)
    }
}

proof fn lemma_names_are_named(ps: Seq<Seq<char>>, n: int)
    requires
        0 <= n <= ps.len(),
    ensures
        names_in(ps, 0, n) == real_indices(ps, n).map_values(|i: int| ps[i]),
    decreases n,
{
    if n > 0 {
        lemma_names_are_named(ps, n - 1);
    }
    assert(names_in(ps, 0, n) =~= real_indices(ps, n).map_values(|i: int| ps[i]));
}

proof fn lemma_names_split(ps: Seq<Seq<char>>, a: int, b: int, c: int)
    requires
        a <= b <= c,
    ensures
        names_in(ps, a, c) == names_in(ps, a, b) + names_in(ps, b, c),
    decreases c - b,
{
    if b < c {
        lemma_names_split(ps, a, b, c - 1);
    }
    assert(names_in(ps, a, c) =~= names_in(ps, a, b) + names_in(ps, b, c));
}

/// The same pieces name the same, wherever they stand behind the first.
proof fn lemma_names_move(ps: Seq<Seq<char>>, qs: Seq<Seq<char>>, a: int, b: int, by: int)
    requires
        0 < a,
        0 < a + by,
        forall|i: int| a <= i < b ==> #[trigger] ps[i] == qs[i + by],
    ensures
        names_in(ps, a, b) == names_in(qs, a + by, b + by),
    decreases b - a,
{
    if a < b {
        lemma_names_move(ps, qs, a, b - 1, by);
        assert(ps[b - 1] == qs[b - 1 + by]);
    }
}

/// The pieces in front of a name hold the names in front of it.
proof fn lemma_named_before(ps: Seq<Seq<char>>, n: int, k: int)
    requires
        0 <= n <= ps.len(),
        0 <= k < real_indices(ps, n).len(),
    ensures
        real_indices(ps, real_indices(ps, n)[k]) == real_indices(ps, n).take(k),
    decreases n,
{
    lemma_real_indices(ps, n);
    if n > 0 {
        let all = real_indices(ps, n);
        let fewer = real_indices(ps, n - 1);
        if real_at(ps, n - 1) {
            if k == all.len() - 1 {
                assert(all.take(k) =~= fewer);
            } else {
                lemma_named_before(ps, n - 1, k);
                assert(all[k] == fewer[k]);
                assert(all.take(k) =~= fewer.take(k));
            }
        } else {
            lemma_named_before(ps, n - 1, k);
        }
    }
}

/// What leads to a path starts at the root where the path does.
proof fn lemma_base_starts_alike(p: Seq<char>, base: Seq<char>)
    requires
        under(p, base),
        base.len() > 0,
    ensures
        is_absolute(p) == is_absolute(base),
        components(base).len() > 0,
{
    let (ps, bs) = (pieces(p), pieces(base));
    crate::text::lemma_split_pieces(p, '/');
    crate::text::lemma_split_pieces(base, '/');
    lemma_absolute(p);
    lemma_absolute(base);
    lemma_real_indices(ps, ps.len() as int);
    lemma_real_indices(bs, bs.len() as int);
    if !is_absolute(base) {
        crate::text::lemma_pos(base, '/');
        assert(bs[0].len() > 0);
        assert(real_at(bs, 0));
        assert(real_indices(bs, 1) =~= seq![0int]) by {
            reveal_with_fuel(real_indices, 2);
        }
        lemma_names_are_named(bs, bs.len() as int);
        lemma_names_are_named(bs, 1);
        lemma_names_split(bs, 0, 1, bs.len() as int);
        assert(named(base).len() > 0);
    }
    let first = components(base)[0];
    assert(components(p).take(components(base).len() as int)[0] == components(p)[0]);
    assert(first == components(p)[0]);
    let slash = seq!['/'];
    assert(slash.contains(slash[0]));
    if is_absolute(base) && !is_absolute(p) {
        assert(components(p)[0] == ps[named(p)[0]]);
    }
    if !is_absolute(base) && is_absolute(p) {
        assert(components(base)[0] == bs[named(base)[0]]);
    }
}

/// A path is what leads to it followed by what is left of it below that.
pub proof fn law_what_is_left_leads_back(p: Seq<char>, base: Seq<char>)
    requires
        under(p, base),
        base.len() > 0,
    ensures
        relative(p, base) is Some,
        same_path(base + seq!['/'] + relative(p, base)->0, p),
{
    let rest = relative(p, base)->0;
    let whole = base + seq!['/'] + rest;
    let (ps, bs, ws, rs) = (pieces(p), pieces(base), pieces(whole), pieces(rest));
    let n = named(p);
    let last = ps.len() as int;
    let skipped = components(base).len() - (if is_absolute(p) { 1int } else { 0 });
    lemma_base_starts_alike(p, base);
    crate::text::lemma_split_around(base, rest, '/');
    crate::text::lemma_split_pieces(p, '/');
    crate::text::lemma_split_pieces(base, '/');
    assert(ws == bs + rs);
    assert(whole[0] == base[0]);
    lemma_names_are_named(ps, last);
    lemma_names_are_named(bs, bs.len() as int);
    lemma_names_are_named(ws, ws.len() as int);
    lemma_real_indices(ps, last);
    let all = names_in(ps, 0, last);
    let front = names_in(bs, 0, bs.len() as int);
    assert(front =~= all.take(skipped)) by {
        let lead = if is_absolute(p) { 1int } else { 0 };
        assert forall|i: int| 0 <= i < front.len() implies front[i] == all[i] by {
            assert(components(base)[i + lead] == front[i]);
            assert(components(p)[i + lead] == all[i]);
            assert(components(p).take(components(base).len() as int)[i + lead] == components(p)[i
                + lead]);
        }
    }
    lemma_names_split(ws, 0, bs.len() as int, ws.len() as int);
    assert(names_in(ws, 0, bs.len() as int) == front) by {
        lemma_names_are_named(ws, bs.len() as int);
        lemma_real_prefix(ws, bs, bs.len() as int);
        assert(real_indices(bs, bs.len() as int).map_values(|i: int| ws[i])
            =~= real_indices(bs, bs.len() as int).map_values(|i: int| bs[i])) by {
            lemma_real_indices(bs, bs.len() as int);
        }
    }
    if skipped >= n.len() {
        let none = Seq::<char>::empty();
        crate::text::lemma_split_whole(none, '/');
        assert(rs =~= seq![none]);
        assert(names_in(ws, bs.len() as int, ws.len() as int) =~= Seq::empty()) by {
            reveal_with_fuel(names_in, 2);
        }
        assert(all.take(skipped) =~= all);
    } else {
        let from = n[skipped];
        let upto = n[n.len() - 1] + 1;
        let parts = ps.subrange(from, upto);
        assert(from <= n[n.len() - 1]);
        lemma_absolute(p);
        lemma_named_before(ps, last, skipped);
        lemma_named_upto(ps, last, n.len() as int);
        assert(n.take(n.len() as int) =~= n);
        assert(from > 0) by {
            if is_absolute(p) {
                lemma_name_is_real(ps, last, skipped);
            } else {
                assert(skipped > 0);
                assert(n[0] < n[skipped]);
            }
        }
        assert forall|i: int| 0 <= i < parts.len() implies !(#[trigger] parts[i]).contains('/') by {
            assert(parts[i] == ps[from + i]);
        }
        reveal_strlit("/");
        assert("/"@ =~= seq!['/']);
        crate::text::lemma_split_joined(parts, '/');
        assert(rs == parts);
        let by = bs.len() - from;
        assert forall|i: int| from <= i < upto implies #[trigger] ps[i] == ws[i + by] by {
            assert(ws[i + by] == rs[i - from]);
            assert(rs[i - from] == ps[i]);
        }
        lemma_names_move(ps, ws, from, upto, by);
        assert(upto + by == ws.len());
        lemma_names_split(ps, 0, from, upto);
        lemma_names_are_named(ps, from);
        lemma_names_are_named(ps, upto);
        assert(names_in(ps, 0, from) =~= all.take(skipped));
        assert(names_in(ps, 0, upto) =~= all);
    }
    assert(names_in(ws, 0, ws.len() as int) =~= all);
    assert(components(whole) =~= components(p));
}

/// No piece holds anything that the path does not.
proof fn lemma_pieces_are_part(p: Seq<char>, i: int, c: char)
    requires
        0 <= i < pieces(p).len(),
        pieces(p)[i].contains(c),
    ensures
        p.contains(c),
    decreases p.len(),
{
    crate::text::lemma_pos(p, '/');
    let n = crate::text::pos(p, '/');
    let k = choose|k: int| 0 <= k < pieces(p)[i].len() && pieces(p)[i][k] == c;
    if n >= p.len() {
        assert(pieces(p)[i] == p);
    } else if i == 0 {
        assert(pieces(p)[0] == p.take(n));
        assert(p[k] == c);
    } else {
        let rest = p.skip(n + 1);
        assert(pieces(rest)[i - 1] == pieces(p)[i]);
        lemma_pieces_are_part(rest, i - 1, c);
        let m = choose|m: int| 0 <= m < rest.len() && rest[m] == c;
        assert(p[n + 1 + m] == c);
    }
}

/// Joining pieces puts in nothing but separators.
proof fn lemma_joined_is_part(parts: Seq<Seq<char>>, p: Seq<char>, c: char)
    requires
        c != '/',
        crate::text::join(parts, "/"@).contains(c),
        forall|i: int| 0 <= i < parts.len() && (#[trigger] parts[i]).contains(c) ==> p.contains(c),
    ensures
        p.contains(c),
    decreases parts.len(),
{
    reveal_strlit("/");
    let whole = crate::text::join(parts, "/"@);
    let k = choose|k: int| 0 <= k < whole.len() && whole[k] == c;
    if parts.len() == 1 {
        assert(parts[0].contains(c));
    } else if parts.len() > 1 {
        let init = parts.take(parts.len() - 1);
        let front = crate::text::join(init, "/"@);
        let last = parts[parts.len() - 1];
        assert(whole == front + "/"@ + last);
        if k < front.len() {
            assert(front[k] == c);
            assert forall|i: int|
                0 <= i < init.len() && (#[trigger] init[i]).contains(c) implies p.contains(c) by {
                assert(init[i] == parts[i]);
            }
            lemma_joined_is_part(init, p, c);
        } else if k > front.len() {
            assert(last[k - front.len() - 1] == c);
            assert(last.contains(c));
        }
    }
}

/// The pieces `a..b` hold nothing that the path does not.
proof fn lemma_span_is_part(p: Seq<char>, a: int, b: int, c: char)
    requires
        0 <= a <= b <= pieces(p).len(),
        c != '/',
        span(p, a, b).contains(c),
    ensures
        p.contains(c),
{
    let parts = pieces(p).subrange(a, b);
    assert forall|i: int| 0 <= i < parts.len() && (#[trigger] parts[i]).contains(
        c,
    ) implies p.contains(c) by {
        assert(parts[i] == pieces(p)[a + i]);
        lemma_pieces_are_part(p, a + i, c);
    }
    lemma_joined_is_part(parts, p, c);
}

/// A parent holds nothing that the path does not, and starts with the same piece where
/// it has one.
pub proof fn lemma_parent_is_front(p: Seq<char>)
    requires
        parent(p) is Some,
        parent(p)->0.len() > 0,
        parent(p)->0 != seq!['/'],
    ensures
        pieces(parent(p)->0)[0] == pieces(p)[0],
        forall|c: char| c != '/' && #[trigger] parent(p)->0.contains(c) ==> p.contains(c),
{
    let n = named(p);
    lemma_real_indices(pieces(p), pieces(p).len() as int);
    assert(n.len() > 1);
    lemma_cut(p, n.len() - 1);
    assert(parent(p)->0 == cut(p, n.len() - 1));
    assert forall|c: char| c != '/' && #[trigger] parent(p)->0.contains(c) implies p.contains(
        c,
    ) by {
        lemma_span_is_part(p, 0, n[n.len() - 2] + 1, c);
    }
}

/// What is left of a path below another holds nothing that the path does not.
pub proof fn lemma_left_is_part(p: Seq<char>, base: Seq<char>)
    requires
        relative(p, base) is Some,
    ensures
        forall|c: char| c != '/' && #[trigger] relative(p, base)->0.contains(c) ==> p.contains(c),
{
    let n = named(p);
    let rest = relative(p, base)->0;
    let skipped = components(base).len() - (if is_absolute(p) { 1int } else { 0 });
    lemma_real_indices(pieces(p), pieces(p).len() as int);
    assert forall|c: char| c != '/' && #[trigger] rest.contains(c) implies p.contains(c) by {
        if skipped < 0 {
            if n.len() > 0 {
                lemma_span_is_part(p, 0, n[n.len() - 1] + 1, c);
            }
        } else if skipped < n.len() {
            assert(n[skipped] <= n[n.len() - 1]);
            lemma_span_is_part(p, n[skipped], n[n.len() - 1] + 1, c);
        }
    }
}

/// A path is full where it starts at the root; joined to a directory a full path stays as
/// it is, and any other comes behind the directory with one slash between.
pub proof fn law_a_path_is_joined_with_one_slash(base: Seq<char>, child: Seq<char>)
    ensures
        is_absolute(seq!['/'] + child),
        child.len() == 0 || child[0] != '/' ==> !is_absolute(child),
        is_absolute(child) ==> joined(base, child) == child,
        !is_absolute(child) ==> joined(base.push('/'), child) == base + seq!['/'] + child,
        !is_absolute(child) && base.len() > 0 && base[base.len() - 1] != '/' ==> joined(base, child)
            == base + seq!['/'] + child,
        !is_absolute(child) ==> joined(Seq::empty(), child) == child,
{
    assert(base.push('/') + child =~= base + seq!['/'] + child);
    assert(Seq::<char>::empty() + child =~= child);
}

/// A slash at the end of a path, or a dot behind one, does not make it another; an empty
/// path has no components, and the root has itself alone.
pub proof fn law_a_trailing_slash_does_not_count(p: Seq<char>)
    requires
        p.len() > 0,
    ensures
        same_path(p + seq!['/'], p),
        same_path(p + seq!['/', '.'], p),
        components(Seq::empty()).len() == 0,
        components(seq!['/']) == seq![seq!['/']],
        components(seq!['.']) == seq![seq!['.']],
{
    let none = Seq::<char>::empty();
    let dot = seq!['.'];
    assert(!dot.contains('/')) by {
        if dot.contains('/') {
            assert(dot[0] == '/');
        }
    }
    lemma_unreal_end(p, none);
    lemma_unreal_end(p, dot);
    assert(p + seq!['/'] + none =~= p + seq!['/']);
    assert(p + seq!['/'] + dot =~= p + seq!['/', '.']);
    reveal_with_fuel(real_indices, 3);
    crate::text::lemma_split_whole(none, '/');
    crate::text::lemma_split_whole(dot, '/');
    crate::text::lemma_split_around(none, none, '/');
    assert(none + seq!['/'] + none =~= seq!['/']);
    assert(pieces(seq!['/']) =~= seq![none, none]);
    assert(named(none) =~= Seq::empty());
    assert(components(none) =~= Seq::empty());
    assert(named(seq!['/']) =~= Seq::empty());
    assert(components(seq!['/']) =~= seq![seq!['/']]);
    assert(pieces(dot)[0] == dot);
    assert(named(dot) =~= seq![0int]);
    assert(components(dot) =~= seq![dot]);
}

proof fn lemma_unreal_end(p: Seq<char>, end: Seq<char>)
    requires
        p.len() > 0,
        end.len() == 0 || end == seq!['.'],
        !end.contains('/'),
    ensures
        same_path(p + seq!['/'] + end, p),
{
    let whole = p + seq!['/'] + end;
    crate::text::lemma_split_around(p, end, '/');
    crate::text::lemma_split_whole(end, '/');
    crate::text::lemma_split_pieces(p, '/');
    let (ws, ps) = (pieces(whole), pieces(p));
    let n = ps.len() as int;
    assert(ws =~= ps.push(end));
    assert(!real_at(ws, n));
    lemma_real_prefix(ws, ps, n);
    lemma_real_indices(ps, n);
    assert(whole[0] == p[0]);
    assert(components(whole) =~= components(p));
}

/// Every path lies below itself and below the root it starts at; what lies below a part
/// lies below the whole.
pub proof fn law_below_goes_on(a: Seq<char>, b: Seq<char>, c: Seq<char>)
    ensures
        under(a, a),
        is_absolute(a) ==> under(a, seq!['/']),
        under(a, b) && under(b, c) ==> under(a, c),
        under(a, b) && under(b, a) ==> same_path(a, b),
        under(a, b) <==> relative(a, b) is Some,
{
    let (x, y, z) = (components(a), components(b), components(c));
    assert(x.take(x.len() as int) =~= x);
    if is_absolute(a) {
        law_a_trailing_slash_does_not_count(a);
        assert(x[0] == seq!['/']);
        assert(x.take(1) =~= seq![seq!['/']]);
    }
    if under(a, b) && under(b, c) {
        assert(x.take(z.len() as int) =~= y.take(z.len() as int));
    }
    if under(a, b) && under(b, a) {
        assert(y.take(x.len() as int) =~= y);
    }
}

proof fn lemma_plain_name_alone(name: Seq<char>)
    requires
        plain_name(name),
    ensures
        components(name) == seq![name],
        !is_absolute(name),
{
    law_a_joined_name_is_one_component_more(Seq::empty(), name);
    if name[0] == '/' {
        assert(name.contains(name[0]));
    }
    assert(joined(Seq::empty(), name) =~= name);
    law_a_trailing_slash_does_not_count(name);
    assert(Seq::<Seq<char>>::empty().push(name) =~= seq![name]);
    assert(components(Seq::empty()) =~= Seq::empty());
}

/// What is left of a name in a directory is the name, and of a name one further down both,
/// with the slash between.
pub proof fn law_a_name_is_what_is_left(base: Seq<char>, dir: Seq<char>, name: Seq<char>)
    requires
        plain_name(dir),
        plain_name(name),
    ensures
        relative(joined(base, name), base) == Some(name),
        relative(joined(joined(base, dir), name), base) == Some(dir + seq!['/'] + name),
        components(name) == seq![name],
        components(dir + seq!['/'] + name) == seq![dir, name],
{
    reveal_strlit("/");
    assert("/"@ =~= seq!['/']);
    lemma_plain_name_alone(dir);
    lemma_plain_name_alone(name);
    lemma_last_name(base, name);
    let p = joined(base, name);
    let n = named(p);
    let at = n[n.len() - 1];
    assert(pieces(p).subrange(at, at + 1) =~= seq![name]);
    let one = joined(base, dir);
    lemma_last_name(base, dir);
    let q = joined(one, name);
    assert(one[one.len() - 1] == dir[dir.len() - 1]);
    assert(dir[dir.len() - 1] != '/') by {
        assert(dir.contains(dir[dir.len() - 1]));
    }
    assert(q =~= one + seq!['/'] + name);
    crate::text::lemma_split_around(one, name, '/');
    crate::text::lemma_split_whole(name, '/');
    lemma_last_name(one, name);
    let (ps, qs) = (pieces(one), pieces(q));
    let k = ps.len() as int;
    assert(qs =~= ps.push(name));
    lemma_real_prefix(qs, ps, k);
    let m = named(q);
    assert(real_at(qs, k));
    assert(m =~= named(one).push(k));
    let d = named(one)[named(one).len() - 1];
    lemma_last_piece(base, dir);
    assert(d == k - 1);
    assert(m[m.len() - 2] == d);
    assert(qs.subrange(d, k + 1) =~= seq![dir, name]);
    crate::text::law_parts_are_joined_in_order(seq![dir], name, "/"@);
    assert(seq![dir].push(name) =~= seq![dir, name]);
    law_a_joined_name_is_one_component_more(base, dir);
    law_a_joined_name_is_one_component_more(one, name);
    law_below_goes_on(q, one, base);
    law_a_joined_name_is_one_component_more(dir, name);
    assert(joined(dir, name) =~= dir + seq!['/'] + name);
    assert(seq![dir].push(name) =~= seq![dir, name]);
}

proof fn lemma_last_name(base: Seq<char>, name: Seq<char>)
    requires
        plain_name(name),
    ensures
        ({
            let p = joined(base, name);
            let n = named(p);
            &&& n.len() > 0
            &&& 0 <= n[n.len() - 1] < pieces(p).len()
            &&& pieces(p)[n[n.len() - 1]] == name
            &&& components(base).len() - (if is_absolute(p) { 1int } else { 0 }) == n.len() - 1
            &&& under(p, base)
        }),
{
    let p = joined(base, name);
    let n = named(p);
    law_a_joined_name_is_one_component_more(base, name);
    lemma_real_indices(pieces(p), pieces(p).len() as int);
    let last = components(p).len() - 1;
    assert(components(p)[last] == name);
    if n.len() == 0 {
        assert(components(p)[last] == seq!['/']);
        assert(name.contains('/')) by {
            assert(name[0] == '/');
        }
    }
}

proof fn lemma_last_piece(base: Seq<char>, name: Seq<char>)
    requires
        plain_name(name),
    ensures
        ({
            let p = joined(base, name);
            let n = named(p);
            n.len() > 0 && n[n.len() - 1] == pieces(p).len() - 1
        }),
{
    let p = joined(base, name);
    lemma_plain_name_alone(name);
    crate::text::lemma_split_whole(name, '/');
    let front = if base.len() == 0 {
        Seq::<Seq<char>>::empty()
    } else if base[base.len() - 1] == '/' {
        pieces(base.take(base.len() - 1))
    } else {
        pieces(base)
    };
    assert(pieces(p) =~= front.push(name)) by {
        if base.len() == 0 {
            assert(p =~= name);
        } else if base[base.len() - 1] == '/' {
            let b = base.take(base.len() - 1);
            assert(p =~= b + seq!['/'] + name);
            crate::text::lemma_split_around(b, name, '/');
        } else {
            crate::text::lemma_split_around(base, name, '/');
        }
    }
    assert(real_at(pieces(p), front.len() as int));
}

/// The parent of a name in a directory is the directory, here one that ends in a name
/// itself.
pub proof fn law_the_parent_of_a_name_is_its_directory(base: Seq<char>, dir: Seq<char>, name: Seq<char>)
    requires
        plain_name(dir),
        plain_name(name),
    ensures
        parent(joined(joined(base, dir), name)) == Some(joined(base, dir)),
        parent(name) == Some(Seq::<char>::empty()),
        parent(seq!['/'] + name) == Some(seq!['/']),
        parent(seq!['/']) is None,
{
    reveal_strlit("/");
    assert("/"@ =~= seq!['/']);
    let one = joined(base, dir);
    let q = joined(one, name);
    lemma_plain_name_alone(dir);
    lemma_plain_name_alone(name);
    assert(dir[dir.len() - 1] != '/') by {
        assert(dir.contains(dir[dir.len() - 1]));
    }
    assert(one[one.len() - 1] == dir[dir.len() - 1]);
    assert(q =~= one + seq!['/'] + name);
    crate::text::lemma_split_around(one, name, '/');
    crate::text::lemma_split_whole(name, '/');
    let (ps, qs) = (pieces(one), pieces(q));
    let k = ps.len() as int;
    assert(qs =~= ps.push(name));
    lemma_real_prefix(qs, ps, k);
    assert(real_at(qs, k));
    lemma_last_piece(base, dir);
    let m = named(q);
    assert(m =~= named(one).push(k));
    assert(m[m.len() - 2] == k - 1);
    assert(qs.subrange(0, k) =~= ps);
    crate::text::law_pieces_make_up_the_text(one, '/');
    lemma_one_name(Seq::empty(), name);
    lemma_one_name(seq!['/'], name);
    assert(joined(Seq::empty(), name) =~= name);
    assert(joined(seq!['/'], name) =~= seq!['/'] + name);
    law_a_trailing_slash_does_not_count(seq!['/']);
    assert(named(seq!['/']).len() == 0) by {
        assert(components(seq!['/']).len() == 1);
    }
}

proof fn lemma_one_name(base: Seq<char>, name: Seq<char>)
    requires
        plain_name(name),
        base.len() == 0 || base == seq!['/'],
    ensures
        named(joined(base, name)).len() == 1,
        is_absolute(joined(base, name)) == (base.len() > 0),
{
    lemma_last_name(base, name);
    lemma_plain_name_alone(name);
    law_a_trailing_slash_does_not_count(name);
    if base.len() == 0 {
        assert(base =~= Seq::empty());
    }
}

} // verus!
