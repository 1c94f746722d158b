//! Orderings and the stable sort.
//!
//! Anything this crate sorts is given a key: a list of rows of integers,
//! compared row by row and within a row number by number. A text becomes the
//! row of its code points, a number a row of one, and a tuple the list of its
//! parts, so one comparison and one sort serve every listing.

use vstd::prelude::*;

verus! {

/// A sort key.
pub type Key = Vec<Vec<i64>>;

/// The code point of a character.
pub open spec fn code(c: char) -> i64 {
    c as i64
}

/// The code points of a text, which order texts as their UTF-8 bytes do.
pub open spec fn codes(s: Seq<char>) -> Seq<i64> {
    s.map_values(|c: char| code(c))
}

pub open spec fn rows(k: Seq<Vec<i64>>) -> Seq<Seq<i64>> {
    k.map_values(|r: Vec<i64>| r@)
}

pub open spec fn key_rows(keys: Seq<Key>) -> Seq<Seq<Seq<i64>>> {
    keys.map_values(|k: Key| rows(k@))
}

/// Lexicographic order on rows: a proper prefix comes first.
pub open spec fn row_less(a: Seq<i64>, b: Seq<i64>) -> bool
    decreases a.len(),
{
    if b.len() == 0 {
        false
    } else if a.len() == 0 {
        true
    } else if a[0] != b[0] {
        a[0] < b[0]
    } else {
        row_less(a.skip(1), b.skip(1))
    }
}

/// Lexicographic order on keys, row by row.
pub open spec fn key_less(a: Seq<Seq<i64>>, b: Seq<Seq<i64>>) -> bool
    decreases a.len(),
{
    if b.len() == 0 {
        false
    } else if a.len() == 0 {
        true
    } else if a[0] != b[0] {
        row_less(a[0], b[0])
    } else {
        key_less(a.skip(1), b.skip(1))
    }
}

pub proof fn lemma_row_total(a: Seq<i64>, b: Seq<i64>)
    ensures
        a == b ==> !row_less(a, b),
        a != b ==> (row_less(a, b) <==> !row_less(b, a)),
    decreases a.len(),
{
    if a.len() > 0 && b.len() > 0 {
        lemma_row_total(a.skip(1), b.skip(1));
        if a[0] == b[0] && a.skip(1) == b.skip(1) {
            assert(a =~= seq![a[0]] + a.skip(1));
            assert(b =~= seq![b[0]] + b.skip(1));
        }
    } else if a.len() == 0 && b.len() == 0 {
        assert(a =~= b);
    }
}

pub proof fn lemma_row_transitive(a: Seq<i64>, b: Seq<i64>, c: Seq<i64>)
    requires
        row_less(a, b),
        row_less(b, c),
    ensures
        row_less(a, c),
    decreases a.len(),
{
    if a.len() > 0 && a[0] == b[0] && b[0] == c[0] {
        lemma_row_transitive(a.skip(1), b.skip(1), c.skip(1));
    }
}

/// Two keys are equal, or exactly one comes before the other.
pub proof fn lemma_key_total(a: Seq<Seq<i64>>, b: Seq<Seq<i64>>)
    ensures
        a == b ==> !key_less(a, b),
        a != b ==> (key_less(a, b) <==> !key_less(b, a)),
    decreases a.len(),
{
    if a.len() > 0 && b.len() > 0 {
        lemma_row_total(a[0], b[0]);
        lemma_key_total(a.skip(1), b.skip(1));
        if a[0] == b[0] && a.skip(1) == b.skip(1) {
            assert(a =~= seq![a[0]] + a.skip(1));
            assert(b =~= seq![b[0]] + b.skip(1));
        }
    } else if a.len() == 0 && b.len() == 0 {
        assert(a =~= b);
    }
}

pub proof fn lemma_key_transitive(a: Seq<Seq<i64>>, b: Seq<Seq<i64>>, c: Seq<Seq<i64>>)
    requires
        key_less(a, b),
        key_less(b, c),
    ensures
        key_less(a, c),
    decreases a.len(),
{
    if a.len() > 0 {
        if a[0] == b[0] && b[0] == c[0] {
            lemma_key_transitive(a.skip(1), b.skip(1), c.skip(1));
        } else if a[0] != b[0] && b[0] != c[0] {
            lemma_row_transitive(a[0], b[0], c[0]);
            lemma_row_total(a[0], c[0]);
            lemma_row_total(a[0], b[0]);
            lemma_row_total(b[0], a[0]);
        }
    }
}

/// How two values stand to each other.
#[derive(Clone, Copy, PartialEq, Eq, Structural)]
pub enum Rank {
    Before,
    Same,
    After,
}

pub fn rank_rows(a: &Vec<i64>, b: &Vec<i64>) -> (r: Rank)
    ensures
        r == Rank::Before <==> row_less(a@, b@),
        r == Rank::Same <==> a@ == b@,
{
    let mut i: usize = 0;
    assert(a@.skip(0) =~= a@);
    assert(b@.skip(0) =~= b@);
    loop
        invariant
            i <= a@.len(),
            i <= b@.len(),
            a@.take(i as int) == b@.take(i as int),
            row_less(a@, b@) == row_less(a@.skip(i as int), b@.skip(i as int)),
        decreases a@.len() - i,
    {
        if i >= b.len() {
            if i >= a.len() {
                assert(a@.take(i as int) =~= a@);
                assert(b@.take(i as int) =~= b@);
                return Rank::Same;
            }
            return Rank::After;
        }
        if i >= a.len() {
            return Rank::Before;
        }
        if a[i] != b[i] {
            if a[i] < b[i] {
                return Rank::Before;
            }
            return Rank::After;
        }
        assert(a@.skip(i as int).skip(1) =~= a@.skip(i + 1));
        assert(b@.skip(i as int).skip(1) =~= b@.skip(i + 1));
        assert(a@.take(i + 1) =~= a@.take(i as int).push(a@[i as int]));
        assert(b@.take(i + 1) =~= b@.take(i as int).push(b@[i as int]));
        i = i + 1;
    }
}

/// Compares two keys.
pub fn rank_keys(a: &Key, b: &Key) -> (r: Rank)
    ensures
        r == Rank::Before <==> key_less(rows(a@), rows(b@)),
        r == Rank::Same <==> rows(a@) == rows(b@),
{
    let mut i: usize = 0;
    let ghost x = rows(a@);
    let ghost y = rows(b@);
    assert(x.skip(0) =~= x);
    assert(y.skip(0) =~= y);
    loop
        invariant
            i <= a@.len(),
            i <= b@.len(),
            x == rows(a@),
            y == rows(b@),
            x.take(i as int) == y.take(i as int),
            key_less(x, y) == key_less(x.skip(i as int), y.skip(i as int)),
        decreases a@.len() - i,
    {
        if i >= b.len() {
            if i >= a.len() {
                assert(x.take(i as int) =~= x);
                assert(y.take(i as int) =~= y);
                return Rank::Same;
            }
            return Rank::After;
        }
        if i >= a.len() {
            return Rank::Before;
        }
        match rank_rows(&a[i], &b[i]) {
            Rank::Same => {},
            Rank::Before => {
                assert(x.skip(i as int)[0] == a@[i as int]@);
                assert(y.skip(i as int)[0] == b@[i as int]@);
                proof {
                    lemma_row_total(a@[i as int]@, b@[i as int]@);
                }
                assert(x[i as int] != y[i as int]);
                return Rank::Before;
            },
            Rank::After => {
                assert(x.skip(i as int)[0] == a@[i as int]@);
                assert(y.skip(i as int)[0] == b@[i as int]@);
                assert(x[i as int] != y[i as int]);
                return Rank::After;
            },
        }
        assert(x.skip(i as int).skip(1) =~= x.skip(i + 1));
        assert(y.skip(i as int).skip(1) =~= y.skip(i + 1));
        assert(x.take(i + 1) =~= x.take(i as int).push(x[i as int]));
        assert(y.take(i + 1) =~= y.take(i as int).push(y[i as int]));
        i = i + 1;
    }
}

fn code_of(c: char) -> (r: i64)
    ensures
        r == code(c),
{
    c as u32 as i64
}

proof fn lemma_code(a: char, b: char)
    ensures
        code(a) == code(b) ==> a == b,
{
}

/// The row for a text.
pub fn code_row(v: &[char]) -> (r: Vec<i64>)
    ensures
        r@ == codes(v@),
{
    let mut out: Vec<i64> = Vec::new();
    let mut i: usize = 0;
    while i < v.len()
        invariant
            i <= v@.len(),
            out@ == codes(v@.take(i as int)),
        decreases v@.len() - i,
    {
        out.push(code_of(v[i]));
        i = i + 1;
    }
    assert(v@.take(i as int) =~= v@);
    out
}

/// Two texts with the same code points are the same text.
pub proof fn lemma_codes_injective(a: Seq<char>, b: Seq<char>)
    ensures
        codes(a) == codes(b) ==> a == b,
{
    if codes(a) == codes(b) {
        assert(a.len() == codes(a).len());
        assert(b.len() == codes(b).len());
        assert forall|i: int| 0 <= i < a.len() implies a[i] == b[i] by {
            assert(codes(a)[i] == codes(b)[i]);
            lemma_code(a[i], b[i]);
        }
        assert(a =~= b);
    }
}

// ---------------------------------------------------------------------------
// The stable sort
// ---------------------------------------------------------------------------

/// Whether an item with key `a` belongs in front of one with key `b`.
pub open spec fn before(a: Seq<Seq<i64>>, b: Seq<Seq<i64>>, descending: bool) -> bool {
    if descending {
        key_less(b, a)
    } else {
        key_less(a, b)
    }
}

/// Index `i` put in behind everything it does not belong in front of.
pub open spec fn insert_index(
    order: Seq<int>,
    keys: Seq<Seq<Seq<i64>>>,
    descending: bool,
    i: int,
) -> Seq<int>
    decreases order.len(),
{
    if order.len() > 0 && before(keys[i], keys[order[order.len() - 1]], descending) {
        insert_index(order.take(order.len() - 1), keys, descending, i).push(order[order.len() - 1])
    } else {
        order.push(i)
    }
}

/// The first `n` indices in order.
pub open spec fn order_upto(keys: Seq<Seq<Seq<i64>>>, descending: bool, n: int) -> Seq<int>
    decreases n,
{
    if n <= 0 {
        Seq::empty()
    } else {
        insert_index(order_upto(keys, descending, n - 1), keys, descending, n - 1)
    }
}

/// The indices of `keys` in the order a stable sort puts them: by key, and items
/// with one key as they came. [`law_stable_order`] says what that pins down.
pub open spec fn stable_order(keys: Seq<Seq<Seq<i64>>>, descending: bool) -> Seq<int> {
    order_upto(keys, descending, keys.len() as int)
}

/// The items in the given order.
pub open spec fn permute<T>(items: Seq<T>, order: Seq<int>) -> Seq<T> {
    order.map_values(|i: int| items[i])
}

/// What it is to be in order: every later item belongs behind every earlier one,
/// by key, or by position where the keys are equal.
pub open spec fn in_order(
    order: Seq<int>,
    keys: Seq<Seq<Seq<i64>>>,
    descending: bool,
) -> bool {
    forall|a: int, b: int|
        #![trigger order[a], order[b]]
        0 <= a < b < order.len() ==> before(keys[order[a]], keys[order[b]], descending) || (
        keys[order[a]] == keys[order[b]] && order[a] < order[b])
}

/// Every index below `n`, once.
pub open spec fn is_permutation(order: Seq<int>, n: int) -> bool {
    &&& order.len() == n
    &&& forall|a: int| 0 <= a < order.len() ==> 0 <= #[trigger] order[a] < n
    &&& forall|a: int, b: int| 0 <= a < b < order.len() ==> order[a] != order[b]
    &&& forall|i: int| 0 <= i < n ==> order.contains(i)
}

proof fn lemma_insert_index(
    order: Seq<int>,
    keys: Seq<Seq<Seq<i64>>>,
    descending: bool,
    i: int,
)
    requires
        in_order(order, keys, descending),
        forall|a: int| 0 <= a < order.len() ==> 0 <= #[trigger] order[a] < i,
        forall|a: int, b: int| 0 <= a < b < order.len() ==> order[a] != order[b],
    ensures
        in_order(insert_index(order, keys, descending, i), keys, descending),
        insert_index(order, keys, descending, i).len() == order.len() + 1,
        forall|a: int|
            0 <= a < order.len() + 1 ==> 0 <= #[trigger] insert_index(order, keys, descending, i)[a]
                <= i || i < 0,
        forall|a: int, b: int|
            0 <= a < b < order.len() + 1 ==> insert_index(order, keys, descending, i)[a]
                != insert_index(order, keys, descending, i)[b],
        forall|x: int|
            #[trigger] insert_index(order, keys, descending, i).contains(x) <==> order.contains(x)
                || x == i,
    decreases order.len(),
{
    let out = insert_index(order, keys, descending, i);
    if order.len() > 0 && before(keys[i], keys[order[order.len() - 1]], descending) {
        let last = order[order.len() - 1];
        let init = order.take(order.len() - 1);
        lemma_insert_index(init, keys, descending, i);
        let inner = insert_index(init, keys, descending, i);
        assert(out =~= inner.push(last));
        assert forall|x: int| inner.contains(x) <==> init.contains(x) || x == i by {}
        assert forall|a: int, b: int|
            #![trigger out[a], out[b]]
            0 <= a < b < out.len() implies before(keys[out[a]], keys[out[b]], descending) || (
        keys[out[a]] == keys[out[b]] && out[a] < out[b]) by {
            if b == out.len() - 1 {
                assert(inner.contains(inner[a]));
                if out[a] != i {
                    assert(init.contains(out[a]));
                    let k = choose|k: int| 0 <= k < init.len() && init[k] == out[a];
                    assert(order[k] == out[a]);
                    assert(order[order.len() - 1] == last);
                }
            } else {
                assert(out[a] == inner[a]);
                assert(out[b] == inner[b]);
            }
        }
        assert forall|x: int| out.contains(x) <==> order.contains(x) || x == i by {
            if out.contains(x) {
                let k = choose|k: int| 0 <= k < out.len() && out[k] == x;
                if k < out.len() - 1 {
                    assert(inner.contains(inner[k]));
                    if x != i {
                        let m = choose|m: int| 0 <= m < init.len() && init[m] == x;
                        assert(order[m] == x);
                    }
                } else {
                    assert(order[order.len() - 1] == x);
                }
            }
            if order.contains(x) || x == i {
                if x == last {
                    assert(out[out.len() - 1] == x);
                } else {
                    if x != i {
                        let m = choose|m: int| 0 <= m < order.len() && order[m] == x;
                        assert(init[m] == x);
                    }
                    assert(inner.contains(x));
                    let k = choose|k: int| 0 <= k < inner.len() && inner[k] == x;
                    assert(out[k] == x);
                }
            }
        }
        assert forall|a: int, b: int| 0 <= a < b < out.len() implies out[a] != out[b] by {
            if b == out.len() - 1 {
                assert(inner.contains(inner[a]));
                if out[a] != i {
                    let m = choose|m: int| 0 <= m < init.len() && init[m] == out[a];
                    assert(order[m] == out[a]);
                } else {
                    assert(order[order.len() - 1] < i);
                }
            } else {
                assert(inner[a] != inner[b]);
            }
        }
    } else {
        assert forall|a: int, b: int|
            #![trigger out[a], out[b]]
            0 <= a < b < out.len() implies before(keys[out[a]], keys[out[b]], descending) || (
        keys[out[a]] == keys[out[b]] && out[a] < out[b]) by {
            if b == out.len() - 1 {
                let last = order[order.len() - 1];
                lemma_key_total(keys[i], keys[last]);
                lemma_key_total(keys[last], keys[i]);
                if a < order.len() - 1 {
                    assert(order[a] == out[a]);
                    if keys[i] != keys[last] && keys[order[a]] != keys[last] {
                        if descending {
                            lemma_key_transitive(keys[i], keys[last], keys[order[a]]);
                        } else {
                            lemma_key_transitive(keys[order[a]], keys[last], keys[i]);
                        }
                    }
                }
            } else {
                assert(out[a] == order[a]);
                assert(out[b] == order[b]);
            }
        }
        assert forall|x: int| out.contains(x) <==> order.contains(x) || x == i by {
            if out.contains(x) {
                let k = choose|k: int| 0 <= k < out.len() && out[k] == x;
                if k < order.len() {
                    assert(order[k] == x);
                }
            }
            if order.contains(x) {
                let k = choose|k: int| 0 <= k < order.len() && order[k] == x;
                assert(out[k] == x);
            }
            if x == i {
                assert(out[order.len() as int] == x);
            }
        }
    }
}

pub proof fn lemma_order_upto(keys: Seq<Seq<Seq<i64>>>, descending: bool, n: int)
    requires
        0 <= n,
    ensures
        in_order(order_upto(keys, descending, n), keys, descending),
        is_permutation(order_upto(keys, descending, n), n),
    decreases n,
{
    if n > 0 {
        let prev = order_upto(keys, descending, n - 1);
        lemma_order_upto(keys, descending, n - 1);
        lemma_insert_index(prev, keys, descending, n - 1);
        let out = order_upto(keys, descending, n);
        assert forall|i: int| 0 <= i < n implies out.contains(i) by {
            assert(i < n - 1 ==> prev.contains(i));
            assert(prev.contains(i) || i == n - 1);
            assert(insert_index(prev, keys, descending, n - 1).contains(i));
        }
        assert forall|a: int| 0 <= a < out.len() implies 0 <= #[trigger] out[a] < n by {
            assert(0 <= insert_index(prev, keys, descending, n - 1)[a] <= n - 1);
        }
    }
}

/// The stable order holds every index once, sorted by key, with items of equal
/// keys left in the order they came.
pub proof fn law_stable_order(keys: Seq<Seq<Seq<i64>>>, descending: bool)
    ensures
        is_permutation(stable_order(keys, descending), keys.len() as int),
        in_order(stable_order(keys, descending), keys, descending),
{
    lemma_order_upto(keys, descending, keys.len() as int);
}

proof fn lemma_insert_multiset<T>(
    items: Seq<T>,
    order: Seq<int>,
    keys: Seq<Seq<Seq<i64>>>,
    descending: bool,
    i: int,
)
    ensures
        permute(items, insert_index(order, keys, descending, i)).to_multiset() =~= permute(
            items,
            order,
        ).to_multiset().insert(items[i]),
    decreases order.len(),
{
    broadcast use vstd::seq_lib::group_to_multiset_ensures;

    let out = insert_index(order, keys, descending, i);
    if order.len() > 0 && before(keys[i], keys[order[order.len() - 1]], descending) {
        let init = order.take(order.len() - 1);
        let last = order[order.len() - 1];
        let inner = insert_index(init, keys, descending, i);
        lemma_insert_multiset(items, init, keys, descending, i);
        assert(permute(items, out) =~= permute(items, inner).push(items[last]));
        assert(permute(items, order) =~= permute(items, init).push(items[last]));
        assert(permute(items, inner).push(items[last]).to_multiset() =~= permute(
            items,
            inner,
        ).to_multiset().insert(items[last]));
        assert(permute(items, init).push(items[last]).to_multiset() =~= permute(
            items,
            init,
        ).to_multiset().insert(items[last]));
    } else {
        assert(permute(items, out) =~= permute(items, order).push(items[i]));
        assert(permute(items, order).push(items[i]).to_multiset() =~= permute(
            items,
            order,
        ).to_multiset().insert(items[i]));
    }
}

/// Sorting keeps what there is, each item as often.
pub proof fn lemma_order_multiset<T>(
    items: Seq<T>,
    keys: Seq<Seq<Seq<i64>>>,
    descending: bool,
    n: int,
)
    requires
        0 <= n <= items.len(),
    ensures
        permute(items, order_upto(keys, descending, n)).to_multiset() =~= items.take(
            n,
        ).to_multiset(),
    decreases n,
{
    broadcast use vstd::seq_lib::group_to_multiset_ensures;

    if n == 0 {
        assert(permute(items, order_upto(keys, descending, 0)) =~= items.take(0));
    } else {
        lemma_order_multiset(items, keys, descending, n - 1);
        lemma_insert_multiset(items, order_upto(keys, descending, n - 1), keys, descending, n - 1);
        assert(items.take(n) =~= items.take(n - 1).push(items[n - 1]));
        assert(items.take(n - 1).push(items[n - 1]).to_multiset() =~= items.take(
            n - 1,
        ).to_multiset().insert(items[n - 1]));
    }
}

/// Whether no later item belongs in front of an earlier one.
pub open spec fn sorted_by<T>(
    items: Seq<T>,
    key: spec_fn(T) -> Seq<Seq<i64>>,
    descending: bool,
) -> bool {
    forall|a: int, b: int|
        #![trigger items[a], items[b]]
        0 <= a < b < items.len() ==> before(key(items[a]), key(items[b]), descending) || key(
            items[a],
        ) == key(items[b])
}

/// Whether the key tells the items apart.
pub open spec fn told_apart<T>(items: Seq<T>, key: spec_fn(T) -> Seq<Seq<i64>>) -> bool {
    forall|a: int, b: int|
        #![trigger items[a], items[b]]
        0 <= a < items.len() && 0 <= b < items.len() && key(items[a]) == key(items[b]) ==> items[a]
            == items[b]
}

/// Items that their keys tell apart can be sorted in one way only.
pub proof fn lemma_sorted_in_one_way<T>(
    x: Seq<T>,
    y: Seq<T>,
    key: spec_fn(T) -> Seq<Seq<i64>>,
    descending: bool,
)
    requires
        x.to_multiset() == y.to_multiset(),
        sorted_by(x, key, descending),
        sorted_by(y, key, descending),
        told_apart(x, key),
    ensures
        x == y,
    decreases x.len(),
{
    broadcast use vstd::seq_lib::group_to_multiset_ensures;

    assert(x.len() == x.to_multiset().len() && y.len() == y.to_multiset().len());
    if x.len() > 0 {
        let n = x.len() - 1;
        let (p, q) = (x[n], y[n]);
        assert(x.contains(p) && y.contains(q));
        assert(x.to_multiset().count(q) > 0 && y.to_multiset().count(p) > 0);
        assert(x.contains(q) && y.contains(p));
        let i = choose|i: int| 0 <= i < x.len() && x[i] == q;
        let j = choose|j: int| 0 <= j < y.len() && y[j] == p;
        lemma_key_total(key(p), key(q));
        lemma_key_total(key(q), key(p));
        assert(x[i] == q && x[n] == p && y[j] == p && y[n] == q);
        assert(p == q);
        let (u, v) = (x.take(n), y.take(n));
        assert(x =~= u.push(p) && y =~= v.push(p));
        assert(x.to_multiset() =~= u.to_multiset().insert(p));
        assert(y.to_multiset() =~= v.to_multiset().insert(p));
        assert(u.to_multiset() =~= x.to_multiset().remove(p));
        assert(v.to_multiset() =~= y.to_multiset().remove(p));
        lemma_sorted_in_one_way(u, v, key, descending);
    } else {
        assert(x =~= y);
    }
}

/// Turning a list round keeps what there is.
pub proof fn lemma_reverse_multiset<T>(s: Seq<T>)
    ensures
        s.reverse().to_multiset() =~= s.to_multiset(),
    decreases s.len(),
{
    broadcast use vstd::seq_lib::group_to_multiset_ensures;

    if s.len() > 0 {
        let init = s.take(s.len() - 1);
        let last = s[s.len() - 1];
        lemma_reverse_multiset(init);
        assert(s =~= init.push(last));
        assert(s.reverse() =~= init.reverse().insert(0, last));
        vstd::seq_lib::to_multiset_insert(init.reverse(), 0, last);
        assert(s.to_multiset() =~= init.to_multiset().insert(last));
    } else {
        assert(s.reverse() =~= s);
    }
}

/// What a stable sort comes to is sorted, and holds what there was.
pub proof fn lemma_stably_sorted<T>(
    items: Seq<T>,
    key: spec_fn(T) -> Seq<Seq<i64>>,
    descending: bool,
)
    ensures
        ({
            let out = permute(items, stable_order(items.map_values(key), descending));
            &&& sorted_by(out, key, descending)
            &&& out.to_multiset() == items.to_multiset()
            &&& out.len() == items.len()
            &&& told_apart(items, key) ==> told_apart(out, key)
        }),
{
    let keys = items.map_values(key);
    let order = stable_order(keys, descending);
    let out = permute(items, order);
    law_stable_order(keys, descending);
    lemma_order_multiset(items, keys, descending, items.len() as int);
    assert(items.take(items.len() as int) =~= items);
    assert forall|a: int|
        #![trigger out[a]]
        0 <= a < out.len() implies 0 <= order[a] < items.len() && out[a] == items[order[a]]
        && keys[order[a]] == key(out[a]) by {
        assert(0 <= order[a] < keys.len());
    }
}

pub open spec fn indices(v: Seq<usize>) -> Seq<int> {
    v.map_values(|i: usize| i as int)
}

/// The stable order of these keys.
pub fn sort_indices(keys: &Vec<Key>, descending: bool) -> (r: Vec<usize>)
    ensures
        indices(r@) == stable_order(key_rows(keys@), descending),
        r@.len() == keys@.len(),
        forall|a: int| 0 <= a < r@.len() ==> #[trigger] r@[a] < keys@.len(),
{
    let ghost ks = key_rows(keys@);
    let mut out: Vec<usize> = Vec::new();
    let mut i: usize = 0;
    assert(indices(out@) =~= order_upto(ks, descending, 0));
    while i < keys.len()
        invariant
            i <= keys@.len(),
            ks == key_rows(keys@),
            out@.len() == i,
            indices(out@) == order_upto(ks, descending, i as int),
            forall|a: int| 0 <= a < out@.len() ==> #[trigger] out@[a] < i,
        decreases keys@.len() - i,
    {
        let mut p: usize = i;
        let ghost prev = indices(out@);
        assert(prev.take(i as int) =~= prev);
        assert(insert_index(prev, ks, descending, i as int) =~= insert_index(
            prev.take(i as int),
            ks,
            descending,
            i as int,
        ) + prev.skip(i as int));
        loop
            invariant_except_break
                p <= i,
                i < keys@.len(),
                ks == key_rows(keys@),
                out@.len() == i,
                prev == indices(out@),
                forall|a: int| 0 <= a < out@.len() ==> #[trigger] out@[a] < i,
                insert_index(prev, ks, descending, i as int) == insert_index(
                    prev.take(p as int),
                    ks,
                    descending,
                    i as int,
                ) + prev.skip(p as int),
            ensures
                p <= i,
                insert_index(prev, ks, descending, i as int) == prev.take(p as int).push(i as int)
                    + prev.skip(p as int),
            decreases p,
        {
            if p == 0 {
                break ;
            }
            let j: usize = out[p - 1];
            let rank = if descending {
                rank_keys(&keys[j], &keys[i])
            } else {
                rank_keys(&keys[i], &keys[j])
            };
            proof {
                assert(ks[i as int] == rows(keys@[i as int]@));
                assert(ks[j as int] == rows(keys@[j as int]@));
                assert(prev.take(p as int)[p - 1] == j as int);
            }
            if !matches!(rank, Rank::Before) {
                break ;
            }
            proof {
                assert(prev.take(p as int).take(p - 1) =~= prev.take(p - 1));
                let small = insert_index(prev.take(p - 1), ks, descending, i as int);
                assert(insert_index(prev.take(p as int), ks, descending, i as int) == small.push(
                    j as int,
                ));
                assert(small.push(j as int) + prev.skip(p as int) =~= small + prev.skip(p - 1));
            }
            p = p - 1;
        }
        out.insert(p, i);
        proof {
            assert(indices(out@) =~= prev.take(p as int).push(i as int) + prev.skip(p as int));
        }
        i = i + 1;
    }
    out
}

/// The items these indices pick out.
pub fn pick<'a, T>(items: &Vec<&'a T>, order: &Vec<usize>) -> (r: Vec<&'a T>)
    requires
        forall|a: int| 0 <= a < order@.len() ==> #[trigger] order@[a] < items@.len(),
    ensures
        r@ == permute(items@, indices(order@)),
{
    let mut out: Vec<&'a T> = Vec::new();
    let mut i: usize = 0;
    while i < order.len()
        invariant
            i <= order@.len(),
            forall|a: int| 0 <= a < order@.len() ==> #[trigger] order@[a] < items@.len(),
            out@ == permute(items@, indices(order@).take(i as int)),
        decreases order@.len() - i,
    {
        out.push(items[order[i]]);
        i = i + 1;
        assert(out@ =~= permute(items@, indices(order@).take(i as int)));
    }
    assert(indices(order@).take(i as int) =~= indices(order@));
    out
}

/// Whether an index is among the first `n` of an order.
pub open spec fn placed(order: Seq<int>, n: int, i: int) -> bool {
    exists|a: int| 0 <= a < n && #[trigger] order[a] == i
}

/// The items moved into the given order.
pub fn arrange<T>(items: Vec<T>, order: &Vec<usize>) -> (r: Vec<T>)
    requires
        is_permutation(indices(order@), items@.len() as int),
    ensures
        r@ == permute(items@, indices(order@)),
{
    let ghost all = items@;
    let ghost want = indices(order@);
    let mut rest = items;
    let mut slots: Vec<Option<T>> = Vec::new();
    // The items come off the end, so they are put in backwards.
    while rest.len() > 0
        invariant
            rest@.len() + slots@.len() == all.len(),
            rest@ == all.take(rest@.len() as int),
            forall|k: int|
                0 <= k < slots@.len() ==> #[trigger] slots@[k] == Some(all[all.len() - 1 - k]),
        decreases rest@.len(),
    {
        let ghost n = rest@.len() as int;
        assert(rest@[n - 1] == all[n - 1]);
        if let Some(item) = rest.pop() {
            assert(rest@ =~= all.take(n - 1));
            slots.push(Some(item));
        }
    }
    let total: usize = slots.len();
    let mut out: Vec<T> = Vec::new();
    let mut j: usize = 0;
    while j < order.len()
        invariant
            j <= order@.len(),
            total == all.len(),
            order@.len() == total,
            slots@.len() == total,
            want == indices(order@),
            is_permutation(want, total as int),
            out@ == permute(all, want).take(j as int),
            forall|k: int|
                0 <= k < total && !placed(want, j as int, total - 1 - k) ==> #[trigger] slots@[k]
                    == Some(all[total - 1 - k]),
        decreases order@.len() - j,
    {
        assert(want[j as int] == order@[j as int] as int);
        let at: usize = total - 1 - order[j];
        assert(!placed(want, j as int, want[j as int]));
        let ghost before = slots@;
        assert(slots@[at as int] == Some(all[want[j as int]]));
        let mut taken: Option<T> = None;
        std::mem::swap(&mut taken, &mut slots[at]);
        proof {
            assert forall|k: int|
                0 <= k < total && !placed(want, j + 1, total - 1 - k) implies #[trigger] slots@[k]
                == Some(all[total - 1 - k]) by {
                if k == at {
                    assert(want[j as int] == total - 1 - k);
                    assert(placed(want, j + 1, total - 1 - k));
                } else {
                    assert(slots@[k] == before[k]);
                    if placed(want, j as int, total - 1 - k) {
                        let a = choose|a: int|
                            0 <= a < j && #[trigger] want[a] == total - 1 - k;
                        assert(want[a] == total - 1 - k);
                        assert(placed(want, j + 1, total - 1 - k));
                    }
                }
            }
        }
        if let Some(item) = taken {
            out.push(item);
        }
        j = j + 1;
        assert(out@ =~= permute(all, want).take(j as int));
    }
    assert(permute(all, want).take(j as int) =~= permute(all, want));
    out
}

/// Rows are compared place by place: the first place where they differ decides, and a row
/// that the other starts with comes first.
pub proof fn law_the_first_difference_decides(
    front: Seq<i64>,
    x: i64,
    y: i64,
    a: Seq<i64>,
    b: Seq<i64>,
)
    ensures
        x < y ==> row_less(front + seq![x] + a, front + seq![y] + b),
        x > y ==> !row_less(front + seq![x] + a, front + seq![y] + b),
        row_less(front, front + seq![y] + b),
        !row_less(front + seq![y] + b, front),
        !row_less(front, front),
    decreases front.len(),
{
    let (s, t) = (front + seq![x] + a, front + seq![y] + b);
    if front.len() > 0 {
        let rest = front.skip(1);
        law_the_first_difference_decides(rest, x, y, a, b);
        assert(s.skip(1) =~= rest + seq![x] + a);
        assert(t.skip(1) =~= rest + seq![y] + b);
        assert(s[0] == front[0] && t[0] == front[0]);
    } else {
        assert(s[0] == x && t[0] == y);
    }
}

/// Keys are compared row by row in the same way.
pub proof fn law_the_first_row_decides(
    front: Seq<Seq<i64>>,
    x: Seq<i64>,
    y: Seq<i64>,
    a: Seq<Seq<i64>>,
    b: Seq<Seq<i64>>,
)
    ensures
        row_less(x, y) ==> key_less(front + seq![x] + a, front + seq![y] + b),
        row_less(y, x) ==> !key_less(front + seq![x] + a, front + seq![y] + b),
        key_less(front, front + seq![y] + b),
        !key_less(front + seq![y] + b, front),
        !key_less(front, front),
    decreases front.len(),
{
    let (s, t) = (front + seq![x] + a, front + seq![y] + b);
    lemma_row_total(x, y);
    if front.len() > 0 {
        let rest = front.skip(1);
        law_the_first_row_decides(rest, x, y, a, b);
        assert(s.skip(1) =~= rest + seq![x] + a);
        assert(t.skip(1) =~= rest + seq![y] + b);
        assert(s[0] == front[0] && t[0] == front[0]);
    } else {
        assert(s[0] == x && t[0] == y);
        law_the_first_difference_decides(x, 0, 0, Seq::empty(), Seq::empty());
    }
}

/// Characters are ordered by their number, and texts character by character.
pub proof fn law_texts_are_ordered_by_character(a: char, b: char, s: Seq<char>, i: int)
    requires
        0 <= i < s.len(),
    ensures
        code(a) < code(b) <==> (a as u32) < (b as u32),
        code(a) == code(b) <==> a == b,
        codes(s).len() == s.len(),
        codes(s)[i] == code(s[i]),
{
}

/// Downwards is upwards turned round.
pub proof fn law_downwards_is_upwards_turned_round(a: Seq<Seq<i64>>, b: Seq<Seq<i64>>)
    ensures
        before(a, b, false) <==> key_less(a, b),
        before(a, b, true) <==> key_less(b, a),
{
}

} // verus!
