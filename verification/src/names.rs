//! Sorted lists of names without repeats.

use vstd::prelude::*;

use crate::order::{code_row, Rank};
use crate::text::to_chars;

verus! {

/// Whether one text comes before another, by code points.
pub open spec fn name_less(a: Seq<char>, b: Seq<char>) -> bool {
    crate::order::row_less(crate::order::codes(a), crate::order::codes(b))
}

/// A name put where the order has it, unless it is there already.
pub open spec fn insert_name(names: Seq<Seq<char>>, name: Seq<char>) -> Seq<Seq<char>>
    decreases names.len(),
{
    if names.len() == 0 || name_less(names[names.len() - 1], name) {
        names.push(name)
    } else if names[names.len() - 1] == name {
        names
    } else {
        insert_name(names.take(names.len() - 1), name).push(names[names.len() - 1])
    }
}

/// The names that occur in a list, each once, in order.
/// [`law_sorted_set`] says what that pins down.
pub open spec fn sorted_set(list: Seq<Seq<char>>) -> Seq<Seq<char>>
    decreases list.len(),
{
    if list.len() == 0 {
        Seq::empty()
    } else {
        insert_name(sorted_set(list.take(list.len() - 1)), list[list.len() - 1])
    }
}

/// Every name before the next.
pub open spec fn strictly_sorted(names: Seq<Seq<char>>) -> bool {
    forall|i: int, j: int|
        #![trigger names[i], names[j]]
        0 <= i < j < names.len() ==> name_less(names[i], names[j])
}

pub proof fn lemma_name_total(a: Seq<char>, b: Seq<char>)
    ensures
        a == b ==> !name_less(a, b),
        a != b ==> (name_less(a, b) <==> !name_less(b, a)),
{
    crate::order::lemma_row_total(crate::order::codes(a), crate::order::codes(b));
    crate::order::lemma_codes_injective(a, b);
}

pub proof fn lemma_name_transitive(a: Seq<char>, b: Seq<char>, c: Seq<char>)
    requires
        name_less(a, b),
        name_less(b, c),
    ensures
        name_less(a, c),
{
    crate::order::lemma_row_transitive(
        crate::order::codes(a),
        crate::order::codes(b),
        crate::order::codes(c),
    );
}

proof fn lemma_insert_name(names: Seq<Seq<char>>, name: Seq<char>)
    requires
        strictly_sorted(names),
    ensures
        strictly_sorted(insert_name(names, name)),
        forall|x: Seq<char>| #[trigger]
            insert_name(names, name).contains(x) <==> names.contains(x) || x == name,
    decreases names.len(),
{
    let out = insert_name(names, name);
    if names.len() == 0 || name_less(names[names.len() - 1], name) {
        assert forall|i: int, j: int|
            #![trigger out[i], out[j]]
            0 <= i < j < out.len() implies name_less(out[i], out[j]) by {
            if j == names.len() && i < names.len() - 1 {
                let last = names[names.len() - 1];
                assert(name_less(names[i], last));
                lemma_name_transitive(names[i], last, name);
            } else if j < names.len() {
                assert(name_less(names[i], names[j]));
            }
        }
        assert forall|x: Seq<char>| #[trigger]
            out.contains(x) <==> names.contains(x) || x == name by {
            if names.contains(x) {
                let k = choose|k: int| 0 <= k < names.len() && names[k] == x;
                assert(out[k] == x);
            }
            assert(out[names.len() as int] == name);
            if out.contains(x) {
                let k = choose|k: int| 0 <= k < out.len() && out[k] == x;
                if k < names.len() {
                    assert(names[k] == x);
                }
            }
        }
    } else if names[names.len() - 1] == name {
        assert(names.contains(name));
    } else {
        let last = names[names.len() - 1];
        let init = names.take(names.len() - 1);
        let inner = insert_name(init, name);
        lemma_insert_name(init, name);
        lemma_name_total(last, name);
        assert forall|i: int, j: int|
            #![trigger out[i], out[j]]
            0 <= i < j < out.len() implies name_less(out[i], out[j]) by {
            if j < inner.len() {
                assert(name_less(inner[i], inner[j]));
            } else {
                assert(inner.contains(inner[i]));
                if inner[i] != name {
                    assert(init.contains(inner[i]));
                    let k = choose|k: int| 0 <= k < init.len() && init[k] == inner[i];
                    assert(name_less(names[k], names[names.len() - 1]));
                }
            }
        }
        assert forall|x: Seq<char>| #[trigger]
            out.contains(x) <==> names.contains(x) || x == name by {
            if names.contains(x) {
                let k = choose|k: int| 0 <= k < names.len() && names[k] == x;
                if k < init.len() {
                    assert(init[k] == x);
                    assert(inner.contains(x));
                    let m = choose|m: int| 0 <= m < inner.len() && inner[m] == x;
                    assert(out[m] == x);
                } else {
                    assert(out[inner.len() as int] == x);
                }
            }
            if x == name {
                assert(inner.contains(x));
                let m = choose|m: int| 0 <= m < inner.len() && inner[m] == x;
                assert(out[m] == x);
            }
            if out.contains(x) {
                let m = choose|m: int| 0 <= m < out.len() && out[m] == x;
                if m < inner.len() {
                    assert(inner.contains(inner[m]));
                    if x != name {
                        let k = choose|k: int| 0 <= k < init.len() && init[k] == x;
                        assert(names[k] == x);
                    }
                } else {
                    assert(names[names.len() - 1] == x);
                }
            }
        }
    }
}

/// The sorted set holds exactly the names of the list, in order, none twice.
pub proof fn law_sorted_set(list: Seq<Seq<char>>)
    ensures
        strictly_sorted(sorted_set(list)),
        forall|x: Seq<char>| #[trigger] sorted_set(list).contains(x) <==> list.contains(x),
    decreases list.len(),
{
    if list.len() > 0 {
        let init = list.take(list.len() - 1);
        let last = list[list.len() - 1];
        law_sorted_set(init);
        lemma_insert_name(sorted_set(init), last);
        assert forall|x: Seq<char>| #[trigger]
            sorted_set(list).contains(x) <==> list.contains(x) by {
            assert(insert_name(sorted_set(init), last).contains(x) <==> sorted_set(init).contains(x)
                || x == last);
            assert(sorted_set(init).contains(x) <==> init.contains(x));
            if list.contains(x) {
                let k = choose|k: int| 0 <= k < list.len() && list[k] == x;
                if k < init.len() {
                    assert(init[k] == x);
                }
            }
            if init.contains(x) {
                let k = choose|k: int| 0 <= k < init.len() && init[k] == x;
                assert(list[k] == x);
            }
        }
    } else {
        assert forall|x: Seq<char>| #[trigger]
            sorted_set(list).contains(x) <==> list.contains(x) by {}
    }
}

proof fn lemma_sorted_unique(a: Seq<Seq<char>>, b: Seq<Seq<char>>, n: int)
    requires
        strictly_sorted(a),
        strictly_sorted(b),
        forall|x: Seq<char>| #[trigger] a.contains(x) <==> b.contains(x),
        0 <= n <= a.len(),
        n <= b.len(),
    ensures
        a.take(n) == b.take(n),
    decreases n,
{
    if n > 0 {
        lemma_sorted_unique(a, b, n - 1);
        let x = a[n - 1];
        let y = b[n - 1];
        lemma_name_total(x, y);
        if x != y {
            assert(a.contains(x));
            assert(b.contains(y));
            assert(b.contains(x));
            assert(a.contains(y));
            let k = choose|k: int| 0 <= k < b.len() && b[k] == x;
            let m = choose|m: int| 0 <= m < a.len() && a[m] == y;
            if k < n - 1 {
                assert(a.take(n - 1)[k] == b.take(n - 1)[k]);
                assert(name_less(a[k], a[n - 1]));
                lemma_name_total(x, x);
            } else if m < n - 1 {
                assert(a.take(n - 1)[m] == b.take(n - 1)[m]);
                assert(name_less(b[m], b[n - 1]));
                lemma_name_total(y, y);
            } else {
                assert(k > n - 1 && m > n - 1);
                assert(name_less(b[n - 1], b[k]));
                assert(name_less(a[n - 1], a[m]));
            }
        }
        assert(a.take(n) =~= a.take(n - 1).push(x));
        assert(b.take(n) =~= b.take(n - 1).push(y));
    }
}

/// Two lists with the same names have the same sorted set, whatever order they
/// come in and however often they repeat.
pub proof fn law_sorted_set_ignores_order(a: Seq<Seq<char>>, b: Seq<Seq<char>>)
    requires
        forall|x: Seq<char>| #[trigger] a.contains(x) <==> b.contains(x),
    ensures
        sorted_set(a) == sorted_set(b),
{
    law_sorted_set(a);
    law_sorted_set(b);
    let x = sorted_set(a);
    let y = sorted_set(b);
    assert forall|n: Seq<char>| #[trigger] x.contains(n) <==> y.contains(n) by {
        assert(x.contains(n) <==> a.contains(n));
        assert(y.contains(n) <==> b.contains(n));
    }
    if x.len() <= y.len() {
        lemma_sorted_unique(x, y, x.len() as int);
        assert(x.take(x.len() as int) =~= x);
        if x.len() < y.len() {
            let extra = y[x.len() as int];
            assert(y.contains(extra));
            assert(x.contains(extra));
            let k = choose|k: int| 0 <= k < x.len() && x[k] == extra;
            assert(y.take(x.len() as int)[k] == x.take(x.len() as int)[k]);
            assert(name_less(y[k], y[x.len() as int]));
            lemma_name_total(extra, extra);
        }
        assert(y.take(x.len() as int) =~= y);
    } else {
        lemma_sorted_unique(x, y, y.len() as int);
        let extra = x[y.len() as int];
        assert(x.contains(extra));
        assert(y.contains(extra));
        let k = choose|k: int| 0 <= k < y.len() && y[k] == extra;
        assert(y.take(y.len() as int)[k] == x.take(y.len() as int)[k]);
        assert(name_less(x[k], x[y.len() as int]));
        lemma_name_total(extra, extra);
    }
}

/// Compares two texts.
pub fn rank_names(a: &str, b: &str) -> (r: Rank)
    ensures
        r == Rank::Before <==> name_less(a@, b@),
        r == Rank::Same <==> a@ == b@,
{
    let x = code_row(to_chars(a).as_slice());
    let y = code_row(to_chars(b).as_slice());
    proof {
        crate::order::lemma_codes_injective(a@, b@);
    }
    crate::order::rank_rows(&x, &y)
}

/// Puts a name into a sorted list, unless it is there.
pub fn add_name(names: &mut Vec<String>, name: &str)
    ensures
        crate::text::texts(final(names)@) == insert_name(crate::text::texts(old(names)@), name@),
{
    let ghost all = crate::text::texts(names@);
    let mut p: usize = names.len();
    assert(all.take(p as int) =~= all);
    assert(insert_name(all, name@) =~= insert_name(all.take(p as int), name@) + all.skip(p as int));
    loop
        invariant_except_break
            p <= names@.len(),
            all == crate::text::texts(names@),
            names@ == old(names)@,
            insert_name(all, name@) == insert_name(all.take(p as int), name@) + all.skip(p as int),
        ensures
            p <= names@.len(),
            all == crate::text::texts(names@),
            names@ == old(names)@,
            insert_name(all, name@) == all.take(p as int).push(name@) + all.skip(p as int),
        decreases p,
    {
        if p == 0 {
            break ;
        }
        let rank = rank_names(names[p - 1].as_str(), name);
        assert(all.take(p as int)[p - 1] == names@[p - 1]@);
        match rank {
            Rank::Before => {
                break ;
            },
            Rank::Same => {
                assert(insert_name(all, name@) =~= all);
                return ;
            },
            Rank::After => {
                proof {
                    assert(all.take(p as int).take(p - 1) =~= all.take(p - 1));
                    let small = insert_name(all.take(p - 1), name@);
                    assert(insert_name(all.take(p as int), name@) == small.push(all[p - 1]));
                    assert(small.push(all[p - 1]) + all.skip(p as int) =~= small + all.skip(p - 1));
                }
                p = p - 1;
            },
        }
    }
    names.insert(p, name.to_owned());
    assert(crate::text::texts(names@) =~= all.take(p as int).push(name@) + all.skip(p as int));
}

/// The names that occur in a list, each once, in order.
pub fn sort_names(list: &Vec<String>) -> (r: Vec<String>)
    ensures
        crate::text::texts(r@) == sorted_set(crate::text::texts(list@)),
{
    let ghost all = crate::text::texts(list@);
    let mut out: Vec<String> = Vec::new();
    let mut i: usize = 0;
    assert(crate::text::texts(out@) =~= sorted_set(all.take(0)));
    while i < list.len()
        invariant
            i <= list@.len(),
            all == crate::text::texts(list@),
            crate::text::texts(out@) == sorted_set(all.take(i as int)),
        decreases list@.len() - i,
    {
        add_name(&mut out, list[i].as_str());
        assert(all.take(i + 1).take(i as int) =~= all.take(i as int));
        assert(all.take(i + 1)[i as int] == list@[i as int]@);
        i = i + 1;
    }
    assert(all.take(i as int) =~= all);
    out
}

} // verus!
