//! Orders: text compared character by character, and stable sorting.

use vstd::prelude::*;
use crate::text;

verus! {

/// Whether text `a` comes strictly before text `b`: at the first difference the
/// lower character decides, and a proper prefix comes first.
pub open spec fn text_lt(a: Seq<char>, b: Seq<char>) -> bool
    decreases a.len(),
{
    if b.len() == 0 {
        false
    } else if a.len() == 0 {
        true
    } else if a[0] != b[0] {
        a[0] < b[0]
    } else {
        text_lt(a.skip(1), b.skip(1))
    }
}

/// Whether list `a` comes strictly before list `b`: at the first difference the
/// earlier text decides, and a proper prefix comes first.
pub open spec fn list_lt(a: Seq<Seq<char>>, b: Seq<Seq<char>>) -> bool
    decreases a.len(),
{
    if b.len() == 0 {
        false
    } else if a.len() == 0 {
        true
    } else if a[0] != b[0] {
        text_lt(a[0], b[0])
    } else {
        list_lt(a.skip(1), b.skip(1))
    }
}

/// No text comes before itself; of two different texts exactly one comes first.
pub proof fn law_text_order_is_total(a: Seq<char>, b: Seq<char>)
    ensures
        a == b ==> !text_lt(a, b),
        a != b ==> text_lt(a, b) != text_lt(b, a),
    decreases a.len(),
{
    if a.len() > 0 && b.len() > 0 {
        law_text_order_is_total(a.skip(1), b.skip(1));
        if a[0] == b[0] && a.skip(1) == b.skip(1) {
            assert(a =~= seq![a[0]] + a.skip(1));
            assert(b =~= seq![b[0]] + b.skip(1));
        }
    } else if a.len() == 0 && b.len() == 0 {
        assert(a =~= b);
    }
}

/// The order of texts is transitive.
pub proof fn law_text_order_is_transitive(a: Seq<char>, b: Seq<char>, c: Seq<char>)
    requires
        text_lt(a, b),
        text_lt(b, c),
    ensures
        text_lt(a, c),
    decreases a.len(),
{
    if a.len() > 0 && b.len() > 0 && c.len() > 0 && a[0] == b[0] && b[0] == c[0] {
        law_text_order_is_transitive(a.skip(1), b.skip(1), c.skip(1));
    }
}

/// Whether `a` comes strictly before `b`.
pub fn text_before(a: &str, b: &str) -> (r: bool)
    ensures
        r == text_lt(a@, b@),
{
    let x = text::chars(a);
    let y = text::chars(b);
    let mut i: usize = 0;
    assert(a@.skip(0) =~= a@);
    assert(b@.skip(0) =~= b@);
    while i < x.len() && i < y.len()
        invariant
            x@ == a@,
            y@ == b@,
            i <= x.len(),
            i <= y.len(),
            text_lt(a@, b@) == text_lt(a@.skip(i as int), b@.skip(i as int)),
        decreases x.len() - i,
    {
        if x[i] != y[i] {
            return x[i] < y[i];
        }
        assert(a@.skip(i as int).skip(1) =~= a@.skip(i + 1));
        assert(b@.skip(i as int).skip(1) =~= b@.skip(i + 1));
        i += 1;
    }
    i < y.len()
}

/// Whether list `a` comes strictly before list `b`.
pub fn list_before(a: &Vec<String>, b: &Vec<String>) -> (r: bool)
    ensures
        r == list_lt(text::strs(a@), text::strs(b@)),
{
    let ghost x = text::strs(a@);
    let ghost y = text::strs(b@);
    let mut i: usize = 0;
    assert(x.skip(0) =~= x);
    assert(y.skip(0) =~= y);
    while i < a.len() && i < b.len()
        invariant
            x == text::strs(a@),
            y == text::strs(b@),
            i <= a.len(),
            i <= b.len(),
            list_lt(x, y) == list_lt(x.skip(i as int), y.skip(i as int)),
        decreases a.len() - i,
    {
        if !text::same(a[i].as_str(), b[i].as_str()) {
            return text_before(a[i].as_str(), b[i].as_str());
        }
        assert(x.skip(i as int).skip(1) =~= x.skip(i + 1));
        assert(y.skip(i as int).skip(1) =~= y.skip(i + 1));
        i += 1;
    }
    i < b.len()
}

// --- stable sorting ----------------------------------------------------------

/// `i` put into `order`, behind everything that it does not come before.
pub open spec fn insert_stable(order: Seq<int>, i: int, lt: spec_fn(int, int) -> bool) -> Seq<int>
    decreases order.len(),
{
    if order.len() == 0 || !lt(i, order.last()) {
        order.push(i)
    } else {
        insert_stable(order.drop_last(), i, lt).push(order.last())
    }
}

/// The indices below `n` in stable order by `lt`: an index comes behind every
/// smaller index that it is not strictly before.
pub open spec fn stable_order(n: nat, lt: spec_fn(int, int) -> bool) -> Seq<int>
    decreases n,
{
    if n == 0 {
        Seq::<int>::empty()
    } else {
        insert_stable(stable_order((n - 1) as nat, lt), n - 1, lt)
    }
}

/// The items at the given indices.
pub open spec fn pick<T>(items: Seq<T>, order: Seq<int>) -> Seq<T> {
    order.map_values(|i: int| items[i])
}

/// Machine indices as integers.
pub open spec fn ints(v: Seq<usize>) -> Seq<int> {
    v.map_values(|i: usize| i as int)
}

/// Inserting keeps all members and adds the new one.
proof fn lemma_insert_members(order: Seq<int>, i: int, lt: spec_fn(int, int) -> bool)
    ensures
        insert_stable(order, i, lt).to_multiset() == order.to_multiset().insert(i),
        insert_stable(order, i, lt).len() == order.len() + 1,
    decreases order.len(),
{
    broadcast use vstd::seq_lib::group_to_multiset_ensures;
    if order.len() == 0 || !lt(i, order.last()) {
    } else {
        let rest = order.drop_last();
        lemma_insert_members(rest, i, lt);
        assert(rest.push(order.last()) =~= order);
        assert(insert_stable(order, i, lt).to_multiset() =~= order.to_multiset().insert(i));
    }
}

/// The stable order of `n` indices holds each index below `n` exactly once.
pub proof fn law_stable_order_is_a_permutation(n: nat, lt: spec_fn(int, int) -> bool)
    ensures
        stable_order(n, lt).len() == n,
        stable_order(n, lt).to_multiset() == Seq::new(n, |i: int| i).to_multiset(),
        stable_order(n, lt).no_duplicates(),
        forall|k: int| 0 <= k < n ==> 0 <= #[trigger] stable_order(n, lt)[k] < n,
    decreases n,
{
    broadcast use vstd::seq_lib::group_to_multiset_ensures;
    let all = Seq::new(n, |i: int| i);
    if n > 0 {
        let m = (n - 1) as nat;
        law_stable_order_is_a_permutation(m, lt);
        lemma_insert_members(stable_order(m, lt), n - 1, lt);
        let fewer = Seq::new(m, |i: int| i);
        assert(fewer.push(n - 1) =~= all);
        assert(stable_order(n, lt).to_multiset() =~= all.to_multiset());
    } else {
        assert(stable_order(n, lt) =~= all);
    }
    all.lemma_multiset_has_no_duplicates();
    stable_order(n, lt).lemma_multiset_has_no_duplicates_conv();
    assert forall|k: int| 0 <= k < n implies 0 <= #[trigger] stable_order(n, lt)[k] < n by {
        let x = stable_order(n, lt)[k];
        assert(stable_order(n, lt).contains(x));
        assert(stable_order(n, lt).to_multiset().count(x) > 0);
        assert(all.to_multiset().count(x) > 0);
        assert(all.contains(x));
    }
}

/// Whether `lt` orders: never both ways, and whoever is before a third is before
/// any other or has that other before the third.
pub open spec fn weak_order(lt: spec_fn(int, int) -> bool) -> bool {
    &&& forall|a: int, b: int| #[trigger] lt(a, b) ==> !lt(b, a)
    &&& forall|a: int, b: int, c: int|
        !#[trigger] lt(a, b) && !#[trigger] lt(b, c) ==> !lt(a, c)
}

/// Whether an order of indices is ascending by `lt`, ties by index.
pub open spec fn ascending(order: Seq<int>, lt: spec_fn(int, int) -> bool) -> bool {
    forall|p: int, q: int|
        0 <= p < q < order.len() ==> !lt(#[trigger] order[q], #[trigger] order[p]) && (lt(
            order[p],
            order[q],
        ) || order[p] < order[q])
}

proof fn lemma_insert_ascending(order: Seq<int>, i: int, lt: spec_fn(int, int) -> bool)
    requires
        weak_order(lt),
        ascending(order, lt),
        forall|k: int| 0 <= k < order.len() ==> #[trigger] order[k] < i,
    ensures
        ascending(insert_stable(order, i, lt), lt),
        forall|k: int|
            0 <= k < insert_stable(order, i, lt).len() ==> #[trigger] insert_stable(order, i, lt)[k] == i
                || order.contains(insert_stable(order, i, lt)[k]),
    decreases order.len(),
{
    let out = insert_stable(order, i, lt);
    if order.len() == 0 {
    } else if !lt(i, order.last()) {
        assert forall|p: int, q: int| 0 <= p < q < out.len() implies !lt(
            #[trigger] out[q],
            #[trigger] out[p],
        ) && (lt(out[p], out[q]) || out[p] < out[q]) by {
            if q == out.len() - 1 {
                assert(out[p] == order[p]);
                if p < order.len() - 1 {
                    assert(!lt(order[order.len() - 1], order[p]));
                    if lt(i, order[p]) {
                        assert(lt(i, order.last()) || lt(order.last(), order[p]));
                    }
                }
            } else {
                assert(out[p] == order[p] && out[q] == order[q]);
            }
        }
        assert forall|k: int| 0 <= k < out.len() implies #[trigger] out[k] == i || order.contains(out[k]) by {
            if k < order.len() {
                assert(out[k] == order[k]);
            }
        }
    } else {
        let rest = order.drop_last();
        assert(ascending(rest, lt)) by {
            assert forall|p: int, q: int| 0 <= p < q < rest.len() implies !lt(
                #[trigger] rest[q],
                #[trigger] rest[p],
            ) && (lt(rest[p], rest[q]) || rest[p] < rest[q]) by {
                assert(rest[p] == order[p] && rest[q] == order[q]);
            }
        }
        lemma_insert_ascending(rest, i, lt);
        let inner = insert_stable(rest, i, lt);
        let last = order.last();
        assert(out == inner.push(last));
        assert forall|p: int, q: int| 0 <= p < q < out.len() implies !lt(
            #[trigger] out[q],
            #[trigger] out[p],
        ) && (lt(out[p], out[q]) || out[p] < out[q]) by {
            if q == out.len() - 1 {
                let x = inner[p];
                assert(out[p] == x && out[q] == last);
                if x == i {
                    assert(lt(i, last));
                } else {
                    let k = choose|k: int| 0 <= k < rest.len() && rest[k] == x;
                    assert(order[k] == x);
                    assert(order[order.len() - 1] == last);
                }
            } else {
                assert(out[p] == inner[p] && out[q] == inner[q]);
            }
        }
        assert forall|k: int| 0 <= k < out.len() implies #[trigger] out[k] == i || order.contains(out[k]) by {
            if k < inner.len() {
                assert(out[k] == inner[k]);
                if inner[k] != i {
                    let j = choose|j: int| 0 <= j < rest.len() && rest[j] == inner[k];
                    assert(order[j] == inner[k]);
                }
            } else {
                assert(order[order.len() - 1] == last);
            }
        }
    }
}

/// Sorted: by an order, the stable order is ascending, and what ties stays in
/// the order in which it stood.
pub proof fn law_stable_order_is_ascending(n: nat, lt: spec_fn(int, int) -> bool)
    requires
        weak_order(lt),
    ensures
        ascending(stable_order(n, lt), lt),
    decreases n,
{
    if n > 0 {
        let m = (n - 1) as nat;
        law_stable_order_is_ascending(m, lt);
        law_stable_order_is_a_permutation(m, lt);
        lemma_insert_ascending(stable_order(m, lt), n - 1, lt);
    }
}

/// Where an index goes: behind the last that it is not before.
proof fn lemma_insert_position(order: Seq<int>, i: int, lt: spec_fn(int, int) -> bool, p: int)
    requires
        0 <= p <= order.len(),
        p == 0 || !lt(i, order[p - 1]),
        forall|q: int| p <= q < order.len() ==> lt(i, #[trigger] order[q]),
    ensures
        insert_stable(order, i, lt) == order.insert(p, i),
    decreases order.len(),
{
    if p == order.len() {
        assert(order.insert(p, i) =~= order.push(i));
    } else {
        let rest = order.drop_last();
        assert forall|q: int| p <= q < rest.len() implies lt(i, #[trigger] rest[q]) by {
            assert(rest[q] == order[q]);
        }
        lemma_insert_position(rest, i, lt, p);
        assert(lt(i, order[order.len() - 1]));
        assert(order.insert(p, i) =~= rest.insert(p, i).push(order.last()));
    }
}

/// The indices below `n` in stable order, `before` telling which of two comes
/// strictly first.
pub(crate) fn sorted_indices<F: Fn(usize, usize) -> bool>(
    n: usize,
    before: F,
    Ghost(lt): Ghost<spec_fn(int, int) -> bool>,
) -> (r: Vec<usize>)
    requires
        forall|i: usize, j: usize| i < n && j < n ==> #[trigger] before.requires((i, j)),
        forall|i: usize, j: usize, b: bool|
            #[trigger] before.ensures((i, j), b) && i < n && j < n ==> b == lt(i as int, j as int),
    ensures
        ints(r@) == stable_order(n as nat, lt),
        forall|k: int| 0 <= k < r@.len() ==> #[trigger] r@[k] < n,
{
    let mut out: Vec<usize> = Vec::new();
    let mut i: usize = 0;
    assert(ints(out@) =~= stable_order(0, lt));
    while i < n
        invariant
            i <= n,
            ints(out@) == stable_order(i as nat, lt),
            forall|k: int| 0 <= k < out@.len() ==> #[trigger] out@[k] < n,
            forall|i: usize, j: usize| i < n && j < n ==> #[trigger] before.requires((i, j)),
            forall|i: usize, j: usize, b: bool|
                #[trigger] before.ensures((i, j), b) && i < n && j < n ==> b == lt(
                    i as int,
                    j as int,
                ),
        decreases n - i,
    {
        let mut p: usize = out.len();
        let mut stop: bool = false;
        while p > 0 && !stop
            invariant
                p <= out.len(),
                i < n,
                stop ==> p > 0 && !lt(i as int, out@[p - 1] as int),
                forall|q: int| p <= q < out.len() ==> lt(i as int, #[trigger] out@[q] as int),
                forall|k: int| 0 <= k < out@.len() ==> #[trigger] out@[k] < n,
                forall|i: usize, j: usize| i < n && j < n ==> #[trigger] before.requires((i, j)),
                forall|i: usize, j: usize, b: bool|
                    #[trigger] before.ensures((i, j), b) && i < n && j < n ==> b == lt(
                        i as int,
                        j as int,
                    ),
            decreases p + (if stop { 0int } else { 1int }),
        {
            if before(i, out[p - 1]) {
                p -= 1;
            } else {
                stop = true;
            }
        }
        let ghost order = ints(out@);
        proof {
            assert forall|q: int| p <= q < order.len() implies lt(i as int, #[trigger] order[q]) by {
                assert(order[q] == out@[q] as int);
            }
            lemma_insert_position(order, i as int, lt, p as int);
        }
        out.insert(p, i);
        assert(ints(out@) =~= order.insert(p as int, i as int));
        i += 1;
    }
    out
}

// --- sorting texts -----------------------------------------------------------

/// Whether text `i` of a list comes before text `j`.
pub open spec fn texts_lt(v: Seq<Seq<char>>) -> spec_fn(int, int) -> bool {
    |i: int, j: int| text_lt(v[i], v[j])
}

/// The texts in order.
pub open spec fn sorted_texts(v: Seq<Seq<char>>) -> Seq<Seq<char>> {
    pick(v, stable_order(v.len(), texts_lt(v)))
}

/// Whether each text of a list comes before the next.
pub open spec fn rising(v: Seq<Seq<char>>) -> bool {
    forall|i: int, j: int|
        0 <= i < j < v.len() ==> text_lt(#[trigger] v[i], #[trigger] v[j])
}

/// The order of texts orders a list.
pub proof fn lemma_texts_order(v: Seq<Seq<char>>)
    ensures
        weak_order(texts_lt(v)),
{
    let lt = texts_lt(v);
    assert forall|a: int, b: int| #[trigger] lt(a, b) implies !lt(b, a) by {
        law_text_order_is_total(v[a], v[b]);
    }
    assert forall|a: int, b: int, c: int| !#[trigger] lt(a, b) && !#[trigger] lt(b, c) implies !lt(
        a,
        c,
    ) by {
        law_text_order_is_total(v[a], v[b]);
        law_text_order_is_total(v[b], v[c]);
        law_text_order_is_total(v[a], v[c]);
        if text_lt(v[a], v[c]) && v[a] != v[b] {
            law_text_order_is_transitive(v[b], v[a], v[c]);
        }
    }
}

/// Sorting different texts gives the same texts, each before the next.
pub proof fn law_sorted_texts_rise(v: Seq<Seq<char>>)
    requires
        v.no_duplicates(),
    ensures
        rising(sorted_texts(v)),
        sorted_texts(v).to_set() == v.to_set(),
        sorted_texts(v).len() == v.len(),
{
    let lt = texts_lt(v);
    let n = v.len();
    let o = stable_order(n, lt);
    let out = sorted_texts(v);
    lemma_texts_order(v);
    law_stable_order_is_ascending(n, lt);
    law_stable_order_is_a_permutation(n, lt);
    assert forall|i: int, j: int| 0 <= i < j < out.len() implies text_lt(
        #[trigger] out[i],
        #[trigger] out[j],
    ) by {
        let a = o[i];
        let b = o[j];
        assert(0 <= a < n && 0 <= b < n && a != b);
        assert(out[i] == v[a] && out[j] == v[b]);
        assert(!lt(b, a));
        law_text_order_is_total(v[a], v[b]);
    }
    assert forall|x: Seq<char>| out.to_set().contains(x) == v.to_set().contains(x) by {
        if out.contains(x) {
            let i = choose|i: int| 0 <= i < out.len() && out[i] == x;
            assert(v[o[i]] == x);
        }
        if v.contains(x) {
            let a = choose|a: int| 0 <= a < v.len() && v[a] == x;
            lemma_order_reaches(n, lt, a);
            let i = choose|i: int| 0 <= i < o.len() && o[i] == a;
            assert(out[i] == x);
        }
    }
    assert(out.to_set() =~= v.to_set());
}

/// Every index is somewhere in the stable order.
pub proof fn lemma_order_reaches(n: nat, lt: spec_fn(int, int) -> bool, a: int)
    requires
        0 <= a < n,
    ensures
        stable_order(n, lt).contains(a),
{
    broadcast use vstd::seq_lib::group_to_multiset_ensures;
    law_stable_order_is_a_permutation(n, lt);
    let all = Seq::new(n, |i: int| i);
    assert(all[a] == a);
    assert(all.contains(a));
    assert(all.to_multiset().count(a) > 0);
    assert(stable_order(n, lt).to_multiset().count(a) > 0);
}

/// The texts in order.
pub fn sort_texts(v: &Vec<String>) -> (r: Vec<String>)
    ensures
        text::strs(r@) == sorted_texts(text::strs(v@)),
{
    let ghost all = text::strs(v@);
    let n = v.len();
    let before = |a: usize, b: usize| -> (r: bool)
        requires
            a < n,
            b < n,
            n == v.len(),
        ensures
            r == text_lt(v@[a as int]@, v@[b as int]@),
        { text_before(v[a].as_str(), v[b].as_str()) };
    let picked = sorted_indices(n, before, Ghost(texts_lt(all)));
    let mut out: Vec<String> = Vec::new();
    let mut k: usize = 0;
    while k < picked.len()
        invariant
            k <= picked.len(),
            n == v.len(),
            all == text::strs(v@),
            out.len() == k,
            forall|j: int| 0 <= j < picked@.len() ==> #[trigger] picked@[j] < n,
            forall|j: int| 0 <= j < k ==> (#[trigger] out@[j])@ == all[picked@[j] as int],
        decreases picked.len() - k,
    {
        out.push(v[picked[k]].clone());
        k += 1;
    }
    assert(text::strs(out@) =~= pick(all, ints(picked@)));
    out
}

/// Texts are ordered as in a dictionary: the first character in which they differ
/// decides, and a text comes before the longer ones that begin with it.
pub proof fn law_the_first_difference_orders(a: Seq<char>, x: char, b: Seq<char>, y: char, c: Seq<char>)
    ensures
        (x as u32) < (y as u32) ==> text_lt(a + seq![x] + b, a + seq![y] + c) && !text_lt(
            a + seq![y] + c,
            a + seq![x] + b,
        ),
        text_lt(a, a + seq![x] + b),
        !text_lt(a + seq![x] + b, a),
    decreases a.len(),
{
    let l = a + seq![x] + b;
    let r = a + seq![y] + c;
    if a.len() > 0 {
        law_the_first_difference_orders(a.skip(1), x, b, y, c);
        assert(l.skip(1) =~= a.skip(1) + seq![x] + b);
        assert(r.skip(1) =~= a.skip(1) + seq![y] + c);
        assert(l[0] == a[0] && r[0] == a[0]);
    } else {
        assert(l[0] == x && r[0] == y);
    }
}

/// No list comes before itself; of two different lists exactly one comes first.
pub proof fn law_list_order_is_total(a: Seq<Seq<char>>, b: Seq<Seq<char>>)
    ensures
        a == b ==> !list_lt(a, b),
        a != b ==> list_lt(a, b) != list_lt(b, a),
    decreases a.len(),
{
    if a.len() > 0 && b.len() > 0 {
        law_list_order_is_total(a.skip(1), b.skip(1));
        law_text_order_is_total(a[0], b[0]);
        if a[0] == b[0] && a.skip(1) == b.skip(1) {
            assert(a =~= seq![a[0]] + a.skip(1));
            assert(b =~= seq![b[0]] + b.skip(1));
        }
    } else if a.len() == 0 && b.len() == 0 {
        assert(a =~= b);
    }
}

/// The order of lists is transitive.
pub proof fn law_list_order_is_transitive(a: Seq<Seq<char>>, b: Seq<Seq<char>>, c: Seq<Seq<char>>)
    requires
        list_lt(a, b),
        list_lt(b, c),
    ensures
        list_lt(a, c),
    decreases a.len(),
{
    if a.len() > 0 && b.len() > 0 && c.len() > 0 {
        law_text_order_is_total(a[0], b[0]);
        law_text_order_is_total(b[0], c[0]);
        law_text_order_is_total(a[0], c[0]);
        if a[0] == b[0] && b[0] == c[0] {
            law_list_order_is_transitive(a.skip(1), b.skip(1), c.skip(1));
        } else if a[0] != b[0] && b[0] != c[0] {
            law_text_order_is_transitive(a[0], b[0], c[0]);
        }
    }
}

} // verus!
