//! Keys of profile instances in order: by runtime, then model, then profile.

use vstd::prelude::*;
use crate::order;
use crate::profiles::store::{key_views, Key, KeyView};

verus! {

/// Whether a key comes strictly before another.
pub open spec fn key_lt(a: KeyView, b: KeyView) -> bool {
    order::text_lt(a.runtime, b.runtime) || (a.runtime == b.runtime && (order::text_lt(
        a.model,
        b.model,
    ) || (a.model == b.model && order::text_lt(a.profile, b.profile))))
}

/// Whether each key comes strictly before the next, so that none is there twice.
pub open spec fn keys_rise(keys: Seq<KeyView>) -> bool {
    forall|i: int, j: int|
        0 <= i < j < keys.len() ==> key_lt(#[trigger] keys[i], #[trigger] keys[j])
}

/// Of two different keys exactly one comes first.
pub proof fn law_key_order_is_total(a: KeyView, b: KeyView)
    ensures
        a == b ==> !key_lt(a, b),
        a != b ==> key_lt(a, b) != key_lt(b, a),
{
    order::law_text_order_is_total(a.runtime, b.runtime);
    order::law_text_order_is_total(a.model, b.model);
    order::law_text_order_is_total(a.profile, b.profile);
}

/// The order of keys is transitive.
pub proof fn law_key_order_is_transitive(a: KeyView, b: KeyView, c: KeyView)
    requires
        key_lt(a, b),
        key_lt(b, c),
    ensures
        key_lt(a, c),
{
    if order::text_lt(a.runtime, b.runtime) && order::text_lt(b.runtime, c.runtime) {
        order::law_text_order_is_transitive(a.runtime, b.runtime, c.runtime);
    }
    if order::text_lt(a.model, b.model) && order::text_lt(b.model, c.model) {
        order::law_text_order_is_transitive(a.model, b.model, c.model);
    }
    if order::text_lt(a.profile, b.profile) && order::text_lt(b.profile, c.profile) {
        order::law_text_order_is_transitive(a.profile, b.profile, c.profile);
    }
}

spec fn index_lt(keys: Seq<KeyView>) -> spec_fn(int, int) -> bool {
    |i: int, j: int| key_lt(keys[i], keys[j])
}

proof fn lemma_index_order(keys: Seq<KeyView>)
    ensures
        order::weak_order(index_lt(keys)),
{
    let lt = index_lt(keys);
    assert forall|a: int, b: int| #[trigger] lt(a, b) implies !lt(b, a) by {
        law_key_order_is_total(keys[a], keys[b]);
    }
    assert forall|a: int, b: int, c: int|
        !#[trigger] lt(a, b) && !#[trigger] lt(b, c) implies !lt(a, c) by {
        law_key_order_is_total(keys[a], keys[b]);
        law_key_order_is_total(keys[b], keys[c]);
        law_key_order_is_total(keys[a], keys[c]);
        if key_lt(keys[a], keys[c]) && keys[a] != keys[b] {
            law_key_order_is_transitive(keys[b], keys[a], keys[c]);
        }
    }
}

fn key_before(a: &Key, b: &Key) -> (r: bool)
    ensures
        r == key_lt(a@, b@),
{
    proof {
        order::law_text_order_is_total(a@.runtime, b@.runtime);
        order::law_text_order_is_total(a@.model, b@.model);
    }
    if order::text_before(a.runtime.as_str(), b.runtime.as_str()) {
        return true;
    }
    if order::text_before(b.runtime.as_str(), a.runtime.as_str()) {
        return false;
    }
    if order::text_before(a.model.as_str(), b.model.as_str()) {
        return true;
    }
    if order::text_before(b.model.as_str(), a.model.as_str()) {
        return false;
    }
    order::text_before(a.profile.as_str(), b.profile.as_str())
}

/// Different keys in their order.
pub fn sort_keys(keys: &Vec<Key>) -> (r: Vec<Key>)
    requires
        key_views(keys@).no_duplicates(),
    ensures
        keys_rise(key_views(r@)),
        key_views(r@).to_set() == key_views(keys@).to_set(),
        r@.len() == keys@.len(),
{
    let ghost all = key_views(keys@);
    let n = keys.len();
    let before = |a: usize, b: usize| -> (r: bool)
        requires
            a < n,
            b < n,
            n == keys.len(),
        ensures
            r == key_lt(keys@[a as int]@, keys@[b as int]@),
        { key_before(&keys[a], &keys[b]) };
    let picked = order::sorted_indices(n, before, Ghost(index_lt(all)));
    let mut out: Vec<Key> = Vec::new();
    let mut k: usize = 0;
    while k < picked.len()
        invariant
            k <= picked.len(),
            n == keys.len(),
            all == key_views(keys@),
            out.len() == k,
            forall|j: int| 0 <= j < picked@.len() ==> #[trigger] picked@[j] < n,
            forall|j: int| 0 <= j < k ==> (#[trigger] out@[j])@ == all[picked@[j] as int],
        decreases picked.len() - k,
    {
        out.push(keys[picked[k]].clone());
        k += 1;
    }
    proof {
        let lt = index_lt(all);
        let o = order::stable_order(n as nat, lt);
        let got = key_views(out@);
        lemma_index_order(all);
        order::law_stable_order_is_ascending(n as nat, lt);
        order::law_stable_order_is_a_permutation(n as nat, lt);
        assert(order::ints(picked@) == o);
        assert forall|i: int| 0 <= i < got.len() implies got[i] == all[#[trigger] o[i]] by {
            assert(order::ints(picked@)[i] == picked@[i] as int);
        }
        assert forall|i: int, j: int| 0 <= i < j < got.len() implies key_lt(
            #[trigger] got[i],
            #[trigger] got[j],
        ) by {
            let a = o[i];
            let b = o[j];
            assert(a != b);
            assert(!lt(b, a));
            law_key_order_is_total(all[a], all[b]);
        }
        assert forall|x: KeyView| got.to_set().contains(x) == all.to_set().contains(x) by {
            if got.contains(x) {
                let i = choose|i: int| 0 <= i < got.len() && got[i] == x;
                assert(all[o[i]] == x);
            }
            if all.contains(x) {
                let a = choose|a: int| 0 <= a < all.len() && all[a] == x;
                order::lemma_order_reaches(n as nat, lt, a);
                let i = choose|i: int| 0 <= i < o.len() && o[i] == a;
                assert(got[i] == x);
            }
        }
        assert(got.to_set() =~= all.to_set());
    }
    out
}

/// Keys that rise are each there once.
pub proof fn law_rising_keys_differ(keys: Seq<KeyView>, i: int, j: int)
    requires
        keys_rise(keys),
        0 <= i < j < keys.len(),
    ensures
        keys[i] != keys[j],
        !key_lt(keys[j], keys[i]),
{
    let a = keys[i];
    let b = keys[j];
    assert(key_lt(a, b));
    order::law_text_order_is_total(a.runtime, b.runtime);
    order::law_text_order_is_total(a.model, b.model);
    order::law_text_order_is_total(a.profile, b.profile);
}

} // verus!
