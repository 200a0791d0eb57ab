//! The catalog as a tree: what a folder shows, and the way to an entry.

use vstd::prelude::*;
use crate::chars;
use crate::discovery::online::{bare_entry, bare_model, HUGGINGFACE, ONLINE};
use crate::domain::{views, Model, ModelView};
use crate::order;
use crate::text;
use crate::text::strs;

verus! {

// --- folders -----------------------------------------------------------------

/// Whether an entry lies below a folder.
pub open spec fn under(m: ModelView, prefix: Seq<Seq<char>>) -> bool {
    prefix.is_prefix_of(m.catalog_path) && m.catalog_path.len() > prefix.len()
}

/// The name by which a folder shows an entry below it.
pub open spec fn shown_as(m: ModelView, prefix: Seq<Seq<char>>) -> Seq<char> {
    m.catalog_path[prefix.len() as int]
}

/// What a folder shows for an entry: the entry itself, or the folder on the way
/// to it.
pub open spec fn child_for(m: ModelView, prefix: Seq<Seq<char>>) -> ModelView {
    if m.catalog_path.len() == prefix.len() + 1 {
        m
    } else {
        bare_entry(
            ""@,
            shown_as(m, prefix),
            m.catalog_path.take((prefix.len() + 1) as int),
            m.runtime,
        )
    }
}

/// Whether one of the entries with the given indices is shown by a name.
pub open spec fn name_taken(source: Seq<ModelView>, prefix: Seq<Seq<char>>, picks: Seq<int>, name: Seq<char>) -> bool {
    exists|k: int| 0 <= k < picks.len() && shown_as(source[#[trigger] picks[k]], prefix) == name
}

/// The first entries of each name among the first `n`.
pub open spec fn firsts(source: Seq<ModelView>, prefix: Seq<Seq<char>>, n: nat) -> Seq<int>
    decreases n,
{
    if n == 0 {
        Seq::<int>::empty()
    } else {
        let rest = firsts(source, prefix, (n - 1) as nat);
        if under(source[n - 1], prefix) && !name_taken(
            source,
            prefix,
            rest,
            shown_as(source[n - 1], prefix),
        ) {
            rest.push(n - 1)
        } else {
            rest
        }
    }
}

/// Whether pick `i` is shown before pick `j`: by name.
pub open spec fn child_lt(source: Seq<ModelView>, prefix: Seq<Seq<char>>, picks: Seq<int>) -> spec_fn(int, int) -> bool {
    |i: int, j: int|
        order::text_lt(shown_as(source[picks[i]], prefix), shown_as(source[picks[j]], prefix))
}

/// What a folder shows: for each name below it the first entry of that name, or
/// the folder on the way to it, by name.
pub open spec fn children_of(source: Seq<ModelView>, prefix: Seq<Seq<char>>) -> Seq<ModelView> {
    let picks = firsts(source, prefix, source.len());
    order::pick(picks, order::stable_order(picks.len(), child_lt(source, prefix, picks))).map_values(
        |i: int| child_for(source[i], prefix),
    )
}

proof fn lemma_firsts(source: Seq<ModelView>, prefix: Seq<Seq<char>>, n: nat)
    requires
        n <= source.len(),
    ensures
        forall|k: int|
            0 <= k < firsts(source, prefix, n).len() ==> 0 <= #[trigger] firsts(
                source,
                prefix,
                n,
            )[k] < n && under(source[firsts(source, prefix, n)[k]], prefix),
        forall|a: int, b: int|
            0 <= a < b < firsts(source, prefix, n).len() ==> shown_as(
                source[#[trigger] firsts(source, prefix, n)[a]],
                prefix,
            ) != shown_as(source[#[trigger] firsts(source, prefix, n)[b]], prefix),
        forall|i: int|
            0 <= i < n && under(#[trigger] source[i], prefix) ==> name_taken(
                source,
                prefix,
                firsts(source, prefix, n),
                shown_as(source[i], prefix),
            ),
    decreases n,
{
    if n > 0 {
        lemma_firsts(source, prefix, (n - 1) as nat);
        let rest = firsts(source, prefix, (n - 1) as nat);
        let all = firsts(source, prefix, n);
        assert forall|k: int| 0 <= k < all.len() implies 0 <= #[trigger] all[k] < n && under(
            source[all[k]],
            prefix,
        ) by {
            if k < rest.len() {
                assert(all[k] == rest[k]);
            }
        }
        assert forall|a: int, b: int| 0 <= a < b < all.len() implies shown_as(
            source[#[trigger] all[a]],
            prefix,
        ) != shown_as(source[#[trigger] all[b]], prefix) by {
            assert(all[a] == rest[a]);
            if b < rest.len() {
                assert(all[b] == rest[b]);
            } else {
                assert(!name_taken(source, prefix, rest, shown_as(source[n - 1], prefix)));
                assert(shown_as(source[rest[a]], prefix) != shown_as(source[n - 1], prefix));
            }
        }
        assert forall|i: int| 0 <= i < n && under(#[trigger] source[i], prefix) implies name_taken(
            source,
            prefix,
            all,
            shown_as(source[i], prefix),
        ) by {
            let name = shown_as(source[i], prefix);
            if i < n - 1 || name_taken(source, prefix, rest, name) {
                assert(name_taken(source, prefix, rest, name));
                let k = choose|k: int|
                    0 <= k < rest.len() && shown_as(source[#[trigger] rest[k]], prefix) == name;
                assert(all[k] == rest[k]);
            } else {
                assert(all[rest.len() as int] == n - 1);
            }
        }
    }
}

/// Nothing that lies below a folder is hidden from it: for every entry below it,
/// the folder shows an entry or folder of the name that leads to it.
pub proof fn law_folders_show_everything_below(source: Seq<ModelView>, prefix: Seq<Seq<char>>, i: int)
    requires
        0 <= i < source.len(),
        under(source[i], prefix),
    ensures
        exists|k: int|
            0 <= k < children_of(source, prefix).len() && (#[trigger] children_of(
                source,
                prefix,
            )[k]).catalog_path.len() == prefix.len() + 1 && children_of(
                source,
                prefix,
            )[k].catalog_path.last() == shown_as(source[i], prefix),
{
    let n = source.len();
    lemma_firsts(source, prefix, n);
    let picks = firsts(source, prefix, n);
    let lt = child_lt(source, prefix, picks);
    let name = shown_as(source[i], prefix);
    let a = choose|a: int| 0 <= a < picks.len() && shown_as(source[#[trigger] picks[a]], prefix) == name;
    order::law_stable_order_is_a_permutation(picks.len(), lt);
    order::lemma_order_reaches(picks.len(), lt, a);
    let o = order::stable_order(picks.len(), lt);
    let k = choose|k: int| 0 <= k < o.len() && o[k] == a;
    let out = children_of(source, prefix);
    assert(out[k] == child_for(source[picks[a]], prefix));
    assert(0 <= picks[a] < n && under(source[picks[a]], prefix));
}

/// No folder shows two entries of one name.
pub proof fn law_children_have_different_names(source: Seq<ModelView>, prefix: Seq<Seq<char>>, a: int, b: int)
    requires
        0 <= a < b < children_of(source, prefix).len(),
    ensures
        children_of(source, prefix)[a].catalog_path.last() != children_of(
            source,
            prefix,
        )[b].catalog_path.last(),
{
    let n = source.len();
    lemma_firsts(source, prefix, n);
    let picks = firsts(source, prefix, n);
    let lt = child_lt(source, prefix, picks);
    order::law_stable_order_is_a_permutation(picks.len(), lt);
    let o = order::stable_order(picks.len(), lt);
    let out = children_of(source, prefix);
    let x = o[a];
    let y = o[b];
    assert(0 <= x < picks.len() && 0 <= y < picks.len() && x != y);
    assert(out[a] == child_for(source[picks[x]], prefix));
    assert(out[b] == child_for(source[picks[y]], prefix));
    assert(under(source[picks[x]], prefix) && under(source[picks[y]], prefix));
    if x < y {
        assert(shown_as(source[picks[x]], prefix) != shown_as(source[picks[y]], prefix));
    } else {
        assert(shown_as(source[picks[y]], prefix) != shown_as(source[picks[x]], prefix));
    }
}

fn is_under(m: &Model, prefix: &Vec<String>) -> (r: bool)
    ensures
        r == under(m@, strs(prefix@)),
{
    text::list_starts_with(&m.catalog_path, prefix) && m.catalog_path.len() > prefix.len()
}

fn build_child(m: &Model, prefix: &Vec<String>) -> (r: Model)
    requires
        under(m@, strs(prefix@)),
    ensures
        r@ == child_for(m@, strs(prefix@)),
{
    let n = prefix.len();
    if m.catalog_path.len() == n + 1 {
        return m.clone();
    }
    let mut place: Vec<String> = Vec::new();
    let mut i: usize = 0;
    while i < n + 1
        invariant
            i <= n + 1 <= m.catalog_path.len(),
            place.len() == i,
            forall|j: int| 0 <= j < i ==> (#[trigger] place@[j])@ == m.catalog_path@[j]@,
        decreases n + 1 - i,
    {
        place.push(m.catalog_path[i].clone());
        i += 1;
    }
    assert(strs(place@) =~= m@.catalog_path.take(n + 1));
    bare_model(text::copy(""), m.catalog_path[n].clone(), place, m.runtime.clone())
}

fn find_firsts(source: &Vec<Model>, prefix: &Vec<String>) -> (r: Vec<usize>)
    ensures
        order::ints(r@) == firsts(views(source@), strs(prefix@), source@.len()),
        forall|k: int|
            0 <= k < r@.len() ==> #[trigger] r@[k] < source.len() && under(
                source@[r@[k] as int]@,
                strs(prefix@),
            ),
{
    let ghost all = views(source@);
    let ghost pre = strs(prefix@);
    let n = prefix.len();
    let mut out: Vec<usize> = Vec::new();
    let mut i: usize = 0;
    assert(order::ints(out@) =~= firsts(all, pre, 0));
    while i < source.len()
        invariant
            i <= source.len(),
            n == prefix.len(),
            all == views(source@),
            pre == strs(prefix@),
            order::ints(out@) == firsts(all, pre, i as nat),
            forall|k: int|
                0 <= k < out@.len() ==> #[trigger] out@[k] < source.len() && under(
                    source@[out@[k] as int]@,
                    pre,
                ),
        decreases source.len() - i,
    {
        let m = &source[i];
        assert(all[i as int] == m@);
        if is_under(m, prefix) {
            let name = m.catalog_path[n].as_str();
            assert(shown_as(m@, pre) == name@);
            let ghost had = order::ints(out@);
            let mut taken = false;
            let mut k: usize = 0;
            while k < out.len() && !taken
                invariant
                    k <= out.len(),
                    n == prefix.len(),
                    all == views(source@),
                    pre == strs(prefix@),
                    had == order::ints(out@),
                    name@ == shown_as(all[i as int], pre),
                    forall|k: int|
                        0 <= k < out@.len() ==> #[trigger] out@[k] < source.len() && under(
                            source@[out@[k] as int]@,
                            pre,
                        ),
                    taken ==> name_taken(all, pre, had, name@),
                    !taken ==> forall|j: int|
                        0 <= j < k ==> shown_as(all[#[trigger] had[j]], pre) != name@,
                decreases out.len() - k,
            {
                let other = &source[out[k]];
                proof {
                    assert(had[k as int] == out@[k as int]);
                    assert(all[had[k as int]] == other@);
                    assert(under(other@, pre));
                }
                taken = text::same(other.catalog_path[n].as_str(), name);
                k += 1;
            }
            if !taken {
                assert(!name_taken(all, pre, had, name@));
                out.push(i);
                assert(order::ints(out@) =~= had.push(i as int));
            }
        }
        i += 1;
    }
    out
}

/// What a folder of a flat list shows: entries, and one folder for each name on
/// the way to deeper ones, by name.
pub fn catalog_children_of(source: &Vec<Model>, prefix: &Vec<String>) -> (r: Vec<Model>)
    ensures
        views(r@) == children_of(views(source@), strs(prefix@)),
{
    let ghost all = views(source@);
    let ghost pre = strs(prefix@);
    let depth = prefix.len();
    let picks = find_firsts(source, prefix);
    let ghost chosen = order::ints(picks@);
    let n = picks.len();
    let mut names: Vec<String> = Vec::new();
    let mut i: usize = 0;
    while i < n
        invariant
            n == picks.len(),
            i <= n,
            depth == prefix.len(),
            pre == strs(prefix@),
            all == views(source@),
            chosen == order::ints(picks@),
            names.len() == i,
            forall|k: int|
                0 <= k < picks@.len() ==> #[trigger] picks@[k] < source.len() && under(
                    source@[picks@[k] as int]@,
                    pre,
                ),
            forall|k: int| 0 <= k < i ==> (#[trigger] names@[k])@ == shown_as(all[chosen[k]], pre),
        decreases n - i,
    {
        let m = &source[picks[i]];
        proof {
            assert(chosen[i as int] == picks@[i as int]);
            assert(all[chosen[i as int]] == m@);
            assert(under(m@, pre));
        }
        names.push(m.catalog_path[depth].clone());
        i += 1;
    }
    let before = |a: usize, b: usize| -> (r: bool)
        requires
            a < n,
            b < n,
            n == names.len(),
        ensures
            r == order::text_lt(names@[a as int]@, names@[b as int]@),
        { order::text_before(names[a].as_str(), names[b].as_str()) };
    let sorted = order::sorted_indices(n, before, Ghost(child_lt(all, pre, chosen)));
    let ghost want = children_of(all, pre);
    let mut out: Vec<Model> = Vec::new();
    let mut k: usize = 0;
    proof {
        assert(chosen == firsts(all, pre, all.len()));
        assert(order::ints(sorted@).len() == sorted@.len());
        assert(want.len() == sorted@.len());
    }
    while k < sorted.len()
        invariant
            k <= sorted.len(),
            n == picks.len(),
            pre == strs(prefix@),
            all == views(source@),
            chosen == order::ints(picks@),
            want.len() == sorted@.len(),
            order::ints(sorted@) == order::stable_order(chosen.len(), child_lt(all, pre, chosen)),
            chosen == firsts(all, pre, all.len()),
            want == children_of(all, pre),
            forall|k: int|
                0 <= k < picks@.len() ==> #[trigger] picks@[k] < source.len() && under(
                    source@[picks@[k] as int]@,
                    pre,
                ),
            forall|j: int| 0 <= j < sorted@.len() ==> #[trigger] sorted@[j] < n,
            out.len() == k,
            forall|j: int| 0 <= j < k ==> (#[trigger] out@[j])@ == want[j],
        decreases sorted.len() - k,
    {
        let at = picks[sorted[k]];
        proof {
            let o = order::ints(sorted@);
            assert(o[k as int] == sorted@[k as int]);
            assert(chosen[sorted@[k as int] as int] == at);
            assert(all[at as int] == source@[at as int]@);
            assert(under(source@[at as int]@, pre));
            assert(want[k as int] == child_for(all[chosen[o[k as int]]], pre));
        }
        out.push(build_child(&source[at], prefix));
        k += 1;
    }
    assert(views(out@) =~= want);
    out
}

// --- the online tree ---------------------------------------------------------

/// Whether a folder is that of the Hugging Face repositories.
pub open spec fn is_hub_folder(prefix: Seq<Seq<char>>) -> bool {
    prefix == seq![ONLINE@, HUGGINGFACE@]
}

/// Whether a folder is that of one repository.
pub open spec fn is_repository_folder(prefix: Seq<Seq<char>>) -> bool {
    prefix.len() == 3 && prefix[0] == ONLINE@ && prefix[1] == HUGGINGFACE@
}

/// Whether an entry stands directly in a folder and has a remote identity, of a
/// file or of a repository.
pub open spec fn stands_in(m: ModelView, prefix: Seq<Seq<char>>, file: bool) -> bool {
    prefix.is_prefix_of(m.catalog_path) && m.catalog_path.len() == prefix.len() + 1 && m.remote is Some
        && (m.remote->0.file is Some) == file
}

/// The entries that stand directly in a folder, in the order of the list.
pub open spec fn standing(models: Seq<ModelView>, prefix: Seq<Seq<char>>, file: bool, n: nat) -> Seq<ModelView>
    decreases n,
{
    if n == 0 {
        Seq::<ModelView>::empty()
    } else {
        let rest = standing(models, prefix, file, (n - 1) as nat);
        if stands_in(models[n - 1], prefix, file) {
            rest.push(models[n - 1])
        } else {
            rest
        }
    }
}

/// Whether artifact `i` comes before artifact `j`: from the smallest download to
/// the largest, unknown sizes last, then by name.
pub open spec fn smaller_lt(models: Seq<ModelView>) -> spec_fn(int, int) -> bool {
    |i: int, j: int|
        {
            let a = models[i];
            let b = models[j];
            if (a.size_bytes == 0) != (b.size_bytes == 0) {
                b.size_bytes == 0
            } else if a.size_bytes != b.size_bytes {
                a.size_bytes < b.size_bytes
            } else {
                order::text_lt(chars::ascii_lower(a.name), chars::ascii_lower(b.name))
            }
        }
}

/// The artifacts from the smallest download to the largest.
pub open spec fn smallest_first(models: Seq<ModelView>) -> Seq<ModelView> {
    order::pick(models, order::stable_order(models.len(), smaller_lt(models)))
}

/// What a folder shows. Repositories keep the order in which the Hub ranked them,
/// artifacts go by size, everything else by name.
pub open spec fn shown_children(source: Seq<ModelView>, prefix: Seq<Seq<char>>) -> Seq<ModelView> {
    if is_hub_folder(prefix) {
        standing(source, prefix, false, source.len())
    } else if is_repository_folder(prefix) {
        smallest_first(standing(source, prefix, true, source.len()))
    } else {
        children_of(source, prefix)
    }
}

fn collect_standing(models: &Vec<Model>, prefix: &Vec<String>, file: bool) -> (r: Vec<Model>)
    ensures
        views(r@) == standing(views(models@), strs(prefix@), file, models@.len()),
{
    let ghost all = views(models@);
    let mut out: Vec<Model> = Vec::new();
    let mut i: usize = 0;
    assert(views(out@) =~= standing(all, strs(prefix@), file, 0));
    while i < models.len()
        invariant
            i <= models.len(),
            all == views(models@),
            views(out@) == standing(all, strs(prefix@), file, i as nat),
        decreases models.len() - i,
    {
        let m = &models[i];
        assert(all[i as int] == m@);
        let remote = match &m.remote {
            Some(r) => r.file.is_some() == file,
            None => false,
        };
        if remote && text::list_starts_with(&m.catalog_path, prefix) && m.catalog_path.len() > 0
            && m.catalog_path.len() - 1 == prefix.len() {
            let ghost before = views(out@);
            out.push(m.clone());
            assert(views(out@) =~= before.push(m@));
        }
        i += 1;
    }
    out
}

fn is_hub_prefix(prefix: &Vec<String>) -> (r: bool)
    ensures
        r == is_hub_folder(strs(prefix@)),
{
    let ghost p = strs(prefix@);
    assert(p.len() == prefix@.len());
    assert(seq![ONLINE@, HUGGINGFACE@].len() == 2);
    if prefix.len() != 2 {
        return false;
    }
    assert(p[0] == prefix@[0]@ && p[1] == prefix@[1]@);
    let r = text::same(prefix[0].as_str(), ONLINE) && text::same(prefix[1].as_str(), HUGGINGFACE);
    proof {
        let hub = seq![ONLINE@, HUGGINGFACE@];
        if r {
            assert(p =~= hub);
        } else {
            assert(p[0] != hub[0] || p[1] != hub[1]);
        }
    }
    r
}

/// Whether a folder is that of one repository.
pub fn is_repository_prefix(prefix: &Vec<String>) -> (r: bool)
    ensures
        r == is_repository_folder(strs(prefix@)),
{
    if prefix.len() != 3 {
        return false;
    }
    assert(strs(prefix@)[0] == prefix@[0]@ && strs(prefix@)[1] == prefix@[1]@);
    text::same(prefix[0].as_str(), ONLINE) && text::same(prefix[1].as_str(), HUGGINGFACE)
}

/// The repositories in the order in which the Hub ranked them, where the folder
/// is theirs.
pub fn online_repository_children(models: &Vec<Model>, prefix: &Vec<String>) -> (r: Option<Vec<Model>>)
    ensures
        match r {
            Some(v) => is_hub_folder(strs(prefix@)) && views(v@) == standing(
                views(models@),
                strs(prefix@),
                false,
                models@.len(),
            ),
            None => !is_hub_folder(strs(prefix@)),
        },
{
    if is_hub_prefix(prefix) {
        Some(collect_standing(models, prefix, false))
    } else {
        None
    }
}

fn sort_by_size(models: &Vec<Model>) -> (r: Vec<Model>)
    ensures
        views(r@) == smallest_first(views(models@)),
{
    let ghost all = views(models@);
    let n = models.len();
    let mut keys: Vec<String> = Vec::new();
    let mut sizes: Vec<u64> = Vec::new();
    let mut i: usize = 0;
    while i < n
        invariant
            n == models.len(),
            i <= n,
            all == views(models@),
            keys.len() == i,
            sizes.len() == i,
            forall|j: int| 0 <= j < i ==> (#[trigger] keys@[j])@ == chars::ascii_lower(all[j].name),
            forall|j: int| 0 <= j < i ==> #[trigger] sizes@[j] == all[j].size_bytes,
        decreases n - i,
    {
        assert(all[i as int] == models@[i as int]@);
        keys.push(chars::to_ascii_lower(models[i].name.as_str()));
        sizes.push(models[i].size_bytes);
        i += 1;
    }
    let before = |a: usize, b: usize| -> (r: bool)
        requires
            a < n,
            b < n,
            n == keys.len(),
            n == sizes.len(),
        ensures
            r == (if (sizes@[a as int] == 0) != (sizes@[b as int] == 0) {
                sizes@[b as int] == 0
            } else if sizes@[a as int] != sizes@[b as int] {
                sizes@[a as int] < sizes@[b as int]
            } else {
                order::text_lt(keys@[a as int]@, keys@[b as int]@)
            }),
        {
            if (sizes[a] == 0) != (sizes[b] == 0) {
                sizes[b] == 0
            } else if sizes[a] != sizes[b] {
                sizes[a] < sizes[b]
            } else {
                order::text_before(keys[a].as_str(), keys[b].as_str())
            }
        };
    let picked = order::sorted_indices(n, before, Ghost(smaller_lt(all)));
    let mut out: Vec<Model> = Vec::new();
    let mut k: usize = 0;
    while k < picked.len()
        invariant
            k <= picked.len(),
            n == models.len(),
            all == views(models@),
            out.len() == k,
            forall|j: int| 0 <= j < picked@.len() ==> #[trigger] picked@[j] < n,
            forall|j: int| 0 <= j < k ==> (#[trigger] out@[j])@ == all[picked@[j] as int],
        decreases picked.len() - k,
    {
        assert(all[picked@[k as int] as int] == models@[picked@[k as int] as int]@);
        out.push(models[picked[k]].clone());
        k += 1;
    }
    assert(views(out@) =~= order::pick(all, order::ints(picked@)));
    out
}

/// The artifacts from the smallest download to the largest, where the folder is
/// that of a repository.
pub fn online_artifact_children(models: &Vec<Model>, prefix: &Vec<String>) -> (r: Option<Vec<Model>>)
    ensures
        match r {
            Some(v) => is_repository_folder(strs(prefix@)) && views(v@) == smallest_first(
                standing(views(models@), strs(prefix@), true, models@.len()),
            ),
            None => !is_repository_folder(strs(prefix@)),
        },
{
    if is_repository_prefix(prefix) {
        let found = collect_standing(models, prefix, true);
        Some(sort_by_size(&found))
    } else {
        None
    }
}

/// What a folder shows.
pub fn catalog_children(source: &Vec<Model>, prefix: &Vec<String>) -> (r: Vec<Model>)
    ensures
        views(r@) == shown_children(views(source@), strs(prefix@)),
{
    if let Some(v) = online_repository_children(source, prefix) {
        return v;
    }
    if let Some(v) = online_artifact_children(source, prefix) {
        return v;
    }
    catalog_children_of(source, prefix)
}

// --- the way to an entry -----------------------------------------------------

/// A folder that was left on the way: what it showed, which entry was selected,
/// and its place.
#[derive(Debug)]
pub struct Step {
    pub items: Vec<Model>,
    pub selected: Option<usize>,
    pub prefix: Vec<String>,
}

pub struct StepView {
    pub items: Seq<ModelView>,
    pub selected: Option<usize>,
    pub prefix: Seq<Seq<char>>,
}

impl View for Step {
    type V = StepView;

    open spec fn view(&self) -> StepView {
        StepView {
            items: views(self.items@),
            selected: self.selected,
            prefix: strs(self.prefix@),
        }
    }
}

/// The views of the folders on a way.
pub open spec fn step_views(v: Seq<Step>) -> Seq<StepView> {
    v.map_values(|s: Step| s@)
}

/// A place in the browser: a folder's entries with one selected, and the way to
/// it.
#[derive(Debug)]
pub struct CatalogRoute {
    pub items: Vec<Model>,
    pub selected: usize,
    pub prefix: Vec<String>,
    pub history: Vec<Step>,
}

pub struct RouteView {
    pub items: Seq<ModelView>,
    pub selected: int,
    pub prefix: Seq<Seq<char>>,
    pub history: Seq<StepView>,
}

impl View for CatalogRoute {
    type V = RouteView;

    open spec fn view(&self) -> RouteView {
        RouteView {
            items: views(self.items@),
            selected: self.selected as int,
            prefix: strs(self.prefix@),
            history: step_views(self.history@),
        }
    }
}

/// The first entry with a label, from `from` on.
pub open spec fn labelled(items: Seq<ModelView>, label: Seq<char>, from: int) -> Option<int>
    decreases items.len() - from,
{
    if from < 0 || from >= items.len() {
        None
    } else if items[from].display_label() == label {
        Some(from)
    } else {
        labelled(items, label, from + 1)
    }
}

/// The way to an entry from a folder on it: each component is selected in its
/// folder and, but for the last, entered.
pub open spec fn way(source: Seq<ModelView>, goal: Seq<Seq<char>>, depth: int, prefix: Seq<Seq<char>>, history: Seq<StepView>) -> Option<RouteView>
    decreases goal.len() - depth,
{
    if depth < 0 || depth >= goal.len() {
        None
    } else {
        let items = shown_children(source, prefix);
        match labelled(items, goal[depth], 0) {
            None => None,
            Some(i) => if depth + 1 == goal.len() {
                Some(RouteView { items, selected: i, prefix, history })
            } else if items[i].is_catalog_dir() {
                way(
                    source,
                    goal,
                    depth + 1,
                    items[i].catalog_path,
                    history.push(StepView { items, selected: Some(i as usize), prefix }),
                )
            } else {
                None
            },
        }
    }
}

/// The way to an entry from the top of the catalog.
pub open spec fn route_to(source: Seq<ModelView>, goal: Seq<Seq<char>>) -> Option<RouteView> {
    way(source, goal, 0, Seq::<Seq<char>>::empty(), Seq::<StepView>::empty())
}

fn find_label(items: &Vec<Model>, label: &str) -> (r: Option<usize>)
    ensures
        match r {
            Some(i) => i < items.len() && labelled(views(items@), label@, 0) == Some(i as int),
            None => labelled(views(items@), label@, 0) is None,
        },
{
    let ghost all = views(items@);
    let mut i: usize = 0;
    while i < items.len()
        invariant
            i <= items.len(),
            all == views(items@),
            labelled(all, label@, 0) == labelled(all, label@, i as int),
        decreases items.len() - i,
    {
        assert(all[i as int] == items@[i as int]@);
        if text::same(items[i].display_label(), label) {
            return Some(i);
        }
        i += 1;
    }
    None
}

/// The way to an entry from the top of the catalog, if the whole of it exists.
pub fn catalog_route(source: &Vec<Model>, goal: &Vec<String>) -> (r: Option<CatalogRoute>)
    ensures
        match r {
            Some(route) => route.selected < route.items.len() && route_to(
                views(source@),
                strs(goal@),
            ) == Some(route@),
            None => route_to(views(source@), strs(goal@)) is None,
        },
{
    let ghost all = views(source@);
    let ghost path = strs(goal@);
    let mut prefix: Vec<String> = Vec::new();
    let mut history: Vec<Step> = Vec::new();
    let mut depth: usize = 0;
    assert(strs(prefix@) =~= Seq::<Seq<char>>::empty());
    assert(step_views(history@) =~= Seq::<StepView>::empty());
    while depth < goal.len()
        invariant
            depth <= goal.len(),
            all == views(source@),
            path == strs(goal@),
            route_to(all, path) == way(
                all,
                path,
                depth as int,
                strs(prefix@),
                step_views(history@),
            ),
        decreases goal.len() - depth,
    {
        assert(path[depth as int] == goal@[depth as int]@);
        let items = catalog_children(source, &prefix);
        let ghost shown = views(items@);
        let i = match find_label(&items, goal[depth].as_str()) {
            None => return None,
            Some(i) => i,
        };
        assert(shown[i as int] == items@[i as int]@);
        if depth + 1 == goal.len() {
            return Some(CatalogRoute { items, selected: i, prefix, history });
        }
        if !items[i].is_catalog_dir() {
            return None;
        }
        let next = text::copy_all(&items[i].catalog_path);
        let ghost had = step_views(history@);
        let step = Step { items, selected: Some(i), prefix };
        let ghost view = step@;
        history.push(step);
        assert(step_views(history@) =~= had.push(view));
        prefix = next;
        depth += 1;
    }
    None
}

proof fn lemma_labelled(items: Seq<ModelView>, label: Seq<char>, from: int)
    requires
        0 <= from,
    ensures
        match labelled(items, label, from) {
            Some(i) => from <= i < items.len() && items[i].display_label() == label,
            None => true,
        },
    decreases items.len() - from,
{
    if from < items.len() {
        lemma_labelled(items, label, from + 1);
    }
}

proof fn lemma_way(source: Seq<ModelView>, goal: Seq<Seq<char>>, depth: int, prefix: Seq<Seq<char>>, history: Seq<StepView>)
    requires
        0 <= depth,
    ensures
        match way(source, goal, depth, prefix, history) {
            Some(r) => {
                &&& 0 <= r.selected < r.items.len()
                &&& r.items == shown_children(source, r.prefix)
                &&& r.items[r.selected].display_label() == goal.last()
                &&& r.history.len() == history.len() + goal.len() - depth - 1
            },
            None => true,
        },
    decreases goal.len() - depth,
{
    if depth < goal.len() {
        let items = shown_children(source, prefix);
        lemma_labelled(items, goal[depth], 0);
        match labelled(items, goal[depth], 0) {
            None => {},
            Some(i) => {
                if depth + 1 < goal.len() && items[i].is_catalog_dir() {
                    lemma_way(
                        source,
                        goal,
                        depth + 1,
                        items[i].catalog_path,
                        history.push(StepView { items, selected: Some(i as usize), prefix }),
                    );
                }
            },
        }
    }
}

/// The way to an entry ends on the entry: in a folder that shows it, with it
/// selected, and with one folder behind for each component before it.
pub proof fn law_ways_end_on_their_entry(source: Seq<ModelView>, goal: Seq<Seq<char>>)
    requires
        route_to(source, goal) is Some,
    ensures
        ({
            let r = route_to(source, goal)->0;
            &&& 0 <= r.selected < r.items.len()
            &&& r.items == shown_children(source, r.prefix)
            &&& r.items[r.selected].display_label() == goal.last()
            &&& r.history.len() == goal.len() - 1
        }),
{
    lemma_way(source, goal, 0, Seq::<Seq<char>>::empty(), Seq::<StepView>::empty());
}

// --- in what order -----------------------------------------------------------

proof fn lemma_smaller_order(models: Seq<ModelView>)
    ensures
        order::weak_order(smaller_lt(models)),
{
    let lt = smaller_lt(models);
    assert forall|a: int, b: int| #[trigger] lt(a, b) implies !lt(b, a) by {
        order::law_text_order_is_total(
            chars::ascii_lower(models[a].name),
            chars::ascii_lower(models[b].name),
        );
    }
    assert forall|a: int, b: int, c: int|
        !#[trigger] lt(a, b) && !#[trigger] lt(b, c) implies !lt(a, c) by {
        let x = chars::ascii_lower(models[a].name);
        let y = chars::ascii_lower(models[b].name);
        let z = chars::ascii_lower(models[c].name);
        order::law_text_order_is_total(x, y);
        order::law_text_order_is_total(y, z);
        order::law_text_order_is_total(x, z);
        if lt(a, c) && models[a].size_bytes == models[b].size_bytes && models[b].size_bytes
            == models[c].size_bytes {
            if x != y {
                order::law_text_order_is_transitive(y, x, z);
            }
        }
    }
}

/// Artifacts are shown from the smallest download to the largest, those of unknown size
/// last.
pub proof fn law_artifacts_are_shown_by_size(models: Seq<ModelView>, i: int, j: int)
    requires
        0 <= i < j < smallest_first(models).len(),
    ensures
        smallest_first(models).len() == models.len(),
        smallest_first(models)[i].size_bytes == 0 ==> smallest_first(models)[j].size_bytes == 0,
        smallest_first(models)[j].size_bytes > 0 ==> smallest_first(models)[i].size_bytes
            <= smallest_first(models)[j].size_bytes,
{
    let lt = smaller_lt(models);
    lemma_smaller_order(models);
    order::law_stable_order_is_a_permutation(models.len(), lt);
    order::law_stable_order_is_ascending(models.len(), lt);
    let picked = order::stable_order(models.len(), lt);
    assert(!lt(picked[j], picked[i]));
}

/// Repositories are shown in the order in which the Hub ranked them, and all of them:
/// they are those of the list that stand in the folder.
pub proof fn law_repositories_keep_their_rank(models: Seq<ModelView>, prefix: Seq<Seq<char>>, file: bool, n: nat)
    requires
        n <= models.len(),
    ensures
        standing(models, prefix, file, n) == models.take(n as int).filter(
            |m: ModelView| stands_in(m, prefix, file),
        ),
    decreases n,
{
    reveal(Seq::filter);
    let pred = |m: ModelView| stands_in(m, prefix, file);
    if n > 0 {
        law_repositories_keep_their_rank(models, prefix, file, (n - 1) as nat);
        let some = models.take(n as int);
        assert(some.drop_last() =~= models.take(n - 1));
        assert(some.last() == models[n - 1]);
    } else {
        assert(models.take(0) =~= Seq::<ModelView>::empty());
    }
}

proof fn lemma_child_order(source: Seq<ModelView>, prefix: Seq<Seq<char>>, picks: Seq<int>)
    ensures
        order::weak_order(child_lt(source, prefix, picks)),
{
    let lt = child_lt(source, prefix, picks);
    assert forall|a: int, b: int| #[trigger] lt(a, b) implies !lt(b, a) by {
        order::law_text_order_is_total(
            shown_as(source[picks[a]], prefix),
            shown_as(source[picks[b]], prefix),
        );
    }
    assert forall|a: int, b: int, c: int|
        !#[trigger] lt(a, b) && !#[trigger] lt(b, c) implies !lt(a, c) by {
        let x = shown_as(source[picks[a]], prefix);
        let y = shown_as(source[picks[b]], prefix);
        let z = shown_as(source[picks[c]], prefix);
        order::law_text_order_is_total(x, y);
        order::law_text_order_is_total(y, z);
        order::law_text_order_is_total(x, z);
        if order::text_lt(x, z) && x != y {
            order::law_text_order_is_transitive(y, x, z);
        }
    }
}

/// A folder shows what it holds by name, and each of its entries as what it is: an
/// entry of the list that stands in it, or a folder on the way to one.
pub proof fn law_folders_are_shown_by_name(source: Seq<ModelView>, prefix: Seq<Seq<char>>, i: int, j: int)
    requires
        0 <= i < j < children_of(source, prefix).len(),
    ensures
        order::text_lt(
            children_of(source, prefix)[i].catalog_path.last(),
            children_of(source, prefix)[j].catalog_path.last(),
        ),
        exists|k: int|
            0 <= k < source.len() && prefix.is_prefix_of((#[trigger] source[k]).catalog_path)
                && children_of(source, prefix)[i].catalog_path == source[k].catalog_path.take(
                (prefix.len() + 1) as int,
            ) && (source[k].catalog_path.len() == prefix.len() + 1 ==> children_of(
                source,
                prefix,
            )[i] == source[k]),
{
    let picks = firsts(source, prefix, source.len());
    let lt = child_lt(source, prefix, picks);
    lemma_firsts(source, prefix, source.len());
    lemma_child_order(source, prefix, picks);
    order::law_stable_order_is_a_permutation(picks.len(), lt);
    order::law_stable_order_is_ascending(picks.len(), lt);
    let o = order::stable_order(picks.len(), lt);
    let a = picks[o[i]];
    let b = picks[o[j]];
    assert(!lt(o[j], o[i]));
    assert(o[i] != o[j]);
    assert(under(source[a], prefix) && under(source[b], prefix));
    let x = children_of(source, prefix)[i];
    let y = children_of(source, prefix)[j];
    assert(x == child_for(source[a], prefix));
    assert(y == child_for(source[b], prefix));
    let n = (prefix.len() + 1) as int;
    if source[a].catalog_path.len() == n {
        assert(source[a].catalog_path.take(n) =~= source[a].catalog_path);
    }
    assert(x.catalog_path.last() == shown_as(source[a], prefix));
    assert(y.catalog_path.last() == shown_as(source[b], prefix));
    order::law_text_order_is_total(shown_as(source[a], prefix), shown_as(source[b], prefix));
}

} // verus!
