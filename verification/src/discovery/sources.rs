//! Where to look for models: the configured directories, or the well-known ones
//! of local runtimes.

use vstd::prelude::*;
use crate::config::{ModelLayout, ModelSourceConfig};
use crate::discovery::catalog::{ModelSource, SourceView};
use crate::discovery::scan::source_views;
use crate::number;
use crate::order;
use crate::path;
use crate::text;
use crate::text::{opt, strs};

verus! {

/// What the environment says of the places of models.
#[derive(Debug)]
pub struct SourceEnv {
    pub home: Option<String>,
    pub llama_cache: Option<String>,
    pub huggingface_hub_cache: Option<String>,
    pub hf_home: Option<String>,
}

/// Whether the first component of a path is a tilde.
pub open spec fn in_home(p: Seq<char>) -> bool {
    p.len() > 0 && p[0] == '~' && (p.len() == 1 || p[1] == '/')
}

/// The path with the user's home in the place of a leading tilde. What follows stays
/// as it is written, but for separators and lone dots at its start and end.
pub open spec fn expanded(p: Seq<char>, home: Option<Seq<char>>) -> Seq<char> {
    match home {
        Some(h) => if in_home(p) {
            path::joined(h, path::strip_tail(path::strip_head(p.skip(1))))
        } else {
            p
        },
        None => p,
    }
}

/// The path with the user's home in the place of a leading tilde.
pub fn expand(p: &str, home: &Option<String>) -> (r: String)
    ensures
        r@ == expanded(p@, opt(*home)),
{
    let n = p.unicode_len();
    match home {
        Some(h) => if n > 0 && p.get_char(0) == '~' && (n == 1 || p.get_char(1) == '/') {
            let rest = text::piece(p, 1, n);
            assert(rest@ =~= p@.skip(1));
            let rest = path::without_tail(path::without_head(rest.as_str()).as_str());
            path::join(h.as_str(), rest.as_str())
        } else {
            text::copy(p)
        },
        None => text::copy(p),
    }
}

/// Where llama.cpp keeps its downloads.
pub open spec fn llama_source(env: SourceEnv) -> Seq<SourceView> {
    match (env.llama_cache, env.home) {
        (Some(c), _) => seq![
            SourceView { name: "llama-cache"@, root: c@, layout: ModelLayout::Directory },
        ],
        (None, Some(h)) => seq![
            SourceView {
                name: "llama-cache"@,
                root: path::joined(h@, ".cache/llama.cpp"@),
                layout: ModelLayout::Directory,
            },
        ],
        (None, None) => Seq::<SourceView>::empty(),
    }
}

/// Where the Hugging Face cache is.
pub open spec fn hub_source(env: SourceEnv) -> Seq<SourceView> {
    match (env.huggingface_hub_cache, env.hf_home, env.home) {
        (Some(c), _, _) => seq![
            SourceView { name: "huggingface"@, root: c@, layout: ModelLayout::HuggingFace },
        ],
        (None, Some(h), _) => seq![
            SourceView {
                name: "huggingface"@,
                root: path::joined(h@, "hub"@),
                layout: ModelLayout::HuggingFace,
            },
        ],
        (None, None, Some(h)) => seq![
            SourceView {
                name: "huggingface"@,
                root: path::joined(h@, ".cache/huggingface/hub"@),
                layout: ModelLayout::HuggingFace,
            },
        ],
        (None, None, None) => Seq::<SourceView>::empty(),
    }
}

/// The user's own directories.
pub open spec fn home_sources(env: SourceEnv) -> Seq<SourceView> {
    match env.home {
        Some(h) => seq![
            SourceView {
                name: "lmstudio"@,
                root: path::joined(h@, ".lmstudio/models"@),
                layout: ModelLayout::LmStudio,
            },
            SourceView {
                name: "models"@,
                root: path::joined(h@, "models"@),
                layout: ModelLayout::Directory,
            },
        ],
        None => Seq::<SourceView>::empty(),
    }
}

/// The well-known places of models.
pub open spec fn default_sources(env: SourceEnv) -> Seq<SourceView> {
    llama_source(env) + hub_source(env) + home_sources(env)
}

fn add_source(out: &mut Vec<ModelSource>, name: &str, root: String, layout: ModelLayout)
    ensures
        source_views(final(out)@) == source_views(old(out)@).push(
            SourceView { name: name@, root: root@, layout },
        ),
{
    let ghost before = source_views(out@);
    out.push(ModelSource { name: text::copy(name), root, layout });
    assert(source_views(out@) =~= before.push(SourceView { name: name@, root: root@, layout }));
}

/// The well-known places of models. Which of them exist does not matter here.
pub fn default_model_sources(env: &SourceEnv) -> (r: Vec<ModelSource>)
    ensures
        source_views(r@) == default_sources(*env),
{
    let mut out: Vec<ModelSource> = Vec::new();
    match &env.llama_cache {
        Some(c) => add_source(&mut out, "llama-cache", c.clone(), ModelLayout::Directory),
        None => if let Some(h) = &env.home {
            add_source(
                &mut out,
                "llama-cache",
                path::join(h.as_str(), ".cache/llama.cpp"),
                ModelLayout::Directory,
            );
        },
    }
    assert(source_views(out@) =~= llama_source(*env));
    match &env.huggingface_hub_cache {
        Some(c) => add_source(&mut out, "huggingface", c.clone(), ModelLayout::HuggingFace),
        None => match &env.hf_home {
            Some(h) => add_source(
                &mut out,
                "huggingface",
                path::join(h.as_str(), "hub"),
                ModelLayout::HuggingFace,
            ),
            None => if let Some(h) = &env.home {
                add_source(
                    &mut out,
                    "huggingface",
                    path::join(h.as_str(), ".cache/huggingface/hub"),
                    ModelLayout::HuggingFace,
                );
            },
        },
    }
    assert(source_views(out@) =~= llama_source(*env) + hub_source(*env));
    if let Some(h) = &env.home {
        add_source(
            &mut out,
            "lmstudio",
            path::join(h.as_str(), ".lmstudio/models"),
            ModelLayout::LmStudio,
        );
        add_source(&mut out, "models", path::join(h.as_str(), "models"), ModelLayout::Directory);
    }
    assert(source_views(out@) =~= default_sources(*env));
    out
}

/// The source for the configured path number `i`: named after its directory, or
/// numbered where it has no name.
pub open spec fn path_source(p: Seq<char>, i: int, home: Option<Seq<char>>) -> SourceView {
    let root = expanded(p, home);
    SourceView {
        name: match path::base_name(root) {
            Some(n) => n,
            None => "local-"@ + number::decimal((i + 1) as nat),
        },
        root,
        layout: ModelLayout::Auto,
    }
}

/// The source for a configured named directory.
pub open spec fn named_source(c: ModelSourceConfig, home: Option<Seq<char>>) -> SourceView {
    SourceView { name: c.name@, root: expanded(c.path@, home), layout: c.layout }
}

/// The sources before sorting: the configured paths or, where nothing at all is
/// configured, the well-known places; then the named directories.
pub open spec fn listed_sources(configured: Seq<Seq<char>>, named: Seq<ModelSourceConfig>, env: SourceEnv) -> Seq<SourceView> {
    let home = opt(env.home);
    (if configured.len() == 0 && named.len() == 0 {
        default_sources(env)
    } else {
        Seq::new(configured.len(), |i: int| path_source(configured[i], i, home))
    }) + Seq::new(named.len(), |i: int| named_source(named[i], home))
}

/// Whether source `i` comes before source `j` by its root.
pub open spec fn root_lt(sources: Seq<SourceView>) -> spec_fn(int, int) -> bool {
    |i: int, j: int|
        path::components_lt(
            path::components(sources[i].root),
            path::components(sources[j].root),
        )
}

/// The sources without those whose root is that of the one kept before.
pub open spec fn without_repeated_roots(sources: Seq<SourceView>) -> Seq<SourceView>
    decreases sources.len(),
{
    if sources.len() == 0 {
        sources
    } else {
        let rest = without_repeated_roots(sources.drop_last());
        if rest.len() > 0 && path::components(rest.last().root) == path::components(
            sources.last().root,
        ) {
            rest
        } else {
            rest.push(sources.last())
        }
    }
}

/// Whether a path is the user's home.
pub open spec fn is_home(root: Seq<char>, home: Option<Seq<char>>) -> bool {
    home is Some && path::components(root) == path::components(home->0)
}

/// The sources without any that is the user's home as a whole.
pub open spec fn besides_home(sources: Seq<SourceView>, home: Option<Seq<char>>) -> Seq<SourceView>
    decreases sources.len(),
{
    if sources.len() == 0 {
        sources
    } else {
        let rest = besides_home(sources.drop_last(), home);
        if is_home(sources.last().root, home) {
            rest
        } else {
            rest.push(sources.last())
        }
    }
}

/// The sources to scan: in the order of their roots, each root once, and never the
/// user's home as a whole.
pub open spec fn resolved_sources(configured: Seq<Seq<char>>, named: Seq<ModelSourceConfig>, env: SourceEnv) -> Seq<SourceView> {
    let all = besides_home(listed_sources(configured, named, env), opt(env.home));
    without_repeated_roots(order::pick(all, order::stable_order(all.len(), root_lt(all))))
}

fn list_sources(configured: &Vec<String>, named: &Vec<ModelSourceConfig>, env: &SourceEnv) -> (r: Vec<ModelSource>)
    ensures
        source_views(r@) == listed_sources(strs(configured@), named@, *env),
{
    let ghost home = opt(env.home);
    let mut out: Vec<ModelSource> = if configured.len() == 0 && named.len() == 0 {
        default_model_sources(env)
    } else {
        let mut from_paths: Vec<ModelSource> = Vec::new();
        let mut i: usize = 0;
        while i < configured.len()
            invariant
                i <= configured.len(),
                home == opt(env.home),
                source_views(from_paths@) =~= Seq::new(
                    i as nat,
                    |k: int| path_source(strs(configured@)[k], k, home),
                ),
            decreases configured.len() - i,
        {
            assert(strs(configured@)[i as int] == configured@[i as int]@);
            let root = expand(configured[i].as_str(), &env.home);
            let name = match path::file_name(root.as_str()) {
                Some(n) => n,
                None => text::cat("local-", number::nat_text(i as u64 + 1).as_str()),
            };
            add_source(&mut from_paths, name.as_str(), root, ModelLayout::Auto);
            i += 1;
        }
        from_paths
    };
    let ghost first = source_views(out@);
    assert(first =~= if configured@.len() == 0 && named@.len() == 0 {
        default_sources(*env)
    } else {
        Seq::new(
            strs(configured@).len(),
            |i: int| path_source(strs(configured@)[i], i, home),
        )
    });
    let mut k: usize = 0;
    while k < named.len()
        invariant
            k <= named.len(),
            home == opt(env.home),
            source_views(out@) =~= first + Seq::new(
                k as nat,
                |i: int| named_source(named@[i], home),
            ),
        decreases named.len() - k,
    {
        let root = expand(named[k].path.as_str(), &env.home);
        add_source(&mut out, named[k].name.as_str(), root, named[k].layout);
        k += 1;
    }
    out
}

fn leave_out_home(sources: Vec<ModelSource>, home: &Option<String>) -> (r: Vec<ModelSource>)
    ensures
        source_views(r@) == besides_home(source_views(sources@), opt(*home)),
{
    let ghost all = source_views(sources@);
    let mut out: Vec<ModelSource> = Vec::new();
    let mut i: usize = 0;
    assert(source_views(out@) =~= besides_home(all.take(0), opt(*home)));
    while i < sources.len()
        invariant
            i <= sources.len(),
            all == source_views(sources@),
            source_views(out@) == besides_home(all.take(i as int), opt(*home)),
        decreases sources.len() - i,
    {
        proof {
            assert(all.take(i + 1).drop_last() =~= all.take(i as int));
            assert(all.take(i + 1).last() == sources@[i as int]@);
        }
        let at_home = match home {
            Some(h) => path::same(sources[i].root.as_str(), h.as_str()),
            None => false,
        };
        if !at_home {
            let ghost before = source_views(out@);
            out.push(sources[i].clone());
            assert(source_views(out@) =~= before.push(all[i as int]));
        }
        i += 1;
    }
    assert(all.take(i as int) =~= all);
    out
}

/// The sources to scan.
pub fn resolve_model_sources(configured: &Vec<String>, named: &Vec<ModelSourceConfig>, env: &SourceEnv) -> (r: Vec<ModelSource>)
    ensures
        source_views(r@) == resolved_sources(strs(configured@), named@, *env),
{
    let listed = leave_out_home(list_sources(configured, named, env), &env.home);
    let ghost all = source_views(listed@);
    let n = listed.len();
    let mut roots: Vec<Vec<String>> = Vec::new();
    let mut i: usize = 0;
    while i < n
        invariant
            n == listed.len(),
            i <= n,
            roots.len() == i,
            all == source_views(listed@),
            forall|j: int|
                0 <= j < i ==> strs((#[trigger] roots@[j])@) == path::components(all[j].root),
        decreases n - i,
    {
        assert(all[i as int] == listed@[i as int]@);
        roots.push(path::split_components(listed[i].root.as_str()));
        i += 1;
    }
    let before = |a: usize, b: usize| -> (r: bool)
        requires
            a < n,
            b < n,
            n == roots.len(),
        ensures
            r == path::components_lt(strs(roots@[a as int]@), strs(roots@[b as int]@)),
        { path::components_before(&roots[a], &roots[b]) };
    let picked = order::sorted_indices(n, before, Ghost(root_lt(all)));
    let ghost sorted = order::pick(all, order::ints(picked@));
    let mut out: Vec<ModelSource> = Vec::new();
    let mut k: usize = 0;
    assert(source_views(out@) =~= without_repeated_roots(sorted.take(0)));
    while k < picked.len()
        invariant
            k <= picked.len(),
            n == listed.len(),
            all == source_views(listed@),
            forall|j: int| 0 <= j < picked@.len() ==> #[trigger] picked@[j] < n,
            sorted == order::pick(all, order::ints(picked@)),
            source_views(out@) == without_repeated_roots(sorted.take(k as int)),
        decreases picked.len() - k,
    {
        let s = &listed[picked[k]];
        proof {
            assert(sorted[k as int] == all[picked@[k as int] as int]);
            assert(all[picked@[k as int] as int] == s@);
            assert(sorted.take(k + 1).drop_last() =~= sorted.take(k as int));
            assert(sorted.take(k + 1).last() == s@);
        }
        let ghost had = source_views(out@);
        let repeated = if out.len() > 0 {
            assert(had.last() == out@[out@.len() - 1]@);
            path::same(out[out.len() - 1].root.as_str(), s.root.as_str())
        } else {
            false
        };
        if !repeated {
            out.push(s.clone());
            assert(source_views(out@) =~= had.push(s@));
        }
        k += 1;
    }
    assert(sorted.take(k as int) =~= sorted);
    out
}

// --- laws --------------------------------------------------------------------

proof fn lemma_besides_home(sources: Seq<SourceView>, home: Option<Seq<char>>)
    ensures
        forall|k: int|
            0 <= k < besides_home(sources, home).len() ==> !is_home(
                (#[trigger] besides_home(sources, home)[k]).root,
                home,
            ),
        forall|i: int|
            0 <= i < sources.len() && !is_home((#[trigger] sources[i]).root, home)
                ==> besides_home(sources, home).contains(sources[i]),
    decreases sources.len(),
{
    if sources.len() > 0 {
        let less = sources.drop_last();
        let rest = besides_home(less, home);
        let out = besides_home(sources, home);
        lemma_besides_home(less, home);
        assert forall|k: int| 0 <= k < out.len() implies !is_home((#[trigger] out[k]).root, home) by {
            if k < rest.len() {
                assert(out[k] == rest[k]);
            }
        }
        assert forall|i: int|
            0 <= i < sources.len() && !is_home((#[trigger] sources[i]).root, home) implies out.contains(
            sources[i],
        ) by {
            if i < less.len() {
                assert(less[i] == sources[i]);
                let k = choose|k: int| 0 <= k < rest.len() && rest[k] == less[i];
                assert(out[k] == rest[k]);
            } else {
                assert(out[out.len() - 1] == sources[i]);
            }
        }
    }
}

proof fn lemma_without_repeated_roots(sources: Seq<SourceView>)
    ensures
        forall|k: int|
            0 <= k < without_repeated_roots(sources).len() ==> sources.contains(
                #[trigger] without_repeated_roots(sources)[k],
            ),
        sources.len() > 0 ==> without_repeated_roots(sources).len() > 0 && path::components(
            without_repeated_roots(sources).last().root,
        ) == path::components(sources.last().root),
        forall|i: int|
            0 <= i < sources.len() ==> root_kept(
                without_repeated_roots(sources),
                (#[trigger] sources[i]).root,
            ),
    decreases sources.len(),
{
    if sources.len() > 0 {
        let less = sources.drop_last();
        let rest = without_repeated_roots(less);
        let out = without_repeated_roots(sources);
        lemma_without_repeated_roots(less);
        assert forall|k: int| 0 <= k < out.len() implies sources.contains(#[trigger] out[k]) by {
            if k < rest.len() {
                assert(out[k] == rest[k]);
                let j = choose|j: int| 0 <= j < less.len() && less[j] == rest[k];
                assert(sources[j] == rest[k]);
            } else {
                assert(sources[sources.len() - 1] == out[k]);
            }
        }
        assert forall|i: int| 0 <= i < sources.len() implies root_kept(
            out,
            (#[trigger] sources[i]).root,
        ) by {
            if i < less.len() {
                assert(less[i] == sources[i]);
                let k = choose|k: int|
                    0 <= k < rest.len() && path::components((#[trigger] rest[k]).root)
                        == path::components(less[i].root);
                assert(out[k] == rest[k]);
            } else {
                assert(out[out.len() - 1] == out.last());
            }
        }
    }
}

/// Whether a source with a root is in a list.
pub open spec fn root_kept(sources: Seq<SourceView>, root: Seq<char>) -> bool {
    exists|k: int|
        0 <= k < sources.len() && path::components((#[trigger] sources[k]).root) == path::components(
            root,
        )
}

/// The user's home is never searched as a whole, whatever is configured and whatever
/// the environment says.
pub proof fn law_home_is_not_scanned(configured: Seq<Seq<char>>, named: Seq<ModelSourceConfig>, env: SourceEnv, i: int)
    requires
        env.home is Some,
        0 <= i < resolved_sources(configured, named, env).len(),
    ensures
        path::components(resolved_sources(configured, named, env)[i].root) != path::components(
            env.home->0@,
        ),
{
    let home = opt(env.home);
    let all = besides_home(listed_sources(configured, named, env), home);
    let picked = order::stable_order(all.len(), root_lt(all));
    let sorted = order::pick(all, picked);
    lemma_besides_home(listed_sources(configured, named, env), home);
    order::law_stable_order_is_a_permutation(all.len(), root_lt(all));
    lemma_without_repeated_roots(sorted);
    let out = without_repeated_roots(sorted);
    let k = choose|k: int| 0 <= k < sorted.len() && sorted[k] == out[i];
    assert(sorted[k] == all[picked[k]]);
}

/// Everything else that is configured, or well known where nothing is, is searched:
/// a source has its root.
pub proof fn law_other_sources_are_scanned(configured: Seq<Seq<char>>, named: Seq<ModelSourceConfig>, env: SourceEnv, i: int)
    requires
        0 <= i < listed_sources(configured, named, env).len(),
        !is_home(listed_sources(configured, named, env)[i].root, opt(env.home)),
    ensures
        root_kept(
            resolved_sources(configured, named, env),
            listed_sources(configured, named, env)[i].root,
        ),
{
    broadcast use vstd::seq_lib::group_to_multiset_ensures;
    let home = opt(env.home);
    let listed = listed_sources(configured, named, env);
    let all = besides_home(listed, home);
    let picked = order::stable_order(all.len(), root_lt(all));
    let sorted = order::pick(all, picked);
    lemma_besides_home(listed, home);
    order::law_stable_order_is_a_permutation(all.len(), root_lt(all));
    lemma_without_repeated_roots(sorted);
    let a = choose|a: int| 0 <= a < all.len() && all[a] == listed[i];
    let indices = Seq::new(all.len(), |i: int| i);
    assert(indices[a] == a);
    assert(indices.contains(a));
    assert(picked.to_multiset().count(a) > 0);
    let k = choose|k: int| 0 <= k < picked.len() && picked[k] == a;
    assert(sorted[k] == all[a]);
}

/// Where nothing is configured, the well-known places are searched: the downloads of
/// llama.cpp, the Hugging Face cache, LM Studio and the user's models.
pub proof fn law_well_known_places(env: SourceEnv, home: Seq<char>)
    requires
        env.home is Some,
        env.home->0@ == home,
    ensures
        ({
            let all = listed_sources(Seq::<Seq<char>>::empty(), Seq::<ModelSourceConfig>::empty(), env);
            &&& all.len() == 4
            &&& all[0].name == "llama-cache"@ && all[0].layout == ModelLayout::Directory
            &&& all[1].name == "huggingface"@ && all[1].layout == ModelLayout::HuggingFace
            &&& all[2].name == "lmstudio"@ && all[2].layout == ModelLayout::LmStudio
            &&& all[3].name == "models"@ && all[3].layout == ModelLayout::Directory
            &&& all[2].root == path::joined(home, ".lmstudio/models"@)
            &&& all[3].root == path::joined(home, "models"@)
            &&& env.llama_cache is Some ==> all[0].root == env.llama_cache->0@
            &&& env.llama_cache is None ==> all[0].root == path::joined(home, ".cache/llama.cpp"@)
            &&& env.huggingface_hub_cache is Some ==> all[1].root == env.huggingface_hub_cache->0@
            &&& env.huggingface_hub_cache is None && env.hf_home is Some ==> all[1].root
                == path::joined(env.hf_home->0@, "hub"@)
            &&& env.huggingface_hub_cache is None && env.hf_home is None ==> all[1].root
                == path::joined(home, ".cache/huggingface/hub"@)
        }),
{
}

/// What is configured is searched and the well-known places are not: each path and each
/// named directory, with its layout.
pub proof fn law_configured_places_are_listed(configured: Seq<Seq<char>>, named: Seq<ModelSourceConfig>, env: SourceEnv, i: int)
    requires
        configured.len() + named.len() > 0,
    ensures
        ({
            let all = listed_sources(configured, named, env);
            &&& all.len() == configured.len() + named.len()
            &&& 0 <= i < configured.len() ==> all[i].root == expanded(configured[i], opt(env.home))
                && all[i].layout == ModelLayout::Auto
            &&& 0 <= i < named.len() ==> all[configured.len() + i].name == named[i].name@
                && all[configured.len() + i].root == expanded(named[i].path@, opt(env.home))
                && all[configured.len() + i].layout == named[i].layout
        }),
{
}

/// A tilde at the front of a path is the user's home; any other path stays as it is.
pub proof fn law_a_tilde_is_the_home(rest: Seq<char>, p: Seq<char>, home: Seq<char>)
    requires
        rest.len() > 0,
        rest[0] != '/',
        rest[0] != '.',
        path::strip_tail(rest) == rest,
    ensures
        expanded(seq!['~', '/'] + rest, Some(home)) == path::joined(home, rest),
        p.len() == 0 || p[0] != '~' ==> expanded(p, Some(home)) == p,
        expanded(p, None) == p,
{
    let s = seq!['~', '/'] + rest;
    assert(s.skip(1) =~= seq!['/'] + rest);
    let t = seq!['/'] + rest;
    assert(t.skip(1) =~= rest);
    assert(path::strip_head(rest) == rest);
    assert(path::strip_head(t) == rest);
}

} // verus!
