//! The catalog path of a model: its place in the browser, whatever the layout of
//! the source that it comes from.

use vstd::prelude::*;
use crate::config::ModelLayout;
use crate::names;
use crate::number;
use crate::path;
use crate::text;
use crate::text::strs;

verus! {

/// A directory to look for models in, and how to read the paths below it.
#[derive(Debug)]
pub struct ModelSource {
    pub name: String,
    pub root: String,
    pub layout: ModelLayout,
}

pub struct SourceView {
    pub name: Seq<char>,
    pub root: Seq<char>,
    pub layout: ModelLayout,
}

impl View for ModelSource {
    type V = SourceView;

    open spec fn view(&self) -> SourceView {
        SourceView { name: self.name@, root: self.root@, layout: self.layout }
    }
}

impl Clone for ModelSource {
    fn clone(&self) -> (r: Self)
        ensures
            r@ == self@,
    {
        ModelSource { name: self.name.clone(), root: self.root.clone(), layout: self.layout }
    }
}

/// The components that name an entry: neither the root, nor the directory
/// itself, nor its parent.
pub open spec fn normal(components: Seq<Seq<char>>) -> Seq<Seq<char>>
    decreases components.len(),
{
    if components.len() == 0 {
        Seq::<Seq<char>>::empty()
    } else {
        let rest = normal(components.drop_last());
        let c = components.last();
        if c == "/"@ || c == "."@ || c == ".."@ {
            rest
        } else {
            rest.push(c)
        }
    }
}

/// The components of a model's path below its source, or all of them where it
/// does not lie below.
pub open spec fn relative(source: SourceView, file: Seq<char>) -> Seq<Seq<char>> {
    normal(
        match path::below(file, source.root) {
            Some(parts) => parts,
            None => path::components(file),
        },
    )
}

/// The first component that names a repository of the Hugging Face cache, from
/// `from` on.
pub open spec fn hub_component(components: Seq<Seq<char>>, from: int) -> Option<int>
    decreases components.len() - from,
{
    if from < 0 || from >= components.len() {
        None
    } else if "models--"@.is_prefix_of(components[from]) {
        Some(from)
    } else {
        hub_component(components, from + 1)
    }
}

/// Whether the last two components of a path are those of the LM Studio store.
pub open spec fn is_lmstudio_root(root: Seq<char>) -> bool {
    let c = path::components(root);
    c.len() >= 2 && c[c.len() - 2] == ".lmstudio"@ && c[c.len() - 1] == "models"@
}

/// The layout that a source's paths are read by, told from the components below
/// its root where the source does not name one.
pub open spec fn layout_of(source: SourceView, components: Seq<Seq<char>>) -> ModelLayout {
    if source.layout != ModelLayout::Auto {
        source.layout
    } else if hub_component(components, 0) is Some {
        ModelLayout::HuggingFace
    } else if is_lmstudio_root(source.root) {
        ModelLayout::LmStudio
    } else {
        ModelLayout::Directory
    }
}

/// The first `n` components, each made safe.
pub open spec fn safe_upto(components: Seq<Seq<char>>, from: int, to: int) -> Seq<Seq<char>>
    decreases to - from,
{
    if from >= to {
        Seq::<Seq<char>>::empty()
    } else {
        safe_upto(components, from, to - 1).push(names::component(components[to - 1], false))
    }
}

/// The text without the repetitions of `p` at its front.
pub open spec fn without_repeats(s: Seq<char>, p: Seq<char>) -> Seq<char>
    decreases s.len(),
{
    if p.len() > 0 && p.is_prefix_of(s) {
        without_repeats(s.skip(p.len() as int), p)
    } else {
        s
    }
}

/// The text without the repetitions of `p` at its end.
pub open spec fn without_end_repeats(s: Seq<char>, p: Seq<char>) -> Seq<char>
    decreases s.len(),
{
    if p.len() > 0 && p.is_suffix_of(s) {
        without_end_repeats(s.take(s.len() - p.len()), p)
    } else {
        s
    }
}

/// The owner and the repository that a cache directory's name spells: what
/// stands before the first double dash, and what stands behind it.
pub open spec fn owner_and_repo(name: Seq<char>) -> Seq<Seq<char>> {
    let id = without_repeats(name, "models--"@);
    let (owner, repo) = match text::find_from(id, "--"@, 0) {
        Some(i) => (id.take(i), id.skip(i + 2)),
        None => (id, Seq::<char>::empty()),
    };
    (if owner.len() > 0 {
        seq![names::component(owner, false)]
    } else {
        Seq::<Seq<char>>::empty()
    }) + (if repo.len() > 0 {
        seq![names::component(repo, false)]
    } else {
        Seq::<Seq<char>>::empty()
    })
}

/// The first component from `from` on that is the snapshots directory.
pub open spec fn snapshots_at(components: Seq<Seq<char>>, from: int) -> Option<int>
    decreases components.len() - from,
{
    if from < 0 || from >= components.len() {
        None
    } else if components[from] == "snapshots"@ {
        Some(from)
    } else {
        snapshots_at(components, from + 1)
    }
}

/// Where the path of a file in its repository begins: behind the snapshot's
/// revision, which is storage and no part of the model's identity.
pub open spec fn repo_tail(components: Seq<Seq<char>>, model: int) -> int {
    match snapshots_at(components, model + 1) {
        Some(i) => i + 2,
        None => model + 1,
    }
}

/// The folders of a file of the Hugging Face cache: owner, repository, and the
/// folders in the repository.
pub open spec fn hub_folders(components: Seq<Seq<char>>) -> Seq<Seq<char>> {
    match hub_component(components, 0) {
        None => safe_upto(components, 0, components.len() - 1),
        Some(m) => owner_and_repo(components[m]) + safe_upto(
            components,
            repo_tail(components, m),
            components.len() - 1,
        ),
    }
}

/// The folders that a layout shows for a file.
pub open spec fn folders(layout: ModelLayout, components: Seq<Seq<char>>) -> Seq<Seq<char>> {
    match layout {
        ModelLayout::HuggingFace => hub_folders(components),
        ModelLayout::Flat => Seq::<Seq<char>>::empty(),
        _ => safe_upto(components, 0, components.len() - 1),
    }
}

/// The catalog path of a model: the source, the folders that its layout shows,
/// and the artifact without its extension.
pub open spec fn place_of(source: SourceView, file: Seq<char>, artifact: Seq<char>) -> Seq<Seq<char>> {
    let components = relative(source, file);
    (seq![names::component(source.name, false)] + folders(
        layout_of(source, components),
        components,
    )).push(names::component(without_end_repeats(artifact, ".gguf"@), false))
}

// --- the same, computed ------------------------------------------------------

fn normal_components(components: &Vec<String>) -> (r: Vec<String>)
    ensures
        strs(r@) == normal(strs(components@)),
{
    let ghost all = strs(components@);
    let mut out: Vec<String> = Vec::new();
    let mut i: usize = 0;
    assert(strs(out@) =~= normal(all.take(0)));
    while i < components.len()
        invariant
            i <= components.len(),
            all == strs(components@),
            strs(out@) == normal(all.take(i as int)),
        decreases components.len() - i,
    {
        proof {
            assert(all.take(i + 1).drop_last() =~= all.take(i as int));
            assert(all.take(i + 1).last() == components@[i as int]@);
        }
        let c = components[i].as_str();
        if !text::same(c, "/") && !text::same(c, ".") && !text::same(c, "..") {
            let ghost before = strs(out@);
            out.push(text::copy(c));
            assert(strs(out@) =~= before.push(c@));
        }
        i += 1;
    }
    assert(all.take(i as int) =~= all);
    out
}

fn relative_components(source: &ModelSource, file: &str) -> (r: Vec<String>)
    ensures
        strs(r@) == relative(source@, file@),
{
    match path::strip_prefix(file, source.root.as_str()) {
        Some(parts) => normal_components(&parts),
        None => normal_components(&path::split_components(file)),
    }
}

fn find_hub_component(components: &Vec<String>) -> (r: Option<usize>)
    ensures
        match r {
            Some(i) => i < components.len() && hub_component(strs(components@), 0) == Some(i as int),
            None => hub_component(strs(components@), 0) is None,
        },
{
    let ghost all = strs(components@);
    let mut i: usize = 0;
    while i < components.len()
        invariant
            i <= components.len(),
            all == strs(components@),
            hub_component(all, 0) == hub_component(all, i as int),
        decreases components.len() - i,
    {
        assert(all[i as int] == components@[i as int]@);
        if text::starts_with(components[i].as_str(), "models--") {
            return Some(i);
        }
        i += 1;
    }
    None
}

fn detect_layout(source: &ModelSource, components: &Vec<String>) -> (r: ModelLayout)
    ensures
        r == layout_of(source@, strs(components@)),
{
    if source.layout != ModelLayout::Auto {
        return source.layout;
    }
    if find_hub_component(components).is_some() {
        return ModelLayout::HuggingFace;
    }
    let root = path::split_components(source.root.as_str());
    let n = root.len();
    if n >= 2 {
        assert(strs(root@)[n - 2] == root@[n - 2]@);
        assert(strs(root@)[n - 1] == root@[n - 1]@);
        if text::same(root[n - 2].as_str(), ".lmstudio") && text::same(
            root[n - 1].as_str(),
            "models",
        ) {
            return ModelLayout::LmStudio;
        }
    }
    ModelLayout::Directory
}

/// Appends the components from `from` on, without the last, each made safe.
fn append_folders(out: &mut Vec<String>, components: &Vec<String>, from: usize)
    ensures
        strs(final(out)@) == strs(old(out)@) + safe_upto(
            strs(components@),
            from as int,
            components.len() - 1,
        ),
{
    let ghost all = strs(components@);
    let ghost start = strs(out@);
    assert(start =~= start + Seq::<Seq<char>>::empty());
    if components.len() == 0 || from >= components.len() - 1 {
        return;
    }
    let mut i: usize = from;
    while i < components.len() - 1
        invariant
            all == strs(components@),
            from <= i <= components.len() - 1,
            strs(out@) == start + safe_upto(all, from as int, i as int),
        decreases components.len() - i,
    {
        let ghost before = strs(out@);
        assert(all[i as int] == components@[i as int]@);
        out.push(names::safe_component(components[i].as_str(), false));
        assert(strs(out@) =~= before.push(names::component(all[i as int], false)));
        assert(strs(out@) =~= start + safe_upto(all, from as int, i + 1));
        i += 1;
    }
}

fn strip_repeats(s: &str, p: &str) -> (r: String)
    requires
        p@.len() > 0,
    ensures
        r@ == without_repeats(s@, p@),
    decreases s@.len(),
{
    if text::starts_with(s, p) {
        let n = s.unicode_len();
        let k = p.unicode_len();
        let rest = text::piece(s, k, n);
        assert(rest@ =~= s@.skip(k as int));
        strip_repeats(rest.as_str(), p)
    } else {
        text::copy(s)
    }
}

fn strip_end_repeats(s: &str, p: &str) -> (r: String)
    requires
        p@.len() > 0,
    ensures
        r@ == without_end_repeats(s@, p@),
    decreases s@.len(),
{
    if text::ends_with(s, p) {
        let n = s.unicode_len();
        let k = p.unicode_len();
        let rest = text::piece(s, 0, n - k);
        assert(rest@ =~= s@.take(n - k));
        strip_end_repeats(rest.as_str(), p)
    } else {
        text::copy(s)
    }
}

/// Appends the owner and the repository that a cache directory's name spells.
fn append_owner_and_repo(out: &mut Vec<String>, name: &str)
    ensures
        strs(final(out)@) == strs(old(out)@) + owner_and_repo(name@),
{
    let ghost start = strs(out@);
    proof {
        reveal_strlit("models--");
        reveal_strlit("--");
    }
    let id = strip_repeats(name, "models--");
    let n = id.as_str().unicode_len();
    let (owner, repo) = match text::find(id.as_str(), "--") {
        Some(i) => {
            proof {
                text::lemma_find_from(id@, "--"@, 0);
            }
            let behind = text::piece(id.as_str(), i + 2, n);
            assert(behind@ =~= id@.skip(i + 2));
            (text::piece(id.as_str(), 0, i), behind)
        },
        None => (id, String::new()),
    };
    if !owner.as_str().is_empty() {
        out.push(names::safe_component(owner.as_str(), false));
    }
    if !repo.as_str().is_empty() {
        out.push(names::safe_component(repo.as_str(), false));
    }
    assert(strs(out@) =~= start + owner_and_repo(name@));
}

fn find_snapshots(components: &Vec<String>, from: usize) -> (r: Option<usize>)
    ensures
        match r {
            Some(i) => from <= i < components.len() && snapshots_at(
                strs(components@),
                from as int,
            ) == Some(i as int),
            None => snapshots_at(strs(components@), from as int) is None,
        },
{
    let ghost all = strs(components@);
    let mut i: usize = from;
    while i < components.len()
        invariant
            from <= i,
            all == strs(components@),
            snapshots_at(all, from as int) == snapshots_at(all, i as int),
        decreases components.len() - i,
    {
        assert(all[i as int] == components@[i as int]@);
        if text::same(components[i].as_str(), "snapshots") {
            return Some(i);
        }
        i += 1;
    }
    None
}

/// Appends the folders of a file of the Hugging Face cache.
fn append_huggingface(out: &mut Vec<String>, components: &Vec<String>)
    ensures
        strs(final(out)@) == strs(old(out)@) + hub_folders(strs(components@)),
{
    let ghost all = strs(components@);
    let ghost start = strs(out@);
    match find_hub_component(components) {
        None => append_folders(out, components, 0),
        Some(m) => {
            assert(all[m as int] == components@[m as int]@);
            append_owner_and_repo(out, components[m].as_str());
            let tail: usize = match find_snapshots(components, m + 1) {
                Some(i) => if i < components.len() - 1 {
                    i + 2
                } else {
                    components.len()
                },
                None => m + 1,
            };
            append_folders(out, components, tail);
            proof {
                let t = repo_tail(all, m as int);
                if t != tail {
                    assert(safe_upto(all, t, components.len() - 1) =~= safe_upto(
                        all,
                        tail as int,
                        components.len() - 1,
                    ));
                }
            }
            assert(strs(out@) =~= start + hub_folders(all));
        },
    }
}

/// The catalog path of a model's file in a source.
pub fn catalog_path(source: &ModelSource, file: &str, artifact: &str) -> (r: Vec<String>)
    ensures
        strs(r@) == place_of(source@, file@, artifact@),
{
    let components = relative_components(source, file);
    let layout = detect_layout(source, &components);
    let mut out: Vec<String> = Vec::new();
    out.push(names::safe_component(source.name.as_str(), false));
    assert(strs(out@) =~= seq![names::component(source@.name, false)]);
    let ghost head = strs(out@);
    match layout {
        ModelLayout::HuggingFace => append_huggingface(&mut out, &components),
        ModelLayout::Flat => {
            assert(head =~= head + Seq::<Seq<char>>::empty());
        },
        _ => append_folders(&mut out, &components, 0),
    }
    let ghost before = strs(out@);
    assert(before == head + folders(layout, strs(components@)));
    proof {
        reveal_strlit(".gguf");
    }
    let stem = strip_end_repeats(artifact, ".gguf");
    out.push(names::safe_component(stem.as_str(), false));
    assert(strs(out@) =~= before.push(
        names::component(without_end_repeats(artifact@, ".gguf"@), false),
    ));
    out
}

/// The layout that a model's path is read by. Normalizing and choosing among
/// duplicates go by the same.
pub fn resolved_layout(source: &ModelSource, file: &str) -> (r: ModelLayout)
    ensures
        r == layout_of(source@, relative(source@, file@)),
{
    detect_layout(source, &relative_components(source, file))
}

/// The first eight hexadecimal digits of a path's hash.
pub open spec fn short_hash_of(file: Seq<char>) -> Seq<char> {
    number::hex(names::text_hash(file) as nat, 16).take(8)
}

/// A stable short hash of a path, for telling apart what would share a place.
pub fn short_hash(file: &str) -> (r: String)
    ensures
        r@ == short_hash_of(file@),
{
    let all = number::hex_text(names::hash_text(file), 16);
    proof {
        number::lemma_hex_len(names::text_hash(file@) as nat, 16);
    }
    text::piece(all.as_str(), 0, 8)
}

/// Every catalog path has at least the source and the artifact, and each of its
/// components stays in its directory.
pub proof fn law_catalog_path_is_safe(source: SourceView, file: Seq<char>, artifact: Seq<char>)
    ensures
        place_of(source, file, artifact).len() >= 2,
        forall|i: int|
            0 <= i < place_of(source, file, artifact).len() ==> is_safe(
                #[trigger] place_of(source, file, artifact)[i],
            ),
{
    let components = relative(source, file);
    let layout = layout_of(source, components);
    let shown = folders(layout, components);
    let all = place_of(source, file, artifact);
    lemma_safe_folders(components, 0, components.len() - 1);
    if let Some(m) = hub_component(components, 0) {
        lemma_safe_folders(components, repo_tail(components, m), components.len() - 1);
        lemma_safe_id(components[m]);
    }
    names::law_component_stays_in_its_directory(source.name, false);
    names::law_component_stays_in_its_directory(without_end_repeats(artifact, ".gguf"@), false);
    assert forall|i: int| 0 <= i < all.len() implies is_safe(#[trigger] all[i]) by {
        if 0 < i < all.len() - 1 {
            assert(all[i] == shown[i - 1]);
        }
    }
}

/// A component that names an entry of its own directory.
pub open spec fn is_safe(c: Seq<char>) -> bool {
    c.len() > 0 && !c.contains('/') && !c.contains('\0') && c != "."@ && c != ".."@
}

proof fn lemma_safe_folders(components: Seq<Seq<char>>, from: int, to: int)
    ensures
        forall|i: int|
            0 <= i < safe_upto(components, from, to).len() ==> is_safe(
                #[trigger] safe_upto(components, from, to)[i],
            ),
    decreases to - from,
{
    if from < to {
        lemma_safe_folders(components, from, to - 1);
        names::law_component_stays_in_its_directory(components[to - 1], false);
        let rest = safe_upto(components, from, to - 1);
        let all = safe_upto(components, from, to);
        assert forall|i: int| 0 <= i < all.len() implies is_safe(#[trigger] all[i]) by {
            if i < rest.len() {
                assert(all[i] == rest[i]);
            }
        }
    }
}

proof fn lemma_safe_id(name: Seq<char>)
    ensures
        forall|i: int|
            0 <= i < owner_and_repo(name).len() ==> is_safe(#[trigger] owner_and_repo(name)[i]),
{
    let id = without_repeats(name, "models--"@);
    let (owner, repo) = match text::find_from(id, "--"@, 0) {
        Some(i) => (id.take(i), id.skip(i + 2)),
        None => (id, Seq::<char>::empty()),
    };
    names::law_component_stays_in_its_directory(owner, false);
    names::law_component_stays_in_its_directory(repo, false);
}

// --- where models are shown --------------------------------------------------

proof fn lemma_first_hub_component(components: Seq<Seq<char>>)
    requires
        components.len() > 0,
        "models--"@.is_prefix_of(components[0]),
    ensures
        hub_component(components, 0) == Some(0int),
{
}

proof fn lemma_cache_directory(owner: Seq<char>, repo: Seq<char>)
    requires
        owner.len() > 0,
        repo.len() > 0,
        !text::has(owner + "-"@, "--"@),
        !"models--"@.is_prefix_of(owner + "--"@ + repo),
    ensures
        owner_and_repo("models--"@ + owner + "--"@ + repo) == seq![
            names::component(owner, false),
            names::component(repo, false),
        ],
{
    reveal_strlit("models--");
    reveal_strlit("--");
    reveal_strlit("-");
    let id = owner + "--"@ + repo;
    let name = "models--"@ + owner + "--"@ + repo;
    assert(name =~= "models--"@ + id);
    assert(name.take(8) =~= "models--"@);
    assert(name.skip(8) =~= id);
    assert(without_repeats(name, "models--"@) == without_repeats(id, "models--"@));
    assert(without_repeats(id, "models--"@) == id);
    text::lemma_find_from(id, "--"@, 0);
    let at = owner.len() as int;
    assert(id.subrange(at, at + 2) =~= "--"@);
    assert(text::occurs_at(id, "--"@, at));
    let found = text::find_from(id, "--"@, 0);
    assert(found is Some);
    if found->0 < at {
        let i = found->0;
        let s = owner + "-"@;
        assert(id.subrange(i, i + 2) == "--"@);
        assert(s.subrange(i, i + 2) =~= id.subrange(i, i + 2));
        assert(text::occurs_at(s, "--"@, i));
    }
    assert(found == Some(at));
    assert(id.take(at) =~= owner);
    assert(id.skip(at + 2) =~= repo);
    assert(owner_and_repo(name) =~= seq![
        names::component(owner, false),
        names::component(repo, false),
    ]);
}

/// A file in a snapshot of the Hugging Face cache is shown below its owner and its
/// repository, whatever the revision of the snapshot is.
pub proof fn law_cached_files_are_shown_by_repository(source: SourceView, file: Seq<char>, artifact: Seq<char>, owner: Seq<char>, repo: Seq<char>, revision: Seq<char>, name: Seq<char>)
    requires
        source.layout == ModelLayout::HuggingFace || source.layout == ModelLayout::Auto,
        owner.len() > 0,
        repo.len() > 0,
        !text::has(owner + "-"@, "--"@),
        !"models--"@.is_prefix_of(owner + "--"@ + repo),
        relative(source, file) == seq![
            "models--"@ + owner + "--"@ + repo,
            "snapshots"@,
            revision,
            name,
        ],
    ensures
        place_of(source, file, artifact) == seq![
            names::component(source.name, false),
            names::component(owner, false),
            names::component(repo, false),
            names::component(without_end_repeats(artifact, ".gguf"@), false),
        ],
{
    let c = relative(source, file);
    reveal_strlit("models--");
    assert(c[0].take(8) =~= "models--"@);
    lemma_first_hub_component(c);
    lemma_cache_directory(owner, repo);
    assert(c[1] == "snapshots"@);
    assert(snapshots_at(c, 1) == Some(1int));
    assert(repo_tail(c, 0) == 3);
    assert(safe_upto(c, 3, 3) =~= Seq::<Seq<char>>::empty());
    assert(hub_folders(c) =~= seq![names::component(owner, false), names::component(repo, false)]);
    assert(place_of(source, file, artifact) =~= seq![
        names::component(source.name, false),
        names::component(owner, false),
        names::component(repo, false),
        names::component(without_end_repeats(artifact, ".gguf"@), false),
    ]);
}

proof fn lemma_safe_upto(components: Seq<Seq<char>>, to: int)
    requires
        0 <= to <= components.len(),
    ensures
        safe_upto(components, 0, to).len() == to,
        forall|i: int|
            0 <= i < to ==> #[trigger] safe_upto(components, 0, to)[i] == names::component(
                components[i],
                false,
            ),
    decreases to,
{
    if to > 0 {
        lemma_safe_upto(components, to - 1);
    }
}

/// A file of an ordinary directory is shown below the folders that it lies in, each by
/// its own name and in their order; a flat source shows no folders.
pub proof fn law_files_are_shown_in_their_folders(source: SourceView, file: Seq<char>, artifact: Seq<char>)
    requires
        relative(source, file).len() >= 1,
    ensures
        ({
            let c = relative(source, file);
            let place = place_of(source, file, artifact);
            &&& place[0] == names::component(source.name, false)
            &&& place.last() == names::component(without_end_repeats(artifact, ".gguf"@), false)
            &&& source.layout == ModelLayout::Flat ==> place.len() == 2
            &&& source.layout == ModelLayout::Directory || source.layout == ModelLayout::LmStudio
                ==> place.len() == c.len() + 1 && forall|i: int|
                0 <= i < c.len() - 1 ==> #[trigger] place[i + 1] == names::component(c[i], false)
        }),
{
    let c = relative(source, file);
    let place = place_of(source, file, artifact);
    lemma_safe_upto(c, c.len() - 1);
    if source.layout == ModelLayout::Directory || source.layout == ModelLayout::LmStudio {
        let shown = safe_upto(c, 0, c.len() - 1);
        assert forall|i: int| 0 <= i < c.len() - 1 implies #[trigger] place[i + 1]
            == names::component(c[i], false) by {
            assert(place[i + 1] == shown[i]);
        }
    }
}

/// A source's own layout is what its files are read by. Where it names none, a
/// repository of the Hugging Face cache is known by its directory, and the store of LM
/// Studio by its root.
pub proof fn law_layouts_are_told(source: SourceView, file: Seq<char>, i: int)
    ensures
        source.layout != ModelLayout::Auto ==> layout_of(source, relative(source, file))
            == source.layout,
        source.layout == ModelLayout::Auto && 0 <= i < relative(source, file).len()
            && "models--"@.is_prefix_of(relative(source, file)[i]) ==> layout_of(
            source,
            relative(source, file),
        ) == ModelLayout::HuggingFace,
        source.layout == ModelLayout::Auto && (forall|j: int|
            0 <= j < relative(source, file).len() ==> !"models--"@.is_prefix_of(
                #[trigger] relative(source, file)[j],
            )) ==> layout_of(source, relative(source, file)) == if is_lmstudio_root(source.root) {
            ModelLayout::LmStudio
        } else {
            ModelLayout::Directory
        },
{
    let c = relative(source, file);
    if 0 <= i < c.len() && "models--"@.is_prefix_of(c[i]) {
        lemma_hub_component_found(c, 0, i);
    }
    if forall|j: int| 0 <= j < c.len() ==> !"models--"@.is_prefix_of(#[trigger] c[j]) {
        lemma_hub_component_absent(c, 0);
    }
}

proof fn lemma_hub_component_found(c: Seq<Seq<char>>, from: int, i: int)
    requires
        0 <= from <= i < c.len(),
        "models--"@.is_prefix_of(c[i]),
    ensures
        hub_component(c, from) is Some,
    decreases c.len() - from,
{
    if !"models--"@.is_prefix_of(c[from]) {
        lemma_hub_component_found(c, from + 1, i);
    }
}

proof fn lemma_hub_component_absent(c: Seq<Seq<char>>, from: int)
    requires
        0 <= from,
        forall|j: int| 0 <= j < c.len() ==> !"models--"@.is_prefix_of(#[trigger] c[j]),
    ensures
        hub_component(c, from) is None,
    decreases c.len() - from,
{
    if from < c.len() {
        assert(!"models--"@.is_prefix_of(c[from]));
        lemma_hub_component_absent(c, from + 1);
    }
}

/// A store of LM Studio is told by the end of its root, where nothing below it is of the
/// Hugging Face cache.
pub proof fn law_lmstudio_is_told_by_its_root(source: SourceView, above: Seq<Seq<char>>, last: Seq<char>, components: Seq<Seq<char>>)
    requires
        source.layout == ModelLayout::Auto,
        hub_component(components, 0) is None,
    ensures
        path::components(source.root) == above.push(".lmstudio"@).push("models"@) ==> layout_of(
            source,
            components,
        ) == ModelLayout::LmStudio,
        path::components(source.root) == above.push(last) && last != "models"@ ==> layout_of(
            source,
            components,
        ) == ModelLayout::Directory,
        path::components(source.root) == above.push(last).push("models"@) && last != ".lmstudio"@
            ==> layout_of(source, components) == ModelLayout::Directory,
{
}

} // verus!
