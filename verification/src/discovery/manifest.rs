//! The managed catalog on disk: a directory for each model, with a link to its
//! file and a manifest that says what it is.

use vstd::prelude::*;
use crate::domain::{views, Model, ModelView};
use crate::path;
use crate::text;
use crate::text::{opt, strs};

verus! {

/// The layout of manifests.
pub const MANIFEST_SCHEMA: u32 = 1;

/// The file that a manifest names.
#[derive(Debug)]
pub struct Artifact {
    pub name: String,
    pub source_path: String,
    pub size_bytes: u64,
    pub modified: Option<u64>,
    pub shards: Vec<String>,
    pub mtp_path: Option<String>,
    pub projector_path: Option<String>,
    pub has_mtp: bool,
}

/// What a directory of the catalog stands for.
#[derive(Debug)]
pub struct Manifest {
    pub schema: u32,
    pub id: String,
    /// The source that the model was found in.
    pub source: String,
    pub artifact: Artifact,
    /// Whether the last scan found the model.
    pub available: bool,
}

pub struct ManifestView {
    pub schema: u32,
    pub id: Seq<char>,
    pub source: Seq<char>,
    pub name: Seq<char>,
    pub source_path: Seq<char>,
    pub size_bytes: u64,
    pub modified: Option<u64>,
    pub shards: Seq<Seq<char>>,
    pub mtp_path: Option<Seq<char>>,
    pub projector_path: Option<Seq<char>>,
    pub has_mtp: bool,
    pub available: bool,
}

impl View for Manifest {
    type V = ManifestView;

    open spec fn view(&self) -> ManifestView {
        ManifestView {
            schema: self.schema,
            id: self.id@,
            source: self.source@,
            name: self.artifact.name@,
            source_path: self.artifact.source_path@,
            size_bytes: self.artifact.size_bytes,
            modified: self.artifact.modified,
            shards: strs(self.artifact.shards@),
            mtp_path: opt(self.artifact.mtp_path),
            projector_path: opt(self.artifact.projector_path),
            has_mtp: self.artifact.has_mtp,
            available: self.available,
        }
    }
}

/// The manifest of a model that a scan found.
pub open spec fn manifest_for(m: ModelView) -> ManifestView {
    ManifestView {
        schema: MANIFEST_SCHEMA,
        id: m.id,
        source: if m.catalog_path.len() > 0 {
            m.catalog_path[0]
        } else {
            Seq::<char>::empty()
        },
        name: m.name,
        source_path: m.path,
        size_bytes: m.size_bytes,
        modified: m.modified,
        shards: m.shard_paths,
        mtp_path: m.mtp_path,
        projector_path: m.projector_path,
        has_mtp: m.has_mtp,
        available: true,
    }
}

/// The directory of a model in the catalog.
pub open spec fn leaf_for(root: Seq<char>, m: ModelView) -> Seq<char> {
    path::joined_all(root, m.catalog_path)
}

/// The manifest of a model that a scan found.
pub fn manifest_of(m: &Model) -> (r: Manifest)
    ensures
        r@ == manifest_for(m@),
{
    assert(strs(m.catalog_path@).len() == m.catalog_path@.len());
    let source = if m.catalog_path.len() > 0 {
        assert(strs(m.catalog_path@)[0] == m.catalog_path@[0]@);
        m.catalog_path[0].clone()
    } else {
        let none = String::new();
        assert(none@ =~= Seq::<char>::empty());
        none
    };
    Manifest {
        schema: MANIFEST_SCHEMA,
        id: m.id.clone(),
        source,
        artifact: Artifact {
            name: m.name.clone(),
            source_path: m.path.clone(),
            size_bytes: m.size_bytes,
            modified: m.modified,
            shards: text::copy_all(&m.shard_paths),
            mtp_path: text::copy_opt(&m.mtp_path),
            projector_path: text::copy_opt(&m.projector_path),
            has_mtp: m.has_mtp,
        },
        available: true,
    }
}

/// The directory of a model in the catalog.
pub fn leaf_of(root: &str, m: &Model) -> (r: String)
    ensures
        r@ == leaf_for(root@, m@),
{
    path::join_all(root, &m.catalog_path)
}

/// The models that have a directory, with the directory noted.
pub open spec fn placed(root: Seq<char>, models: Seq<ModelView>, created: Seq<bool>) -> Seq<ModelView> {
    Seq::new(
        models.len(),
        |i: int|
            if created[i] {
                ModelView { catalog_dir: leaf_for(root, models[i]), ..models[i] }
            } else {
                models[i]
            },
    )
}

/// The manifests of the first `n` models that have a directory, with those
/// directories.
pub open spec fn manifests_upto(root: Seq<char>, models: Seq<ModelView>, created: Seq<bool>, n: nat) -> Seq<(Seq<char>, ManifestView)>
    decreases n,
{
    if n == 0 {
        Seq::<(Seq<char>, ManifestView)>::empty()
    } else {
        let rest = manifests_upto(root, models, created, (n - 1) as nat);
        if created[n - 1] {
            rest.push((leaf_for(root, models[n - 1]), manifest_for(models[n - 1])))
        } else {
            rest
        }
    }
}

/// The views of manifests with their directories.
pub open spec fn manifest_views(v: Seq<(String, Manifest)>) -> Seq<(Seq<char>, ManifestView)> {
    v.map_values(|p: (String, Manifest)| (p.0@, p.1@))
}

/// Notes the directories of the models, and gives the manifests to write into
/// them. `created` says of each model whether its directory could be made.
pub fn reconcile(root: &str, models: &mut Vec<Model>, created: &Vec<bool>) -> (r: Vec<(String, Manifest)>)
    requires
        created@.len() == old(models)@.len(),
    ensures
        views(final(models)@) == placed(root@, views(old(models)@), created@),
        manifest_views(r@) == manifests_upto(
            root@,
            views(old(models)@),
            created@,
            old(models)@.len(),
        ),
{
    let ghost all = views(models@);
    let n = models.len();
    let mut out: Vec<(String, Manifest)> = Vec::new();
    let mut i: usize = 0;
    assert(manifest_views(out@) =~= manifests_upto(root@, all, created@, 0));
    while i < n
        invariant
            i <= n,
            n == models@.len(),
            n == all.len(),
            created@.len() == n,
            forall|j: int|
                0 <= j < i ==> (#[trigger] models@[j])@ == placed(root@, all, created@)[j],
            forall|j: int| i <= j < n ==> (#[trigger] models@[j])@ == all[j],
            manifest_views(out@) == manifests_upto(root@, all, created@, i as nat),
        decreases n - i,
    {
        assert(models@[i as int]@ == all[i as int]);
        if created[i] {
            let leaf = leaf_of(root, &models[i]);
            let manifest = manifest_of(&models[i]);
            let ghost before = manifest_views(out@);
            let ghost entry = (leaf@, manifest@);
            let m = &mut models[i];
            m.catalog_dir = leaf.clone();
            out.push((leaf, manifest));
            assert(manifest_views(out@) =~= before.push(entry));
        }
        i += 1;
    }
    assert(views(models@) =~= placed(root@, all, created@));
    out
}

/// Whether a directory is none of the given ones.
pub open spec fn unlisted(leaf: Seq<char>, live: Seq<Seq<char>>) -> bool {
    forall|i: int|
        0 <= i < live.len() ==> path::components(#[trigger] live[i]) != path::components(leaf)
}

/// Whether a directory of the catalog belongs to no model of the last scan.
pub fn is_stale(leaf: &str, live: &Vec<String>) -> (r: bool)
    ensures
        r == unlisted(leaf@, strs(live@)),
{
    let ghost all = strs(live@);
    let mut i: usize = 0;
    while i < live.len()
        invariant
            i <= live.len(),
            all == strs(live@),
            forall|j: int|
                0 <= j < i ==> path::components(#[trigger] all[j]) != path::components(leaf@),
        decreases live.len() - i,
    {
        assert(all[i as int] == live@[i as int]@);
        if path::same(live[i].as_str(), leaf) {
            assert(path::components(all[i as int]) == path::components(leaf@));
            return false;
        }
        i += 1;
    }
    assert(all.len() == live@.len());
    true
}

/// Notes in a manifest that its model is gone. Gives whether that is news.
pub fn mark_stale(manifest: &mut Manifest) -> (r: bool)
    ensures
        r == old(manifest)@.available,
        final(manifest)@ == (ManifestView { available: false, ..old(manifest)@ }),
{
    let was = manifest.available;
    manifest.available = false;
    was
}

// --- links -------------------------------------------------------------------

/// What stands at the place of a link.
#[derive(Debug)]
pub enum LinkState {
    /// A link, to this path.
    To(String),
    /// Something that is no link.
    Other,
    Missing,
}

/// What to do about a link.
#[derive(Debug, Clone, Copy, PartialEq, Eq, Structural)]
pub enum LinkStep {
    Keep,
    /// The old link goes, and the new one is made.
    Replace,
    Create,
    /// Something else is there and stays.
    Refuse,
}

/// What to do about a link of the catalog: only links are ever replaced.
pub open spec fn link_plan(state: LinkState, target: Seq<char>) -> LinkStep {
    match state {
        LinkState::To(p) => if path::components(p@) == path::components(target) {
            LinkStep::Keep
        } else {
            LinkStep::Replace
        },
        LinkState::Other => LinkStep::Refuse,
        LinkState::Missing => LinkStep::Create,
    }
}

/// What to do about a link of the catalog.
pub fn reconcile_link(state: &LinkState, target: &str) -> (r: LinkStep)
    ensures
        r == link_plan(*state, target@),
{
    match state {
        LinkState::To(p) => if path::same(p.as_str(), target) {
            LinkStep::Keep
        } else {
            LinkStep::Replace
        },
        LinkState::Other => LinkStep::Refuse,
        LinkState::Missing => LinkStep::Create,
    }
}

/// What to do about a link of the Hub's cache: whatever leads to a file stays.
pub open spec fn cache_link_plan(state: LinkState, leads_to_file: bool, target: Seq<char>) -> LinkStep {
    if leads_to_file || link_plan(state, target) == LinkStep::Keep {
        LinkStep::Keep
    } else if state is To {
        LinkStep::Replace
    } else {
        LinkStep::Create
    }
}

/// What to do about a link of the Hub's cache.
pub fn reconcile_cache_link(state: &LinkState, leads_to_file: bool, target: &str) -> (r: LinkStep)
    ensures
        r == cache_link_plan(*state, leads_to_file, target@),
{
    if leads_to_file {
        return LinkStep::Keep;
    }
    match state {
        LinkState::To(p) => if path::same(p.as_str(), target) {
            LinkStep::Keep
        } else {
            LinkStep::Replace
        },
        _ => LinkStep::Create,
    }
}

// --- laws --------------------------------------------------------------------

/// A scan never removes a file of the user's: only links are replaced.
pub proof fn law_only_links_are_replaced(state: LinkState, target: Seq<char>)
    ensures
        link_plan(state, target) == LinkStep::Replace ==> state is To,
        state is Other ==> link_plan(state, target) == LinkStep::Refuse,
        cache_link_plan(state, true, target) == LinkStep::Keep,
{
}

/// Noting the directories changes nothing else of a model.
pub proof fn law_placing_keeps_the_models(root: Seq<char>, models: Seq<ModelView>, created: Seq<bool>, i: int)
    requires
        0 <= i < models.len(),
    ensures
        placed(root, models, created)[i] == (ModelView {
            catalog_dir: placed(root, models, created)[i].catalog_dir,
            ..models[i]
        }),
        placed(root, models, created).len() == models.len(),
{
}

/// A manifest describes its model and nothing else: where the file is, its size and
/// date, its parts and companions, and the source that it was found in.
pub proof fn law_manifests_describe_their_models(m: ModelView)
    ensures
        manifest_for(m).source_path == m.path,
        manifest_for(m).id == m.id && manifest_for(m).name == m.name,
        manifest_for(m).size_bytes == m.size_bytes && manifest_for(m).modified == m.modified,
        manifest_for(m).shards == m.shard_paths,
        manifest_for(m).mtp_path == m.mtp_path && manifest_for(m).projector_path
            == m.projector_path && manifest_for(m).has_mtp == m.has_mtp,
        m.catalog_path.len() > 0 ==> manifest_for(m).source == m.catalog_path.first(),
        manifest_for(m).available,
{
}

/// Whether a manifest with its directory is that of one of the first `n` models.
pub open spec fn belongs(e: (Seq<char>, ManifestView), root: Seq<char>, models: Seq<ModelView>, created: Seq<bool>, n: nat) -> bool {
    exists|i: int|
        0 <= i < n && created[i] && e == (
            leaf_for(root, #[trigger] models[i]),
            manifest_for(models[i]),
        )
}

/// Every model whose directory could be made gets its manifest there, in order, and no
/// other manifest is written.
pub proof fn law_each_directory_gets_its_manifest(root: Seq<char>, models: Seq<ModelView>, created: Seq<bool>, n: nat)
    requires
        n <= models.len(),
        models.len() == created.len(),
    ensures
        forall|i: int|
            0 <= i < n && created[i] ==> manifests_upto(root, models, created, n).contains(
                (leaf_for(root, #[trigger] models[i]), manifest_for(models[i])),
            ),
        forall|k: int|
            0 <= k < manifests_upto(root, models, created, n).len() ==> belongs(
                #[trigger] manifests_upto(root, models, created, n)[k],
                root,
                models,
                created,
                n,
            ),
    decreases n,
{
    if n > 0 {
        let rest = manifests_upto(root, models, created, (n - 1) as nat);
        let all = manifests_upto(root, models, created, n);
        law_each_directory_gets_its_manifest(root, models, created, (n - 1) as nat);
        assert forall|i: int| 0 <= i < n && created[i] implies all.contains(
            (leaf_for(root, #[trigger] models[i]), manifest_for(models[i])),
        ) by {
            let e = (leaf_for(root, models[i]), manifest_for(models[i]));
            if i == n - 1 {
                assert(all[all.len() - 1] == e);
            } else {
                assert(rest.contains(e));
                let k = choose|k: int| 0 <= k < rest.len() && rest[k] == e;
                assert(all[k] == e);
            }
        }
        assert forall|k: int| 0 <= k < all.len() implies belongs(
            #[trigger] all[k],
            root,
            models,
            created,
            n,
        ) by {
            if k < rest.len() {
                assert(all[k] == rest[k]);
                let i = choose|i: int|
                    0 <= i < n - 1 && created[i] && rest[k] == (
                        leaf_for(root, #[trigger] models[i]),
                        manifest_for(models[i]),
                    );
                assert(models[i] == models[i]);
            } else {
                assert(models[n - 1] == models[n - 1]);
            }
        }
    }
}

/// A link that leads to the file stays, one that leads elsewhere is replaced, and where
/// nothing is one is made.
pub proof fn law_links_lead_to_the_file(state: LinkState, target: Seq<char>)
    ensures
        state is To ==> (link_plan(state, target) == LinkStep::Keep) == (path::components(
            state->To_0@,
        ) == path::components(target)),
        state is To ==> link_plan(state, target) == LinkStep::Keep || link_plan(state, target)
            == LinkStep::Replace,
        state is Missing ==> link_plan(state, target) == LinkStep::Create,
        state is Missing ==> cache_link_plan(state, false, target) == LinkStep::Create,
        state is To && path::components(state->To_0@) != path::components(target)
            ==> cache_link_plan(state, false, target) == LinkStep::Replace,
{
}

/// A leaf is no longer listed exactly where no live one is at its place.
pub proof fn law_live_leaves_are_listed(leaf: Seq<char>, live: Seq<Seq<char>>, i: int)
    ensures
        0 <= i < live.len() && live[i] == leaf ==> !unlisted(leaf, live),
        live.len() == 0 ==> unlisted(leaf, live),
{
}

} // verus!
