//! The scan: model files put into the catalog, duplicates settled, places made
//! unique, and the list sorted.

use vstd::prelude::*;
use crate::chars;
use crate::config::ModelLayout;
use crate::discovery::catalog;
use crate::discovery::catalog::{ModelSource, SourceView};
use crate::discovery::gguf::{GgufInfo, InfoView};
use crate::discovery::models;
use crate::discovery::models::info_view;
use crate::discovery::shards;
use crate::domain::{views, Model, ModelView};
use crate::order;
use crate::path;
use crate::text;
use crate::text::{opt, strs};

verus! {

// --- duplicates in the Hugging Face cache ------------------------------------

/// How much a snapshot's file is preferred: the revision that the main reference
/// names first, then the newer file, then the later revision and path.
pub struct SnapshotRank {
    pub is_main: bool,
    pub modified: u64,
    pub revision: Seq<char>,
    pub path: Seq<char>,
}

/// The components of a path below a source, or all of them.
pub open spec fn source_components(source: SourceView, file: Seq<char>) -> Seq<Seq<char>> {
    match path::below(file, source.root) {
        Some(parts) => parts,
        None => path::components(file),
    }
}

/// The revision that a path names: what stands behind its snapshots directory.
pub open spec fn revision_in(components: Seq<Seq<char>>) -> Seq<char> {
    match catalog::snapshots_at(components, 0) {
        Some(i) => if i + 1 < components.len() && components[i + 1] != ".."@ {
            components[i + 1]
        } else {
            Seq::<char>::empty()
        },
        None => Seq::<char>::empty(),
    }
}

/// The rank of a snapshot's file; `main_ref` is what the main reference of its
/// repository says.
pub open spec fn snapshot_rank(source: SourceView, file: Seq<char>, modified: Option<u64>, main_ref: Option<Seq<char>>) -> SnapshotRank {
    let components = source_components(source, file);
    SnapshotRank {
        is_main: catalog::snapshots_at(components, 0) is Some && main_ref is Some
            && chars::trimmed(main_ref->0) == revision_in(components),
        modified: match modified {
            Some(m) => m,
            None => 0,
        },
        revision: revision_in(components),
        path: file,
    }
}

/// Whether rank `a` is above rank `b`.
pub open spec fn rank_above(a: SnapshotRank, b: SnapshotRank) -> bool {
    if a.is_main != b.is_main {
        a.is_main
    } else if a.modified != b.modified {
        a.modified > b.modified
    } else if a.revision != b.revision {
        order::text_lt(b.revision, a.revision)
    } else {
        order::text_lt(b.path, a.path)
    }
}

/// Of two different files exactly one is preferred.
pub proof fn law_preference_is_decided(a: SnapshotRank, b: SnapshotRank)
    requires
        a.path != b.path,
    ensures
        rank_above(a, b) != rank_above(b, a),
{
    order::law_text_order_is_total(a.revision, b.revision);
    order::law_text_order_is_total(a.path, b.path);
}

fn components_of(source: &ModelSource, file: &str) -> (r: Vec<String>)
    ensures
        strs(r@) == source_components(source@, file@),
{
    match path::strip_prefix(file, source.root.as_str()) {
        Some(parts) => parts,
        None => path::split_components(file),
    }
}

fn find_snapshots(components: &Vec<String>) -> (r: Option<usize>)
    ensures
        match r {
            Some(i) => i < components.len() && catalog::snapshots_at(strs(components@), 0) == Some(
                i as int,
            ),
            None => catalog::snapshots_at(strs(components@), 0) is None,
        },
{
    let ghost all = strs(components@);
    let mut i: usize = 0;
    while i < components.len()
        invariant
            i <= components.len(),
            all == strs(components@),
            catalog::snapshots_at(all, 0) == catalog::snapshots_at(all, i as int),
        decreases components.len() - i,
    {
        assert(all[i as int] == components@[i as int]@);
        if text::same(components[i].as_str(), "snapshots") {
            return Some(i);
        }
        i += 1;
    }
    None
}

/// The rank of a snapshot's file, computed: whether it is the main revision, and
/// that revision.
fn rank_parts(source: &ModelSource, file: &str, modified: Option<u64>, main_ref: &Option<String>) -> (r: (bool, String))
    ensures
        r.0 == snapshot_rank(source@, file@, modified, opt(*main_ref)).is_main,
        r.1@ == snapshot_rank(source@, file@, modified, opt(*main_ref)).revision,
{
    let components = components_of(source, file);
    match find_snapshots(&components) {
        None => (false, String::new()),
        Some(i) => {
            let revision = if i + 1 < components.len() {
                assert(strs(components@)[i + 1] == components@[i + 1]@);
                if text::same(components[i + 1].as_str(), "..") {
                    String::new()
                } else {
                    components[i + 1].clone()
                }
            } else {
                String::new()
            };
            let main = match main_ref {
                Some(t) => text::same(chars::trim(t.as_str()).as_str(), revision.as_str()),
                None => false,
            };
            (main, revision)
        },
    }
}

/// A file of the cache that competes for a place.
#[derive(Debug)]
pub struct Candidate<'a> {
    pub path: &'a str,
    pub modified: Option<u64>,
    /// What the main reference of its repository says.
    pub main_ref: &'a Option<String>,
}

impl<'a> Candidate<'a> {
    pub open spec fn rank(self, source: SourceView) -> SnapshotRank {
        snapshot_rank(source, self.path@, self.modified, opt(*self.main_ref))
    }
}

/// Whether a file of the Hugging Face cache takes the place of another one.
pub fn prefer_huggingface_candidate(source: &ModelSource, candidate: &Candidate, current: &Candidate) -> (r: bool)
    ensures
        r == rank_above(candidate.rank(source@), current.rank(source@)),
{
    let (a_main, a_revision) = rank_parts(
        source,
        candidate.path,
        candidate.modified,
        candidate.main_ref,
    );
    let (b_main, b_revision) = rank_parts(
        source,
        current.path,
        current.modified,
        current.main_ref,
    );
    let a_modified: u64 = match candidate.modified {
        Some(m) => m,
        None => 0,
    };
    let b_modified: u64 = match current.modified {
        Some(m) => m,
        None => 0,
    };
    if a_main != b_main {
        a_main
    } else if a_modified != b_modified {
        a_modified > b_modified
    } else if !text::same(a_revision.as_str(), b_revision.as_str()) {
        order::text_before(b_revision.as_str(), a_revision.as_str())
    } else {
        order::text_before(current.path, candidate.path)
    }
}

// --- places that hide one another --------------------------------------------

/// The path with a suffix on its last component.
pub open spec fn suffixed(place: Seq<Seq<char>>, suffix: Seq<char>) -> Seq<Seq<char>> {
    if place.len() == 0 {
        place
    } else {
        place.drop_last().push(place.last() + "-"@ + suffix)
    }
}

/// Whether a model's place is a folder on the way to another model's.
pub open spec fn hides(models: Seq<ModelView>, i: int) -> bool {
    exists|j: int|
        0 <= j < models.len() && (#[trigger] models[j]).id != models[i].id
            && models[j].catalog_path.len() > models[i].catalog_path.len()
            && models[i].catalog_path.is_prefix_of(models[j].catalog_path)
}

/// The models, each that would hide a folder with the short hash of its path on
/// its last component.
pub open spec fn untangled(models: Seq<ModelView>) -> Seq<ModelView> {
    Seq::new(
        models.len(),
        |i: int|
            if hides(models, i) {
                ModelView {
                    catalog_path: suffixed(
                        models[i].catalog_path,
                        catalog::short_hash_of(models[i].path),
                    ),
                    ..models[i]
                }
            } else {
                models[i]
            },
    )
}

fn add_suffix(place: &mut Vec<String>, suffix: &str)
    ensures
        strs(final(place)@) == suffixed(strs(old(place)@), suffix@),
{
    let n = place.len();
    let ghost before = strs(place@);
    if n > 0 {
        assert(before[n - 1] == place@[n - 1]@);
        let last = text::cat3(place[n - 1].as_str(), "-", suffix);
        place[n - 1] = last;
        assert(strs(place@) =~= suffixed(before, suffix@));
    }
}

fn hides_another(models: &Vec<Model>, i: usize) -> (r: bool)
    requires
        i < models.len(),
    ensures
        r == hides(views(models@), i as int),
{
    let ghost all = views(models@);
    assert(all[i as int] == models@[i as int]@);
    let mut j: usize = 0;
    while j < models.len()
        invariant
            i < models.len(),
            j <= models.len(),
            all == views(models@),
            all[i as int] == models@[i as int]@,
            forall|k: int|
                0 <= k < j ==> !((#[trigger] all[k]).id != all[i as int].id
                    && all[k].catalog_path.len() > all[i as int].catalog_path.len()
                    && all[i as int].catalog_path.is_prefix_of(all[k].catalog_path)),
        decreases models.len() - j,
    {
        assert(all[j as int] == models@[j as int]@);
        if !text::same(models[j].id.as_str(), models[i].id.as_str())
            && models[j].catalog_path.len() > models[i].catalog_path.len()
            && text::list_starts_with(&models[j].catalog_path, &models[i].catalog_path) {
            return true;
        }
        j += 1;
    }
    false
}

/// Gives each model that would hide a folder a place of its own.
pub fn resolve_prefix_collisions(models: &mut Vec<Model>)
    ensures
        views(final(models)@) == untangled(views(old(models)@)),
{
    let ghost start = views(models@);
    let n = models.len();
    let mut tangled: Vec<bool> = Vec::new();
    let mut i: usize = 0;
    while i < n
        invariant
            n == models.len(),
            i <= n,
            start == views(models@),
            tangled.len() == i,
            forall|j: int| 0 <= j < i ==> #[trigger] tangled@[j] == hides(start, j),
        decreases n - i,
    {
        tangled.push(hides_another(models, i));
        i += 1;
    }
    let mut k: usize = 0;
    while k < n
        invariant
            n == models.len(),
            k <= n,
            tangled.len() == n,
            start.len() == n,
            forall|j: int| 0 <= j < n ==> #[trigger] tangled@[j] == hides(start, j),
            forall|j: int| 0 <= j < k ==> (#[trigger] models@[j])@ == untangled(start)[j],
            forall|j: int| k <= j < n ==> (#[trigger] models@[j])@ == start[j],
        decreases n - k,
    {
        if tangled[k] {
            let mut model = models[k].clone();
            let suffix = catalog::short_hash(model.path.as_str());
            add_suffix(&mut model.catalog_path, suffix.as_str());
            models[k] = model;
        }
        k += 1;
    }
    assert(views(models@) =~= untangled(start));
}

// --- the scan ----------------------------------------------------------------

/// A file that was found, in the order of the search.
#[derive(Debug)]
pub struct Found {
    /// The source that it was found in, as an index.
    pub source: usize,
    pub path: String,
    /// The size of the file itself.
    pub length: u64,
    /// The sizes of the files that [`models::shard_paths`] lists for it, as far as
    /// they exist.
    pub parts: Vec<Option<u64>>,
    pub modified: Option<u64>,
    /// What its header says, where it could be read.
    pub info: Option<GgufInfo>,
    /// What the main reference of its repository in the Hugging Face cache says.
    pub main_ref: Option<String>,
}

pub struct FoundView {
    pub source: int,
    pub path: Seq<char>,
    pub length: u64,
    pub parts: Seq<Option<u64>>,
    pub modified: Option<u64>,
    pub info: Option<InfoView>,
    pub main_ref: Option<Seq<char>>,
}

impl FoundView {
    /// Whether the file is a model: of the right extension, no projector, and no
    /// part of a split model but the first.
    pub open spec fn is_model(self) -> bool {
        models::is_model_file(self.path, shards::shard_name(shards::SHARD@, self.path))
    }

    /// The size of the whole model: for a split one the sum over its parts.
    pub open spec fn size(self) -> nat {
        match models::own_shard(self.path) {
            Some(_) => models::model_size(self.length, self.parts),
            None => self.length as nat,
        }
    }

    /// Whether the sizes of the parts can be added up.
    pub open spec fn fits(self) -> bool {
        models::sizes_upto(self.parts, self.parts.len()) <= u64::MAX
    }
}

impl View for Found {
    type V = FoundView;

    open spec fn view(&self) -> FoundView {
        FoundView {
            source: self.source as int,
            path: self.path@,
            length: self.length,
            parts: self.parts@,
            modified: self.modified,
            info: info_view(self.info),
            main_ref: opt(self.main_ref),
        }
    }
}

pub open spec fn found_views(v: Seq<Found>) -> Seq<FoundView> {
    v.map_values(|f: Found| f@)
}

pub open spec fn source_views(v: Seq<ModelSource>) -> Seq<SourceView> {
    v.map_values(|s: ModelSource| s@)
}

/// Models by the path of their file.
pub open spec fn keyed_views(v: Seq<(String, Model)>) -> Seq<(Seq<char>, ModelView)> {
    v.map_values(|e: (String, Model)| (e.0@, e.1@))
}

/// The model of a path.
pub open spec fn known(list: Seq<(Seq<char>, ModelView)>, key: Seq<char>) -> Option<ModelView>
    decreases list.len(),
{
    if list.len() == 0 {
        None
    } else if list[0].0 == key {
        Some(list[0].1)
    } else {
        known(list.skip(1), key)
    }
}

/// Whether the scan has come by a path, however it is spelled.
pub open spec fn noted(list: Seq<(Seq<char>, ModelView)>, file: Seq<char>) -> bool {
    exists|i: int|
        0 <= i < list.len() && path::components((#[trigger] list[i]).0) == path::components(file)
}

/// How far the scan has come: what is known by path, the models, and which file
/// holds which place.
pub struct ScanState {
    pub fresh: Seq<(Seq<char>, ModelView)>,
    pub models: Seq<ModelView>,
    pub places: Seq<(Seq<Seq<char>>, int)>,
}

/// The file that holds a place: the last that took it.
pub open spec fn holder(places: Seq<(Seq<Seq<char>>, int)>, place: Seq<Seq<char>>) -> Option<int>
    decreases places.len(),
{
    if places.len() == 0 {
        None
    } else if places.last().0 == place {
        Some(places.last().1)
    } else {
        holder(places.drop_last(), place)
    }
}

/// When the model at a place was modified.
pub open spec fn modified_at(models: Seq<ModelView>, place: Seq<Seq<char>>) -> u64
    decreases models.len(),
{
    if models.len() == 0 {
        0
    } else if models[0].catalog_path == place {
        match models[0].modified {
            Some(m) => m,
            None => 0,
        }
    } else {
        modified_at(models.skip(1), place)
    }
}

/// The models that are not at a place.
pub open spec fn elsewhere(models: Seq<ModelView>, place: Seq<Seq<char>>) -> Seq<ModelView>
    decreases models.len(),
{
    if models.len() == 0 {
        models
    } else {
        let rest = elsewhere(models.drop_last(), place);
        if models.last().catalog_path == place {
            rest
        } else {
            rest.push(models.last())
        }
    }
}

/// What the last scan knew of a file, where it is still so: size and date are the
/// same.
pub open spec fn still_known(cache: Seq<(Seq<char>, ModelView)>, file: Seq<char>, size: u64, modified: Option<u64>) -> Option<ModelView> {
    match known(cache, file) {
        Some(c) => if c.size_bytes == size && c.modified == modified {
            Some(c)
        } else {
            None
        },
        None => None,
    }
}

/// What is known of a found file: what the last scan knew, where that is still so,
/// else what its header and name say.
pub open spec fn base_model(cache: Seq<(Seq<char>, ModelView)>, f: FoundView) -> ModelView {
    match still_known(cache, f.path, f.size() as u64, f.modified) {
        Some(c) => c,
        None => fresh_model(f),
    }
}

/// What the header and the name of a found file say.
pub open spec fn fresh_model(f: FoundView) -> ModelView {
    models::model_of(
        f.path,
        f.size() as u64,
        f.modified,
        f.info,
        models::own_shard(f.path),
        models::own_quant(f.path),
    )
}

/// A found model with its identity and its place.
pub open spec fn placed(sources: Seq<SourceView>, cache: Seq<(Seq<char>, ModelView)>, f: FoundView) -> ModelView {
    let source = sources[f.source];
    let base = base_model(cache, f);
    ModelView {
        shard_paths: models::part_paths(f.path, models::own_shard(f.path)),
        id: source.name + ":"@ + catalog::short_hash_of(f.path),
        catalog_path: catalog::place_of(source, f.path, base.name),
        ..base
    }
}

/// The scan with a model entered.
pub open spec fn entered(st: ScanState, m: ModelView, key: Seq<char>, k: int) -> ScanState {
    let model = ModelView { catalog_dir: ""@, ..m };
    ScanState {
        fresh: st.fresh.push((key, model)),
        models: st.models.push(model),
        places: st.places.push((m.catalog_path, k)),
    }
}

/// The scan with one more file. One that is no model, and one that was there
/// already, is passed over. Of
/// two files of the Hugging Face cache for one place the preferred one stays;
/// elsewhere the later file gets a place of its own.
pub open spec fn scan_step(st: ScanState, sources: Seq<SourceView>, cache: Seq<(Seq<char>, ModelView)>, found: Seq<FoundView>, k: int) -> ScanState {
    let f = found[k];
    let source = sources[f.source];
    let m = placed(sources, cache, f);
    let held = holder(st.places, m.catalog_path);
    if !f.is_model() || noted(st.fresh, f.path) {
        st
    } else if held is None || path::components(found[held->0].path) == path::components(f.path) {
        entered(st, m, f.path, k)
    } else if catalog::layout_of(source, catalog::relative(source, f.path))
        == ModelLayout::HuggingFace {
        let e = found[held->0];
        let there = snapshot_rank(
            source,
            e.path,
            Some(modified_at(st.models, m.catalog_path)),
            e.main_ref,
        );
        if rank_above(snapshot_rank(source, f.path, f.modified, f.main_ref), there) {
            entered(
                ScanState { models: elsewhere(st.models, m.catalog_path), ..st },
                m,
                f.path,
                k,
            )
        } else {
            ScanState { fresh: st.fresh.push((f.path, m)), ..st }
        }
    } else {
        entered(
            st,
            ModelView {
                catalog_path: suffixed(m.catalog_path, catalog::short_hash_of(f.path)),
                ..m
            },
            f.path,
            k,
        )
    }
}

/// The scan of the first `n` files.
pub open spec fn scanned(sources: Seq<SourceView>, cache: Seq<(Seq<char>, ModelView)>, found: Seq<FoundView>, n: nat) -> ScanState
    decreases n,
{
    if n == 0 {
        ScanState {
            fresh: Seq::<(Seq<char>, ModelView)>::empty(),
            models: Seq::<ModelView>::empty(),
            places: Seq::<(Seq<Seq<char>>, int)>::empty(),
        }
    } else {
        scan_step(
            scanned(sources, cache, found, (n - 1) as nat),
            sources,
            cache,
            found,
            n - 1,
        )
    }
}

/// Whether model `i` comes before model `j` by name, letter case aside.
pub open spec fn name_lt(models: Seq<ModelView>) -> spec_fn(int, int) -> bool {
    |i: int, j: int|
        order::text_lt(chars::lowercase(models[i].name), chars::lowercase(models[j].name))
}

/// The models in the order of their names, letter case aside.
pub open spec fn by_name(models: Seq<ModelView>) -> Seq<ModelView> {
    order::pick(models, order::stable_order(models.len(), name_lt(models)))
}

/// The models that a scan gives.
pub open spec fn scan_result(sources: Seq<SourceView>, cache: Seq<(Seq<char>, ModelView)>, found: Seq<FoundView>) -> Seq<ModelView> {
    by_name(untangled(scanned(sources, cache, found, found.len()).models))
}

// --- the same, computed ------------------------------------------------------

/// The place of a path in a list of models by path.
fn find_known(list: &Vec<(String, Model)>, key: &str) -> (r: Option<usize>)
    ensures
        match r {
            Some(i) => i < list.len() && known(keyed_views(list@), key@) == Some(
                list@[i as int].1@,
            ),
            None => known(keyed_views(list@), key@) is None,
        },
{
    let ghost all = keyed_views(list@);
    let mut i: usize = 0;
    assert(all.skip(0) =~= all);
    while i < list.len()
        invariant
            i <= list.len(),
            all == keyed_views(list@),
            known(all, key@) == known(all.skip(i as int), key@),
        decreases list.len() - i,
    {
        assert(all.skip(i as int)[0] == all[i as int]);
        if text::same(list[i].0.as_str(), key) {
            return Some(i);
        }
        assert(all.skip(i as int).skip(1) =~= all.skip(i + 1));
        i += 1;
    }
    None
}

/// The scan so far.
struct Scan {
    fresh: Vec<(String, Model)>,
    models: Vec<Model>,
    places: Vec<(Vec<String>, usize)>,
}

spec fn place_views(v: Seq<(Vec<String>, usize)>) -> Seq<(Seq<Seq<char>>, int)> {
    v.map_values(|e: (Vec<String>, usize)| (strs(e.0@), e.1 as int))
}

impl Scan {
    spec fn state(self) -> ScanState {
        ScanState {
            fresh: keyed_views(self.fresh@),
            models: views(self.models@),
            places: place_views(self.places@),
        }
    }

    /// Whether the places are held by files among the first `n`.
    spec fn below(self, n: int) -> bool {
        forall|i: int| 0 <= i < self.places@.len() ==> (#[trigger] self.places@[i]).1 < n
    }

    fn find_holder(&self, place: &Vec<String>) -> (r: Option<usize>)
        ensures
            match r {
                Some(e) => holder(self.state().places, strs(place@)) == Some(e as int) && exists|
                    i: int,
                |
                    0 <= i < self.places@.len() && (#[trigger] self.places@[i]).1 == e,
                None => holder(self.state().places, strs(place@)) is None,
            },
    {
        let ghost all = self.state().places;
        let mut n: usize = self.places.len();
        assert(all.take(n as int) =~= all);
        while n > 0
            invariant
                n <= self.places.len(),
                all == place_views(self.places@),
                holder(all, strs(place@)) == holder(all.take(n as int), strs(place@)),
            decreases n,
        {
            assert(all.take(n as int).last() == all[n - 1]);
            assert(all.take(n as int).drop_last() =~= all.take(n - 1));
            if text::same_list(&self.places[n - 1].0, place) {
                return Some(self.places[n - 1].1);
            }
            n -= 1;
        }
        None
    }

    fn modified_at(&self, place: &Vec<String>) -> (r: u64)
        ensures
            r == modified_at(self.state().models, strs(place@)),
    {
        let ghost all = self.state().models;
        let mut i: usize = 0;
        assert(all.skip(0) =~= all);
        while i < self.models.len()
            invariant
                i <= self.models.len(),
                all == views(self.models@),
                modified_at(all, strs(place@)) == modified_at(all.skip(i as int), strs(place@)),
            decreases self.models.len() - i,
        {
            assert(all.skip(i as int)[0] == self.models@[i as int]@);
            if text::same_list(&self.models[i].catalog_path, place) {
                return match self.models[i].modified {
                    Some(m) => m,
                    None => 0,
                };
            }
            assert(all.skip(i as int).skip(1) =~= all.skip(i + 1));
            i += 1;
        }
        0
    }

    fn drop_place(&mut self, place: &Vec<String>)
        ensures
            final(self).state().models == elsewhere(old(self).state().models, strs(place@)),
            final(self).fresh == old(self).fresh,
            final(self).places == old(self).places,
    {
        let ghost all = self.state().models;
        let mut out: Vec<Model> = Vec::new();
        let mut i: usize = 0;
        assert(views(out@) =~= elsewhere(all.take(0), strs(place@)));
        while i < self.models.len()
            invariant
                i <= self.models.len(),
                all == views(self.models@),
                views(out@) == elsewhere(all.take(i as int), strs(place@)),
                *self == *old(self),
            decreases self.models.len() - i,
        {
            proof {
                assert(all.take(i + 1).drop_last() =~= all.take(i as int));
                assert(all.take(i + 1).last() == self.models@[i as int]@);
            }
            if !text::same_list(&self.models[i].catalog_path, place) {
                let ghost before = views(out@);
                out.push(self.models[i].clone());
                assert(views(out@) =~= before.push(all[i as int]));
            }
            i += 1;
        }
        assert(all.take(i as int) =~= all);
        self.models = out;
    }

    fn enter(&mut self, m: Model, key: &str, k: usize)
        ensures
            final(self).state() == entered(old(self).state(), m@, key@, k as int),
            final(self).places@.len() == old(self).places@.len() + 1,
            forall|i: int|
                0 <= i < final(self).places@.len() ==> (#[trigger] final(self).places@[i]).1 == (if i
                    < old(self).places@.len() {
                    old(self).places@[i].1
                } else {
                    k
                }),
    {
        let ghost st = self.state();
        let mut model = m;
        let place = text::copy_all(&model.catalog_path);
        model.catalog_dir = text::copy("");
        let again = model.clone();
        let ghost view = model@;
        self.fresh.push((text::copy(key), again));
        assert(keyed_views(self.fresh@) =~= st.fresh.push((key@, view)));
        self.models.push(model);
        assert(views(self.models@) =~= st.models.push(view));
        self.places.push((place, k));
        assert(place_views(self.places@) =~= st.places.push((view.catalog_path, k as int)));
    }
}

/// Whether the scan has come by a path.
fn is_noted(list: &Vec<(String, Model)>, file: &str) -> (r: bool)
    ensures
        r == noted(keyed_views(list@), file@),
{
    let ghost all = keyed_views(list@);
    let mut i: usize = 0;
    while i < list.len()
        invariant
            i <= list.len(),
            all == keyed_views(list@),
            forall|j: int|
                0 <= j < i ==> path::components((#[trigger] all[j]).0) != path::components(file@),
        decreases list.len() - i,
    {
        assert(all[i as int].0 == list@[i as int].0@);
        if path::same(list[i].0.as_str(), file) {
            return true;
        }
        i += 1;
    }
    assert(all.len() == list@.len());
    false
}

/// The place in the cache of what the last scan knew of a file, where it is still so.
fn find_still_known(cache: &Vec<(String, Model)>, file: &str, size: u64, modified: Option<u64>) -> (r: Option<usize>)
    ensures
        match r {
            Some(i) => i < cache.len() && still_known(keyed_views(cache@), file@, size, modified)
                == Some(cache@[i as int].1@),
            None => still_known(keyed_views(cache@), file@, size, modified) is None,
        },
{
    match find_known(cache, file) {
        Some(i) => {
            let same_date = match (cache[i].1.modified, modified) {
                (Some(a), Some(b)) => a == b,
                (None, None) => true,
                _ => false,
            };
            if cache[i].1.size_bytes == size && same_date {
                Some(i)
            } else {
                None
            }
        },
        None => None,
    }
}

/// Whether the header of a file has to be read for a scan: the file is a model, and
/// the last scan knew nothing of it that is still so.
pub fn needs_header(cache: &Vec<(String, Model)>, file: &str, size: u64, modified: Option<u64>) -> (r: bool)
    ensures
        r == (models::is_model_file(file@, shards::shard_name(shards::SHARD@, file@))
            && still_known(keyed_views(cache@), file@, size, modified) is None),
{
    models::is_candidate(file) && find_still_known(cache, file, size, modified).is_none()
}

/// Where the main reference of the repository is that a file of the Hugging Face
/// cache belongs to: beside its snapshots directory.
pub open spec fn main_ref_place(source: SourceView, file: Seq<char>) -> Option<Seq<char>> {
    let components = source_components(source, file);
    match catalog::snapshots_at(components, 0) {
        Some(i) => Some(
            path::joined(path::joined_all(source.root, components.take(i)), "refs/main"@),
        ),
        None => None,
    }
}

/// Where the main reference of the repository is that a file of the Hugging Face
/// cache belongs to.
pub fn main_ref_path(source: &ModelSource, file: &str) -> (r: Option<String>)
    ensures
        opt(r) == main_ref_place(source@, file@),
{
    let components = components_of(source, file);
    let ghost all = strs(components@);
    match find_snapshots(&components) {
        Some(n) => {
            let mut above: Vec<String> = Vec::new();
            let mut i: usize = 0;
            assert(strs(above@) =~= all.take(0));
            while i < n
                invariant
                    i <= n < components.len(),
                    all == strs(components@),
                    strs(above@) == all.take(i as int),
                decreases n - i,
            {
                let ghost before = strs(above@);
                above.push(components[i].clone());
                assert(strs(above@) =~= before.push(all[i as int]));
                assert(strs(above@) =~= all.take(i + 1));
                i += 1;
            }
            let dir = path::join_all(source.root.as_str(), &above);
            Some(path::join(dir.as_str(), "refs/main"))
        },
        None => None,
    }
}

impl Found {
    /// The size of the whole model.
    pub fn model_size(&self) -> (r: u64)
        requires
            self@.fits(),
        ensures
            r == self@.size(),
    {
        if models::is_split(self.path.as_str()) {
            match models::aggregate_size(self.length, &self.parts) {
                Some(n) => n,
                None => self.length,
            }
        } else {
            self.length
        }
    }
}

/// What is known of a found file, with its identity and place.
fn place_found(sources: &Vec<ModelSource>, cache: &Vec<(String, Model)>, f: &Found) -> (r: Model)
    requires
        f.source < sources.len(),
        f@.fits(),
    ensures
        r@ == placed(source_views(sources@), keyed_views(cache@), f@),
{
    let source = &sources[f.source];
    assert(source_views(sources@)[f.source as int] == source@);
    let file = f.path.as_str();
    let size = f.model_size();
    let mut model = match find_still_known(cache, file, size, f.modified) {
        Some(i) => cache[i].1.clone(),
        None => models::build_model(file, size, f.modified, &f.info),
    };
    assert(model@ == base_model(keyed_views(cache@), f@));
    model.shard_paths = models::shard_paths(file);
    model.id = text::cat3(source.name.as_str(), ":", catalog::short_hash(file).as_str());
    model.catalog_path = catalog::catalog_path(source, file, model.name.as_str());
    model
}

/// Takes in one more file.
fn scan_file(scan: &mut Scan, sources: &Vec<ModelSource>, cache: &Vec<(String, Model)>, found: &Vec<Found>, k: usize)
    requires
        k < found.len(),
        old(scan).below(k as int),
        found@[k as int].source < sources.len(),
        found@[k as int]@.fits(),
    ensures
        final(scan).below(k + 1),
        final(scan).state() == scan_step(
            old(scan).state(),
            source_views(sources@),
            keyed_views(cache@),
            found_views(found@),
            k as int,
        ),
{
    let ghost all = found_views(found@);
    assert(all[k as int] == found@[k as int]@);
    let f = &found[k];
    let file = f.path.as_str();
    if !models::is_candidate(file) || is_noted(&scan.fresh, file) {
        return;
    }
    let source = &sources[f.source];
    assert(source_views(sources@)[f.source as int] == source@);
    let mut model = place_found(sources, cache, f);
    if let Some(e) = scan.find_holder(&model.catalog_path) {
        assert(e < k) by {
            let i = choose|i: int|
                0 <= i < scan.places@.len() && (#[trigger] scan.places@[i]).1 == e;
            assert(scan.places@[i].1 < k);
        }
        assert(all[e as int] == found@[e as int]@);
        let other = found[e].path.as_str();
        if !path::same(other, file) {
            if catalog::resolved_layout(source, file) == ModelLayout::HuggingFace {
                let there = Candidate {
                    path: other,
                    modified: Some(scan.modified_at(&model.catalog_path)),
                    main_ref: &found[e].main_ref,
                };
                let here = Candidate { path: file, modified: f.modified, main_ref: &f.main_ref };
                if !prefer_huggingface_candidate(source, &here, &there) {
                    let ghost st = scan.state();
                    let ghost view = model@;
                    scan.fresh.push((text::copy(file), model));
                    assert(keyed_views(scan.fresh@) =~= st.fresh.push((file@, view)));
                    return;
                }
                scan.drop_place(&model.catalog_path);
            } else {
                let suffix = catalog::short_hash(file);
                add_suffix(&mut model.catalog_path, suffix.as_str());
            }
        }
    }
    scan.enter(model, file, k);
}

/// The models in the order of their names, letter case aside.
pub fn sort_by_name(models: &Vec<Model>) -> (r: Vec<Model>)
    ensures
        views(r@) == by_name(views(models@)),
{
    let ghost all = views(models@);
    let mut keys: Vec<String> = Vec::new();
    let mut i: usize = 0;
    while i < models.len()
        invariant
            i <= models.len(),
            keys.len() == i,
            all == views(models@),
            forall|j: int| 0 <= j < i ==> (#[trigger] keys@[j])@ == chars::lowercase(all[j].name),
        decreases models.len() - i,
    {
        assert(all[i as int] == models@[i as int]@);
        keys.push(chars::to_lowercase(models[i].name.as_str()));
        i += 1;
    }
    let n = models.len();
    let before = |a: usize, b: usize| -> (r: bool)
        requires
            a < n,
            b < n,
            n == keys.len(),
        ensures
            r == order::text_lt(keys@[a as int]@, keys@[b as int]@),
        { order::text_before(keys[a].as_str(), keys[b].as_str()) };
    let picked = order::sorted_indices(n, before, Ghost(name_lt(all)));
    let mut out: Vec<Model> = Vec::new();
    let mut k: usize = 0;
    while k < picked.len()
        invariant
            k <= picked.len(),
            n == models.len(),
            all == views(models@),
            out.len() == k,
            forall|j: int| 0 <= j < picked@.len() ==> #[trigger] picked@[j] < n,
            forall|j: int| 0 <= j < k ==> (#[trigger] out@[j])@ == all[picked@[j] as int],
        decreases picked.len() - k,
    {
        assert(all[picked@[k as int] as int] == models@[picked@[k as int] as int]@);
        out.push(models[picked[k]].clone());
        k += 1;
    }
    assert(views(out@) =~= order::pick(all, order::ints(picked@)));
    out
}

/// The models of all sources, and what to remember of them for the next scan.
/// `found` are the files in the order of the search; `cache` is what the last scan
/// remembered.
pub fn scan(sources: &Vec<ModelSource>, found: &Vec<Found>, cache: &Vec<(String, Model)>) -> (r: (Vec<Model>, Vec<(String, Model)>))
    requires
        forall|i: int|
            0 <= i < found@.len() ==> (#[trigger] found@[i]).source < sources.len()
                && found@[i]@.fits(),
    ensures
        names_rise(views(r.0@)),
        remembers_truly(keyed_views(cache@), found_views(found@)) ==> distinct_files(views(r.0@))
            && forall|k: int|
            0 <= k < r.0@.len() ==> stems_from((#[trigger] r.0@[k])@, found_views(found@)),
        views(r.0@) == scan_result(
            source_views(sources@),
            keyed_views(cache@),
            found_views(found@),
        ),
        keyed_views(r.1@) == scanned(
            source_views(sources@),
            keyed_views(cache@),
            found_views(found@),
            found@.len(),
        ).fresh,
{
    let ghost want = source_views(sources@);
    let mut state = Scan { fresh: Vec::new(), models: Vec::new(), places: Vec::new() };
    proof {
        let empty = scanned(want, keyed_views(cache@), found_views(found@), 0);
        assert(state.state().fresh =~= empty.fresh);
        assert(state.state().models =~= empty.models);
        assert(state.state().places =~= empty.places);
    }
    let mut k: usize = 0;
    while k < found.len()
        invariant
            k <= found.len(),
            want == source_views(sources@),
            forall|i: int|
                0 <= i < found@.len() ==> (#[trigger] found@[i]).source < sources.len()
                    && found@[i]@.fits(),
            state.below(k as int),
            state.state() == scanned(want, keyed_views(cache@), found_views(found@), k as nat),
        decreases found.len() - k,
    {
        scan_file(&mut state, sources, cache, found, k);
        k += 1;
    }
    let Scan { fresh, mut models, places: _ } = state;
    resolve_prefix_collisions(&mut models);
    let sorted = sort_by_name(&models);
    proof {
        let all = found_views(found@);
        law_scan_is_sorted(want, keyed_views(cache@), all);
        if remembers_truly(keyed_views(cache@), all) {
            law_scan_lists_files_once(want, keyed_views(cache@), all);
            law_scan_lists_only_models(want, keyed_views(cache@), all);
            let out = views(sorted@);
            assert forall|k: int| 0 <= k < sorted@.len() implies stems_from(
                (#[trigger] sorted@[k])@,
                all,
            ) by {
                assert(out[k] == sorted@[k]@);
                let j = choose|j: int|
                    0 <= j < all.len() && #[trigger] all[j].is_model() && all[j].path
                        == out[k].path && all[j].size() as u64 == out[k].size_bytes;
                assert(all[j] == found@[j]@);
                assert(all[j].size() <= u64::MAX);
            }
        }
    }
    (sorted, fresh)
}

// --- what a scan lists --------------------------------------------------------

/// Whether what the last scan knew of the found files, where it is still so, was
/// known of these files and no others.
pub open spec fn remembers_truly(cache: Seq<(Seq<char>, ModelView)>, found: Seq<FoundView>) -> bool {
    forall|i: int|
        0 <= i < found.len() ==> {
            let f = #[trigger] found[i];
            match still_known(cache, f.path, f.size() as u64, f.modified) {
                Some(c) => c.path == f.path,
                None => true,
            }
        }
}

/// Whether every model is filed under its own path.
pub open spec fn filed_by_path(list: Seq<(Seq<char>, ModelView)>) -> bool {
    forall|i: int| 0 <= i < list.len() ==> (#[trigger] list[i]).0 == list[i].1.path
}

/// Whether no two models have the same file, however its path is spelled.
pub open spec fn distinct_files(models: Seq<ModelView>) -> bool {
    forall|i: int, j: int|
        0 <= i < j < models.len() ==> path::components(#[trigger] models[i].path)
            != path::components(#[trigger] models[j].path)
}

/// Whether a model stems from a file that was found: the file is a model, and the
/// size is that of the file or, where the model is split, of all its parts.
pub open spec fn stems_from(m: ModelView, found: Seq<FoundView>) -> bool {
    exists|j: int|
        0 <= j < found.len() && #[trigger] found[j].is_model() && found[j].path == m.path
            && found[j].size() == m.size_bytes
}

/// The same, for sizes as the machine holds them.
spec fn listed_from(m: ModelView, found: Seq<FoundView>) -> bool {
    exists|j: int|
        0 <= j < found.len() && #[trigger] found[j].is_model() && found[j].path == m.path
            && found[j].size() as u64 == m.size_bytes
}

/// Whether the names rise, letter case aside.
pub open spec fn names_rise(models: Seq<ModelView>) -> bool {
    forall|i: int, j: int|
        0 <= i < j < models.len() ==> !order::text_lt(
            chars::lowercase(#[trigger] models[j].name),
            chars::lowercase(#[trigger] models[i].name),
        )
}

proof fn lemma_noted_push(list: Seq<(Seq<char>, ModelView)>, e: (Seq<char>, ModelView), file: Seq<char>)
    ensures
        noted(list.push(e), file) == (noted(list, file) || path::components(e.0)
            == path::components(file)),
{
    let out = list.push(e);
    if noted(list, file) {
        let i = choose|i: int|
            0 <= i < list.len() && path::components((#[trigger] list[i]).0) == path::components(
                file,
            );
        assert(out[i] == list[i]);
    }
    if path::components(e.0) == path::components(file) {
        assert(out[list.len() as int] == e);
    }
    if noted(out, file) {
        let i = choose|i: int|
            0 <= i < out.len() && path::components((#[trigger] out[i]).0) == path::components(file);
        if i < list.len() {
            assert(out[i] == list[i]);
        }
    }
}

proof fn lemma_elsewhere(models: Seq<ModelView>, place: Seq<Seq<char>>)
    requires
        distinct_files(models),
    ensures
        distinct_files(elsewhere(models, place)),
        forall|i: int|
            0 <= i < elsewhere(models, place).len() ==> models.contains(
                #[trigger] elsewhere(models, place)[i],
            ),
    decreases models.len(),
{
    if models.len() > 0 {
        let less = models.drop_last();
        assert(distinct_files(less)) by {
            assert forall|i: int, j: int| 0 <= i < j < less.len() implies path::components(
                #[trigger] less[i].path,
            ) != path::components(#[trigger] less[j].path) by {
                assert(less[i] == models[i] && less[j] == models[j]);
            }
        }
        lemma_elsewhere(less, place);
        let rest = elsewhere(less, place);
        let out = elsewhere(models, place);
        assert forall|i: int| 0 <= i < out.len() implies models.contains(#[trigger] out[i]) by {
            if i < rest.len() {
                assert(out[i] == rest[i]);
                let k = choose|k: int| 0 <= k < less.len() && less[k] == rest[i];
                assert(models[k] == rest[i]);
            } else {
                assert(models[models.len() - 1] == out[i]);
            }
        }
        assert forall|i: int, j: int| 0 <= i < j < out.len() implies path::components(
            #[trigger] out[i].path,
        ) != path::components(#[trigger] out[j].path) by {
            if j < rest.len() {
                assert(out[i] == rest[i] && out[j] == rest[j]);
            } else {
                assert(out[i] == rest[i]);
                let k = choose|k: int| 0 <= k < less.len() && less[k] == rest[i];
                assert(models[k] == rest[i]);
            }
        }
    }
}

/// Whether the models are of different files, all of them noted and found, and what
/// is known is filed by path.
spec fn settled(st: ScanState, found: Seq<FoundView>) -> bool {
    &&& filed_by_path(st.fresh)
    &&& distinct_files(st.models)
    &&& forall|i: int|
        0 <= i < st.models.len() ==> noted(st.fresh, #[trigger] st.models[i].path) && listed_from(
            st.models[i],
            found,
        )
}

proof fn lemma_entered(st: ScanState, m: ModelView, key: Seq<char>, k: int, found: Seq<FoundView>)
    requires
        settled(st, found),
        m.path == key,
        listed_from(m, found),
        !noted(st.fresh, key),
    ensures
        settled(entered(st, m, key, k), found),
{
    let out = entered(st, m, key, k);
    let e = (key, ModelView { catalog_dir: ""@, ..m });
    assert forall|i: int| 0 <= i < out.models.len() implies noted(
        out.fresh,
        #[trigger] out.models[i].path,
    ) && listed_from(out.models[i], found) by {
        lemma_noted_push(st.fresh, e, out.models[i].path);
        if i < st.models.len() {
            assert(out.models[i] == st.models[i]);
        } else {
            let j = choose|j: int|
                0 <= j < found.len() && #[trigger] found[j].is_model() && found[j].path == m.path
                    && found[j].size() as u64 == m.size_bytes;
            assert(found[j].is_model() && found[j].path == out.models[i].path);
        }
    }
    assert forall|i: int, j: int| 0 <= i < j < out.models.len() implies path::components(
        #[trigger] out.models[i].path,
    ) != path::components(#[trigger] out.models[j].path) by {
        assert(out.models[i] == st.models[i]);
        if j < st.models.len() {
            assert(out.models[j] == st.models[j]);
        } else if path::components(st.models[i].path) == path::components(key) {
            assert(noted(st.fresh, st.models[i].path));
            let a = choose|a: int|
                0 <= a < st.fresh.len() && path::components((#[trigger] st.fresh[a]).0)
                    == path::components(st.models[i].path);
            assert(noted(st.fresh, key));
        }
    }
}

proof fn lemma_scanned(sources: Seq<SourceView>, cache: Seq<(Seq<char>, ModelView)>, found: Seq<FoundView>, n: nat)
    requires
        n <= found.len(),
        remembers_truly(cache, found),
    ensures
        settled(scanned(sources, cache, found, n), found),
    decreases n,
{
    if n > 0 {
        lemma_scanned(sources, cache, found, (n - 1) as nat);
        let st = scanned(sources, cache, found, (n - 1) as nat);
        let f = found[n - 1];
        let m = placed(sources, cache, f);
        assert(found[n - 1] == f);
        assert(m.path == f.path);
        assert(m.size_bytes == f.size() as u64);
        if f.is_model() && !noted(st.fresh, f.path) {
            let held = holder(st.places, m.catalog_path);
            assert(found[n - 1].is_model());
            assert(listed_from(m, found));
            lemma_entered(st, m, f.path, n - 1, found);
            let own = ModelView {
                catalog_path: suffixed(m.catalog_path, catalog::short_hash_of(f.path)),
                ..m
            };
            assert(listed_from(own, found));
            lemma_entered(st, own, f.path, n - 1, found);
            lemma_elsewhere(st.models, m.catalog_path);
            let cleared = ScanState { models: elsewhere(st.models, m.catalog_path), ..st };
            assert(settled(cleared, found)) by {
                assert forall|i: int| 0 <= i < cleared.models.len() implies noted(
                    cleared.fresh,
                    #[trigger] cleared.models[i].path,
                ) && listed_from(cleared.models[i], found) by {
                    let k = choose|k: int|
                        0 <= k < st.models.len() && st.models[k] == cleared.models[i];
                    assert(noted(st.fresh, st.models[k].path));
                }
            }
            lemma_entered(cleared, m, f.path, n - 1, found);
            let kept = ScanState { fresh: st.fresh.push((f.path, m)), ..st };
            assert(settled(kept, found)) by {
                assert forall|i: int| 0 <= i < kept.models.len() implies noted(
                    kept.fresh,
                    #[trigger] kept.models[i].path,
                ) && listed_from(kept.models[i], found) by {
                    lemma_noted_push(st.fresh, (f.path, m), kept.models[i].path);
                    assert(noted(st.fresh, st.models[i].path));
                }
            }
        }
    }
}

proof fn lemma_known_is_filed(list: Seq<(Seq<char>, ModelView)>, key: Seq<char>)
    requires
        filed_by_path(list),
    ensures
        known(list, key) is Some ==> known(list, key)->0.path == key,
    decreases list.len(),
{
    if list.len() > 0 {
        let rest = list.skip(1);
        assert forall|i: int| 0 <= i < rest.len() implies (#[trigger] rest[i]).0
            == rest[i].1.path by {
            assert(rest[i] == list[i + 1]);
        }
        lemma_known_is_filed(rest, key);
    }
}

/// What a scan remembers can be relied on by the next: it is filed by path, whatever
/// files the next scan finds.
pub proof fn law_a_scan_remembers_by_path(sources: Seq<SourceView>, cache: Seq<(Seq<char>, ModelView)>, found: Seq<FoundView>, next: Seq<FoundView>)
    requires
        remembers_truly(cache, found),
    ensures
        filed_by_path(scanned(sources, cache, found, found.len()).fresh),
        remembers_truly(scanned(sources, cache, found, found.len()).fresh, next),
{
    lemma_scanned(sources, cache, found, found.len());
    let fresh = scanned(sources, cache, found, found.len()).fresh;
    assert forall|i: int| 0 <= i < next.len() implies ({
        let f = #[trigger] next[i];
        match still_known(fresh, f.path, f.size() as u64, f.modified) {
            Some(c) => c.path == f.path,
            None => true,
        }
    }) by {
        lemma_known_is_filed(fresh, next[i].path);
    }
}

/// A first scan has nothing to mistake: an empty memory is true to any files.
pub proof fn law_an_empty_memory_is_true(found: Seq<FoundView>)
    ensures
        remembers_truly(Seq::<(Seq<char>, ModelView)>::empty(), found),
{
}

/// Sources that overlap do not make a model appear twice: the scan lists each
/// file at most once.
pub proof fn law_scan_lists_files_once(sources: Seq<SourceView>, cache: Seq<(Seq<char>, ModelView)>, found: Seq<FoundView>)
    requires
        remembers_truly(cache, found),
    ensures
        distinct_files(scan_result(sources, cache, found)),
{
    lemma_scanned(sources, cache, found, found.len());
    let raw = scanned(sources, cache, found, found.len()).models;
    let models = untangled(raw);
    let lt = name_lt(models);
    order::law_stable_order_is_a_permutation(models.len(), lt);
    let picked = order::stable_order(models.len(), lt);
    let out = scan_result(sources, cache, found);
    assert forall|i: int, j: int| 0 <= i < j < out.len() implies path::components(
        #[trigger] out[i].path,
    ) != path::components(#[trigger] out[j].path) by {
        let a = picked[i];
        let b = picked[j];
        assert(a != b);
        assert(0 <= a < models.len() && 0 <= b < models.len());
        assert(out[i] == models[a] && out[j] == models[b]);
        assert(models[a].path == raw[a].path && models[b].path == raw[b].path);
        if a < b {
            assert(path::components(raw[a].path) != path::components(raw[b].path));
        } else {
            assert(path::components(raw[b].path) != path::components(raw[a].path));
        }
    }
}

/// Whatever a scan lists stems from a file that was found and is a model: of the
/// right extension, no projector, and of a split model the first part, whose size
/// is the sum over the parts.
pub proof fn law_scan_lists_only_models(sources: Seq<SourceView>, cache: Seq<(Seq<char>, ModelView)>, found: Seq<FoundView>)
    requires
        remembers_truly(cache, found),
    ensures
        forall|k: int|
            0 <= k < scan_result(sources, cache, found).len() ==> exists|j: int|
                0 <= j < found.len() && #[trigger] found[j].is_model() && found[j].path == (
                #[trigger] scan_result(sources, cache, found)[k]).path && found[j].size() as u64
                    == scan_result(sources, cache, found)[k].size_bytes,
{
    lemma_scanned(sources, cache, found, found.len());
    let raw = scanned(sources, cache, found, found.len()).models;
    let models = untangled(raw);
    let lt = name_lt(models);
    order::law_stable_order_is_a_permutation(models.len(), lt);
    let picked = order::stable_order(models.len(), lt);
    let out = scan_result(sources, cache, found);
    assert forall|k: int| 0 <= k < out.len() implies exists|j: int|
        0 <= j < found.len() && #[trigger] found[j].is_model() && found[j].path == (
        #[trigger] out[k]).path && found[j].size() as u64 == out[k].size_bytes by {
        let a = picked[k];
        assert(out[k] == models[a]);
        assert(models[a].path == raw[a].path && models[a].size_bytes == raw[a].size_bytes);
        assert(listed_from(raw[a], found));
    }
}

/// The scan's list is in the order of names, letter case aside.
pub proof fn law_scan_is_sorted(sources: Seq<SourceView>, cache: Seq<(Seq<char>, ModelView)>, found: Seq<FoundView>)
    ensures
        names_rise(scan_result(sources, cache, found)),
{
    let models = untangled(scanned(sources, cache, found, found.len()).models);
    let lt = name_lt(models);
    lemma_names_are_ordered(models);
    order::law_stable_order_is_ascending(models.len(), lt);
    order::law_stable_order_is_a_permutation(models.len(), lt);
    let picked = order::stable_order(models.len(), lt);
    let out = scan_result(sources, cache, found);
    assert forall|i: int, j: int| 0 <= i < j < out.len() implies !order::text_lt(
        chars::lowercase(#[trigger] out[j].name),
        chars::lowercase(#[trigger] out[i].name),
    ) by {
        assert(out[i] == models[picked[i]] && out[j] == models[picked[j]]);
        assert(!lt(picked[j], picked[i]));
    }
}

proof fn lemma_names_are_ordered(models: Seq<ModelView>)
    ensures
        order::weak_order(name_lt(models)),
{
    let lt = name_lt(models);
    assert forall|a: int, b: int| #[trigger] lt(a, b) implies !lt(b, a) by {
        order::law_text_order_is_total(
            chars::lowercase(models[a].name),
            chars::lowercase(models[b].name),
        );
    }
    assert forall|a: int, b: int, c: int|
        !#[trigger] lt(a, b) && !#[trigger] lt(b, c) implies !lt(a, c) by {
        let x = chars::lowercase(models[a].name);
        let y = chars::lowercase(models[b].name);
        let z = chars::lowercase(models[c].name);
        order::law_text_order_is_total(x, y);
        order::law_text_order_is_total(y, z);
        order::law_text_order_is_total(x, z);
        if order::text_lt(x, z) {
            if x != y {
                order::law_text_order_is_transitive(y, x, z);
            }
        }
    }
}

// --- what is found -----------------------------------------------------------

/// The snapshot that the main reference names comes before any other, then the newer
/// file.
pub proof fn law_the_main_snapshot_is_preferred(a: SnapshotRank, b: SnapshotRank)
    ensures
        a.is_main && !b.is_main ==> rank_above(a, b) && !rank_above(b, a),
        a.is_main == b.is_main && a.modified > b.modified ==> rank_above(a, b) && !rank_above(b, a),
{
}

/// Whether a list has a model of a file, however its path is spelled.
pub open spec fn lists_file(models: Seq<ModelView>, file: Seq<char>) -> bool {
    exists|i: int|
        0 <= i < models.len() && path::components((#[trigger] models[i]).path)
            == path::components(file)
}

proof fn lemma_lists_push(models: Seq<ModelView>, m: ModelView, file: Seq<char>)
    ensures
        lists_file(models, file) ==> lists_file(models.push(m), file),
        path::components(m.path) == path::components(file) ==> lists_file(models.push(m), file),
{
    let out = models.push(m);
    if lists_file(models, file) {
        let i = choose|i: int|
            0 <= i < models.len() && path::components((#[trigger] models[i]).path)
                == path::components(file);
        assert(out[i] == models[i]);
    }
    assert(out[models.len() as int] == m);
}

proof fn lemma_all_listed(sources: Seq<SourceView>, cache: Seq<(Seq<char>, ModelView)>, found: Seq<FoundView>, n: nat, file: Seq<char>)
    requires
        n <= found.len(),
        remembers_truly(cache, found),
        forall|k: int|
            0 <= k < found.len() ==> catalog::layout_of(
                sources[(#[trigger] found[k]).source],
                catalog::relative(sources[found[k].source], found[k].path),
            ) != ModelLayout::HuggingFace,
    ensures
        noted(scanned(sources, cache, found, n).fresh, file) ==> lists_file(
            scanned(sources, cache, found, n).models,
            file,
        ),
        forall|k: int|
            0 <= k < n && #[trigger] found[k].is_model() ==> noted(
                scanned(sources, cache, found, n).fresh,
                found[k].path,
            ),
    decreases n,
{
    if n > 0 {
        let m = (n - 1) as nat;
        lemma_all_listed(sources, cache, found, m, file);
        let st = scanned(sources, cache, found, m);
        let out = scanned(sources, cache, found, n);
        let f = found[n - 1];
        let p = placed(sources, cache, f);
        assert(p.path == f.path);
        if f.is_model() && !noted(st.fresh, f.path) {
            assert(catalog::layout_of(
                sources[f.source],
                catalog::relative(sources[f.source], f.path),
            ) != ModelLayout::HuggingFace);
            let e = out.fresh.last();
            assert(out.fresh =~= st.fresh.push(e));
            assert(out.models =~= st.models.push(e.1));
            assert(e.0 == f.path && e.1.path == f.path);
            lemma_noted_push(st.fresh, e, file);
            lemma_lists_push(st.models, e.1, file);
            assert forall|k: int| 0 <= k < n && #[trigger] found[k].is_model() implies noted(
                out.fresh,
                found[k].path,
            ) by {
                lemma_noted_push(st.fresh, e, found[k].path);
            }
        }
    }
}

/// Outside of the Hugging Face cache, where one artifact may have several snapshots,
/// every model file that is found is listed.
pub proof fn law_every_model_file_is_listed(sources: Seq<SourceView>, cache: Seq<(Seq<char>, ModelView)>, found: Seq<FoundView>, k: int)
    requires
        0 <= k < found.len(),
        found[k].is_model(),
        remembers_truly(cache, found),
        forall|i: int|
            0 <= i < found.len() ==> catalog::layout_of(
                sources[(#[trigger] found[i]).source],
                catalog::relative(sources[found[i].source], found[i].path),
            ) != ModelLayout::HuggingFace,
    ensures
        lists_file(scan_result(sources, cache, found), found[k].path),
{
    broadcast use vstd::seq_lib::group_to_multiset_ensures;
    let file = found[k].path;
    lemma_all_listed(sources, cache, found, found.len(), file);
    let raw = scanned(sources, cache, found, found.len()).models;
    let models = untangled(raw);
    let a = choose|a: int|
        0 <= a < raw.len() && path::components((#[trigger] raw[a]).path) == path::components(file);
    assert(models[a].path == raw[a].path);
    let lt = name_lt(models);
    order::law_stable_order_is_a_permutation(models.len(), lt);
    let picked = order::stable_order(models.len(), lt);
    let indices = Seq::new(models.len(), |i: int| i);
    assert(indices[a] == a);
    assert(indices.contains(a));
    assert(indices.to_multiset().count(a) > 0);
    assert(picked.to_multiset().count(a) > 0);
    assert(picked.contains(a));
    let j = choose|j: int| 0 <= j < picked.len() && picked[j] == a;
    assert(scan_result(sources, cache, found)[j] == models[a]);
}

/// A file that has not changed is not read again: what the last scan knew of it stands,
/// and a file of another size or date is read.
pub proof fn law_unchanged_files_are_not_read_again(file: Seq<char>, m: ModelView, rest: Seq<(Seq<char>, ModelView)>, size: u64, modified: Option<u64>)
    ensures
        ({
            let cache = seq![(file, m)] + rest;
            &&& still_known(cache, file, m.size_bytes, m.modified) == Some(m)
            &&& size != m.size_bytes || modified != m.modified ==> still_known(
                cache,
                file,
                size,
                modified,
            ) is None
        }),
{
    assert((seq![(file, m)] + rest)[0] == (file, m));
}

proof fn lemma_snapshots_at(components: Seq<Seq<char>>, from: int, i: int)
    requires
        0 <= from <= i < components.len(),
        components[i] == "snapshots"@,
        forall|k: int| 0 <= k < i ==> #[trigger] components[k] != "snapshots"@,
    ensures
        catalog::snapshots_at(components, from) == Some(i),
    decreases i - from,
{
    if from < i {
        lemma_snapshots_at(components, from + 1, i);
    }
}

/// The revision of a cached file is named by the folder below its snapshots, and the main
/// reference of its repository lies beside them.
pub proof fn law_snapshots_name_their_revision(source: SourceView, file: Seq<char>, folder: Seq<char>, revision: Seq<char>, rest: Seq<Seq<char>>)
    requires
        source_components(source, file) == seq![folder, "snapshots"@, revision] + rest,
        folder != "snapshots"@,
        revision != ".."@,
    ensures
        revision_in(source_components(source, file)) == revision,
        main_ref_place(source, file) == Some(
            path::joined(path::joined(source.root, folder), "refs/main"@),
        ),
        snapshot_rank(source, file, None, Some(revision)).is_main == (chars::trimmed(revision)
            == revision),
        snapshot_rank(source, file, None, None).is_main == false,
{
    let components = seq![folder, "snapshots"@, revision] + rest;
    assert(components[0] == folder && components[1] == "snapshots"@ && components[2] == revision);
    lemma_snapshots_at(components, 0, 1);
    let above = components.take(1);
    assert(above =~= seq![folder]);
    assert(above.drop_last() =~= Seq::<Seq<char>>::empty());
    assert(path::joined_all(source.root, above.drop_last()) == source.root);
    assert(path::joined_all(source.root, above) == path::joined(source.root, folder));
}

} // verus!
