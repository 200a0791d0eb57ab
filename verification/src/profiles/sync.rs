//! Loading profiles: from the common file, from the models' own files, and again
//! when models are found later.

use vstd::prelude::*;
use crate::chars;
use crate::discovery::catalog;
use crate::domain::{views, Model, ModelView};
use crate::names;
use crate::number;
use crate::order;
use crate::path;
use crate::profiles::keys::{keys_rise, sort_keys};
use crate::profiles::store::{
    blank, instance_views, key, key_view, key_views, Instance, InstanceView, Key, KeyView,
    ProfileStore, StoreView,
};
use crate::profiles::templates;
use crate::runtime::backend::{templates_for, templates_of};
use crate::table;
use crate::table::TextMap;
use crate::text;
use crate::text::{opt, strs};

verus! {

/// An instance in the common file.
#[derive(Debug)]
pub struct Record {
    pub key: Key,
    pub instance: Instance,
}

/// A profile in a file of its model.
#[derive(Debug)]
pub struct ProfileFile {
    pub schema: u8,
    pub name: String,
    pub instance: Instance,
}

/// The layout of profile files that is read here.
pub const PROFILE_SCHEMA: u8 = 1;

// --- what is there -----------------------------------------------------------

/// The user's own profiles of a model.
pub open spec fn custom_names(store: StoreView, runtime: Seq<char>, model: Seq<char>) -> Set<Seq<char>> {
    Set::new(
        |p: Seq<char>|
            store.instances.dom().contains(key_view(runtime, model, p))
                && store.instances[key_view(runtime, model, p)].custom,
    )
}

impl ProfileStore {
    /// The user's own profiles of a model, in order.
    pub fn custom_profiles(&self, runtime: &str, model: &str) -> (r: Vec<String>)
        requires
            self.wf(),
        ensures
            order::rising(strs(r@)),
            strs(r@).to_set() == custom_names(self@, runtime@, model@),
    {
        let ghost all = instance_views(self.instances@);
        let ghost wanted = custom_names(self@, runtime@, model@);
        let mut names: Vec<String> = Vec::new();
        let mut i: usize = 0;
        while i < self.instances.len()
            invariant
                self.wf(),
                i <= self.instances.len(),
                all == instance_views(self.instances@),
                strs(names@).no_duplicates(),
                forall|j: int|
                    0 <= j < strs(names@).len() ==> exists|k: int|
                        0 <= k < i && (#[trigger] all[k]).0 == key_view(
                            runtime@,
                            model@,
                            #[trigger] strs(names@)[j],
                        ) && all[k].1.custom,
                forall|k: int|
                    0 <= k < i && (#[trigger] all[k]).0.runtime == runtime@ && all[k].0.model
                        == model@ && all[k].1.custom ==> strs(names@).contains(all[k].0.profile),
            decreases self.instances.len() - i,
        {
            let e = &self.instances[i];
            assert(all[i as int] == (e.0@, e.1@));
            let ghost had = strs(names@);
            if text::same(e.0.runtime.as_str(), runtime) && text::same(e.0.model.as_str(), model)
                && e.1.custom {
                proof {
                    assert(!had.contains(e.0@.profile)) by {
                        if had.contains(e.0@.profile) {
                            let j = choose|j: int| 0 <= j < had.len() && had[j] == e.0@.profile;
                            let k = choose|k: int|
                                0 <= k < i && (#[trigger] all[k]).0 == key_view(
                                    runtime@,
                                    model@,
                                    had[j],
                                ) && all[k].1.custom;
                            assert(all[k].0 != all[i as int].0);
                        }
                    }
                }
                names.push(e.0.profile.clone());
                proof {
                    let now = strs(names@);
                    assert(now =~= had.push(e.0@.profile));
                    assert forall|j: int| 0 <= j < now.len() implies exists|k: int|
                        0 <= k < i + 1 && (#[trigger] all[k]).0 == key_view(
                            runtime@,
                            model@,
                            #[trigger] now[j],
                        ) && all[k].1.custom by {
                        if j < had.len() {
                            assert(now[j] == had[j]);
                            let k = choose|k: int|
                                0 <= k < i && (#[trigger] all[k]).0 == key_view(
                                    runtime@,
                                    model@,
                                    had[j],
                                ) && all[k].1.custom;
                            assert(all[k].0 == key_view(runtime@, model@, now[j]));
                        } else {
                            assert(all[i as int].0 == key_view(runtime@, model@, now[j]));
                        }
                    }
                    assert forall|k: int|
                        0 <= k < i + 1 && (#[trigger] all[k]).0.runtime == runtime@
                            && all[k].0.model == model@ && all[k].1.custom implies now.contains(
                        all[k].0.profile,
                    ) by {
                        if k < i {
                            let j = choose|j: int|
                                0 <= j < had.len() && had[j] == all[k].0.profile;
                            assert(now[j] == all[k].0.profile);
                        } else {
                            assert(now[had.len() as int] == e.0@.profile);
                        }
                    }
                }
            }
            i += 1;
        }
        let ghost found = strs(names@);
        assert(found.to_set() =~= wanted) by {
            assert forall|p: Seq<char>| found.to_set().contains(p) == wanted.contains(p) by {
                if found.contains(p) {
                    let j = choose|j: int| 0 <= j < found.len() && found[j] == p;
                    let k = choose|k: int|
                        0 <= k < all.len() && (#[trigger] all[k]).0 == key_view(
                            runtime@,
                            model@,
                            found[j],
                        ) && all[k].1.custom;
                    table::lemma_entry(all, k);
                }
                if wanted.contains(p) {
                    let k = table::index_of(all, key_view(runtime@, model@, p));
                    assert(table::has_key(all, key_view(runtime@, model@, p)));
                    assert(all[k].0 == key_view(runtime@, model@, p));
                }
            }
        }
        proof {
            order::law_sorted_texts_rise(found);
        }
        order::sort_texts(&names)
    }

    /// The keys of the instances that only the common file holds.
    fn pending_keys(&self) -> (r: Vec<Key>)
        requires
            self.wf(),
        ensures
            key_views(r@).no_duplicates(),
            key_views(r@).to_set() == pending(self@),
    {
        let ghost all = key_views(self.fallback@);
        let mut out: Vec<Key> = Vec::new();
        let mut i: usize = 0;
        while i < self.fallback.len()
            invariant
                self.wf(),
                i <= self.fallback.len(),
                all == key_views(self.fallback@),
                key_views(out@).no_duplicates(),
                forall|k: KeyView| #[trigger]
                    key_views(out@).contains(k) <==> all.take(i as int).contains(k)
                        && self@.instances.dom().contains(k),
            decreases self.fallback.len() - i,
        {
            let k = &self.fallback[i];
            let ghost had = key_views(out@);
            proof {
                assert(all[i as int] == k@);
                lemma_take_more(all, i as int);
            }
            if self.get(k.runtime.as_str(), k.model.as_str(), k.profile.as_str()).is_some() {
                assert(!had.contains(k@)) by {
                    if all.take(i as int).contains(k@) {
                        let j = choose|j: int| 0 <= j < i && all.take(i as int)[j] == k@;
                        assert(all[j] == all[i as int]);
                    }
                }
                out.push(k.clone());
                assert(key_views(out@) =~= had.push(k@));
                proof {
                    lemma_push_contains(had, k@);
                }
            }
            i += 1;
        }
        proof {
            assert(all.take(i as int) =~= all);
            assert forall|k: KeyView|
                key_views(out@).to_set().contains(k) == pending(self@).contains(k) by {
                assert(key_views(out@).contains(k) <==> all.contains(k)
                    && self@.instances.dom().contains(k));
            }
            assert(key_views(out@).to_set() =~= pending(self@));
        }
        out
    }

    /// The instances to keep in the common file, each once and in the order of the
    /// keys.
    pub fn legacy_records(&self) -> (r: Vec<Record>)
        requires
            self.wf(),
        ensures
            keys_rise(record_keys(r@)),
            record_keys(r@).to_set() == self@.fallback.intersect(self@.instances.dom()),
            forall|i: int|
                0 <= i < r@.len() ==> self@.instances.dom().contains((#[trigger] r@[i]).key@)
                    && self@.instances[r@[i].key@] == r@[i].instance@,
    {
        let keys = sort_keys(&self.pending_keys());
        let ghost all = key_views(keys@);
        let mut out: Vec<Record> = Vec::new();
        let mut i: usize = 0;
        while i < keys.len()
            invariant
                self.wf(),
                i <= keys.len(),
                all == key_views(keys@),
                all.to_set() == pending(self@),
                record_keys(out@) =~= all.take(i as int),
                forall|j: int|
                    0 <= j < out@.len() ==> self@.instances.dom().contains(
                        (#[trigger] out@[j]).key@,
                    ) && self@.instances[out@[j].key@] == out@[j].instance@,
            decreases keys.len() - i,
        {
            let k = &keys[i];
            assert(all[i as int] == k@);
            assert(all.to_set().contains(k@));
            assert(pending(self@).contains(k@));
            assert(key_view(k.runtime@, k.model@, k.profile@) == k@);
            let ghost had = record_keys(out@);
            if let Some(found) = self.get(k.runtime.as_str(), k.model.as_str(), k.profile.as_str()) {
                out.push(Record { key: k.clone(), instance: found.clone() });
            }
            assert(record_keys(out@) =~= had.push(k@));
            assert(all.take(i + 1) =~= all.take(i as int).push(k@));
            i += 1;
        }
        proof {
            assert(record_keys(out@) =~= all);
            assert(pending(self@) =~= self@.fallback.intersect(self@.instances.dom()));
        }
        out
    }

    /// The keys of the instances whose model has a managed directory, each once and in
    /// order: each of them is written to its own file.
    pub fn registered_keys(&self) -> (r: Vec<Key>)
        requires
            self.wf(),
        ensures
            keys_rise(key_views(r@)),
            forall|k: KeyView| #[trigger]
                key_views(r@).contains(k) <==> self@.instances.dom().contains(k)
                    && self@.model_dirs.dom().contains(k.model),
    {
        let ghost all = instance_views(self.instances@);
        let mut out: Vec<Key> = Vec::new();
        let mut i: usize = 0;
        while i < self.instances.len()
            invariant
                self.wf(),
                i <= self.instances.len(),
                all == instance_views(self.instances@),
                key_views(out@).no_duplicates(),
                forall|k: KeyView| #[trigger]
                    key_views(out@).contains(k) <==> among(all, i as int, k)
                        && self@.model_dirs.dom().contains(k.model),
            decreases self.instances.len() - i,
        {
            let k = &self.instances[i].0;
            let ghost had = key_views(out@);
            proof {
                assert(all[i as int].0 == k@);
                lemma_among_more(all, i as int);
            }
            if self.model_dirs.get(k.model.as_str()).is_some() {
                assert(!had.contains(k@)) by {
                    if among(all, i as int, k@) {
                        let j = choose|j: int| 0 <= j < i && (#[trigger] all[j]).0 == k@;
                        assert(all[j].0 != all[i as int].0);
                    }
                }
                out.push(k.clone());
                assert(key_views(out@) =~= had.push(k@));
                proof {
                    lemma_push_contains(had, k@);
                }
            }
            i += 1;
        }
        let sorted = sort_keys(&out);
        proof {
            assert forall|k: KeyView| #[trigger]
                key_views(sorted@).contains(k) <==> self@.instances.dom().contains(k)
                    && self@.model_dirs.dom().contains(k.model) by {
                assert(key_views(sorted@).to_set().contains(k) == key_views(out@).to_set().contains(
                    k,
                ));
                assert(key_views(out@).contains(k) <==> among(all, i as int, k)
                    && self@.model_dirs.dom().contains(k.model));
                if among(all, i as int, k) {
                    let j = choose|j: int| 0 <= j < i && (#[trigger] all[j]).0 == k;
                    table::lemma_entry(all, j);
                }
                if self@.instances.dom().contains(k) {
                    assert(table::has_key(all, k));
                    let m = table::index_of(all, k);
                    assert(all[m].0 == k);
                }
            }
        }
        sorted
    }
}

/// The keys of records.
pub open spec fn record_keys(v: Seq<Record>) -> Seq<KeyView> {
    v.map_values(|r: Record| r.key@)
}

/// Whether a key is among the first `n` entries of a table.
spec fn among(all: Seq<(KeyView, InstanceView)>, n: int, k: KeyView) -> bool {
    exists|j: int| 0 <= j < n && (#[trigger] all[j]).0 == k
}

proof fn lemma_among_more(all: Seq<(KeyView, InstanceView)>, i: int)
    requires
        0 <= i < all.len(),
    ensures
        forall|k: KeyView| #[trigger]
            among(all, i + 1, k) <==> among(all, i, k) || k == all[i].0,
{
    assert forall|k: KeyView| #[trigger] among(all, i + 1, k) <==> among(all, i, k) || k
        == all[i].0 by {
        if among(all, i, k) {
            let j = choose|j: int| 0 <= j < i && (#[trigger] all[j]).0 == k;
            assert(0 <= j < i + 1 && all[j].0 == k);
        }
        if k == all[i].0 {
            assert(0 <= i < i + 1 && all[i].0 == k);
        }
        if among(all, i + 1, k) {
            let j = choose|j: int| 0 <= j < i + 1 && (#[trigger] all[j]).0 == k;
        }
    }
}

proof fn lemma_take_more(all: Seq<KeyView>, i: int)
    requires
        0 <= i < all.len(),
    ensures
        forall|k: KeyView| #[trigger]
            all.take(i + 1).contains(k) <==> all.take(i).contains(k) || k == all[i],
{
    assert(all.take(i + 1) =~= all.take(i).push(all[i]));
    lemma_push_contains(all.take(i), all[i]);
}

proof fn lemma_push_contains(s: Seq<KeyView>, x: KeyView)
    ensures
        forall|k: KeyView| #[trigger] s.push(x).contains(k) <==> s.contains(k) || k == x,
{
    assert forall|k: KeyView| #[trigger] s.push(x).contains(k) <==> s.contains(k) || k == x by {
        if s.contains(k) {
            let i = choose|i: int| 0 <= i < s.len() && s[i] == k;
            assert(s.push(x)[i] == k);
        }
        if k == x {
            assert(s.push(x)[s.len() as int] == k);
        }
    }
}

// --- loading -----------------------------------------------------------------

/// The store with the first `n` of a model's files. A file of another layout is
/// passed over; a file that was read is no longer missing.
pub open spec fn with_files(store: StoreView, runtime: Seq<char>, model: Seq<char>, files: Seq<ProfileFile>, n: nat) -> StoreView
    decreases n,
{
    if n == 0 {
        store
    } else {
        let rest = with_files(store, runtime, model, files, (n - 1) as nat);
        let f = files[n - 1];
        let k = key_view(runtime, model, f.name@);
        if f.schema == PROFILE_SCHEMA {
            StoreView {
                instances: rest.instances.insert(k, f.instance@),
                model_dirs: rest.model_dirs,
                fallback: rest.fallback.remove(k),
            }
        } else {
            rest
        }
    }
}

/// The store with an instance for each of the first `n` built-in profiles; one
/// that is there stays as it is.
pub open spec fn with_builtins(store: StoreView, runtime: Seq<char>, model: Seq<char>, names: Seq<Seq<char>>, n: nat) -> StoreView
    decreases n,
{
    if n == 0 {
        store
    } else {
        let rest = with_builtins(store, runtime, model, names, (n - 1) as nat);
        let k = key_view(runtime, model, names[n - 1]);
        if rest.instances.dom().contains(k) {
            rest
        } else {
            StoreView { instances: rest.instances.insert(k, blank()), ..rest }
        }
    }
}

/// The store with a model's managed directory.
pub open spec fn with_dir(store: StoreView, m: ModelView) -> StoreView {
    StoreView {
        model_dirs: store.model_dirs.insert(m.profile_key(), m.catalog_dir),
        ..store
    }
}

/// The store with one model: its directory and files where it has a managed
/// directory, and its built-in profiles. Where only models with a directory
/// count, another one is passed over.
pub open spec fn with_model(store: StoreView, m: ModelView, files: Option<Vec<ProfileFile>>, every: bool) -> StoreView {
    let names = templates::names_of(templates_of(m.runtime));
    match files {
        Some(f) => with_builtins(
            with_files(with_dir(store, m), m.runtime, m.profile_key(), f@, f@.len()),
            m.runtime,
            m.profile_key(),
            names,
            names.len(),
        ),
        None => if every {
            with_builtins(store, m.runtime, m.profile_key(), names, names.len())
        } else {
            store
        },
    }
}

/// The store with the first `n` models.
pub open spec fn with_models(store: StoreView, models: Seq<ModelView>, files: Seq<Option<Vec<ProfileFile>>>, every: bool, n: nat) -> StoreView
    decreases n,
{
    if n == 0 {
        store
    } else {
        with_model(
            with_models(store, models, files, every, (n - 1) as nat),
            models[n - 1],
            files[n - 1],
            every,
        )
    }
}

/// The instances that only the common file holds.
pub open spec fn pending(store: StoreView) -> Set<KeyView> {
    Set::new(|k: KeyView| store.fallback.contains(k) && store.instances.dom().contains(k))
}

/// A map with the values of another one at some keys.
pub open spec fn overlaid(m: Map<KeyView, InstanceView>, from: Map<KeyView, InstanceView>, keys: Set<KeyView>) -> Map<KeyView, InstanceView> {
    Map::new(
        |k: KeyView| m.dom().contains(k) || keys.contains(k),
        |k: KeyView|
            if keys.contains(k) {
                from[k]
            } else {
                m[k]
            },
    )
}

/// The store with what the common file held before, which is newer than any file
/// that could be read: it is there because a file could not be written.
pub open spec fn with_pending(store: StoreView, before: StoreView) -> StoreView {
    StoreView {
        instances: overlaid(store.instances, before.instances, pending(before)),
        model_dirs: store.model_dirs,
        fallback: store.fallback.union(pending(before)),
    }
}

impl ProfileStore {
    /// Takes in the files of a model.
    fn take_files(&mut self, runtime: &str, model: &str, files: &Vec<ProfileFile>)
        requires
            old(self).wf(),
            forall|i: int| 0 <= i < files@.len() ==> (#[trigger] files@[i]).instance.values.wf(),
        ensures
            final(self).wf(),
            final(self)@ == with_files(old(self)@, runtime@, model@, files@, files@.len()),
    {
        let ghost start = self@;
        let mut i: usize = 0;
        while i < files.len()
            invariant
                i <= files.len(),
                self.wf(),
                forall|i: int| 0 <= i < files@.len() ==> (#[trigger] files@[i]).instance.values.wf(),
                self@ == with_files(start, runtime@, model@, files@, i as nat),
            decreases files.len() - i,
        {
            let f = &files[i];
            if f.schema == PROFILE_SCHEMA {
                let k = key(runtime, model, f.name.as_str());
                self.put(&k, f.instance.clone());
                self.note_written(&k, true);
            }
            i += 1;
        }
    }

    /// Makes an instance for each built-in profile of a model.
    fn take_builtins(&mut self, runtime: &str, model: &str)
        requires
            old(self).wf(),
        ensures
            final(self).wf(),
            final(self)@ == ({
                let names = templates::names_of(templates_of(runtime@));
                with_builtins(old(self)@, runtime@, model@, names, names.len())
            }),
    {
        let ghost start = self@;
        let all = templates_for(runtime);
        let names = templates::names(&all);
        let ghost want = templates::names_of(templates_of(runtime@));
        assert(crate::domain::options::lits(names@) == want);
        assert(crate::domain::options::lits(names@).len() == names@.len());
        let mut i: usize = 0;
        while i < names.len()
            invariant
                i <= names.len(),
                want == crate::domain::options::lits(names@),
                self.wf(),
                self@ == with_builtins(start, runtime@, model@, want, i as nat),
            decreases names.len() - i,
        {
            assert(want[i as int] == names@[i as int]@);
            if self.get(runtime, model, names[i]).is_none() {
                let k = key(runtime, model, names[i]);
                self.put(&k, Instance { values: TextMap::new(), favorite: false, custom: false });
            }
            i += 1;
        }
    }

    fn take_models(&mut self, models: &Vec<Model>, files: &Vec<Option<Vec<ProfileFile>>>, every: bool)
        requires
            old(self).wf(),
            files@.len() == models@.len(),
            sound(files@),
        ensures
            final(self).wf(),
            final(self)@ == with_models(
                old(self)@,
                views(models@),
                files@,
                every,
                models@.len(),
            ),
    {
        let ghost start = self@;
        let ghost all = views(models@);
        let mut i: usize = 0;
        while i < models.len()
            invariant
                i <= models.len(),
                files@.len() == models@.len(),
                all == views(models@),
                sound(files@),
                self.wf(),
                self@ == with_models(start, all, files@, every, i as nat),
            decreases models.len() - i,
        {
            let m = &models[i];
            assert(all[i as int] == m@);
            let model = m.profile_key();
            match &files[i] {
                Some(f) => {
                    assert(files@[i as int] == Some(*f));
                    self.model_dirs.insert(model.as_str(), m.catalog_dir.clone());
                    self.take_files(m.runtime.as_str(), model.as_str(), f);
                    self.take_builtins(m.runtime.as_str(), model.as_str());
                },
                None => {
                    if every {
                        self.take_builtins(m.runtime.as_str(), model.as_str());
                    }
                },
            }
            i += 1;
        }
    }

    /// Copies of the instances that only the common file holds.
    fn pending_records(&self) -> (r: Vec<Record>)
        requires
            self.wf(),
        ensures
            forall|i: int|
                0 <= i < r@.len() ==> (#[trigger] r@[i]).instance.values.wf() && pending(
                    self@,
                ).contains(r@[i].key@) && self@.instances[r@[i].key@] == r@[i].instance@,
            forall|k: KeyView| #[trigger]
                pending(self@).contains(k) ==> exists|i: int|
                    0 <= i < r@.len() && (#[trigger] r@[i]).key@ == k,
    {
        let ghost all = key_views(self.fallback@);
        let mut out: Vec<Record> = Vec::new();
        let mut i: usize = 0;
        while i < self.fallback.len()
            invariant
                self.wf(),
                i <= self.fallback.len(),
                all == key_views(self.fallback@),
                forall|j: int|
                    0 <= j < out@.len() ==> (#[trigger] out@[j]).instance.values.wf() && pending(
                        self@,
                    ).contains(out@[j].key@) && self@.instances[out@[j].key@] == out@[j].instance@,
                forall|m: int|
                    0 <= m < i && self@.instances.dom().contains(#[trigger] all[m]) ==> exists|j: int|
                        0 <= j < out@.len() && (#[trigger] out@[j]).key@ == all[m],
            decreases self.fallback.len() - i,
        {
            let k = &self.fallback[i];
            assert(all[i as int] == k@);
            assert(self@.fallback.contains(k@));
            let ghost had = out@;
            if let Some(found) = self.get(k.runtime.as_str(), k.model.as_str(), k.profile.as_str()) {
                out.push(Record { key: k.clone(), instance: found.clone() });
            }
            proof {
                assert forall|m: int|
                    0 <= m < i + 1 && self@.instances.dom().contains(
                        #[trigger] all[m],
                    ) implies exists|j: int|
                    0 <= j < out@.len() && (#[trigger] out@[j]).key@ == all[m] by {
                    if m < i {
                        let j = choose|j: int| 0 <= j < had.len() && (#[trigger] had[j]).key@ == all[m];
                        assert(out@[j].key@ == all[m]);
                    } else {
                        assert(out@[had.len() as int].key@ == all[m]);
                    }
                }
            }
            i += 1;
        }
        proof {
            assert forall|k: KeyView| #[trigger] pending(self@).contains(k) implies exists|j: int|
                0 <= j < out@.len() && (#[trigger] out@[j]).key@ == k by {
                let m = choose|m: int| 0 <= m < all.len() && all[m] == k;
                assert(self@.instances.dom().contains(all[m]));
            }
        }
        out
    }

    /// Puts pending instances back.
    fn take_pending(&mut self, records: &Vec<Record>, Ghost(before): Ghost<StoreView>)
        requires
            old(self).wf(),
            forall|i: int|
                0 <= i < records@.len() ==> (#[trigger] records@[i]).instance.values.wf()
                    && pending(before).contains(records@[i].key@)
                    && before.instances[records@[i].key@] == records@[i].instance@,
            forall|k: KeyView| #[trigger]
                pending(before).contains(k) ==> exists|i: int|
                    0 <= i < records@.len() && (#[trigger] records@[i]).key@ == k,
        ensures
            final(self).wf(),
            final(self)@ == with_pending(old(self)@, before),
    {
        let ghost start = self@;
        let ghost mut done = Set::<KeyView>::empty();
        let mut i: usize = 0;
        proof {
            assert(overlaid(start.instances, before.instances, done) =~= start.instances);
            assert(start.fallback.union(done) =~= start.fallback);
        }
        while i < records.len()
            invariant
                i <= records.len(),
                self.wf(),
                forall|i: int|
                    0 <= i < records@.len() ==> (#[trigger] records@[i]).instance.values.wf()
                        && pending(before).contains(records@[i].key@)
                        && before.instances[records@[i].key@] == records@[i].instance@,
                forall|k: KeyView| done.contains(k) ==> pending(before).contains(k),
                forall|j: int| 0 <= j < i ==> done.contains((#[trigger] records@[j]).key@),
                self@.instances == overlaid(start.instances, before.instances, done),
                self@.model_dirs == start.model_dirs,
                self@.fallback == start.fallback.union(done),
            decreases records.len() - i,
        {
            let r = &records[i];
            self.put(&r.key, r.instance.clone());
            self.note_written(&r.key, false);
            proof {
                let more = done.insert(r.key@);
                assert(self@.instances =~= overlaid(start.instances, before.instances, more));
                assert(self@.fallback =~= start.fallback.union(more));
                done = more;
            }
            i += 1;
        }
        proof {
            assert(done =~= pending(before)) by {
                assert forall|k: KeyView| pending(before).contains(k) implies done.contains(k) by {
                    let j = choose|j: int| 0 <= j < records@.len() && (#[trigger] records@[j]).key@ == k;
                    assert(done.contains(records@[j].key@));
                }
            }
            assert(self@ == with_pending(start, before));
        }
    }

    /// Takes in models that were found. `files` holds for each model its profile
    /// files, or nothing where it has no managed directory.
    pub fn sync_models(&mut self, models: &Vec<Model>, files: &Vec<Option<Vec<ProfileFile>>>)
        requires
            old(self).wf(),
            files@.len() == models@.len(),
            sound(files@),
        ensures
            final(self).wf(),
            final(self)@ == with_pending(
                with_models(old(self)@, views(models@), files@, false, models@.len()),
                old(self)@,
            ),
    {
        let ghost before = self@;
        let records = self.pending_records();
        self.take_models(models, files, false);
        self.take_pending(&records, Ghost(before));
    }

    /// The store from the common file and the models' own files.
    pub fn load(legacy: &Vec<Record>, models: &Vec<Model>, files: &Vec<Option<Vec<ProfileFile>>>) -> (r: ProfileStore)
        requires
            files@.len() == models@.len(),
            sound(files@),
            forall|i: int| 0 <= i < legacy@.len() ==> (#[trigger] legacy@[i]).instance.values.wf(),
        ensures
            r.wf(),
            r@ == with_pending(
                with_models(
                    imported(legacy@, legacy@.len()),
                    views(models@),
                    files@,
                    true,
                    models@.len(),
                ),
                imported(legacy@, legacy@.len()),
            ),
    {
        let mut store = ProfileStore::new();
        let mut i: usize = 0;
        assert(store@ == imported(legacy@, 0));
        while i < legacy.len()
            invariant
                i <= legacy.len(),
                store.wf(),
                forall|i: int|
                    0 <= i < legacy@.len() ==> (#[trigger] legacy@[i]).instance.values.wf(),
                store@ == imported(legacy@, i as nat),
            decreases legacy.len() - i,
        {
            let r = &legacy[i];
            store.put(&r.key, r.instance.clone());
            store.note_written(&r.key, false);
            i += 1;
        }
        let ghost before = store@;
        let records = store.pending_records();
        store.take_models(models, files, true);
        store.take_pending(&records, Ghost(before));
        store
    }
}

/// Whether the values of all files have each option once.
pub open spec fn sound(files: Seq<Option<Vec<ProfileFile>>>) -> bool {
    forall|i: int, j: int|
        0 <= i < files.len() && files[i] is Some && 0 <= j < files[i]->0@.len() ==> (
        #[trigger] files[i]->0@[j]).instance.values.wf()
}

/// The store with the first `n` records of the common file, a later one of the
/// same key in the place of an earlier one.
pub open spec fn imported(records: Seq<Record>, n: nat) -> StoreView
    decreases n,
{
    if n == 0 {
        StoreView {
            instances: Map::<KeyView, InstanceView>::empty(),
            model_dirs: Map::<Seq<char>, Seq<char>>::empty(),
            fallback: Set::<KeyView>::empty(),
        }
    } else {
        let rest = imported(records, (n - 1) as nat);
        let r = records[n - 1];
        StoreView {
            instances: rest.instances.insert(r.key@, r.instance@),
            model_dirs: rest.model_dirs,
            fallback: rest.fallback.insert(r.key@),
        }
    }
}

/// What could not be written before is not lost and not overruled by an older
/// file: after models were found, each such instance is there as it was, and
/// still to be written.
pub proof fn law_pending_edits_survive_a_scan(store: StoreView, models: Seq<ModelView>, files: Seq<Option<Vec<ProfileFile>>>, k: KeyView)
    requires
        store.fallback.contains(k),
        store.instances.dom().contains(k),
        files.len() == models.len(),
    ensures
        ({
            let after = with_pending(
                with_models(store, models, files, false, models.len()),
                store,
            );
            &&& after.instances.dom().contains(k)
            &&& after.instances[k] == store.instances[k]
            &&& after.fallback.contains(k)
        }),
{
    assert(pending(store).contains(k));
}

// --- file names --------------------------------------------------------------

/// Whether a character is a letter or a number, as `char::is_alphanumeric` says.
pub uninterp spec fn alphanumeric(c: char) -> bool;

/// `char::is_alphanumeric`: a function of the character. Which characters it holds
/// for is left unsaid.
#[verifier::external_body]
pub(crate) fn is_alphanumeric(c: char) -> (r: bool)
    ensures
        r == alphanumeric(c),
{
    c.is_alphanumeric()
}

/// Whether a name can be a file name as it is, given which of its characters are
/// letters or numbers.
pub open spec fn plain_name(name: Seq<char>, alnum: Seq<bool>) -> bool {
    name.len() > 0 && name != "."@ && name != ".."@ && forall|i: int|
        0 <= i < name.len() ==> #[trigger] alnum[i] || name[i] == ' ' || name[i] == '-' || name[i]
            == '_'
}

/// The name with every other character replaced.
pub open spec fn softened(name: Seq<char>, alnum: Seq<bool>) -> Seq<char> {
    Seq::new(
        name.len(),
        |i: int|
            if alnum[i] || name[i] == '-' || name[i] == '_' {
                name[i]
            } else {
                '_'
            },
    )
}

/// The file name of a profile: its name, or where that cannot be one, what is
/// left of it with a hash.
pub open spec fn file_name_of(name: Seq<char>, alnum: Seq<bool>) -> Seq<char> {
    if plain_name(name, alnum) {
        name + ".yml"@
    } else {
        softened(name, alnum) + "-"@ + catalog::short_hash_of(name) + ".yml"@
    }
}

/// Which characters of a text are letters or numbers.
pub open spec fn letters(name: Seq<char>) -> Seq<bool> {
    name.map_values(|c: char| alphanumeric(c))
}

/// The file name of a profile, given which characters of its name are letters or
/// numbers.
pub fn file_name_from(name: &str, alnum: &Vec<bool>) -> (r: String)
    requires
        alnum@.len() == name@.len(),
    ensures
        r@ == file_name_of(name@, alnum@),
{
    let cs = text::chars(name);
    let mut plain = cs.len() > 0 && !text::same(name, ".") && !text::same(name, "..");
    let mut soft = String::new();
    let ghost wanted = softened(name@, alnum@);
    let mut i: usize = 0;
    while i < cs.len()
        invariant
            cs@ == name@,
            alnum@.len() == name@.len(),
            i <= cs.len(),
            wanted == softened(name@, alnum@),
            soft@ == wanted.take(i as int),
            plain ==> name@.len() > 0 && name@ != "."@ && name@ != ".."@ && forall|j: int|
                0 <= j < i ==> #[trigger] alnum@[j] || name@[j] == ' ' || name@[j] == '-'
                    || name@[j] == '_',
            !plain ==> !plain_name(name@, alnum@),
        decreases cs.len() - i,
    {
        let c = cs[i];
        if alnum[i] || c == '-' || c == '_' {
            soft.push(c);
        } else {
            soft.push('_');
            if c != ' ' {
                assert(!(alnum@[i as int] || name@[i as int] == ' ' || name@[i as int] == '-'
                    || name@[i as int] == '_'));
                plain = false;
            }
        }
        assert(soft@ =~= wanted.take(i + 1));
        i += 1;
    }
    assert(wanted.take(i as int) =~= wanted);
    if plain {
        text::cat(name, ".yml")
    } else {
        let mut out = text::cat3(soft.as_str(), "-", catalog::short_hash(name).as_str());
        out.append(".yml");
        out
    }
}

/// The file name of a profile.
pub fn profile_filename(name: &str) -> (r: String)
    ensures
        r@ == file_name_of(name@, letters(name@)),
{
    let cs = text::chars(name);
    let mut alnum: Vec<bool> = Vec::new();
    let mut i: usize = 0;
    while i < cs.len()
        invariant
            cs@ == name@,
            i <= cs.len(),
            alnum@ =~= letters(name@).take(i as int),
        decreases cs.len() - i,
    {
        alnum.push(is_alphanumeric(cs[i]));
        i += 1;
    }
    assert(alnum@ =~= letters(name@));
    file_name_from(name, &alnum)
}

impl ProfileStore {
    /// Where a profile's own file is, where its model has a managed directory.
    pub fn profile_path(&self, model: &str, profile: &str) -> (r: Option<String>)
        requires
            self.wf(),
        ensures
            opt(r) == if self@.model_dirs.dom().contains(model@) {
                Some(
                    path::joined(
                        path::joined(self@.model_dirs[model@], "profiles"@),
                        file_name_of(profile@, letters(profile@)),
                    ),
                )
            } else {
                None
            },
    {
        match self.model_dirs.get(model) {
            Some(dir) => Some(
                path::join(
                    path::join(dir.as_str(), "profiles").as_str(),
                    profile_filename(profile).as_str(),
                ),
            ),
            None => None,
        }
    }
}

/// The key of a model that is a file: its path.
pub fn model_key(path: &str) -> (r: String)
    ensures
        r@ == path@,
{
    text::copy(path)
}

// --- laws of file names ------------------------------------------------------

/// The file of a profile is in the directory of the profiles, whatever the profile
/// is called, as no letter and no number is a separator or a NUL.
pub proof fn law_profile_files_stay_in_their_directory(name: Seq<char>, alnum: Seq<bool>)
    requires
        alnum.len() == name.len(),
        forall|i: int|
            0 <= i < name.len() && #[trigger] alnum[i] ==> name[i] != '/' && name[i] != '\0',
    ensures
        !file_name_of(name, alnum).contains('/'),
        !file_name_of(name, alnum).contains('\0'),
        file_name_of(name, alnum) != "."@,
        file_name_of(name, alnum) != ".."@,
{
    reveal_strlit(".yml");
    reveal_strlit("-");
    reveal_strlit(".");
    reveal_strlit("..");
    let file = file_name_of(name, alnum);
    let tail = ".yml"@;
    if plain_name(name, alnum) {
        assert forall|i: int| 0 <= i < file.len() implies file[i] != '/' && file[i] != '\0' by {
            if i < name.len() {
                assert(alnum[i] || name[i] == ' ' || name[i] == '-' || name[i] == '_');
            }
        }
    } else {
        let soft = softened(name, alnum);
        let hash = catalog::short_hash_of(name);
        number::lemma_hex_is_plain(names::text_hash(name) as nat, 16);
        number::lemma_hex_len(names::text_hash(name) as nat, 16);
        let all = number::hex(names::text_hash(name) as nat, 16);
        assert forall|i: int| 0 <= i < file.len() implies file[i] != '/' && file[i] != '\0' by {
            if i < soft.len() {
                assert(file[i] == soft[i]);
                if alnum[i] {
                    assert(name[i] != '/' && name[i] != '\0');
                }
            } else if i == soft.len() {
            } else if i < soft.len() + 1 + hash.len() {
                assert(file[i] == hash[i - soft.len() - 1]);
                assert(hash[i - soft.len() - 1] == all[i - soft.len() - 1]);
            } else {
                assert(file[i] == tail[i - soft.len() - 1 - hash.len()]);
            }
        }
    }
    assert(file.len() >= 4);
}

/// Two profiles whose names can be file names as they are have files of their own.
pub proof fn law_plain_names_have_their_own_files(a: Seq<char>, b: Seq<char>)
    requires
        plain_name(a, letters(a)),
        plain_name(b, letters(b)),
        file_name_of(a, letters(a)) == file_name_of(b, letters(b)),
    ensures
        a == b,
{
    let (x, y) = (a + ".yml"@, b + ".yml"@);
    assert(x.len() == y.len());
    assert(a =~= x.take(a.len() as int));
    assert(b =~= y.take(b.len() as int));
}

/// The files of a model are read: where no two of them are of the same profile, each of
/// the known layout gives its profile what it holds, and no file touches another profile
/// or another model.
pub proof fn law_files_give_their_profiles(store: StoreView, runtime: Seq<char>, model: Seq<char>, files: Seq<ProfileFile>, n: nat, i: int, k: KeyView)
    requires
        n <= files.len(),
        0 <= i < n,
        files[i].schema == 1,
        forall|a: int, b: int|
            0 <= a < b < n ==> (#[trigger] files[a]).name@ != (#[trigger] files[b]).name@,
        k.runtime != runtime || k.model != model || forall|a: int|
            0 <= a < n ==> (#[trigger] files[a]).name@ != k.profile,
    ensures
        ({
            let after = with_files(store, runtime, model, files, n);
            let own = key_view(runtime, model, files[i].name@);
            &&& after.instances.dom().contains(own)
            &&& after.instances[own] == files[i].instance@
            &&& !after.fallback.contains(own)
            &&& after.instances.dom().contains(k) == store.instances.dom().contains(k)
            &&& store.instances.dom().contains(k) ==> after.instances[k] == store.instances[k]
        }),
    decreases n,
{
    let m = (n - 1) as nat;
    lemma_other_profiles(store, runtime, model, files, m, k);
    if i < m {
        law_files_give_their_profiles(store, runtime, model, files, m, i, k);
        assert(files[i].name@ != files[n - 1].name@);
    }
    assert(files[n - 1].name@ != k.profile || k.runtime != runtime || k.model != model);
}

proof fn lemma_other_profiles(store: StoreView, runtime: Seq<char>, model: Seq<char>, files: Seq<ProfileFile>, n: nat, k: KeyView)
    requires
        n <= files.len(),
        k.runtime != runtime || k.model != model || forall|a: int|
            0 <= a < n ==> (#[trigger] files[a]).name@ != k.profile,
    ensures
        ({
            let after = with_files(store, runtime, model, files, n);
            &&& after.instances.dom().contains(k) == store.instances.dom().contains(k)
            &&& store.instances.dom().contains(k) ==> after.instances[k] == store.instances[k]
        }),
    decreases n,
{
    if n > 0 {
        lemma_other_profiles(store, runtime, model, files, (n - 1) as nat, k);
        assert(files[n - 1].name@ != k.profile || k.runtime != runtime || k.model != model);
    }
}

/// Each built-in profile has an instance; one that was there is as it was.
pub proof fn law_builtin_profiles_are_there(store: StoreView, runtime: Seq<char>, model: Seq<char>, names: Seq<Seq<char>>, n: nat, i: int, k: KeyView)
    requires
        n <= names.len(),
    ensures
        ({
            let after = with_builtins(store, runtime, model, names, n);
            &&& 0 <= i < n ==> after.instances.dom().contains(key_view(runtime, model, names[i]))
            &&& 0 <= i < n && !store.instances.dom().contains(key_view(runtime, model, names[i]))
                ==> after.instances[key_view(runtime, model, names[i])].values.dom()
                == Set::<Seq<char>>::empty()
            &&& store.instances.dom().contains(k) ==> after.instances.dom().contains(k)
                && after.instances[k] == store.instances[k]
            &&& after.fallback == store.fallback
        }),
    decreases n,
{
    if n > 0 {
        law_builtin_profiles_are_there(store, runtime, model, names, (n - 1) as nat, i, k);
        law_builtin_profiles_are_there(
            store,
            runtime,
            model,
            names,
            (n - 1) as nat,
            i,
            key_view(runtime, model, names[n - 1]),
        );
        if 0 <= i < n && !store.instances.dom().contains(key_view(runtime, model, names[i])) {
            lemma_builtins_are_blank(
                store,
                runtime,
                model,
                names,
                n,
                key_view(runtime, model, names[i]),
            );
        }
    }
}

proof fn lemma_builtins_are_blank(store: StoreView, runtime: Seq<char>, model: Seq<char>, names: Seq<Seq<char>>, n: nat, k: KeyView)
    requires
        n <= names.len(),
        !store.instances.dom().contains(k),
    ensures
        ({
            let after = with_builtins(store, runtime, model, names, n);
            after.instances.dom().contains(k) ==> after.instances[k] == blank()
        }),
    decreases n,
{
    if n > 0 {
        lemma_builtins_are_blank(store, runtime, model, names, (n - 1) as nat, k);
    }
}

/// What is kept in the common file comes back: each record with its values, still to be
/// written to its own file.
pub proof fn law_records_come_back(records: Seq<Record>, n: nat, i: int)
    requires
        n <= records.len(),
        0 <= i < n,
        forall|a: int, b: int|
            0 <= a < b < n ==> (#[trigger] records[a]).key@ != (#[trigger] records[b]).key@,
    ensures
        imported(records, n).instances.dom().contains(records[i].key@),
        imported(records, n).instances[records[i].key@] == records[i].instance@,
        imported(records, n).fallback.contains(records[i].key@),
    decreases n,
{
    if i < n - 1 {
        law_records_come_back(records, (n - 1) as nat, i);
        assert(records[i].key@ != records[n - 1].key@);
    }
}

/// A model that is found has its own directory and its built-in profiles.
pub proof fn law_found_models_have_their_profiles(store: StoreView, m: ModelView, files: Vec<ProfileFile>, i: int)
    requires
        0 <= i < templates::names_of(templates_of(m.runtime)).len(),
    ensures
        ({
            let after = with_model(store, m, Some(files), false);
            let names = templates::names_of(templates_of(m.runtime));
            &&& after.model_dirs.dom().contains(m.profile_key())
            &&& after.model_dirs[m.profile_key()] == m.catalog_dir
            &&& after.instances.dom().contains(key_view(m.runtime, m.profile_key(), names[i]))
        }),
        with_model(store, m, None, false) == store,
{
    let names = templates::names_of(templates_of(m.runtime));
    let read = with_files(with_dir(store, m), m.runtime, m.profile_key(), files@, files@.len());
    law_builtin_profiles_are_there(
        read,
        m.runtime,
        m.profile_key(),
        names,
        names.len(),
        i,
        key_view(m.runtime, m.profile_key(), names[i]),
    );
    lemma_dirs_stay(with_dir(store, m), m.runtime, m.profile_key(), files@, files@.len());
    lemma_builtin_dirs_stay(read, m.runtime, m.profile_key(), names, names.len());
}

proof fn lemma_dirs_stay(store: StoreView, runtime: Seq<char>, model: Seq<char>, files: Seq<ProfileFile>, n: nat)
    ensures
        with_files(store, runtime, model, files, n).model_dirs == store.model_dirs,
    decreases n,
{
    if n > 0 {
        lemma_dirs_stay(store, runtime, model, files, (n - 1) as nat);
    }
}

proof fn lemma_builtin_dirs_stay(store: StoreView, runtime: Seq<char>, model: Seq<char>, names: Seq<Seq<char>>, n: nat)
    ensures
        with_builtins(store, runtime, model, names, n).model_dirs == store.model_dirs,
    decreases n,
{
    if n > 0 {
        lemma_builtin_dirs_stay(store, runtime, model, names, (n - 1) as nat);
    }
}

/// A profile whose name is letters, numbers, blanks, dashes and underscores has a file of
/// that name; any other has one that also holds a hash of the name.
pub proof fn law_profiles_have_files_of_their_names(name: Seq<char>, alnum: Seq<bool>)
    requires
        alnum.len() == name.len(),
        name.len() > 0,
    ensures
        name != "."@ && name != ".."@ && (forall|i: int|
            0 <= i < name.len() ==> #[trigger] alnum[i] || name[i] == ' ' || name[i] == '-'
                || name[i] == '_') ==> file_name_of(name, alnum) == name + ".yml"@,
        (exists|i: int|
            0 <= i < name.len() && !#[trigger] alnum[i] && name[i] != ' ' && name[i] != '-'
                && name[i] != '_') ==> text::has(
            file_name_of(name, alnum),
            catalog::short_hash_of(name),
        ),
{
    if exists|i: int|
        0 <= i < name.len() && !#[trigger] alnum[i] && name[i] != ' ' && name[i] != '-' && name[i]
            != '_' {
        let f = file_name_of(name, alnum);
        let h = catalog::short_hash_of(name);
        let front = softened(name, alnum) + "-"@;
        assert(f == front + h + ".yml"@);
        assert(f.subrange(front.len() as int, (front.len() + h.len()) as int) =~= h);
        assert(text::occurs_at(f, h, front.len() as int));
    }
}

} // verus!
