//! Profiles that belong to one model: which there are, what they set, and how
//! they change.
//!
//! A profile is named by its runtime, its model and its own name. Built-in
//! profiles are read-only; the first change for a model makes an instance here.
//! Each instance is kept in a file of its model; one whose file could not be
//! written is kept in a common file until it can. Reading and writing happen
//! outside: the functions take what came of it.

use vstd::prelude::*;
use crate::profiles::templates;
use crate::runtime::backend::{templates_for, templates_of};
use crate::table;
use crate::table::TextMap;
use crate::text;

verus! {

/// What names an instance.
#[derive(Debug)]
pub struct Key {
    pub runtime: String,
    pub model: String,
    pub profile: String,
}

pub struct KeyView {
    pub runtime: Seq<char>,
    pub model: Seq<char>,
    pub profile: Seq<char>,
}

impl View for Key {
    type V = KeyView;

    open spec fn view(&self) -> KeyView {
        KeyView { runtime: self.runtime@, model: self.model@, profile: self.profile@ }
    }
}

impl Clone for Key {
    fn clone(&self) -> (r: Self)
        ensures
            r@ == self@,
    {
        Key {
            runtime: self.runtime.clone(),
            model: self.model.clone(),
            profile: self.profile.clone(),
        }
    }
}

impl Key {
    pub fn same(&self, other: &Key) -> (r: bool)
        ensures
            r == (self@ == other@),
    {
        text::same(self.runtime.as_str(), other.runtime.as_str()) && text::same(
            self.model.as_str(),
            other.model.as_str(),
        ) && text::same(self.profile.as_str(), other.profile.as_str())
    }
}

/// A key from its parts.
pub open spec fn key_view(runtime: Seq<char>, model: Seq<char>, profile: Seq<char>) -> KeyView {
    KeyView { runtime, model, profile }
}

/// A key from its parts.
pub fn key(runtime: &str, model: &str, profile: &str) -> (r: Key)
    ensures
        r@ == key_view(runtime@, model@, profile@),
{
    Key { runtime: text::copy(runtime), model: text::copy(model), profile: text::copy(profile) }
}

/// A profile of a model: what it sets, and its marks.
#[derive(Debug)]
pub struct Instance {
    pub values: TextMap,
    pub favorite: bool,
    /// Made by the user, not from a built-in profile.
    pub custom: bool,
}

pub struct InstanceView {
    pub values: Map<Seq<char>, Seq<char>>,
    pub favorite: bool,
    pub custom: bool,
}

impl View for Instance {
    type V = InstanceView;

    open spec fn view(&self) -> InstanceView {
        InstanceView { values: self.values@, favorite: self.favorite, custom: self.custom }
    }
}

impl Clone for Instance {
    fn clone(&self) -> (r: Self)
        ensures
            r@ == self@,
            self.values.wf() ==> r.values.wf(),
    {
        Instance { values: self.values.clone(), favorite: self.favorite, custom: self.custom }
    }
}

/// An instance that sets nothing.
pub open spec fn blank() -> InstanceView {
    InstanceView {
        values: Map::<Seq<char>, Seq<char>>::empty(),
        favorite: false,
        custom: false,
    }
}

/// All profiles of all models.
#[derive(Debug)]
pub struct ProfileStore {
    pub instances: Vec<(Key, Instance)>,
    /// The managed directory of each model, by the model's key.
    pub model_dirs: TextMap,
    /// The instances that are kept in the common file.
    pub fallback: Vec<Key>,
}

pub struct StoreView {
    pub instances: Map<KeyView, InstanceView>,
    pub model_dirs: Map<Seq<char>, Seq<char>>,
    pub fallback: Set<KeyView>,
}

/// The views of instances.
pub open spec fn instance_views(v: Seq<(Key, Instance)>) -> Seq<(KeyView, InstanceView)> {
    v.map_values(|e: (Key, Instance)| (e.0@, e.1@))
}

/// The views of keys.
pub open spec fn key_views(v: Seq<Key>) -> Seq<KeyView> {
    v.map_values(|k: Key| k@)
}

impl View for ProfileStore {
    type V = StoreView;

    open spec fn view(&self) -> StoreView {
        StoreView {
            instances: table::as_map(instance_views(self.instances@)),
            model_dirs: self.model_dirs@,
            fallback: key_views(self.fallback@).to_set(),
        }
    }
}

/// What an instance starts from where there is none: the values shown, and
/// whether the profile is the user's own.
pub open spec fn materialized(store: StoreView, k: KeyView, base: Map<Seq<char>, Seq<char>>) -> InstanceView {
    if store.instances.dom().contains(k) {
        store.instances[k]
    } else {
        InstanceView {
            values: base,
            favorite: false,
            custom: !templates::builtin(templates_of(k.runtime), k.profile),
        }
    }
}

/// The store after an instance was set and its file written or not.
pub open spec fn with_instance(store: StoreView, k: KeyView, i: InstanceView, written: bool) -> StoreView {
    StoreView {
        instances: store.instances.insert(k, i),
        model_dirs: store.model_dirs,
        fallback: if written {
            store.fallback.remove(k)
        } else {
            store.fallback.insert(k)
        },
    }
}

/// The store without an instance.
pub open spec fn without_instance(store: StoreView, k: KeyView) -> StoreView {
    StoreView {
        instances: store.instances.remove(k),
        model_dirs: store.model_dirs,
        fallback: store.fallback.remove(k),
    }
}

/// What was taken out of the store with an instance.
#[derive(Debug)]
pub struct Removed {
    pub instance: Option<Instance>,
    pub was_fallback: bool,
}

/// Why a change was refused.
#[derive(Debug)]
pub enum StoreError {
    AlreadyExists,
    NotFound,
    /// What the disk said.
    Io(String),
}

impl StoreError {
    /// What is said of it.
    pub fn message(&self) -> (r: String)
        ensures
            r@ == match self {
                StoreError::AlreadyExists => "profile already exists"@,
                StoreError::NotFound => "profile not found"@,
                StoreError::Io(e) => e@,
            },
    {
        match self {
            StoreError::AlreadyExists => text::copy("profile already exists"),
            StoreError::NotFound => text::copy("profile not found"),
            StoreError::Io(e) => e.clone(),
        }
    }
}

/// What came of the disk's part in a deletion: unlinking the profile's file, then
/// saving the common file. `None` is success.
#[derive(Debug)]
pub struct DeleteDisk {
    pub unlink: Option<String>,
    pub legacy: Option<String>,
}

/// What came of the disk's part in a renaming: writing the new file, saving the
/// common file, then deleting the old profile.
#[derive(Debug)]
pub struct RenameDisk {
    pub written: bool,
    pub legacy: Option<String>,
    pub delete: DeleteDisk,
}

impl ProfileStore {
    /// Each key has one instance, each option of an instance one value, and no key
    /// is twice in the common file.
    pub open spec fn wf(self) -> bool {
        &&& table::distinct_keys(instance_views(self.instances@))
        &&& self.model_dirs.wf()
        &&& key_views(self.fallback@).no_duplicates()
        &&& forall|i: int|
            0 <= i < self.instances@.len() ==> (#[trigger] self.instances@[i]).1.values.wf()
    }

    /// A store without anything.
    pub fn new() -> (r: ProfileStore)
        ensures
            r.wf(),
            r@.instances == Map::<KeyView, InstanceView>::empty(),
            r@.model_dirs == Map::<Seq<char>, Seq<char>>::empty(),
            r@.fallback == Set::<KeyView>::empty(),
    {
        let r = ProfileStore {
            instances: Vec::new(),
            model_dirs: TextMap::new(),
            fallback: Vec::new(),
        };
        assert(r@.instances =~= Map::<KeyView, InstanceView>::empty());
        assert(r@.fallback =~= Set::<KeyView>::empty());
        r
    }

    pub(crate) fn find(&self, k: &Key) -> (r: Option<usize>)
        ensures
            match r {
                Some(i) => i < self.instances@.len() && self.instances@[i as int].0@ == k@,
                None => !table::has_key(instance_views(self.instances@), k@),
            },
    {
        let ghost all = instance_views(self.instances@);
        let mut i: usize = 0;
        while i < self.instances.len()
            invariant
                i <= self.instances.len(),
                all == instance_views(self.instances@),
                forall|j: int| 0 <= j < i ==> (#[trigger] all[j]).0 != k@,
            decreases self.instances.len() - i,
        {
            assert(all[i as int].0 == self.instances@[i as int].0@);
            if self.instances[i].0.same(k) {
                return Some(i);
            }
            i += 1;
        }
        None
    }

    fn find_fallback(&self, k: &Key) -> (r: Option<usize>)
        ensures
            match r {
                Some(i) => i < self.fallback@.len() && self.fallback@[i as int]@ == k@,
                None => !self@.fallback.contains(k@),
            },
    {
        let ghost all = key_views(self.fallback@);
        let mut i: usize = 0;
        while i < self.fallback.len()
            invariant
                i <= self.fallback.len(),
                all == key_views(self.fallback@),
                forall|j: int| 0 <= j < i ==> #[trigger] all[j] != k@,
            decreases self.fallback.len() - i,
        {
            assert(all[i as int] == self.fallback@[i as int]@);
            if self.fallback[i].same(k) {
                return Some(i);
            }
            i += 1;
        }
        assert(!all.contains(k@));
        None
    }

    /// The instance of a profile.
    pub fn get(&self, runtime: &str, model: &str, profile: &str) -> (r: Option<&Instance>)
        requires
            self.wf(),
        ensures
            match r {
                Some(i) => i.values.wf() && self@.instances.dom().contains(
                    key_view(runtime@, model@, profile@),
                ) && self@.instances[key_view(runtime@, model@, profile@)] == i@,
                None => !self@.instances.dom().contains(key_view(runtime@, model@, profile@)),
            },
    {
        match self.find(&key(runtime, model, profile)) {
            Some(i) => {
                proof {
                    table::lemma_entry(instance_views(self.instances@), i as int);
                }
                Some(&self.instances[i].1)
            },
            None => None,
        }
    }

    /// Whether a profile is marked as a favorite.
    pub fn is_favorite(&self, runtime: &str, model: &str, profile: &str) -> (r: bool)
        requires
            self.wf(),
        ensures
            r == favorite_in(self@, key_view(runtime@, model@, profile@)),
    {
        match self.get(runtime, model, profile) {
            Some(i) => i.favorite,
            None => false,
        }
    }

    /// Sets an instance.
    pub(crate) fn put(&mut self, k: &Key, instance: Instance)
        requires
            old(self).wf(),
            instance.values.wf(),
        ensures
            final(self).wf(),
            final(self)@.instances == old(self)@.instances.insert(k@, instance@),
            final(self).model_dirs == old(self).model_dirs,
            final(self).fallback == old(self).fallback,
    {
        let ghost all = instance_views(self.instances@);
        match self.find(k) {
            Some(i) => {
                proof {
                    table::lemma_update(all, i as int, instance@);
                }
                let again = k.clone();
                self.instances[i] = (again, instance);
                assert(instance_views(self.instances@) =~= all.update(i as int, (k@, instance@)));
            },
            None => {
                proof {
                    table::lemma_push(all, k@, instance@);
                }
                self.instances.push((k.clone(), instance));
                assert(instance_views(self.instances@) =~= all.push((k@, instance@)));
            },
        }
    }

    /// Takes an instance out.
    fn take(&mut self, k: &Key) -> (r: Option<Instance>)
        requires
            old(self).wf(),
        ensures
            final(self).wf(),
            final(self)@.instances == old(self)@.instances.remove(k@),
            final(self).model_dirs == old(self).model_dirs,
            final(self).fallback == old(self).fallback,
            match r {
                Some(i) => i.values.wf() && old(self)@.instances.dom().contains(k@)
                    && old(self)@.instances[k@] == i@,
                None => !old(self)@.instances.dom().contains(k@),
            },
    {
        let ghost all = instance_views(self.instances@);
        match self.find(k) {
            Some(i) => {
                proof {
                    table::lemma_entry(all, i as int);
                    table::lemma_remove(all, i as int);
                }
                let (_, instance) = self.instances.remove(i);
                assert(instance_views(self.instances@) =~= all.remove(i as int));
                Some(instance)
            },
            None => {
                assert(self@.instances.remove(k@) =~= self@.instances);
                None
            },
        }
    }

    /// Notes whether a profile's own file was written: if not, it is kept in the
    /// common file.
    pub fn note_written(&mut self, k: &Key, written: bool)
        requires
            old(self).wf(),
        ensures
            final(self).wf(),
            final(self)@.instances == old(self)@.instances,
            final(self)@.model_dirs == old(self)@.model_dirs,
            final(self)@.fallback == if written {
                old(self)@.fallback.remove(k@)
            } else {
                old(self)@.fallback.insert(k@)
            },
    {
        let ghost all = key_views(self.fallback@);
        match self.find_fallback(k) {
            Some(i) => {
                assert(all[i as int] == k@);
                if written {
                    self.fallback.remove(i);
                    let ghost less = key_views(self.fallback@);
                    assert(less =~= all.remove(i as int));
                    proof {
                        lemma_remove_set(all, i as int);
                    }
                } else {
                    assert(all.to_set().insert(k@) =~= all.to_set()) by {
                        assert(all.contains(k@));
                    }
                }
            },
            None => {
                if !written {
                    self.fallback.push(k.clone());
                    assert(key_views(self.fallback@) =~= all.push(k@));
                    proof {
                        lemma_push_set(all, k@);
                    }
                } else {
                    assert(all.to_set().remove(k@) =~= all.to_set());
                }
            },
        }
    }
}

proof fn lemma_remove_set(all: Seq<KeyView>, i: int)
    requires
        all.no_duplicates(),
        0 <= i < all.len(),
    ensures
        all.remove(i).no_duplicates(),
        all.remove(i).to_set() == all.to_set().remove(all[i]),
{
    let less = all.remove(i);
    assert forall|a: int, b: int| 0 <= a < less.len() && 0 <= b < less.len() && a != b implies less[a]
        != less[b] by {
        let x = if a < i { a } else { a + 1 };
        let y = if b < i { b } else { b + 1 };
        assert(less[a] == all[x] && less[b] == all[y]);
    }
    assert forall|k: KeyView| less.to_set().contains(k) == all.to_set().remove(all[i]).contains(k) by {
        if less.contains(k) {
            let a = choose|a: int| 0 <= a < less.len() && less[a] == k;
            let x = if a < i { a } else { a + 1 };
            assert(all[x] == k);
            assert(all[x] != all[i]);
        }
        if all.contains(k) && k != all[i] {
            let x = choose|x: int| 0 <= x < all.len() && all[x] == k;
            let a = if x < i { x } else { x - 1 };
            assert(less[a] == k);
        }
    }
    assert(less.to_set() =~= all.to_set().remove(all[i]));
}

proof fn lemma_push_set(all: Seq<KeyView>, k: KeyView)
    requires
        all.no_duplicates(),
        !all.contains(k),
    ensures
        all.push(k).no_duplicates(),
        all.push(k).to_set() == all.to_set().insert(k),
{
    let more = all.push(k);
    assert forall|x: KeyView| more.to_set().contains(x) == all.to_set().insert(k).contains(x) by {
        if all.contains(x) {
            let a = choose|a: int| 0 <= a < all.len() && all[a] == x;
            assert(more[a] == x);
        }
        if x == k {
            assert(more[all.len() as int] == k);
        }
        if more.contains(x) && x != k {
            let a = choose|a: int| 0 <= a < more.len() && more[a] == x;
            assert(all[a] == x);
        }
    }
    assert(more.to_set() =~= all.to_set().insert(k));
}

/// Whether a profile is marked as a favorite.
pub open spec fn favorite_in(store: StoreView, k: KeyView) -> bool {
    store.instances.dom().contains(k) && store.instances[k].favorite
}

// --- changes -----------------------------------------------------------------

impl ProfileStore {
    /// Makes a profile with the given values. `written` says whether its file
    /// could be written.
    pub fn create(&mut self, runtime: &str, model: &str, profile: &str, values: TextMap, custom: bool, written: bool)
        requires
            old(self).wf(),
            values.wf(),
        ensures
            final(self).wf(),
            final(self)@ == with_instance(
                old(self)@,
                key_view(runtime@, model@, profile@),
                InstanceView { values: values@, favorite: false, custom },
                written,
            ),
    {
        let k = key(runtime, model, profile);
        self.put(&k, Instance { values, favorite: false, custom });
        self.note_written(&k, written);
    }

    fn start(&self, k: &Key, base: &TextMap) -> (r: Instance)
        requires
            self.wf(),
            base.wf(),
        ensures
            r.values.wf(),
            r@ == materialized(self@, k@, base@),
    {
        match self.get(k.runtime.as_str(), k.model.as_str(), k.profile.as_str()) {
            Some(i) => i.clone(),
            None => Instance {
                values: base.clone(),
                favorite: false,
                custom: !templates::is_builtin(
                    &templates_for(k.runtime.as_str()),
                    k.profile.as_str(),
                ),
            },
        }
    }

    /// Sets one option of a profile, making its instance from `base` where there
    /// is none. `written` says whether its file could be written.
    pub fn set_value(&mut self, runtime: &str, model: &str, profile: &str, option: &str, value: String, base: &TextMap, written: bool)
        requires
            old(self).wf(),
            base.wf(),
        ensures
            final(self).wf(),
            final(self)@ == ({
                let k = key_view(runtime@, model@, profile@);
                let i = materialized(old(self)@, k, base@);
                with_instance(
                    old(self)@,
                    k,
                    InstanceView { values: i.values.insert(option@, value@), ..i },
                    written,
                )
            }),
    {
        let k = key(runtime, model, profile);
        let mut i = self.start(&k, base);
        i.values.insert(option, value);
        self.put(&k, i);
        self.note_written(&k, written);
    }

    /// Turns the favorite mark of a profile, making its instance from `base` where
    /// there is none. `written` says whether its file could be written.
    pub fn toggle_favorite(&mut self, runtime: &str, model: &str, profile: &str, base: &TextMap, written: bool)
        requires
            old(self).wf(),
            base.wf(),
        ensures
            final(self).wf(),
            final(self)@ == ({
                let k = key_view(runtime@, model@, profile@);
                let i = materialized(old(self)@, k, base@);
                with_instance(
                    old(self)@,
                    k,
                    InstanceView { favorite: !i.favorite, ..i },
                    written,
                )
            }),
    {
        let k = key(runtime, model, profile);
        let mut i = self.start(&k, base);
        i.favorite = !i.favorite;
        self.put(&k, i);
        self.note_written(&k, written);
    }

    /// Takes a profile out, once its file is gone.
    pub fn remove(&mut self, k: &Key) -> (r: Removed)
        requires
            old(self).wf(),
        ensures
            final(self).wf(),
            final(self)@ == without_instance(old(self)@, k@),
            r.was_fallback == old(self)@.fallback.contains(k@),
            match r.instance {
                Some(i) => i.values.wf() && old(self)@.instances.dom().contains(k@)
                    && old(self)@.instances[k@] == i@,
                None => !old(self)@.instances.dom().contains(k@),
            },
    {
        let found = self.find_fallback(k);
        proof {
            if let Some(i) = found {
                assert(key_views(self.fallback@)[i as int] == k@);
            }
        }
        let was_fallback = found.is_some();
        let instance = self.take(k);
        self.note_written(k, true);
        Removed { instance, was_fallback }
    }

    /// Puts back what was taken out.
    pub fn restore(&mut self, k: &Key, removed: Removed)
        requires
            old(self).wf(),
            removed.instance is Some ==> removed.instance->0.values.wf(),
        ensures
            final(self).wf(),
            final(self)@.model_dirs == old(self)@.model_dirs,
            final(self)@.instances == match removed.instance {
                Some(i) => old(self)@.instances.insert(k@, i@),
                None => old(self)@.instances,
            },
            final(self)@.fallback == if removed.was_fallback {
                old(self)@.fallback.insert(k@)
            } else {
                old(self)@.fallback
            },
    {
        if let Some(i) = removed.instance {
            self.put(k, i);
        }
        if removed.was_fallback {
            self.note_written(k, false);
        }
    }

    /// Makes the new name's instance where a profile may be renamed: it must
    /// exist, and the new name must be free. Nothing happens where the names are
    /// the same.
    pub fn begin_rename(&mut self, runtime: &str, model: &str, old_name: &str, new_name: &str, written: bool) -> (r: Result<bool, StoreError>)
        requires
            old(self).wf(),
        ensures
            final(self).wf(),
            match rename_refusal(
                old(self)@,
                key_view(runtime@, model@, old_name@),
                key_view(runtime@, model@, new_name@),
            ) {
                Some(e) => r is Err && same_error(r->Err_0, e) && final(self)@ == old(self)@,
                None => if old_name@ == new_name@ {
                    r == Ok::<bool, StoreError>(false) && final(self)@ == old(self)@
                } else {
                    r == Ok::<bool, StoreError>(true) && final(self)@ == with_instance(
                        old(self)@,
                        key_view(runtime@, model@, new_name@),
                        old(self)@.instances[key_view(runtime@, model@, old_name@)],
                        written,
                    )
                },
            },
    {
        if text::same(old_name, new_name) {
            return Ok(false);
        }
        if self.get(runtime, model, new_name).is_some() {
            return Err(StoreError::AlreadyExists);
        }
        let instance = match self.get(runtime, model, old_name) {
            Some(i) => i.clone(),
            None => return Err(StoreError::NotFound),
        };
        let k = key(runtime, model, new_name);
        self.put(&k, instance);
        self.note_written(&k, written);
        Ok(true)
    }
}

/// Whether an error is a refusal.
pub open spec fn same_error(e: StoreError, refusal: Refusal) -> bool {
    match refusal {
        Refusal::AlreadyExists => e is AlreadyExists,
        Refusal::NotFound => e is NotFound,
    }
}

/// Why a renaming is refused before anything happens.
pub enum Refusal {
    AlreadyExists,
    NotFound,
}

/// Why a renaming is refused: the new name is taken, or there is nothing to
/// rename.
pub open spec fn rename_refusal(store: StoreView, from: KeyView, to: KeyView) -> Option<Refusal> {
    if from == to {
        None
    } else if store.instances.dom().contains(to) {
        Some(Refusal::AlreadyExists)
    } else if !store.instances.dom().contains(from) {
        Some(Refusal::NotFound)
    } else {
        None
    }
}

/// What a deletion does and returns.
pub open spec fn deleted(before: StoreView, k: KeyView, disk: DeleteDisk, after: StoreView, r: Result<(), StoreError>) -> bool {
    match (disk.unlink, disk.legacy) {
        (Some(e), _) => after == before && r is Err && r->Err_0 is Io && r->Err_0->Io_0@ == e@,
        (None, Some(e)) => after == before && r is Err && r->Err_0 is Io && r->Err_0->Io_0@ == e@,
        (None, None) => after == without_instance(before, k) && r is Ok,
    }
}

/// What a renaming does and returns.
pub open spec fn renamed(before: StoreView, from: KeyView, to: KeyView, disk: RenameDisk, after: StoreView, r: Result<(), StoreError>) -> bool {
    match rename_refusal(before, from, to) {
        Some(e) => after == before && r is Err && same_error(r->Err_0, e),
        None => if from == to {
            after == before && r is Ok
        } else {
            let both = with_instance(before, to, before.instances[from], disk.written);
            match disk.legacy {
                Some(e) => after == without_instance(both, to) && r is Err && r->Err_0 is Io
                    && r->Err_0->Io_0@ == e@,
                None => deleted(both, from, disk.delete, after, r),
            }
        },
    }
}

// --- what changes keep -------------------------------------------------------

/// A deletion that fails leaves everything as it was; one that succeeds takes
/// that profile and nothing else.
pub proof fn law_delete_takes_one_or_nothing(before: StoreView, k: KeyView, disk: DeleteDisk, after: StoreView, r: Result<(), StoreError>)
    requires
        deleted(before, k, disk, after, r),
    ensures
        r is Err ==> after == before,
        r is Ok ==> !after.instances.dom().contains(k) && forall|other: KeyView|
            other != k ==> (#[trigger] after.instances.dom().contains(other)
                == before.instances.dom().contains(other)) && (before.instances.dom().contains(
                other,
            ) ==> after.instances[other] == before.instances[other]),
{
}

/// A renaming that fails never loses the profile: it is still there under its old
/// name, as it was.
pub proof fn law_failed_rename_keeps_the_original(before: StoreView, from: KeyView, to: KeyView, disk: RenameDisk, after: StoreView, r: Result<(), StoreError>)
    requires
        renamed(before, from, to, disk, after, r),
        r is Err,
        before.instances.dom().contains(from),
    ensures
        after.instances.dom().contains(from),
        after.instances[from] == before.instances[from],
{
}

/// A renaming that succeeds moves the profile: the new name has what the old one
/// had, and the old one is gone.
pub proof fn law_rename_moves_the_profile(before: StoreView, from: KeyView, to: KeyView, disk: RenameDisk, after: StoreView, r: Result<(), StoreError>)
    requires
        renamed(before, from, to, disk, after, r),
        r is Ok,
        from != to,
    ensures
        before.instances.dom().contains(from),
        after.instances.dom().contains(to),
        after.instances[to] == before.instances[from],
        !after.instances.dom().contains(from),
{
}

/// A value that was set is the value that is read, and no other profile changes.
pub proof fn law_set_value_is_read_back(before: StoreView, k: KeyView, option: Seq<char>, value: Seq<char>, base: Map<Seq<char>, Seq<char>>, written: bool, other: KeyView)
    ensures
        ({
            let i = materialized(before, k, base);
            let after = with_instance(
                before,
                k,
                InstanceView { values: i.values.insert(option, value), ..i },
                written,
            );
            &&& after.instances.dom().contains(k)
            &&& after.instances[k].values[option] == value
            &&& other != k && before.instances.dom().contains(other) ==> after.instances[other]
                == before.instances[other]
        }),
{
}

/// Turning the favorite mark twice leaves it as it was.
pub proof fn law_favorite_twice_is_no_change(before: StoreView, k: KeyView, base: Map<Seq<char>, Seq<char>>, written: bool)
    requires
        before.instances.dom().contains(k),
    ensures
        ({
            let i = materialized(before, k, base);
            let once = with_instance(
                before,
                k,
                InstanceView { favorite: !i.favorite, ..i },
                written,
            );
            let j = materialized(once, k, base);
            let twice = with_instance(
                once,
                k,
                InstanceView { favorite: !j.favorite, ..j },
                written,
            );
            twice.instances == before.instances
        }),
{
    let i = materialized(before, k, base);
    let once = with_instance(before, k, InstanceView { favorite: !i.favorite, ..i }, written);
    let j = materialized(once, k, base);
    let twice = with_instance(once, k, InstanceView { favorite: !j.favorite, ..j }, written);
    assert(twice.instances =~= before.instances);
}

/// The first change of a profile starts from the values that are shown; a profile that
/// was changed before goes on from its own.
pub proof fn law_first_changes_start_from_what_is_shown(store: StoreView, k: KeyView, base: Map<Seq<char>, Seq<char>>)
    ensures
        !store.instances.dom().contains(k) ==> materialized(store, k, base).values == base
            && !materialized(store, k, base).favorite && materialized(store, k, base).custom
            == !templates::builtin(templates_of(k.runtime), k.profile),
        store.instances.dom().contains(k) ==> materialized(store, k, base) == store.instances[k],
{
}

/// What could not be written to its own file is kept in the common one, and what was
/// written is not.
pub proof fn law_unwritten_changes_are_kept(store: StoreView, k: KeyView, i: InstanceView)
    ensures
        with_instance(store, k, i, false).fallback.contains(k),
        !with_instance(store, k, i, true).fallback.contains(k),
        with_instance(store, k, i, true).instances[k] == i,
        with_instance(store, k, i, false).instances[k] == i,
{
}

/// Giving a profile its own name changes nothing and succeeds; a name that is taken or a
/// profile that is not there is refused, and nothing changes either.
pub proof fn law_renamings_to_themselves_or_others(before: StoreView, from: KeyView, to: KeyView, disk: RenameDisk, after: StoreView, r: Result<(), StoreError>)
    requires
        renamed(before, from, to, disk, after, r),
    ensures
        from == to ==> after == before && r is Ok,
        from != to && before.instances.dom().contains(to) ==> after == before && r is Err
            && r->Err_0 is AlreadyExists,
        from != to && !before.instances.dom().contains(to) && !before.instances.dom().contains(from)
            ==> after == before && r is Err && r->Err_0 is NotFound,
        from != to && before.instances.dom().contains(from) && !before.instances.dom().contains(to)
            && disk.legacy is None && disk.delete.unlink is None && disk.delete.legacy is None
            ==> r is Ok,
{
}

} // verus!
