//! Editing the profiles of the selected model. An edit changes the store and names
//! the instance that it changed, which counts as written until its file is known
//! not to be.

use vstd::prelude::*;
use crate::app::browser::{BrowserState, BrowserView};
use crate::app::editor::{name_fault, name_taken, validate_new_name};
use crate::app::panes::Pane;
use crate::config::Defaults;
use crate::domain::options::{FloatReading, SpecView};
use crate::domain::{ModelView, OptionItemView, Profile};
use crate::profiles;
use crate::profiles::store::{
    key, key_view, materialized, with_instance, without_instance, InstanceView, Key, KeyView,
    ProfileStore, StoreView,
};
use crate::profiles::{
    base_upto, instance_in, layered_value, layers, resolved_items, settled, template_layer,
    templates, values_upto, Layers,
};
use crate::runtime::backend::Backend;
use crate::runtime::RuntimeBackend;
use crate::text;

verus! {

/// Where the instance of a profile of the selected model is kept.
pub open spec fn instance_at(b: BrowserView, profile: Seq<char>) -> Option<KeyView> {
    match (b.runtimes.chosen(), b.model()) {
        (Some(backend), Some(m)) => Some(
            key_view(backend.descriptor_view().name, m.profile_key(), profile),
        ),
        _ => None,
    }
}

/// Where the instance of the selected profile is kept.
pub open spec fn selected_instance(b: BrowserView) -> Option<KeyView> {
    match b.profiles.chosen() {
        Some(p) => instance_at(b, p.name),
        None => None,
    }
}

/// The layers under a profile of the selected model.
pub open spec fn layers_of(b: BrowserView, profile: Seq<char>, store: StoreView, defaults: Defaults) -> Layers {
    Layers {
        model: b.model()->0,
        profile,
        store,
        host: defaults.host@,
        port: defaults.port,
    }
}

/// What a profile of the selected model sets without an instance.
pub open spec fn base_at(b: BrowserView, profile: Seq<char>, store: StoreView, defaults: Defaults) -> Map<Seq<char>, Seq<char>> {
    let backend = b.runtimes.chosen()->0;
    base_upto(
        &backend,
        layers_of(b, profile, store, defaults),
        backend.dialect().table().len(),
    )
}

/// What a profile of the selected model sets, its instance with it.
pub open spec fn values_at(b: BrowserView, profile: Seq<char>, store: StoreView, defaults: Defaults, readings: Seq<FloatReading>) -> Map<Seq<char>, Seq<char>> {
    let backend = b.runtimes.chosen()->0;
    let items = resolved_items(&backend, layers_of(b, profile, store, defaults), readings);
    values_upto(items, items.len())
}

/// The instance of a profile, or what the first edit of it starts from.
pub open spec fn instance_before(b: BrowserView, store: StoreView, defaults: Defaults) -> InstanceView {
    materialized(
        store,
        selected_instance(b)->0,
        base_at(b, b.profiles.chosen()->0.name, store, defaults),
    )
}

/// The store once an option of the selected profile has a value.
pub open spec fn with_option(b: BrowserView, store: StoreView, defaults: Defaults, option: Seq<char>, value: Seq<char>) -> StoreView {
    let i = instance_before(b, store, defaults);
    with_instance(
        store,
        selected_instance(b)->0,
        InstanceView { values: i.values.insert(option, value), ..i },
        true,
    )
}

/// The store once the favorite mark of the selected profile is turned.
pub open spec fn with_mark_turned(b: BrowserView, store: StoreView, defaults: Defaults) -> StoreView {
    let i = instance_before(b, store, defaults);
    with_instance(
        store,
        selected_instance(b)->0,
        InstanceView { favorite: !i.favorite, ..i },
        true,
    )
}

/// The store with a profile of the user's own.
pub open spec fn with_own(b: BrowserView, store: StoreView, name: Seq<char>, values: Map<Seq<char>, Seq<char>>) -> StoreView {
    with_instance(
        store,
        instance_at(b, name)->0,
        InstanceView { values, favorite: false, custom: true },
        true,
    )
}

/// Why no profile of a name can be made.
pub open spec fn creation_fault(b: BrowserView, name: Seq<char>) -> Option<Seq<char>> {
    match name_fault(b.profiles.items, name) {
        Some(e) => Some(e),
        None => if instance_at(b, name) is None {
            Some("no model selected"@)
        } else {
            None
        },
    }
}

/// The view of an optional key.
pub open spec fn opt_key(o: Option<Key>) -> Option<KeyView> {
    match o {
        Some(k) => Some(k@),
        None => None,
    }
}

impl BrowserState {
    /// The names by which the profiles of the selected model are kept.
    pub fn current_runtime_model(&self) -> (r: Option<(String, String)>)
        ensures
            match r {
                Some(p) => forall|profile: Seq<char>| #[trigger]
                    instance_at(self@, profile) == Some(key_view(p.0@, p.1@, profile)),
                None => forall|profile: Seq<char>| #[trigger] instance_at(self@, profile) is None,
            },
    {
        match (self.runtimes.selected(), self.selected_model()) {
            (Some(backend), Some(m)) => {
                assert(self@.runtimes.chosen() == Some(*backend));
                assert(self@.model() == Some(m@));
                let d = backend.descriptor();
                assert(d.name@ == d@.name);
                Some((d.name.clone(), m.profile_key()))
            },
            _ => None,
        }
    }

    /// Gives an option of the selected profile a value.
    pub fn apply_option_value(&self, store: &mut ProfileStore, defaults: &Defaults, option: &str, value: String) -> (r: Option<Key>)
        requires
            old(store).wf(),
        ensures
            final(store).wf(),
            opt_key(r) == selected_instance(self@),
            final(store)@ == (if selected_instance(self@) is Some {
                with_option(self@, old(store)@, *defaults, option@, value@)
            } else {
                old(store)@
            }),
    {
        assert(self@.profiles.items.len() == self.profiles.items@.len());
        match (self.runtimes.selected(), self.selected_model(), self.profiles.selected()) {
            (Some(backend), Some(m), Some(p)) => {
                assert(self@.runtimes.chosen() == Some(*backend));
                assert(self@.model() == Some(m@));
                assert(self@.profiles.chosen() == Some(p@));
                let d = backend.descriptor();
                assert(d.name@ == d@.name);
                let model = m.profile_key();
                let base = profiles::resolved_values(backend, p, m, defaults);
                assert(layers(*m, p.name@, old(store)@, *defaults) == layers_of(
                    self@,
                    p.name@,
                    old(store)@,
                    *defaults,
                ));
                assert(base@ == base_at(self@, p.name@, old(store)@, *defaults));
                store.set_value(
                    d.name.as_str(),
                    model.as_str(),
                    p.name.as_str(),
                    option,
                    value,
                    &base,
                    true,
                );
                Some(key(d.name.as_str(), model.as_str(), p.name.as_str()))
            },
            _ => None,
        }
    }

    /// Turns the favorite mark of the selected profile.
    pub fn toggle_favorite(&self, store: &mut ProfileStore, defaults: &Defaults) -> (r: Option<Key>)
        requires
            old(store).wf(),
        ensures
            final(store).wf(),
            opt_key(r) == (if self@.focus == Pane::Profile {
                selected_instance(self@)
            } else {
                None
            }),
            final(store)@ == (if self@.focus == Pane::Profile && selected_instance(self@) is Some {
                with_mark_turned(self@, old(store)@, *defaults)
            } else {
                old(store)@
            }),
    {
        assert(self@.profiles.items.len() == self.profiles.items@.len());
        if self.focus != Pane::Profile {
            return None;
        }
        match (self.runtimes.selected(), self.selected_model(), self.profiles.selected()) {
            (Some(backend), Some(m), Some(p)) => {
                assert(self@.runtimes.chosen() == Some(*backend));
                assert(self@.model() == Some(m@));
                assert(self@.profiles.chosen() == Some(p@));
                let d = backend.descriptor();
                assert(d.name@ == d@.name);
                let model = m.profile_key();
                let base = profiles::resolved_values(backend, p, m, defaults);
                assert(layers(*m, p.name@, old(store)@, *defaults) == layers_of(
                    self@,
                    p.name@,
                    old(store)@,
                    *defaults,
                ));
                assert(base@ == base_at(self@, p.name@, old(store)@, *defaults));
                store.toggle_favorite(
                    d.name.as_str(),
                    model.as_str(),
                    p.name.as_str(),
                    &base,
                    true,
                );
                Some(key(d.name.as_str(), model.as_str(), p.name.as_str()))
            },
            _ => None,
        }
    }

    /// Makes a profile of the user's own, with what the default profile sets.
    pub fn commit_new_profile(&self, store: &mut ProfileStore, defaults: &Defaults, name: &str) -> (r: Result<Key, String>)
        requires
            old(store).wf(),
        ensures
            final(store).wf(),
            match (creation_fault(self@, name@), r) {
                (None, Ok(k)) => Some(k@) == instance_at(self@, name@) && final(store)@ == with_own(
                    self@,
                    old(store)@,
                    name@,
                    base_at(self@, "Default"@, old(store)@, *defaults),
                ),
                (Some(e), Err(s)) => s@ == e && final(store)@ == old(store)@,
                _ => false,
            },
    {
        if let Err(e) = validate_new_name(&self.profiles.items, name) {
            return Err(e);
        }
        match (self.runtimes.selected(), self.selected_model()) {
            (Some(backend), Some(m)) => {
                assert(self@.runtimes.chosen() == Some(*backend));
                assert(self@.model() == Some(m@));
                let d = backend.descriptor();
                assert(d.name@ == d@.name);
                let model = m.profile_key();
                let default = Profile {
                    name: text::copy("Default"),
                    builtin: true,
                    favorite: false,
                };
                let values = profiles::resolved_values(backend, &default, m, defaults);
                assert(layers(*m, "Default"@, old(store)@, *defaults) == layers_of(
                    self@,
                    "Default"@,
                    old(store)@,
                    *defaults,
                ));
                assert(values@ == base_at(self@, "Default"@, old(store)@, *defaults));
                store.create(d.name.as_str(), model.as_str(), name, values, true, true);
                Ok(key(d.name.as_str(), model.as_str(), name))
            },
            _ => Err(text::copy("no model selected")),
        }
    }

    /// Makes a profile of the user's own, with what another one sets now.
    /// `readings` says of each of its values how it compares as a number.
    pub fn commit_duplicate_profile(&self, store: &mut ProfileStore, defaults: &Defaults, src: &str, name: &str, readings: &Vec<FloatReading>) -> (r: Result<Key, String>)
        requires
            old(store).wf(),
        ensures
            final(store).wf(),
            match (creation_fault(self@, name@), r) {
                (None, Ok(k)) => Some(k@) == instance_at(self@, name@) && final(store)@ == with_own(
                    self@,
                    old(store)@,
                    name@,
                    values_at(self@, src@, old(store)@, *defaults, readings@),
                ),
                (Some(e), Err(s)) => s@ == e && final(store)@ == old(store)@,
                _ => false,
            },
    {
        if let Err(e) = validate_new_name(&self.profiles.items, name) {
            return Err(e);
        }
        match (self.runtimes.selected(), self.selected_model()) {
            (Some(backend), Some(m)) => {
                assert(self@.runtimes.chosen() == Some(*backend));
                assert(self@.model() == Some(m@));
                let d = backend.descriptor();
                assert(d.name@ == d@.name);
                let model = m.profile_key();
                let source = Profile {
                    name: text::copy(src),
                    builtin: templates::is_builtin(&backend.templates(), src),
                    favorite: false,
                };
                let values = profiles::current_values(
                    backend,
                    m,
                    &source,
                    store,
                    defaults,
                    readings,
                );
                assert(layers(*m, src@, old(store)@, *defaults) == layers_of(
                    self@,
                    src@,
                    old(store)@,
                    *defaults,
                ));
                store.create(d.name.as_str(), model.as_str(), name, values, true, true);
                Ok(key(d.name.as_str(), model.as_str(), name))
            },
            _ => Err(text::copy("no model selected")),
        }
    }

    /// The instance that deleting the selected profile removes: a profile of the
    /// user's own goes with it, a built-in one is back to what it sets.
    pub fn delete_profile(&self) -> (r: Option<Key>)
        ensures
            opt_key(r) == (if self@.focus == Pane::Profile {
                selected_instance(self@)
            } else {
                None
            }),
    {
        assert(self@.profiles.items.len() == self.profiles.items@.len());
        if self.focus != Pane::Profile {
            return None;
        }
        match (self.current_runtime_model(), self.profiles.selected()) {
            (Some((runtime, model)), Some(p)) => {
                assert(self@.profiles.chosen() == Some(p@));
                assert(instance_at(self@, p.name@) is Some);
                Some(key(runtime.as_str(), model.as_str(), p.name.as_str()))
            },
            (None, Some(p)) => {
                assert(self@.profiles.chosen() == Some(p@));
                assert(instance_at(self@, p.name@) is None);
                None
            },
            _ => None,
        }
    }
}

// --- laws --------------------------------------------------------------------

/// An edit reaches the instance that it names, and no other.
pub proof fn law_edits_reach_one_instance(b: BrowserView, store: StoreView, defaults: Defaults, option: Seq<char>, value: Seq<char>, other: KeyView)
    requires
        selected_instance(b) is Some,
        other != selected_instance(b)->0,
    ensures
        ({
            let set = with_option(b, store, defaults, option, value);
            let turned = with_mark_turned(b, store, defaults);
            &&& set.instances.contains_key(other) == store.instances.contains_key(other)
            &&& turned.instances.contains_key(other) == store.instances.contains_key(other)
            &&& store.instances.contains_key(other) ==> set.instances[other]
                == store.instances[other] && turned.instances[other] == store.instances[other]
        }),
{
}

/// A value that was set is the one that is kept, and every other option of the
/// profile keeps what it had.
pub proof fn law_set_values_are_kept(b: BrowserView, store: StoreView, defaults: Defaults, option: Seq<char>, value: Seq<char>)
    requires
        selected_instance(b) is Some,
    ensures
        ({
            let k = selected_instance(b)->0;
            let before = instance_before(b, store, defaults);
            let after = with_option(b, store, defaults, option, value).instances[k];
            &&& after.values[option] == value
            &&& after.values.dom() == before.values.dom().insert(option)
            &&& forall|o: Seq<char>|
                o != option && #[trigger] before.values.contains_key(o) ==> after.values[o]
                    == before.values[o]
            &&& after.favorite == before.favorite && after.custom == before.custom
        }),
{
}

/// Turning the mark of a profile twice leaves its instance as the first edit of it
/// would have started.
pub proof fn law_turning_twice_restores(b: BrowserView, store: StoreView, defaults: Defaults)
    requires
        selected_instance(b) is Some,
    ensures
        ({
            let k = selected_instance(b)->0;
            let once = with_mark_turned(b, store, defaults);
            with_mark_turned(b, once, defaults).instances[k] == instance_before(b, store, defaults)
        }),
{
    let k = selected_instance(b)->0;
    let once = with_mark_turned(b, store, defaults);
    assert(once.instances.contains_key(k));
}

proof fn lemma_base_at<B: RuntimeBackend>(backend: &B, l: Layers, n: nat, i: int)
    requires
        0 <= i < n <= backend.dialect().table().len(),
        forall|j: int|
            i < j < n ==> (#[trigger] backend.dialect().table()[j]).key
                != backend.dialect().table()[i].key,
    ensures
        base_upto(backend, l, n).contains_key(backend.dialect().table()[i].key),
        base_upto(backend, l, n)[backend.dialect().table()[i].key] == settled(
            backend,
            backend.dialect().table()[i].key,
            template_layer(backend, backend.dialect().table()[i], l),
            l.model,
        ),
    decreases n,
{
    if i < n - 1 {
        assert(backend.dialect().table()[n - 1].key != backend.dialect().table()[i].key);
        lemma_base_at(backend, l, (n - 1) as nat, i);
    }
}

/// The first edit of a profile changes the edited option alone: every other option is
/// kept at the value that it had before, as the profile was resolved.
pub proof fn law_a_first_edit_keeps_the_rest(b: BrowserView, store: StoreView, defaults: Defaults, option: Seq<char>, value: Seq<char>, i: int)
    requires
        selected_instance(b) is Some,
        !store.instances.contains_key(selected_instance(b)->0),
        0 <= i < b.runtimes.chosen()->0.dialect().table().len(),
        b.runtimes.chosen()->0.dialect().table()[i].key != option,
        forall|j: int|
            i < j < b.runtimes.chosen()->0.dialect().table().len() ==> (
            #[trigger] b.runtimes.chosen()->0.dialect().table()[j]).key
                != b.runtimes.chosen()->0.dialect().table()[i].key,
    ensures
        ({
            let backend = b.runtimes.chosen()->0;
            let spec = backend.dialect().table()[i];
            let profile = b.profiles.chosen()->0.name;
            let after = with_option(b, store, defaults, option, value).instances[selected_instance(
                b,
            )->0];
            &&& after.values.contains_key(spec.key)
            &&& after.values[spec.key] == layered_value(
                &backend,
                spec,
                layers_of(b, profile, store, defaults),
            )
            &&& after.values[option] == value
        }),
{
    let backend = b.runtimes.chosen()->0;
    let profile = b.profiles.chosen()->0.name;
    let l = layers_of(b, profile, store, defaults);
    let k = selected_instance(b)->0;
    assert(instance_in(&backend, l) is None);
    lemma_base_at(&backend, l, backend.dialect().table().len(), i);
}

/// Profiles are kept by runtime, model and name: the same profile of another model, or
/// another profile of the same one, is another instance.
pub proof fn law_profiles_are_kept_by_model(b: BrowserView, backend: Backend, m: ModelView, profile: Seq<char>, other: Seq<char>)
    requires
        b.runtimes.chosen() == Some(backend),
        b.model() == Some(m),
    ensures
        instance_at(b, profile) == Some(
            KeyView { runtime: backend.descriptor_view().name, model: m.profile_key(), profile },
        ),
        profile != other ==> instance_at(b, profile) != instance_at(b, other),
        b.profiles.chosen() is Some ==> selected_instance(b) == instance_at(
            b,
            b.profiles.chosen()->0.name,
        ),
{
}

proof fn lemma_values_at(items: Seq<OptionItemView>, n: nat, i: int)
    requires
        0 <= i < n <= items.len(),
        forall|j: int| i < j < n ==> (#[trigger] items[j]).key != items[i].key,
    ensures
        values_upto(items, n).contains_key(items[i].key),
        values_upto(items, n)[items[i].key] == items[i].value,
    decreases n,
{
    if i < n - 1 {
        assert(items[n - 1].key != items[i].key);
        lemma_values_at(items, (n - 1) as nat, i);
    }
}

/// A copy of a profile is the user's own and has the values that the original shows.
pub proof fn law_a_copy_has_the_shown_values(b: BrowserView, store: StoreView, defaults: Defaults, src: Seq<char>, name: Seq<char>, readings: Seq<FloatReading>, i: int)
    requires
        instance_at(b, name) is Some,
        ({
            let backend = b.runtimes.chosen()->0;
            let items = resolved_items(&backend, layers_of(b, src, store, defaults), readings);
            0 <= i < items.len() && forall|j: int|
                i < j < items.len() ==> (#[trigger] items[j]).key != items[i].key
        }),
    ensures
        ({
            let backend = b.runtimes.chosen()->0;
            let items = resolved_items(&backend, layers_of(b, src, store, defaults), readings);
            let after = with_own(
                b,
                store,
                name,
                values_at(b, src, store, defaults, readings),
            ).instances[instance_at(b, name)->0];
            &&& after.values[items[i].key] == items[i].value
            &&& after.custom
            &&& !after.favorite
        }),
{
    let backend = b.runtimes.chosen()->0;
    let items = resolved_items(&backend, layers_of(b, src, store, defaults), readings);
    lemma_values_at(items, items.len(), i);
}

/// Without its instance a built-in profile is back to what it sets by itself, whatever
/// was saved before.
pub proof fn law_deleting_resets<B: RuntimeBackend>(backend: &B, l: Layers, spec: SpecView)
    ensures
        ({
            let k = key_view(backend.descriptor_view().name, l.model.profile_key(), l.profile);
            let reset = Layers { store: without_instance(l.store, k), ..l };
            layered_value(backend, spec, reset) == settled(
                backend,
                spec.key,
                template_layer(backend, spec, l),
                l.model,
            )
        }),
{
}

/// A profile can be made under a free name for a selected model, and only there.
pub proof fn law_profiles_are_made_for_a_model(b: BrowserView, name: Seq<char>)
    ensures
        creation_fault(b, name) is None <==> name.len() > 0 && !name_taken(b.profiles.items, name)
            && b.runtimes.chosen() is Some && b.model() is Some,
{
}

} // verus!
