//! Profiles: named option values for a model, and how they are resolved.
//!
//! A runtime's options, its built-in profiles, the configuration and the kept
//! instances are layered into the lists that are shown. What differs between
//! runtimes comes from the backend.

pub mod fastflow;
pub mod keys;
pub mod registry;
pub mod resolution;
pub mod steps;
pub mod store;
pub mod sync;
pub mod templates;

use vstd::prelude::*;
use crate::config::Defaults;
use crate::domain::options::{lits, spec_views, FloatReading, OptionSpec, SpecView};
use crate::domain::{
    option_views, profile_views, Model, ModelView, OptionItem, OptionItemView, Profile,
    ProfileView,
};
use crate::order;
use crate::profiles::registry::{spec_at, spelled_omit, OptionSchema};
use crate::profiles::store::{favorite_in, key_view, InstanceView, ProfileStore, StoreView};
use crate::profiles::sync::custom_names;
use crate::profiles::templates::{names_of, overridden, template_views, Template};
use crate::runtime::RuntimeBackend;
use crate::table::TextMap;
use crate::text;
use crate::text::strs;

verus! {

// --- the list of profiles ----------------------------------------------------

/// Profiles of the given names, with their favorite marks.
pub open spec fn marked(names: Seq<Seq<char>>, builtin: bool, store: StoreView, runtime: Seq<char>, model: Seq<char>) -> Seq<ProfileView> {
    names.map_values(
        |n: Seq<char>|
            ProfileView {
                name: n,
                builtin,
                favorite: favorite_in(store, key_view(runtime, model, n)),
            },
    )
}

/// Whether a list of profiles is that of a model: the built-in ones in their
/// order, then the user's own by name.
pub open spec fn lists_profiles(list: Seq<ProfileView>, builtins: Seq<Seq<char>>, own: Seq<Seq<char>>, store: StoreView, runtime: Seq<char>, model: Seq<char>) -> bool {
    &&& order::rising(own)
    &&& own.to_set() == custom_names(store, runtime, model)
    &&& list == marked(builtins, true, store, runtime, model) + marked(
        own,
        false,
        store,
        runtime,
        model,
    )
}

/// The profiles of a model: the built-in ones, then the user's own.
pub fn list_profiles<B: RuntimeBackend>(backend: &B, model: &Model, store: &ProfileStore) -> (r: Vec<Profile>)
    requires
        store.wf(),
    ensures
        exists|own: Seq<Seq<char>>| #[trigger]
            lists_profiles(
                profile_views(r@),
                names_of(backend.template_table()),
                own,
                store@,
                backend.descriptor_view().name,
                model@.profile_key(),
            ),
{
    let descriptor = backend.descriptor();
    let runtime = descriptor.name.as_str();
    assert(runtime@ == descriptor@.name);
    let model_key = model.profile_key();
    let table = backend.templates();
    let names = templates::names(&table);
    let ghost builtins = names_of(backend.template_table());
    assert(lits(names@) == builtins);
    let mut out: Vec<Profile> = Vec::new();
    let mut i: usize = 0;
    while i < names.len()
        invariant
            i <= names.len(),
            store.wf(),
            lits(names@) == builtins,
            out.len() == i,
            forall|j: int|
                0 <= j < i ==> (#[trigger] out@[j])@ == marked(
                    builtins,
                    true,
                    store@,
                    runtime@,
                    model_key@,
                )[j],
        decreases names.len() - i,
    {
        assert(builtins[i as int] == names@[i as int]@);
        let favorite = store.is_favorite(runtime, model_key.as_str(), names[i]);
        out.push(Profile { name: text::copy(names[i]), builtin: true, favorite });
        i += 1;
    }
    assert(lits(names@).len() == names@.len());
    assert(profile_views(out@) =~= marked(builtins, true, store@, runtime@, model_key@));
    let custom = store.custom_profiles(runtime, model_key.as_str());
    let ghost own = strs(custom@);
    let ghost head = profile_views(out@);
    let ghost tail = marked(own, false, store@, runtime@, model_key@);
    let mut k: usize = 0;
    assert(profile_views(out@) =~= head + tail.take(0));
    while k < custom.len()
        invariant
            k <= custom.len(),
            store.wf(),
            own == strs(custom@),
            tail == marked(own, false, store@, runtime@, model_key@),
            profile_views(out@) == head + tail.take(k as int),
        decreases custom.len() - k,
    {
        assert(own[k as int] == custom@[k as int]@);
        let ghost before = profile_views(out@);
        let favorite = store.is_favorite(runtime, model_key.as_str(), custom[k].as_str());
        out.push(Profile { name: custom[k].clone(), builtin: false, favorite });
        assert(profile_views(out@) =~= before.push(tail[k as int]));
        assert(profile_views(out@) =~= head + tail.take(k + 1));
        k += 1;
    }
    assert(tail.take(k as int) =~= tail);
    assert(lists_profiles(profile_views(out@), builtins, own, store@, runtime@, model_key@));
    out
}

// --- resolving options -------------------------------------------------------

/// What a resolution starts from.
pub struct Layers {
    pub model: ModelView,
    pub profile: Seq<char>,
    pub store: StoreView,
    pub host: Seq<char>,
    pub port: u16,
}

/// The instance of the profile, if there is one.
pub open spec fn instance_in<B: RuntimeBackend>(backend: &B, l: Layers) -> Option<InstanceView> {
    let k = key_view(backend.descriptor_view().name, l.model.profile_key(), l.profile);
    if l.store.instances.dom().contains(k) {
        Some(l.store.instances[k])
    } else {
        None
    }
}

/// What the instance sets an option to, under its name or one of the past.
pub open spec fn instance_value<B: RuntimeBackend>(backend: &B, i: Option<InstanceView>, key: Seq<char>) -> Option<Seq<char>> {
    match i {
        None => None,
        Some(i) => if i.values.dom().contains(key) {
            Some(i.values[key])
        } else {
            backend.recovered(key, i.values)
        },
    }
}

/// What the built-in profile sets an option to, else the model's default.
pub open spec fn template_layer<B: RuntimeBackend>(backend: &B, spec: SpecView, l: Layers) -> Seq<char> {
    match overridden(backend.template_table(), l.profile, spec.key) {
        Some(v) => v,
        None => backend.default_for(spec, l.model, l.host, l.port),
    }
}

/// A value within what the model supports, in today's vocabulary.
pub open spec fn settled<B: RuntimeBackend>(backend: &B, key: Seq<char>, value: Seq<char>, model: ModelView) -> Seq<char> {
    backend.normalized(key, backend.clamped(key, value, model))
}

/// The value of an option before it is validated: what the instance sets, else
/// what the built-in profile sets, else the model's default.
pub open spec fn layered_value<B: RuntimeBackend>(backend: &B, spec: SpecView, l: Layers) -> Seq<char> {
    settled(
        backend,
        spec.key,
        match instance_value(backend, instance_in(backend, l), spec.key) {
            Some(v) => v,
            None => template_layer(backend, spec, l),
        },
        l.model,
    )
}

/// The value that a text stands for, or why it is not allowed: the value at which
/// the option is left off, or one of the option's kind for the model.
pub open spec fn valid_value<B: RuntimeBackend>(backend: &B, model: ModelView, spec: SpecView, value: Seq<char>, reading: FloatReading) -> Result<Seq<char>, Seq<char>> {
    match spelled_omit(backend.dialect(), spec.key, value) {
        Some(t) => Ok(t),
        None => backend.kind_for(spec, model).validated(value, reading),
    }
}

/// A resolved option. A value that is not allowed stays as it is, so that it can
/// be corrected.
pub open spec fn resolved_item<B: RuntimeBackend>(backend: &B, spec: SpecView, l: Layers, reading: FloatReading) -> OptionItemView {
    let raw = layered_value(backend, spec, l);
    OptionItemView {
        key: spec.key,
        value: match valid_value(backend, l.model, spec, raw, reading) {
            Ok(v) => v,
            Err(_) => raw,
        },
        default: backend.default_for(spec, l.model, l.host, l.port),
        range: backend.kind_for(spec, l.model).range_label(),
        cli: spec.cli,
        description: spec.description,
    }
}

/// The layers from their parts.
pub open spec fn layers(model: Model, profile: Seq<char>, store: StoreView, defaults: Defaults) -> Layers {
    Layers { model: model@, profile, store, host: defaults.host@, port: defaults.port }
}

/// The value of an option before it is validated.
fn layer_value<B: RuntimeBackend>(backend: &B, spec: &OptionSpec, model: &Model, profile: &str, store: &ProfileStore, defaults: &Defaults, table: &Vec<Template>) -> (r: String)
    requires
        store.wf(),
        template_views(table@) == backend.template_table(),
    ensures
        r@ == layered_value(backend, spec@, layers(*model, profile@, store@, *defaults)),
{
    let model_key = model.profile_key();
    let instance = store.get(
        backend.descriptor().name.as_str(),
        model_key.as_str(),
        profile,
    );
    let mut value: Option<String> = None;
    if let Some(i) = instance {
        value = match i.values.get(spec.key) {
            Some(v) => Some(v.clone()),
            None => backend.legacy_value(spec.key, &i.values),
        };
    }
    let chosen = match value {
        Some(v) => v,
        None => match templates::template_value(table, profile, spec.key) {
            Some(v) => v,
            None => backend.spec_default(spec, model, defaults),
        },
    };
    let clamped = backend.clamp_to_model(spec.key, chosen, model);
    backend.normalize_legacy(spec.key, clamped)
}

/// The values of all options before they are validated, in the order of the
/// schema: these are the texts whose floating-point readings a resolution takes.
pub fn layered_values<B: RuntimeBackend>(backend: &B, model: &Model, profile: &str, store: &ProfileStore, defaults: &Defaults) -> (r: Vec<String>)
    requires
        store.wf(),
    ensures
        strs(r@) == backend.dialect().table().map_values(
            |s: SpecView|
                layered_value(backend, s, layers(*model, profile@, store@, *defaults)),
        ),
{
    let schema = backend.schema();
    let table = backend.templates();
    let ghost all = backend.dialect().table();
    let ghost want = all.map_values(
        |s: SpecView| layered_value(backend, s, layers(*model, profile@, store@, *defaults)),
    );
    let mut out: Vec<String> = Vec::new();
    let mut i: usize = 0;
    while i < schema.specs.len()
        invariant
            i <= schema.specs.len(),
            store.wf(),
            template_views(table@) == backend.template_table(),
            spec_views(schema.specs@) == all,
            want == all.map_values(
                |s: SpecView|
                    layered_value(backend, s, layers(*model, profile@, store@, *defaults)),
            ),
            out.len() == i,
            forall|j: int| 0 <= j < i ==> (#[trigger] out@[j])@ == want[j],
        decreases schema.specs.len() - i,
    {
        assert(all[i as int] == schema.specs@[i as int]@);
        out.push(layer_value(backend, &schema.specs[i], model, profile, store, defaults, &table));
        i += 1;
    }
    assert(spec_views(schema.specs@).len() == schema.specs@.len());
    assert(strs(out@) =~= want);
    out
}

fn validate_value<B: RuntimeBackend>(backend: &B, schema: &OptionSchema, model: &Model, spec: &OptionSpec, value: &str, reading: FloatReading) -> (r: Result<String, String>)
    requires
        schema.dialect == backend.dialect(),
    ensures
        match (valid_value(backend, model@, spec@, value@, reading), r) {
            (Ok(v), Ok(s)) => s@ == v,
            (Err(e), Err(s)) => s@ == e,
            _ => false,
        },
{
    match schema.matching_omit_token(spec.key, value) {
        Some(t) => Ok(text::copy(t)),
        None => backend.effective_kind(spec, model).validate(value, reading),
    }
}

/// The reading of option `i`; a list that is too short reads everything as it
/// should be.
pub open spec fn reading_at(readings: Seq<FloatReading>, i: int) -> FloatReading {
    if 0 <= i < readings.len() {
        readings[i]
    } else {
        FloatReading::Within
    }
}

fn get_reading(readings: &Vec<FloatReading>, i: usize) -> (r: FloatReading)
    ensures
        r == reading_at(readings@, i as int),
{
    if i < readings.len() {
        readings[i]
    } else {
        FloatReading::Within
    }
}

/// The resolved options of a profile.
pub open spec fn resolved_items<B: RuntimeBackend>(backend: &B, l: Layers, readings: Seq<FloatReading>) -> Seq<OptionItemView> {
    Seq::new(
        backend.dialect().table().len(),
        |i: int| resolved_item(backend, backend.dialect().table()[i], l, reading_at(readings, i)),
    )
}

/// The options of a profile with their values. `readings` says of each layered
/// value how it compares as a floating-point number.
pub fn resolve_options<B: RuntimeBackend>(backend: &B, model: &Model, profile: &Profile, store: &ProfileStore, defaults: &Defaults, readings: &Vec<FloatReading>) -> (r: Vec<OptionItem>)
    requires
        store.wf(),
    ensures
        option_views(r@) == resolved_items(
            backend,
            layers(*model, profile.name@, store@, *defaults),
            readings@,
        ),
{
    let schema = backend.schema();
    let table = backend.templates();
    let name = profile.name.as_str();
    let ghost l = layers(*model, profile.name@, store@, *defaults);
    let ghost all = backend.dialect().table();
    let ghost want = resolved_items(backend, l, readings@);
    let mut out: Vec<OptionItem> = Vec::new();
    let mut i: usize = 0;
    while i < schema.specs.len()
        invariant
            i <= schema.specs.len(),
            store.wf(),
            name@ == profile.name@,
            schema.dialect == backend.dialect(),
            template_views(table@) == backend.template_table(),
            all == backend.dialect().table(),
            spec_views(schema.specs@) == all,
            l == layers(*model, profile.name@, store@, *defaults),
            want == resolved_items(backend, l, readings@),
            out.len() == i,
            forall|j: int| 0 <= j < i ==> (#[trigger] out@[j])@ == want[j],
        decreases schema.specs.len() - i,
    {
        let spec = &schema.specs[i];
        assert(all[i as int] == spec@);
        let raw = layer_value(backend, spec, model, name, store, defaults, &table);
        let reading = get_reading(readings, i);
        let value = match validate_value(backend, &schema, model, spec, raw.as_str(), reading) {
            Ok(v) => v,
            Err(_) => raw,
        };
        let item = OptionItem {
            key: text::copy(spec.key),
            value,
            default: backend.spec_default(spec, model, defaults),
            range: backend.effective_kind(spec, model).range_label(),
            cli: text::copy(spec.cli),
            description: text::copy(spec.description),
        };
        assert(item@ == resolved_item(backend, spec@, l, reading));
        out.push(item);
        i += 1;
    }
    assert(spec_views(schema.specs@).len() == schema.specs@.len());
    assert(option_views(out@) =~= want);
    out
}

/// Why one option cannot be launched with.
pub open spec fn option_fault<B: RuntimeBackend>(backend: &B, model: ModelView, o: OptionItemView, reading: FloatReading) -> Option<Seq<char>> {
    match spec_at(backend.dialect().table(), o.key) {
        None => Some("unknown option: "@ + o.key),
        Some(spec) => match valid_value(backend, model, spec, o.value, reading) {
            Ok(_) => None,
            Err(e) => Some(o.key + ": "@ + e),
        },
    }
}

/// Why options cannot be launched with: the fault of the first that has one, from
/// `from` on.
pub open spec fn first_fault<B: RuntimeBackend>(backend: &B, model: ModelView, options: Seq<OptionItemView>, readings: Seq<FloatReading>, from: int) -> Option<Seq<char>>
    decreases options.len() - from,
{
    if from < 0 || from >= options.len() {
        None
    } else {
        match option_fault(backend, model, options[from], reading_at(readings, from)) {
            Some(e) => Some(e),
            None => first_fault(backend, model, options, readings, from + 1),
        }
    }
}

/// Whether options can be launched with. A value that is not allowed stays visible
/// for correction; here it stops the launch. `readings` says of each value how it
/// compares as a floating-point number.
pub fn validate_options<B: RuntimeBackend>(backend: &B, model: &Model, options: &Vec<OptionItem>, readings: &Vec<FloatReading>) -> (r: Result<(), String>)
    ensures
        match r {
            Ok(_) => first_fault(backend, model@, option_views(options@), readings@, 0) is None,
            Err(e) => first_fault(backend, model@, option_views(options@), readings@, 0) == Some(
                e@,
            ),
        },
{
    let schema = backend.schema();
    let ghost all = option_views(options@);
    let mut i: usize = 0;
    while i < options.len()
        invariant
            i <= options.len(),
            all == option_views(options@),
            schema.dialect == backend.dialect(),
            spec_views(schema.specs@) == backend.dialect().table(),
            first_fault(backend, model@, all, readings@, 0) == first_fault(
                backend,
                model@,
                all,
                readings@,
                i as int,
            ),
        decreases options.len() - i,
    {
        let o = &options[i];
        assert(all[i as int] == o@);
        match schema.spec(o.key.as_str()) {
            None => return Err(text::cat("unknown option: ", o.key.as_str())),
            Some(spec) => {
                let reading = get_reading(readings, i);
                if let Err(e) = validate_value(
                    backend,
                    &schema,
                    model,
                    spec,
                    o.value.as_str(),
                    reading,
                ) {
                    return Err(text::cat3(o.key.as_str(), ": ", e.as_str()));
                }
            },
        }
        i += 1;
    }
    Ok(())
}

// --- values by key -----------------------------------------------------------

/// The values of the first `n` options by key.
pub open spec fn values_upto(options: Seq<OptionItemView>, n: nat) -> Map<Seq<char>, Seq<char>>
    decreases n,
{
    if n == 0 {
        Map::<Seq<char>, Seq<char>>::empty()
    } else {
        values_upto(options, (n - 1) as nat).insert(options[n - 1].key, options[n - 1].value)
    }
}

/// The values of a profile as they are shown, its instance with them.
pub fn current_values<B: RuntimeBackend>(backend: &B, model: &Model, profile: &Profile, store: &ProfileStore, defaults: &Defaults, readings: &Vec<FloatReading>) -> (r: TextMap)
    requires
        store.wf(),
    ensures
        r.wf(),
        r@ == ({
            let items = resolved_items(
                backend,
                layers(*model, profile.name@, store@, *defaults),
                readings@,
            );
            values_upto(items, items.len())
        }),
{
    let options = resolve_options(backend, model, profile, store, defaults, readings);
    let ghost all = option_views(options@);
    assert(all.len() == options@.len());
    let mut out = TextMap::new();
    let mut i: usize = 0;
    while i < options.len()
        invariant
            i <= options.len(),
            all == option_views(options@),
            out.wf(),
            out@ == values_upto(all, i as nat),
        decreases options.len() - i,
    {
        assert(all[i as int] == options@[i as int]@);
        out.insert(options[i].key.as_str(), options[i].value.clone());
        i += 1;
    }
    out
}

/// What a profile sets without an instance, for the first `n` options.
pub open spec fn base_upto<B: RuntimeBackend>(backend: &B, l: Layers, n: nat) -> Map<Seq<char>, Seq<char>>
    decreases n,
{
    if n == 0 {
        Map::<Seq<char>, Seq<char>>::empty()
    } else {
        let spec = backend.dialect().table()[n - 1];
        base_upto(backend, l, (n - 1) as nat).insert(
            spec.key,
            settled(backend, spec.key, template_layer(backend, spec, l), l.model),
        )
    }
}

/// What a profile sets without an instance: what the first change of it starts
/// from, so that nothing else shifts.
pub fn resolved_values<B: RuntimeBackend>(backend: &B, profile: &Profile, model: &Model, defaults: &Defaults) -> (r: TextMap)
    ensures
        r.wf(),
        forall|store: StoreView| #[trigger]
            base_upto(
                backend,
                layers(*model, profile.name@, store, *defaults),
                backend.dialect().table().len(),
            ) == r@,
{
    let schema = backend.schema();
    let table = backend.templates();
    let ghost all = backend.dialect().table();
    assert(spec_views(schema.specs@).len() == schema.specs@.len());
    let mut out = TextMap::new();
    let mut i: usize = 0;
    while i < schema.specs.len()
        invariant
            i <= schema.specs.len(),
            template_views(table@) == backend.template_table(),
            all == backend.dialect().table(),
            spec_views(schema.specs@) == all,
            out.wf(),
            forall|store: StoreView| #[trigger]
                base_upto(
                    backend,
                    layers(*model, profile.name@, store, *defaults),
                    i as nat,
                ) == out@,
        decreases schema.specs.len() - i,
    {
        let spec = &schema.specs[i];
        assert(all[i as int] == spec@);
        let chosen = match templates::template_value(&table, profile.name.as_str(), spec.key) {
            Some(v) => v,
            None => backend.spec_default(spec, model, defaults),
        };
        let clamped = backend.clamp_to_model(spec.key, chosen, model);
        let ghost before = out@;
        out.insert(spec.key, backend.normalize_legacy(spec.key, clamped));
        assert forall|store: StoreView| #[trigger]
            base_upto(
                backend,
                layers(*model, profile.name@, store, *defaults),
                (i + 1) as nat,
            ) == out@ by {
            let l = layers(*model, profile.name@, store, *defaults);
            assert(base_upto(backend, l, i as nat) == before);
        }
        i += 1;
    }
    out
}

// --- what holds of resolutions -----------------------------------------------

/// A profile without an instance shows exactly the values that its first change
/// starts from: no option that was not changed shifts.
pub proof fn law_first_edit_shifts_nothing<B: RuntimeBackend>(backend: &B, spec: SpecView, l: Layers)
    requires
        instance_in(backend, l) is None,
    ensures
        layered_value(backend, spec, l) == settled(
            backend,
            spec.key,
            template_layer(backend, spec, l),
            l.model,
        ),
{
}

/// A value that an instance sets comes before the built-in profile and the
/// default, whatever they are.
pub proof fn law_instance_comes_first<B: RuntimeBackend>(backend: &B, spec: SpecView, l: Layers)
    requires
        instance_in(backend, l) is Some,
        instance_in(backend, l)->0.values.dom().contains(spec.key),
    ensures
        layered_value(backend, spec, l) == settled(
            backend,
            spec.key,
            instance_in(backend, l)->0.values[spec.key],
            l.model,
        ),
{
}

/// A value that is not allowed is shown as it was saved, and stops a launch.
pub proof fn law_invalid_values_stay_and_stop<B: RuntimeBackend>(backend: &B, spec: SpecView, l: Layers, reading: FloatReading)
    requires
        valid_value(backend, l.model, spec, layered_value(backend, spec, l), reading) is Err,
        spec_at(backend.dialect().table(), spec.key) == Some(spec),
    ensures
        resolved_item(backend, spec, l, reading).value == layered_value(backend, spec, l),
        option_fault(backend, l.model, resolved_item(backend, spec, l, reading), reading) is Some,
{
}

/// A model's profiles are the built-in ones in their order and then the user's own; each
/// has the mark that the store has for it.
pub proof fn law_builtin_profiles_are_listed_first(list: Seq<ProfileView>, builtins: Seq<Seq<char>>, own: Seq<Seq<char>>, store: StoreView, runtime: Seq<char>, model: Seq<char>, i: int, name: Seq<char>)
    requires
        lists_profiles(list, builtins, own, store, runtime, model),
    ensures
        0 <= i < builtins.len() ==> list[i].name == builtins[i] && list[i].builtin,
        builtins.len() <= i < list.len() ==> !list[i].builtin && store.instances.dom().contains(
            key_view(runtime, model, list[i].name),
        ) && store.instances[key_view(runtime, model, list[i].name)].custom,
        0 <= i < list.len() ==> list[i].favorite == favorite_in(
            store,
            key_view(runtime, model, list[i].name),
        ),
        store.instances.dom().contains(key_view(runtime, model, name)) && store.instances[key_view(
            runtime,
            model,
            name,
        )].custom ==> exists|k: int|
            builtins.len() <= k < list.len() && (#[trigger] list[k]).name == name,
{
    if builtins.len() <= i < list.len() {
        let n = own[i - builtins.len()];
        assert(list[i].name == n);
        assert(own.contains(n));
        assert(own.to_set().contains(n));
        assert(custom_names(store, runtime, model).contains(n));
    }
    if store.instances.dom().contains(key_view(runtime, model, name)) && store.instances[key_view(
        runtime,
        model,
        name,
    )].custom {
        assert(custom_names(store, runtime, model).contains(name));
        assert(own.to_set().contains(name));
        let k = choose|k: int| 0 <= k < own.len() && own[k] == name;
        assert(list[builtins.len() + k].name == name);
    }
}

/// Options can be launched with exactly where none of them has a fault.
pub proof fn law_one_fault_stops_a_launch<B: RuntimeBackend>(backend: &B, model: ModelView, options: Seq<OptionItemView>, readings: Seq<FloatReading>, from: int)
    requires
        0 <= from <= options.len(),
    ensures
        first_fault(backend, model, options, readings, from) is None <==> forall|i: int|
            from <= i < options.len() ==> option_fault(
                backend,
                model,
                #[trigger] options[i],
                reading_at(readings, i),
            ) is None,
    decreases options.len() - from,
{
    if from < options.len() {
        law_one_fault_stops_a_launch(backend, model, options, readings, from + 1);
        if option_fault(backend, model, options[from], reading_at(readings, from)) is Some {
            assert(option_fault(backend, model, options[from], reading_at(readings, from)) is Some);
        }
    }
}

/// The values of a profile are those that its options show.
pub proof fn law_values_are_what_is_shown(options: Seq<OptionItemView>, n: nat, i: int)
    requires
        n <= options.len(),
        0 <= i < n,
        forall|a: int, b: int|
            0 <= a < b < n ==> (#[trigger] options[a]).key != (#[trigger] options[b]).key,
    ensures
        values_upto(options, n).dom().contains(options[i].key),
        values_upto(options, n)[options[i].key] == options[i].value,
    decreases n,
{
    if i < n - 1 {
        law_values_are_what_is_shown(options, (n - 1) as nat, i);
        assert(options[i].key != options[n - 1].key);
    }
}

/// A resolved option has the key and the flag of its place in the schema, and all of the
/// options are there.
pub proof fn law_every_option_is_resolved<B: RuntimeBackend>(backend: &B, l: Layers, readings: Seq<FloatReading>, i: int)
    requires
        0 <= i < backend.dialect().table().len(),
    ensures
        resolved_items(backend, l, readings).len() == backend.dialect().table().len(),
        resolved_items(backend, l, readings)[i].key == backend.dialect().table()[i].key,
        resolved_items(backend, l, readings)[i].cli == backend.dialect().table()[i].cli,
        resolved_items(backend, l, readings)[i].default == backend.default_for(
            backend.dialect().table()[i],
            l.model,
            l.host,
            l.port,
        ),
{
}

} // verus!
