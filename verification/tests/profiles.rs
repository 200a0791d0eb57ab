use llmctl::app::editor::{
    adjust_option, commit_option_edit, commit_rename_profile, open_editor,
    prompt_duplicate_profile, prompt_new_profile, prompt_rename_profile, reset_option_default,
    set_option_extreme, Editor, Rename,
};
use llmctl::app::panes::Pane;
use llmctl::config::Defaults;
use llmctl::domain::options::{FloatReading, FloatStep, OptionKind};
use llmctl::domain::{Model, OptionItem, Profile};
use llmctl::profiles::registry::DEFAULT;
use llmctl::profiles::store::{key, DeleteDisk, Instance, ProfileStore, RenameDisk, StoreError};
use llmctl::profiles::steps::{Action, Edit};
use llmctl::profiles::sync::{
    file_name_from, model_key, profile_filename, ProfileFile, Record, PROFILE_SCHEMA,
};
use llmctl::profiles::{
    current_values, fastflow, layered_values, list_profiles, resolve_options, resolved_values,
    validate_options,
};
use llmctl::runtime::llama_cpp::{LlamaCppBackend, LlamaProbe};
use llmctl::runtime::RuntimeBackend;
use llmctl::table::TextMap;

fn backend() -> LlamaCppBackend {
    LlamaCppBackend::discover(LlamaProbe {
        binary_path: None,
        bench_path: None,
        version: None,
        device_output: None,
        help: None,
    })
}

fn model() -> Model {
    Model {
        id: "test-model".into(),
        name: "x.gguf".into(),
        path: "/tmp/x.gguf".into(),
        shard_paths: vec!["/tmp/x.gguf".into()],
        mtp_path: None,
        dflash_path: None,
        dflash_block_size: None,
        projector_path: None,
        has_mtp: false,
        catalog_path: vec!["test-model".into()],
        catalog_dir: "/tmp/test-model".into(),
        size_bytes: 0,
        quantization: None,
        architecture: None,
        context_length: None,
        modified: None,
        has_chat_template: false,
        remote: None,
        flm: None,
        hub: None,
        folder: false,
        runtime: "llama.cpp".into(),
    }
}

fn model_with_ctx(ctx: Option<u64>) -> Model {
    Model { context_length: ctx, ..model() }
}

fn profile(name: &str) -> Profile {
    Profile { name: name.into(), builtin: true, favorite: false }
}

fn empty_store() -> ProfileStore {
    ProfileStore::new()
}

fn value_of(opts: &[OptionItem], key: &str) -> String {
    opts.iter().find(|o| o.key == key).unwrap().value.clone()
}

/// How a text compares with an option's bounds.
fn reading_of(kind: &OptionKind, input: &str) -> FloatReading {
    let OptionKind::Float { min, max } = kind else { return FloatReading::Within };
    match input.trim().parse::<f64>() {
        Err(_) => FloatReading::NotANumber,
        Ok(v) if !v.is_finite() => FloatReading::NotFinite,
        Ok(v) if min.is_some_and(|m| v < m as f64 / 1000.0) => FloatReading::BelowMin,
        Ok(v) if max.is_some_and(|m| v > m as f64 / 1000.0) => FloatReading::AboveMax,
        Ok(_) => FloatReading::Within,
    }
}

fn readings(backend: &LlamaCppBackend, model: &Model, values: &[String]) -> Vec<FloatReading> {
    let schema = backend.schema();
    let read = |(i, value): (usize, &String)| {
        reading_of(&backend.effective_kind(&schema.specs[i], model), value)
    };
    values.iter().enumerate().map(read).collect()
}

fn resolve(
    backend: &LlamaCppBackend,
    model: &Model,
    name: &str,
    store: &ProfileStore,
    defaults: &Defaults,
) -> Vec<OptionItem> {
    let values = layered_values(backend, model, name, store, defaults);
    let readings = readings(backend, model, &values);
    resolve_options(backend, model, &profile(name), store, defaults, &readings)
}

fn launchable(
    backend: &LlamaCppBackend,
    model: &Model,
    options: &Vec<OptionItem>,
) -> Result<(), String> {
    let values: Vec<String> = options.iter().map(|o| o.value.clone()).collect();
    validate_options(backend, model, options, &readings(backend, model, &values))
}

fn resolved(model: &Model, name: &str) -> Vec<OptionItem> {
    resolve(&backend(), model, name, &empty_store(), &Defaults::default())
}

// --- resolving ---------------------------------------------------------------

#[test]
fn invalid_saved_values_stay_editable_but_cannot_launch() {
    let backend = backend();
    let model = model();
    for (key, value) in
        [("temperature", "NaN"), ("port", "70000"), ("top-k", "-2"), ("flash-attn", "sometimes")]
    {
        let mut store = empty_store();
        store.set_value(
            "llama.cpp",
            &model.profile_key(),
            "Default",
            key,
            value.into(),
            &TextMap::new(),
            false,
        );
        let options = resolve(&backend, &model, "Default", &store, &Defaults::default());
        assert_eq!(value_of(&options, key), value);
        assert!(launchable(&backend, &model, &options).unwrap_err().starts_with(key));
    }
}

#[test]
fn saved_sentinels_and_legacy_enums_are_validated_after_normalization() {
    let backend = backend();
    let model = model();
    let mut store = empty_store();
    for (key, value) in [("temperature", " DEFAULT "), ("flash-attn", "true"), ("reasoning", "OFF")]
    {
        store.set_value(
            "llama.cpp",
            &model.profile_key(),
            "Default",
            key,
            value.into(),
            &TextMap::new(),
            false,
        );
    }
    let options = resolve(&backend, &model, "Default", &store, &Defaults::default());
    launchable(&backend, &model, &options).unwrap();
    assert_eq!(value_of(&options, "temperature"), "default");
    assert_eq!(value_of(&options, "flash-attn"), "on");
    assert_eq!(value_of(&options, "reasoning"), "off");
}

#[test]
fn model_context_does_not_wrap_into_a_negative_bound() {
    let backend = backend();
    let model = model_with_ctx(Some(u64::MAX));
    let schema = backend.schema();
    let kind = backend.effective_kind(schema.spec("ctx-size").unwrap(), &model);
    assert!(kind.validate("4096", FloatReading::Within).is_ok());
    assert_eq!(backend.clamp_to_model("ctx-size", "4096".into(), &model), "4096");
}

#[test]
fn default_profile_uses_registry_defaults() {
    let opts = resolved(&model(), "Default");
    assert_eq!(value_of(&opts, "ctx-size"), "4096");
    for key in ["temperature", "top-p", "top-k", "min-p", "repeat-penalty", "presence-penalty"] {
        assert_eq!(value_of(&opts, key), DEFAULT, "{key} should start at default");
    }
}

#[test]
fn template_overrides_apply() {
    let opts = resolved(&model(), "Coding");
    assert_eq!(value_of(&opts, "ctx-size"), "16384");
    assert_eq!(value_of(&opts, "temperature"), "0.2");
}

#[test]
fn ctx_size_max_follows_model_context() {
    let m = model_with_ctx(Some(8192));
    let backend = backend();
    let schema = backend.schema();
    let spec = schema.spec("ctx-size").unwrap();
    let kind = backend.effective_kind(spec, &m);
    assert_eq!(kind.extreme(1), Some("8192".into()));
    assert_eq!(kind.adjust("8192", 1, spec.step, &FloatStep::Nowhere), Some("8192".into()));
}

#[test]
fn ctx_size_default_is_model_context_over_eight() {
    let opts = resolved(&model_with_ctx(Some(32768)), "Default");
    assert_eq!(value_of(&opts, "ctx-size"), "4096");
}

#[test]
fn ctx_size_template_override_clamped_to_small_model() {
    let opts = resolved(&model_with_ctx(Some(2048)), "Long Context");
    assert_eq!(value_of(&opts, "ctx-size"), "2048");
}

#[test]
fn omittable_options_default_to_their_omit_token() {
    let opts = resolved(&model(), "Default");
    for key in ["flash-attn", "reasoning"] {
        assert_eq!(value_of(&opts, key), "auto", "{key} should start at auto");
    }
    for key in ["batch-size", "gpu-layers", "threads", "reasoning-effort", "chat-template"] {
        assert_eq!(value_of(&opts, key), DEFAULT, "{key} should start at default");
    }
    assert_eq!(value_of(&opts, "jinja"), "on");
    assert_eq!(value_of(&opts, "load-mode"), DEFAULT);
    let server = resolved(&model(), "Server");
    assert_eq!(value_of(&server, "flash-attn"), "on");
    assert_eq!(value_of(&server, "gpu-layers"), "999");
}

#[test]
fn speculative_options_default_to_their_omit_tokens() {
    let opts = resolved(&model(), "Default");
    assert_eq!(value_of(&opts, "spec-type"), "none");
    assert_eq!(value_of(&opts, "spec-draft-n-max"), DEFAULT);
    assert_eq!(value_of(&opts, "spec-draft-n-min"), DEFAULT);
}

#[test]
fn mtp_sidecar_enables_mtp_speculation_by_default() {
    let mut m = model();
    m.mtp_path = Some("/tmp/mtp-x.gguf".into());
    assert_eq!(value_of(&resolved(&m, "Default"), "spec-type"), "draft-mtp");
}

#[test]
fn dflash_sidecar_enables_dflash_speculation_by_default() {
    let mut m = model();
    m.dflash_path = Some("/tmp/dflash-kquant.gguf".into());

    let mut backend = backend();
    assert!(!backend.dflash_supported);
    let store = empty_store();
    let undrafted = resolve(&backend, &m, "Default", &store, &Defaults::default());
    assert_eq!(value_of(&undrafted, "spec-type"), "none");

    backend.dflash_supported = true;
    let opts = resolve(&backend, &m, "Default", &store, &Defaults::default());
    assert_eq!(value_of(&opts, "spec-type"), "draft-dflash");
}

#[test]
fn integrated_mtp_head_enables_mtp_speculation_by_default() {
    let mut m = model();
    m.has_mtp = true;
    assert_eq!(value_of(&resolved(&m, "Default"), "spec-type"), "draft-mtp");
}

#[test]
fn materializing_an_instance_keeps_model_aware_defaults() {
    let m = model_with_ctx(Some(262144));
    let mut store = empty_store();
    let base = resolved_values(&backend(), &profile("Default"), &m, &Defaults::default());
    store.set_value(
        "llama.cpp",
        "/tmp/x.gguf",
        "Default",
        "temperature",
        "0.5".into(),
        &base,
        false,
    );
    let opts = resolve(&backend(), &m, "Default", &store, &Defaults::default());
    assert_eq!(value_of(&opts, "temperature"), "0.5");
    assert_eq!(value_of(&opts, "ctx-size"), "32768");
}

#[test]
fn resolved_values_clamp_template_ctx_to_the_model() {
    let m = model_with_ctx(Some(2048));
    let base = resolved_values(&backend(), &profile("Long Context"), &m, &Defaults::default());
    assert_eq!(base.get("ctx-size").unwrap(), "2048");
}

#[test]
fn host_port_come_from_config_defaults() {
    let defaults = Defaults { host: "0.0.0.0".into(), port: 9000 };
    let opts = resolve(&backend(), &model(), "Default", &empty_store(), &defaults);
    assert_eq!(value_of(&opts, "host"), "0.0.0.0");
    assert_eq!(value_of(&opts, "port"), "9000");
}

#[test]
fn profiles_are_listed_built_in_first() {
    let mut store = empty_store();
    let key = model().profile_key();
    store.create("llama.cpp", &key, "Zed", TextMap::new(), true, true);
    store.create("llama.cpp", &key, "Able", TextMap::new(), true, true);
    store.create("llama.cpp", "other", "Alien", TextMap::new(), true, true);
    store.toggle_favorite("llama.cpp", &key, "Zed", &TextMap::new(), true);
    let list = list_profiles(&backend(), &model(), &store);
    let own: Vec<&str> =
        list.iter().filter(|p| !p.builtin).map(|p| p.name.as_str()).collect();
    assert_eq!(own, ["Able", "Zed"]);
    assert!(list[0].builtin && list[0].name == "Default");
    assert!(list.last().unwrap().favorite);
}

#[test]
fn current_values_are_those_that_are_shown() {
    let m = model();
    let opts = resolved(&m, "Coding");
    let store = empty_store();
    let defaults = Defaults::default();
    let b = backend();
    let values = layered_values(&b, &m, "Coding", &store, &defaults);
    let readings = readings(&b, &m, &values);
    let current = current_values(&b, &m, &profile("Coding"), &store, &defaults, &readings);
    for o in &opts {
        assert_eq!(current.get(&o.key), Some(&o.value));
    }
}

// --- editing -----------------------------------------------------------------

#[test]
fn options_are_edited_by_their_kind() {
    let b = backend();
    let opts = resolved(&model(), "Default");
    let option = |key: &str| opts.iter().find(|o| o.key == key);
    let Editor::Select(list) = open_editor(Pane::Options, option("chat-template"), Some(&b)) else {
        panic!("a list was expected");
    };
    assert_eq!((list.title.as_str(), list.cursor), ("Select chat-template", 0));
    let Editor::Apply(next) = open_editor(Pane::Options, option("flash-attn"), Some(&b)) else {
        panic!("the next value was expected");
    };
    assert_eq!(next, "on");
    let Editor::Prompt(prompt) = open_editor(Pane::Options, option("top-k"), Some(&b)) else {
        panic!("a prompt was expected");
    };
    assert_eq!(prompt.title, "Edit top-k (number or 'default')");
    assert_eq!(prompt.buffer, DEFAULT);
    let Editor::Prompt(prompt) = open_editor(Pane::Options, option("host"), Some(&b)) else {
        panic!("a prompt was expected");
    };
    assert_eq!(prompt.title, "Edit host");

    let m = model_with_ctx(Some(8192));
    let commit = |key: &str, input: &str| {
        commit_option_edit(Some(&b), Some(&m), key, input, FloatReading::Within)
    };
    assert_eq!(commit("top-k", ""), Ok(DEFAULT.to_string()));
    assert_eq!(commit("top-k", "Default"), Ok(DEFAULT.to_string()));
    assert_eq!(commit("ctx-size", "4096"), Ok("4096".to_string()));
    assert!(commit("ctx-size", "9000").is_err());
    assert_eq!(commit("absent", "1"), Err("unknown option".to_string()));
    let none: Option<&LlamaCppBackend> = None;
    assert_eq!(
        commit_option_edit(none, None, "top-k", "1", FloatReading::Within),
        Err("no runtime selected".to_string())
    );
    let up = |key: &str, dir| {
        adjust_option(Pane::Options, option(key), Some(&b), Some(&m), dir, &FloatStep::Nowhere)
    };
    assert_eq!(up("port", 1), Some("8001".into()));
    assert_eq!(up("device", 1), Some(DEFAULT.into()));
    let end = |key: &str| set_option_extreme(Pane::Options, option(key), Some(&b), Some(&m), 1);
    assert_eq!(end("ctx-size"), Some("8192".into()));
    assert_eq!(reset_option_default(Pane::Options, option("port")), Some("8000".into()));
    assert_eq!(reset_option_default(Pane::Model, option("port")), None);
}

#[test]
fn profiles_are_named_by_prompts() {
    let own = Profile { name: "Mine".into(), builtin: false, favorite: false };
    assert!(prompt_new_profile(Pane::Model).is_none());
    assert_eq!(prompt_new_profile(Pane::Profile).unwrap().title, "New profile");
    assert!(prompt_rename_profile(Pane::Profile, Some(&profile("Chat"))).is_none());
    assert_eq!(prompt_rename_profile(Pane::Profile, Some(&own)).unwrap().buffer, "Mine");
    let copy = prompt_duplicate_profile(Pane::Profile, Some(&own)).unwrap();
    assert_eq!((copy.title.as_str(), copy.buffer.as_str()), ("Duplicate Mine", "Mine copy"));
    let list = vec![own, profile("Chat")];
    assert!(matches!(commit_rename_profile(&list, "Mine", "MINE"), Rename::Same));
    assert!(matches!(commit_rename_profile(&list, "Mine", "Yours"), Rename::Rename));
    assert!(matches!(commit_rename_profile(&list, "Mine", "chat"), Rename::Refused(_)));
}

// --- the store ---------------------------------------------------------------

fn values(pairs: &[(&str, &str)]) -> TextMap {
    let mut map = TextMap::new();
    for (key, value) in pairs {
        map.insert(key, value.to_string());
    }
    map
}

fn instance(pairs: &[(&str, &str)]) -> Instance {
    Instance { values: values(pairs), favorite: false, custom: false }
}

fn chat_file() -> Vec<Option<Vec<ProfileFile>>> {
    vec![Some(vec![ProfileFile {
        schema: PROFILE_SCHEMA,
        name: "Chat".into(),
        instance: instance(&[("temperature", "0.1")]),
    }])]
}

fn fixture() -> (Model, ProfileStore) {
    let store = ProfileStore::load(&Vec::new(), &vec![model()], &chat_file());
    (model(), store)
}

#[test]
fn failed_rename_preserves_the_original_on_disk_and_in_memory() {
    let (model, mut store) = fixture();
    let key = model.profile_key();
    store.create("llama.cpp", &key, "Original", TextMap::new(), true, true);
    let disk = RenameDisk {
        written: false,
        legacy: Some("is a directory".into()),
        delete: DeleteDisk { unlink: None, legacy: None },
    };
    assert!(store.rename("llama.cpp", &key, "Original", "Renamed", &disk).is_err());
    assert!(store.get("llama.cpp", &key, "Original").is_some());
    assert!(store.get("llama.cpp", &key, "Renamed").is_none());
}

#[test]
fn failed_delete_keeps_the_profile_visible() {
    let (model, mut store) = fixture();
    let key = model.profile_key();
    let disk = DeleteDisk { unlink: Some("is a directory".into()), legacy: None };
    assert!(store.delete("llama.cpp", &key, "Chat", &disk).is_err());
    assert!(store.get("llama.cpp", &key, "Chat").is_some());
}

#[test]
fn failed_edit_reports_error_and_keeps_the_edit_for_retry() {
    let (model, mut store) = fixture();
    let key = model.profile_key();
    store.set_value(
        "llama.cpp",
        &key,
        "Chat",
        "temperature",
        "0.7".into(),
        &TextMap::new(),
        false,
    );
    let chat = store.get("llama.cpp", &key, "Chat").unwrap();
    assert_eq!(chat.values.get("temperature").unwrap(), "0.7");
    assert_eq!(store.legacy_records().len(), 1, "the edit waits in the common file");
}

#[test]
fn fallback_edits_override_stale_yaml_on_reload_and_rescan() {
    let (model, mut store) = fixture();
    let id = model.profile_key();
    let edit = |store: &mut ProfileStore, value: &str| {
        store.set_value(
            "llama.cpp",
            &id,
            "Chat",
            "temperature",
            value.into(),
            &TextMap::new(),
            false,
        )
    };
    let temperature = |store: &ProfileStore| {
        store.get("llama.cpp", &id, "Chat").unwrap().values.get("temperature").unwrap().clone()
    };
    edit(&mut store, "0.7");
    let legacy = store.legacy_records();
    let mut reloaded = ProfileStore::load(&legacy, &vec![model.clone()], &chat_file());
    assert_eq!(temperature(&reloaded), "0.7");
    edit(&mut reloaded, "0.8");
    reloaded.sync_models(&vec![model], &chat_file());
    assert_eq!(temperature(&reloaded), "0.8");
}

#[test]
fn migrates_legacy_json_to_model_yaml_and_keeps_backup() {
    let mut model = model();
    model.path = "/tmp/source.gguf".into();
    let record = Record {
        key: key("llama.cpp", &model_key("/tmp/source.gguf"), "Chat"),
        instance: Instance {
            values: values(&[("ctx-size", "8192")]),
            favorite: true,
            custom: false,
        },
    };
    let store = ProfileStore::load(&vec![record], &vec![model], &vec![Some(Vec::new())]);
    let chat = store.get("llama.cpp", &model_key("/tmp/source.gguf"), "Chat").unwrap();
    assert_eq!(chat.values.get("ctx-size").unwrap(), "8192");
    assert!(store.is_favorite("llama.cpp", "/tmp/source.gguf", "Chat"));
    assert_eq!(
        store.profile_path("/tmp/source.gguf", "Chat").as_deref(),
        Some("/tmp/test-model/profiles/Chat.yml")
    );
}

#[test]
fn unavailable_catalog_persists_edits_in_legacy_json() {
    let mut model = model();
    model.path = "/tmp/source.gguf".into();
    model.catalog_dir = String::new();
    let mut store = ProfileStore::load(&Vec::new(), &vec![model], &vec![None]);
    assert_eq!(store.profile_path("/tmp/source.gguf", "Chat"), None);
    store.set_value(
        "llama.cpp",
        &model_key("/tmp/source.gguf"),
        "Chat",
        "ctx-size",
        "8192".into(),
        &TextMap::new(),
        false,
    );
    let saved = store.legacy_records();
    assert_eq!(saved.len(), 1);
    assert_eq!(saved[0].instance.values.get("ctx-size").unwrap(), "8192");
}

#[test]
fn renaming_moves_a_profile_or_says_why_not() {
    let (model, mut store) = fixture();
    let id = model.profile_key();
    store.create("llama.cpp", &id, "A", values(&[("top-k", "3")]), true, true);
    store.create("llama.cpp", &id, "B", TextMap::new(), true, true);
    let disk = || RenameDisk {
        written: true,
        legacy: None,
        delete: DeleteDisk { unlink: None, legacy: None },
    };
    let taken = store.rename("llama.cpp", &id, "A", "B", &disk()).unwrap_err();
    assert_eq!(taken.message(), "profile already exists");
    let absent = store.rename("llama.cpp", &id, "X", "Y", &disk()).unwrap_err();
    assert!(matches!(absent, StoreError::NotFound));
    assert_eq!(absent.message(), "profile not found");
    store.rename("llama.cpp", &id, "A", "C", &disk()).unwrap();
    assert!(store.get("llama.cpp", &id, "A").is_none());
    assert_eq!(store.get("llama.cpp", &id, "C").unwrap().values.get("top-k").unwrap(), "3");
    assert_eq!(store.custom_profiles("llama.cpp", &id), ["B", "C"]);
    let gone = DeleteDisk { unlink: None, legacy: None };
    store.delete("llama.cpp", &id, "C", &gone).unwrap();
    assert!(store.get("llama.cpp", &id, "C").is_none());
}

#[test]
fn profile_files_have_safe_names() {
    assert_eq!(profile_filename("Chat"), "Chat.yml");
    let odd = profile_filename("a/b");
    assert!(!odd.contains('/') && odd.ends_with(".yml") && odd != profile_filename("a_b"));
    assert_eq!(file_name_from("Ab", &vec![true, true]), "Ab.yml");
    assert!(profile_filename("Größe").starts_with("Gr"));
}

#[test]
fn the_catalogue_has_its_own_options_and_profiles() {
    assert!(fastflow::spec("port").is_some() && fastflow::spec("absent").is_none());
    assert!(!fastflow::names().is_empty());
    assert!(fastflow::is_builtin(fastflow::names()[0]) && !fastflow::is_builtin("absent"));
    assert_eq!(fastflow::override_value("absent", "port"), None);
    assert_eq!(fastflow::omit_token("absent"), None);
}

#[test]
fn an_edit_says_what_to_do_on_disk_next() {
    let (mut store, runtime, model) = (ProfileStore::new(), "llama.cpp", "/m.gguf");
    let (from, to) = (key(runtime, model, "A"), key(runtime, model, "B"));
    store.create(runtime, model, "A", TextMap::new(), true, true);
    let names = |s: &ProfileStore| s.custom_profiles(runtime, model);

    let (mut edit, first) = Edit::rename(&mut store, &from, &to).unwrap();
    assert!(matches!(first, Action::Write(k) if k.profile == "B"));
    assert!(matches!(edit.step(&mut store, Some("read-only".into())), Action::Save));
    assert_eq!(store.legacy_records().len(), 1, "what has no file is kept in common");
    assert!(matches!(edit.step(&mut store, None), Action::Unlink(k) if k.profile == "A"));
    assert_eq!(names(&store), ["A", "B"]);
    assert!(matches!(edit.step(&mut store, None), Action::Save));
    assert_eq!(names(&store), ["B"]);
    assert!(matches!(edit.step(&mut store, Some("full".into())), Action::End(Some(e)) if e == "full"));
    assert_eq!(names(&store), ["A", "B"], "what could not be saved is back");
    assert!(matches!(edit.step(&mut store, None), Action::Nothing));

    let (mut edit, first) = Edit::delete(&to);
    assert!(matches!(first, Action::Unlink(_)));
    assert!(matches!(edit.step(&mut store, Some("busy".into())), Action::End(Some(_))));
    assert_eq!(names(&store), ["A", "B"]);

    let (mut edit, first) = Edit::persist(&from);
    assert!(matches!(first, Action::Write(_)));
    assert!(matches!(edit.step(&mut store, None), Action::Save));
    assert!(matches!(edit.step(&mut store, None), Action::End(None)));

    let same = Edit::rename(&mut store, &from, &from).unwrap();
    assert!(matches!(same.1, Action::End(None)));
    assert!(Edit::rename(&mut store, &from, &to).is_err());
}

#[test]
fn kept_records_come_once_and_in_order() {
    let mut store = ProfileStore::new();
    for (model, profile) in [("/b", "Z"), ("/b", "A"), ("/a", "M"), ("/b", "A")] {
        store.create("llama.cpp", model, profile, TextMap::new(), true, false);
    }
    store.create("FastFlowLM", "/z", "Q", TextMap::new(), true, false);
    let kept: Vec<String> = store
        .legacy_records()
        .into_iter()
        .map(|r| format!("{} {} {}", r.key.runtime, r.key.model, r.key.profile))
        .collect();
    assert_eq!(
        kept,
        ["FastFlowLM /z Q", "llama.cpp /a M", "llama.cpp /b A", "llama.cpp /b Z"]
    );
    assert!(store.registered_keys().is_empty());
}
