use llmctl::app::browser::{find_entry, BrowserState};
use llmctl::app::downloads::{
    DownloadManager, DownloadSource, ModelDownload, ModelDownloadStatus,
};
use llmctl::app::jobs::{
    async_job_count, download_row, launched, live_server_stays, record_not_kept,
};
use llmctl::app::launch::{Fetches, LiveSession, Start};
use llmctl::app::online::{
    is_known, may_have_gained, reconcile_downloaded_online_models, replace_online_models,
    OnlineState,
};
use llmctl::app::panes::{ListState, Pane};
use llmctl::app::session_view::SessionViewState;
use llmctl::discovery::online::catalog::{Request, Sort};
use llmctl::discovery::online::{directory, repository_directory, Repository};
use llmctl::domain::{Model, OptionItem, Profile, RemoteModel, Runtime};
use llmctl::profiles::store::ProfileStore;
use llmctl::runtime::backend::{discover, Backend};
use llmctl::runtime::flm::FlmBackend;
use llmctl::runtime::llama_cpp::{LlamaCppBackend, LlamaProbe};
use llmctl::runtime::{flm, RuntimeBackend};

fn texts(v: &[&str]) -> Vec<String> {
    v.iter().map(|s| s.to_string()).collect()
}

fn runtimes() -> Vec<Backend> {
    let llama = LlamaCppBackend::discover(LlamaProbe {
        binary_path: Some("/opt/llama-server".into()),
        bench_path: Some("/opt/llama-bench".into()),
        version: None,
        device_output: None,
        help: None,
    });
    let flm = FlmBackend {
        runtime: Runtime {
            name: flm::NAME.into(),
            description: String::new(),
            version: None,
            binary_path: Some("/opt/flm".into()),
            bench_path: Some("/opt/flm".into()),
            formats: vec![],
            devices: vec![],
        },
        npu_ready: true,
        npu_problem: None,
    };
    discover(llama, flm)
}

fn local(name: &str, place: &[&str]) -> Model {
    let mut model = directory(&texts(place));
    model.folder = false;
    model.id = name.into();
    model.name = name.into();
    model.path = format!("/m/{name}");
    model
}

fn repository(id: &str) -> Model {
    let repository =
        Repository { id: id.into(), downloads: 0, likes: 0, sha: None, gated: false };
    repository_directory("/root", &repository)
}

fn artifact(repo: &str, file: &str) -> Model {
    let mut model = repository(repo);
    model.folder = false;
    model.id = format!("hf:{repo}/{file}");
    model.name = file.into();
    model.catalog_path.push(file.into());
    if let Some(remote) = &mut model.remote {
        remote.file = Some(file.into());
    }
    model
}

fn catalog() -> Vec<Model> {
    vec![
        local("a.gguf", &["models", "one", "a"]),
        local("b.gguf", &["models", "one", "b"]),
        local("c.gguf", &["models", "two", "c"]),
        directory(&texts(&["online", "huggingface"])),
        repository("org/repo"),
        artifact("org/repo", "m-Q4.gguf"),
    ]
}

fn labels(models: &[Model]) -> Vec<&str> {
    models.iter().map(|m| m.display_label()).collect()
}

fn opened() -> BrowserState {
    let mut browser = BrowserState::new(runtimes());
    browser.rebuild_models(&catalog());
    browser.rebuild_profiles(&catalog(), &ProfileStore::new());
    browser
}

#[test]
fn the_catalog_is_filled_from_the_top() {
    let mut browser = opened();
    assert_eq!(labels(&browser.models.items), ["models", "online"]);
    assert_eq!(labels(&browser.catalog_preview), ["one", "two"]);
    assert!(browser.selected_model().is_none());
    assert!(!browser.preview_is_empty());
    browser.focus = Pane::Model;
    assert!(browser.enter());
    browser.rebuild_profiles(&catalog(), &ProfileStore::new());
    assert_eq!(labels(&browser.models.items), ["one", "two"]);
    assert!(browser.enter());
    browser.rebuild_profiles(&catalog(), &ProfileStore::new());
    assert_eq!(browser.selected_model().map(|m| m.id.as_str()), Some("a.gguf"));
    assert!(!browser.profiles.is_empty());
    browser.select_last();
    assert_eq!(browser.selected_model().map(|m| m.id.as_str()), Some("b.gguf"));
    browser.select_first();
    assert_eq!(browser.selected_model().map(|m| m.id.as_str()), Some("a.gguf"));
    assert!(!browser.enter(), "a model moves the focus");
    assert_eq!(browser.focus, Pane::Profile);
}

#[test]
fn a_jump_goes_the_whole_way_or_nowhere() {
    let mut browser = opened();
    let source = catalog();
    assert_eq!(find_entry(&source, "b.gguf"), Some(1));
    assert_eq!(find_entry(&source, "x"), None);
    assert!(browser.jump_to_model(&source, "b.gguf"));
    assert_eq!(browser.catalog_prefix, ["models", "one"]);
    assert_eq!(browser.focus, Pane::Model);
    assert_eq!(browser.selected_model().map(|m| m.id.as_str()), Some("b.gguf"));
    assert!(!browser.jump_to_model(&source, "x"));
    assert_eq!(browser.catalog_prefix, ["models", "one"]);

    let mut shorter = source;
    shorter.remove(0);
    browser.reselect_current_catalog(&shorter);
    assert_eq!(browser.selected_model().map(|m| m.id.as_str()), Some("b.gguf"));
    assert_eq!(browser.models.items.len(), 1);
}

#[test]
fn a_new_arrangement_keeps_the_place() {
    let source = catalog();
    let store = ProfileStore::new();
    let mut browser = opened();
    let selected = Some("c.gguf".to_string());
    browser.restore_catalog_position(&source, &store, &selected, &texts(&["models", "one"]));
    assert_eq!(browser.catalog_prefix, ["models", "two"]);

    let mut browser = opened();
    browser.focus = Pane::Model;
    let gone = texts(&["models", "two", "gone"]);
    browser.restore_catalog_position(&source, &store, &None, &gone);
    assert_eq!(browser.catalog_prefix, ["models", "two"], "inside the deepest folder");
    browser.focus = Pane::Profile;
    browser.restore_catalog_position(&source, &store, &None, &texts(&["models", "one"]));
    assert_eq!(browser.catalog_prefix, ["models", "one"], "from another pane too");
    assert_eq!(browser.focus, Pane::Profile);
    browser.focus = Pane::Model;
    browser.restore_catalog_position(&source, &store, &None, &gone);
    assert_eq!(browser.selected_model().map(|m| m.id.as_str()), Some("c.gguf"));
}

#[test]
fn the_folder_of_repositories_is_shown_on_its_runtime() {
    let mut browser = opened();
    browser.runtimes.state.select(Some(1));
    assert!(browser.show_online_models_root(&catalog()));
    assert_eq!(browser.runtimes.state.selected(), Some(0));
    assert_eq!(browser.catalog_prefix, ["online", "huggingface"]);
    assert_eq!(labels(&browser.models.items), ["org/repo"]);
    assert_eq!(browser.catalog_parent().map(|step| step.prefix.len()), Some(1));
    assert!(browser.online_view_active());
    assert_eq!(browser.model_pane_title(0, Sort::Popular), "Most likes");
    assert_eq!(browser.catalog_parent_title(0, Sort::Popular), "Most likes");
    assert_eq!(browser.catalog_preview_title(0, Sort::Popular), "Model");
    assert!(browser.browsing_hub());
    browser.hub_refresh_pane(Vec::new());
    assert_eq!(browser.models.state.selected(), None);

    let offline: Vec<Model> = catalog().into_iter().take(3).collect();
    assert!(!opened().show_online_models_root(&offline));
}

#[test]
fn a_runtime_with_arrangements_names_the_current_one() {
    let mut browser = opened();
    assert_eq!(browser.catalog_view_count(), 0);
    assert_eq!(browser.catalog_view_label(0), None);
    assert_eq!(browser.model_pane_title(0, Sort::Trending), "Model");
    let (scanned, own) = (catalog(), Vec::new());
    assert_eq!(browser.catalog_source(&scanned, &own).len(), scanned.len());

    browser.runtimes.state.select(Some(1));
    assert_eq!(browser.catalog_view_count(), 2);
    assert_eq!(browser.catalog_view_label(1), Some("Flat"));
    assert_eq!(browser.catalog_view_label(2), Some("Categories"));
    assert_eq!(browser.model_pane_title(1, Sort::Trending), "Flat");
    assert!(browser.catalog_source(&scanned, &own).is_empty());
    browser.focus = Pane::Model;
    browser.catalog_prefix = texts(&["online"]);
    assert!(!browser.online_view_active());
}

// --- starting ----------------------------------------------------------------

fn ready() -> BrowserState {
    let mut browser = opened();
    browser.models.replace(vec![local("a.gguf", &["models", "one", "a"])]);
    browser.profiles.replace(vec![Profile {
        name: "Default".into(),
        builtin: true,
        favorite: false,
    }]);
    browser.options.replace(vec![OptionItem {
        key: "port".into(),
        value: "9000".into(),
        default: "8000".into(),
        range: None,
        cli: "--port".into(),
        description: String::new(),
    }]);
    browser.focus = Pane::Profile;
    browser
}

#[test]
fn commands_are_shown_and_measurements_started() {
    let mut browser = ready();
    let fetches = Fetches { hub: None, files: Vec::new() };
    let Start::Run(command) = browser.yank_command(&fetches) else { panic!("no command") };
    assert_eq!(command.argv, ["/opt/llama-server", "-m", "/m/a.gguf", "--port", "9000"]);
    let Start::Run(bench) = browser.start_benchmark(&vec![], &None) else { panic!("no measurement") };
    assert_eq!(bench[0], "/opt/llama-bench");
    assert!(browser.benchmark_available());

    let mut unstored = ready();
    let mut model = local("a.gguf", &["models", "one", "a"]);
    model.path = String::new();
    unstored.models.replace(vec![model]);
    assert!(matches!(unstored.start_benchmark(&vec![], &None), Start::Nothing));
    let mut wrong = ready();
    wrong.options.items[0].value = "0".into();
    let Start::Refused(refused) = wrong.start_benchmark(&vec![], &None) else {
        panic!("measured with a port that is not allowed")
    };
    assert_eq!(refused.lines, ["port: must be ≥ 1"]);
    let Start::Run(command) = wrong.yank_command(&fetches) else { panic!("not copied") };
    assert_eq!(command.argv, ["/opt/llama-server", "-m", "/m/a.gguf", "--port", "0"]);

    browser.focus = Pane::Model;
    assert!(matches!(browser.yank_command(&fetches), Start::Nothing));
    browser.focus = Pane::Options;
    browser.profiles.replace(Vec::new());
    let Start::Refused(refused) = browser.yank_command(&fetches) else { panic!("accepted") };
    assert_eq!(refused.title, "Cannot build command");
    assert_eq!(refused.lines, ["no profile selected"]);

    browser.runtimes.state.select(Some(1));
    let live = Some(LiveSession { name: "qwen3:4b".into(), status: "Running".into() });
    let Start::Refused(refused) = browser.start_benchmark(&vec![], &live) else { panic!("accepted") };
    assert_eq!(refused.title, "Cannot start benchmark");
    assert_eq!(refused.lines[0], "FastFlowLM can only run one model at a time.");
}

#[test]
fn a_started_server_is_announced() {
    let message = launched("m (Default)", "Starting", "http://h:1");
    assert_eq!(message.title, "Launched");
    assert_eq!(message.lines, ["m (Default)", "Starting — http://h:1"]);
}

// --- jobs --------------------------------------------------------------------

fn hub_job(status: ModelDownloadStatus) -> ModelDownload {
    ModelDownload {
        id: 1,
        model_id: "m".into(),
        model: "org/repo/m.gguf".into(),
        downloaded_bytes: 0,
        total_bytes: 10,
        status,
        source: DownloadSource::Hub(RemoteModel {
            repo: "org/repo".into(),
            revision: None,
            file: Some("m.gguf".into()),
            blobs: Vec::new(),
            mtp_file: None,
            dflash_file: None,
            projector_file: None,
            downloads: 0,
            likes: 0,
            gated: false,
        }),
        cancelled: false,
    }
}

#[test]
fn only_jobs_at_rest_are_removed() {
    let mut manager = DownloadManager {
        jobs: vec![hub_job(ModelDownloadStatus::Downloading)],
        next_id: 2,
    };
    assert_eq!(async_job_count(2, 1), 3);
    assert_eq!(download_row(2, 0), 2);
    let mut selection = ListState::new();
    selection.select(Some(2));
    let selected = manager.selected_model_download(&selection, 2);
    assert_eq!(selected.map(|job| job.id), Some(1));
    selection.select(Some(1));
    assert!(manager.selected_model_download(&selection, 2).is_none());

    let stays = manager.remove_async_job(0, &Ok(())).unwrap();
    assert_eq!(stays.title, "Cannot remove");
    assert_eq!(stays.lines, ["Cancel the download before removing it."]);
    assert!(manager.jobs[0].status.is_active());

    manager.jobs[0].status = ModelDownloadStatus::Interrupted;
    assert!(manager.jobs[0].status.is_resumable());
    let failed = manager.remove_async_job(0, &Err("read-only".into())).unwrap();
    assert_eq!(failed.lines, ["Cannot remove persisted download state: read-only"]);
    assert_eq!(manager.jobs.len(), 1);
    assert!(manager.remove_async_job(0, &Ok(())).is_none());
    assert!(manager.jobs.is_empty());

    assert_eq!(
        live_server_stays().lines,
        ["Only Stopped or Crashed sessions can be removed; stop it first."]
    );
    let kept = record_not_kept("Cannot resume", "disk full");
    assert_eq!((kept.title.as_str(), kept.lines[0].as_str()), (
        "Cannot resume",
        "Cannot persist download state: disk full",
    ));
}

#[test]
fn a_log_is_shown_from_its_end() {
    let mut view = SessionViewState::default();
    view.log_follow = false;
    view.log_scroll = 7;
    view.show_log(texts(&["one", "two"]));
    assert!(view.log_follow);
    assert_eq!(view.log_scroll, 0);
    assert_eq!(view.log_lines, ["one", "two"]);
    view.select_first(3);
    assert_eq!(view.selection.selected(), Some(0));
    view.select_first(0);
    assert_eq!(view.selection.selected(), None);
}

// --- the online tree ---------------------------------------------------------

#[test]
fn the_online_tree_is_replaced_and_local_models_stay() {
    let mut models = catalog();
    replace_online_models(&mut models, &vec![repository("other/repo")]);
    assert_eq!(labels(&models), ["a", "b", "c", "other/repo"]);
    assert!(is_known(&models, &Request::Repositories(Sort::Trending)));
    assert!(!is_known(&models, &Request::Repository("other/repo".into())));
    let mut online = OnlineState::new(Sort::Trending);
    online.cycle_online_sort();
    assert!(matches!(online.sort, Sort::Popular));
}

#[test]
fn what_a_session_downloaded_is_taken_in() {
    let mut models = catalog();
    assert!(!may_have_gained(false, &models));
    assert!(may_have_gained(true, &models));
    let unchanged = vec![artifact("org/repo", "m-Q4.gguf")];
    assert!(!reconcile_downloaded_online_models(&mut models, &unchanged));
    assert_eq!(models.len(), 6);
    let mut cached = artifact("org/repo", "m-Q4.gguf");
    cached.path = "/hub/m-Q4.gguf".into();
    assert!(reconcile_downloaded_online_models(&mut models, &vec![cached]));
    assert_eq!(models.last().map(|m| m.path.as_str()), Some("/hub/m-Q4.gguf"));
    assert!(!may_have_gained(true, &models));
}

#[test]
fn npu_options_stay_within_what_the_model_supports() {
    let Some(Backend::Flm(backend)) = runtimes().pop() else { panic!("no FastFlowLM") };
    assert_eq!(backend.device_label().as_deref(), Some("NPU"));
    let mut model = local("m", &["local", "m"]);
    model.context_length = Some(16384);
    let clamp = |model: &Model, key: &str, v: &str| backend.clamp_to_model(key, v.into(), model);
    assert_eq!(clamp(&model, "ctx-len", "131072"), "16384");
    assert_eq!(clamp(&model, "prefill-chunk-len", "8192"), "8192");
    model.flm = Some(llmctl::domain::FlmModel {
        tag: "m".into(),
        installed: true,
        repo: String::new(),
        revision: String::new(),
        files: Vec::new(),
        labels: Vec::new(),
        vlm: false,
        asr: false,
        max_prefill_len: Some(4096),
    });
    assert_eq!(clamp(&model, "prefill-chunk-len", "8192"), "4096");
    assert_eq!(clamp(&model, "prefill-chunk-len", "1024"), "1024");
    assert_eq!(clamp(&model, "prefill-chunk-len", "default"), "default");
}
