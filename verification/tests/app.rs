use llmctl::app::browser::BrowserState;
use llmctl::app::catalog::{
    catalog_children, catalog_children_of, catalog_route, online_artifact_children,
    online_repository_children,
};
use llmctl::app::catalog_jobs::{CatalogJobs, CatalogResult, Polled};
use llmctl::app::downloads::{
    restore_model_downloads, transfer_percent, DownloadManager, DownloadSource, DownloadStart,
    ModelDownload, ModelDownloadEvent, ModelDownloadStatus, Recorded,
};
use llmctl::app::editor::{
    cycle_device, open_editor, validate_new_name, Editor, Message, Prompt, PromptAction,
    PromptKind, Selector, SelectorAction, SELECTOR_THRESHOLD,
};
use llmctl::app::jobs::{selected_job, Job};
use llmctl::app::keys::{
    closes_help, input_owner, on_key_browser, on_key_logs, on_key_sessions, BrowserAction,
    BrowserFacts, InputOwner, Key, LogAction, Overlay, SessionsAction,
};
use llmctl::app::log::{is_variation_selector, log_tail, read_log_tail, visible_line};
use llmctl::app::modals::Modals;
use llmctl::app::online::{maybe_fetch_online, Answer, OnlineState};
use llmctl::app::panes::{ListState, Pane, PaneList, Screen};
use llmctl::app::search::{
    catalog_entry_in_search_scope, model_catalog_title, normalized_search_scope, rank_models,
    ModelSearch, Pick, SearchAction,
};
use llmctl::app::session_view::{Scroll, SessionViewState};
use llmctl::app::status::cycle_catalog_view;
use llmctl::discovery::online::catalog::{Request, Response, Sort};
use llmctl::discovery::online::transfer::{DownloadJobRecord, DownloadResult};
use llmctl::domain::options::OptionKind;
use llmctl::domain::{FlmModel, Model, OptionItem, Profile, RemoteBlob, RemoteModel};
use llmctl::profiles::registry::{Dialect, OptionSchema};
use llmctl::profiles::store::ProfileStore;
use llmctl::runtime::backend::Backend;
use llmctl::runtime::{CatalogCtx, ModelTransfer, RuntimeId};
use unicode_width::UnicodeWidthStr;

fn texts(v: &[&str]) -> Vec<String> {
    v.iter().map(|s| s.to_string()).collect()
}

fn blank(name: &str, path: &[&str]) -> Model {
    Model {
        id: name.to_string(),
        name: name.to_string(),
        path: String::new(),
        shard_paths: Vec::new(),
        mtp_path: None,
        dflash_path: None,
        dflash_block_size: None,
        projector_path: None,
        has_mtp: false,
        catalog_path: texts(path),
        catalog_dir: String::new(),
        size_bytes: 0,
        quantization: None,
        architecture: None,
        context_length: None,
        modified: None,
        has_chat_template: false,
        remote: None,
        flm: None,
        hub: None,
        folder: false,
        runtime: "llama.cpp".to_string(),
    }
}

fn remote(repo: &str, file: Option<&str>) -> RemoteModel {
    RemoteModel {
        repo: repo.to_string(),
        revision: None,
        file: file.map(str::to_string),
        blobs: Vec::new(),
        mtp_file: None,
        dflash_file: None,
        projector_file: None,
        downloads: 0,
        likes: 0,
        gated: false,
    }
}

fn selector() -> Selector {
    Selector {
        key: "chat-template".into(),
        title: "Select chat-template".into(),
        variants: texts(&["default", "chatml", "llama2", "llama3", "mistral-v1", "zephyr"]),
        filter: String::new(),
        cursor: 0,
    }
}

// --- log lines ---------------------------------------------------------------

#[test]
fn log_lines_are_reduced_to_what_a_terminal_would_show() {
    let overall = "\r[FLM]  Overall progress:  1/6 files";
    assert_eq!(visible_line(overall), "[FLM]  Overall progress:  1/6 files");

    let progress = "\u{1b}[?25l\r\u{1b}[K[FLM]  Downloading: 0.0% (0.0MB / 2340.0MB)\
                    \r\u{1b}[K[FLM]  Downloading: 0.3% (6.0MB / 2340.0MB)\
                    \r\u{1b}[K[FLM]  Downloading: 100.0% (2340.0MB / 2340.0MB)\u{1b}[?25h";
    assert_eq!(visible_line(progress), "[FLM]  Downloading: 100.0% (2340.0MB / 2340.0MB)");

    assert_eq!(
        visible_line("\u{1b}[?25l\u{1b}[?25h[FLM]  Checking Hash..."),
        "[FLM]  Checking Hash..."
    );
    assert_eq!(visible_line("\u{1b}[?25l\u{1b}[?25h"), "");
    assert_eq!(visible_line("plain server line"), "plain server line");
    assert_eq!(visible_line("\u{1b}[31mred\u{1b}[0m text"), "red text");
}

#[test]
fn rendered_log_width_matches_what_the_terminal_draws() {
    let arrow = visible_line("[\u{2B07}\u{FE0F} ]  Incoming Request: GET");
    assert_eq!(arrow, "[\u{2B07} ]  Incoming Request: GET");
    assert!(!arrow.chars().any(is_variation_selector));
    assert_eq!(arrow.width(), arrow.chars().count());

    let link = visible_line("[\u{1F517} ]  TCP connection established");
    assert!(link.starts_with("[\u{1F517}"));
    assert_eq!(link.width(), link.chars().count() + 1);
}

#[test]
fn no_rendered_log_line_can_carry_control_bytes() {
    let nasty = "\u{1b}[2J\u{1b}]0;title\u{7}\rone\u{1b}[Ktwo\u{0}\u{8}";
    let rendered = visible_line(nasty);
    assert!(
        !rendered.chars().any(|c| c.is_control() && c != '\t'),
        "control byte survived: {rendered:?}"
    );
    assert_eq!(rendered, "onetwo");
}

#[test]
fn a_log_tail_keeps_the_last_lines() {
    let bytes = b"one\ntwo\r\nthr\xffee\nfour\n";
    assert_eq!(read_log_tail(bytes, 2), ["thr\u{FFFD}ee", "four"]);
    assert_eq!(read_log_tail(bytes, 10).len(), 4);
    assert_eq!(log_tail("a\nb", 1), ["b"]);
}

// --- lists of values ---------------------------------------------------------

#[test]
fn selector_filters_case_insensitive_substring() {
    let mut sel = selector();
    sel.filter = "LLaMA".into();
    assert_eq!(sel.filtered(), vec!["llama2", "llama3"]);
    sel.filter = "tral".into();
    assert_eq!(sel.filtered(), vec!["mistral-v1"]);
    sel.filter = "nope".into();
    assert!(sel.filtered().is_empty());
    assert_eq!(sel.selected(), None);
}

#[test]
fn selector_selection_tracks_the_filtered_list() {
    let mut sel = selector();
    assert_eq!(sel.selected(), Some("default"));
    sel.filter = "llama".into();
    sel.cursor = 1;
    assert_eq!(sel.selected(), Some("llama3"));
    sel.cursor = 5;
    assert_eq!(sel.selected(), None);
}

#[test]
fn selector_keys_move_type_and_pick() {
    let mut sel = selector();
    assert_eq!(sel.key(Key::Down), SelectorAction::Nothing);
    assert_eq!(sel.cursor, 1);
    sel.key(Key::End);
    assert_eq!(sel.cursor, 5);
    sel.key(Key::Down);
    assert_eq!(sel.cursor, 5);
    sel.key(Key::Up);
    assert_eq!(sel.cursor, 4);
    sel.key(Key::Char('l'));
    assert_eq!((sel.filter.as_str(), sel.cursor), ("l", 0));
    sel.key(Key::Char('3'));
    assert!(sel.filtered().is_empty());
    sel.key(Key::Backspace);
    assert_eq!(sel.filter, "l");
    sel.key(Key::Home);
    assert_eq!(sel.key(Key::Enter), SelectorAction::Pick);
    assert_eq!(sel.key(Key::Esc), SelectorAction::Close);
}

#[test]
fn chat_template_enum_exceeds_the_selector_threshold() {
    let schema = OptionSchema::of(Dialect::LlamaCpp);
    let spec = schema.spec("chat-template").unwrap();
    let OptionKind::Enum(variants) = &spec.kind else {
        panic!("chat-template should be an enum");
    };
    assert!(variants.len() > SELECTOR_THRESHOLD);
    let flash = schema.spec("flash-attn").unwrap();
    let OptionKind::Enum(variants) = &flash.kind else {
        panic!("flash-attn should be an enum");
    };
    assert!(variants.len() <= SELECTOR_THRESHOLD);
}

#[test]
fn device_hotkeys_cycle_and_wrap_in_both_directions() {
    let devices = texts(&["ROCm0", "Vulkan0"]);
    assert_eq!(cycle_device(&devices, "default", 1), "ROCm0");
    assert_eq!(cycle_device(&devices, "ROCm0", 1), "Vulkan0");
    assert_eq!(cycle_device(&devices, "Vulkan0", 1), "default");
    assert_eq!(cycle_device(&devices, "default", -1), "Vulkan0");
    assert_eq!(cycle_device(&devices, "ROCm0", -1), "default");
}

#[test]
fn device_hotkeys_stay_at_default_when_no_devices_are_discovered() {
    assert_eq!(cycle_device(&Vec::new(), "default", 1), "default");
    assert_eq!(cycle_device(&Vec::new(), "stale-device", -1), "default");
}

// --- prompts -----------------------------------------------------------------

#[test]
fn a_prompt_edits_its_end_and_forgets_the_last_complaint() {
    let mut prompt = Prompt {
        kind: PromptKind::NewProfile,
        title: "name".into(),
        buffer: " ab".into(),
        error: Some("taken".into()),
    };
    assert_eq!(prompt.key(Key::Left), PromptAction::Nothing);
    assert!(prompt.error.is_some());
    assert_eq!(prompt.key(Key::Char('c')), PromptAction::Nothing);
    assert_eq!(prompt.error, None);
    prompt.key(Key::Backspace);
    prompt.key(Key::Backspace);
    assert_eq!(prompt.input(), "a");
    prompt.refuse("no".into());
    assert_eq!(prompt.error.as_deref(), Some("no"));
    assert_eq!(prompt.key(Key::Enter), PromptAction::Commit);
    assert_eq!(prompt.key(Key::Esc), PromptAction::Close);
}

#[test]
fn profile_names_are_checked() {
    let profiles = vec![Profile { name: "Fast".into(), builtin: true, favorite: false }];
    assert_eq!(validate_new_name(&profiles, ""), Err("name cannot be empty".to_string()));
    assert_eq!(validate_new_name(&profiles, "fAST"), Err("'fAST' already exists".to_string()));
    assert_eq!(validate_new_name(&profiles, "Slow"), Ok(()));
}

#[test]
fn a_device_is_chosen_from_a_list_and_only_on_the_options() {
    let option = OptionItem {
        key: "device".into(),
        value: "default".into(),
        default: "default".into(),
        range: None,
        cli: "--device".into(),
        description: String::new(),
    };
    let none: Option<&Backend> = None;
    assert!(matches!(open_editor(Pane::Profile, Some(&option), none), Editor::Nothing));
    let Editor::Select(list) = open_editor(Pane::Options, Some(&option), none) else {
        panic!("a list was expected");
    };
    assert_eq!(list.title, "Select device");
    assert_eq!(list.variants, ["default"]);
    let other = OptionItem { key: "port".into(), ..option };
    assert!(matches!(open_editor(Pane::Options, Some(&other), none), Editor::Nothing));
}

// --- dialogs -----------------------------------------------------------------

#[test]
fn replacing_a_dialog_changes_the_input_owner_but_preserves_notifications() {
    let mut modals = Modals::default();
    modals.set_help(true);
    modals.set_prompt(Some(Prompt {
        kind: PromptKind::NewProfile,
        title: "name".into(),
        buffer: String::new(),
        error: None,
    }));
    assert!(!modals.help());
    modals.set_search(None);
    assert!(modals.prompt().is_some(), "closing an absent search must not close an editor");
    modals.message = Some(Message { title: "save failed".into(), lines: vec![] });
    modals.set_prompt(None);
    assert!(modals.message.is_some(), "finishing an edit must not hide a save error");
    assert!(modals.active.is_none());
}

#[test]
fn a_dialog_can_be_changed_in_place_and_taken() {
    let mut modals = Modals::default();
    modals.set_selector(Some(selector()));
    assert_eq!(modals.overlay(), Overlay::Selector);
    modals.selector_mut().unwrap().cursor = 3;
    assert!(modals.prompt_mut().is_none());
    assert_eq!(modals.selector().unwrap().cursor, 3);
    assert!(modals.take_confirm().is_none());
    assert_eq!(modals.take_selector().unwrap().cursor, 3);
    assert_eq!(modals.overlay(), Overlay::Nothing);
}

// --- keys --------------------------------------------------------------------

#[test]
fn a_message_takes_the_keys_before_any_dialog_and_any_screen() {
    assert_eq!(input_owner(true, Overlay::Prompt, Screen::Logs), InputOwner::Message);
    assert_eq!(input_owner(false, Overlay::Prompt, Screen::Logs), InputOwner::Prompt);
    assert_eq!(
        input_owner(false, Overlay::Nothing, Screen::Logs),
        InputOwner::Screen(Screen::Logs)
    );
    assert!(closes_help(Key::Char('q')) && closes_help(Key::Esc) && !closes_help(Key::Enter));
}

#[test]
fn browser_keys_depend_on_the_focus() {
    let mut facts = BrowserFacts { focus: Pane::Model, online: true, views: 2, download: true };
    assert_eq!(on_key_browser(Key::Char('s'), &facts), BrowserAction::NextSort);
    facts.online = false;
    assert_eq!(on_key_browser(Key::Char('s'), &facts), BrowserAction::NextView);
    facts.views = 1;
    assert_eq!(on_key_browser(Key::Char('s'), &facts), BrowserAction::Start);
    assert_eq!(on_key_browser(Key::Char('d'), &facts), BrowserAction::Download);
    assert_eq!(on_key_browser(Key::Home, &facts), BrowserAction::First);
    facts.focus = Pane::Options;
    assert_eq!(on_key_browser(Key::Char('d'), &facts), BrowserAction::ResetOption);
    assert_eq!(on_key_browser(Key::Home, &facts), BrowserAction::Least);
    assert_eq!(on_key_browser(Key::Enter, &facts), BrowserAction::Edit);
    assert_eq!(on_key_browser(Key::Right, &facts), BrowserAction::Enter);
    assert_eq!(on_key_browser(Key::F(5), &facts), BrowserAction::Refresh);
    facts.focus = Pane::Profile;
    assert_eq!(on_key_browser(Key::Char('d'), &facts), BrowserAction::DeleteProfile);
    assert_eq!(on_key_sessions(Key::Char('K')), SessionsAction::Kill);
    assert_eq!(on_key_logs(Key::PageDown), LogAction::Scroll(Scroll::Down(10)));
}

// --- panes and jobs ----------------------------------------------------------

#[test]
fn panes_go_from_left_to_right() {
    assert_eq!(Pane::Runtime.next().next().next().next(), Pane::Options);
    assert_eq!(Pane::Model.prev().prev(), Pane::Runtime);
    assert_eq!((Pane::Profile.index(), Pane::Profile.title()), (2, "Profile"));
}

#[test]
fn a_selection_stops_at_both_ends() {
    let mut list = PaneList::new(vec![10, 20, 30]);
    assert_eq!(list.selected(), Some(&10));
    list.move_by(isize::MIN);
    assert_eq!(list.state.selected(), Some(0));
    list.move_by(isize::MAX);
    assert_eq!(list.selected(), Some(&30));
    list.move_by(-1);
    assert_eq!(list.selected(), Some(&20));
    list.replace(vec![]);
    assert!(list.is_empty() && list.selected().is_none());
    list.select_last();
    assert_eq!(list.state.selected(), None);
}

#[test]
fn removing_jobs_clamps_selection_and_empty_lists_clear_it() {
    let mut view = SessionViewState::default();
    view.selection.select(Some(4));
    view.sync_selection(2);
    assert_eq!(view.selection.selected(), Some(1));
    view.move_selection(isize::MIN, 2);
    assert_eq!(view.selection.selected(), Some(0));
    view.sync_selection(0);
    assert_eq!(view.selection.selected(), None);
}

#[test]
fn selecting_last_on_an_empty_list_clears_the_selection() {
    let mut view = SessionViewState::default();
    view.selection.select(Some(2));
    view.select_last(0);
    assert_eq!(view.selection.selected(), None);

    view.select_last(3);
    assert_eq!(view.selection.selected(), Some(2));
}

#[test]
fn scrolling_stops_following_until_the_bottom() {
    let mut view = SessionViewState::default();
    view.scroll(Scroll::Down(10));
    assert!(!view.log_follow && view.log_scroll == 10);
    view.scroll(Scroll::Up(11));
    assert_eq!(view.log_scroll, 0);
    view.log_scroll = u16::MAX - 1;
    view.scroll(Scroll::Down(10));
    assert_eq!(view.log_scroll, u16::MAX);
    view.scroll(Scroll::Bottom);
    assert!(view.log_follow);
}

#[test]
fn rows_are_servers_and_then_downloads() {
    let mut state = ListState::new();
    assert_eq!(selected_job(&state, 2, 1), Job::Nothing);
    state.select(Some(1));
    assert_eq!(selected_job(&state, 2, 1), Job::Server(1));
    state.select(Some(2));
    assert_eq!(selected_job(&state, 2, 1), Job::Download(0));
    state.select(Some(3));
    assert_eq!(selected_job(&state, 2, 1), Job::Nothing);
}

// --- the browser -------------------------------------------------------------

#[test]
fn entering_and_leaving_a_directory_restores_its_parent_selection() {
    let directory = |name: &str| blank(name, &[name]);
    let mut browser = BrowserState::new(vec![]);
    browser.focus = Pane::Model;
    browser.models.replace(vec![directory("first"), directory("second")]);
    browser.models.state.select(Some(1));
    assert!(!browser.enter_directory(), "an empty preview cannot be entered");
    browser.catalog_preview = vec![directory("child")];
    assert!(browser.enter_directory());
    assert_eq!(browser.catalog_prefix, ["second"]);
    assert_eq!(browser.models.state.selected(), Some(0));
    assert!(browser.back_directory());
    assert_eq!(browser.models.state.selected(), Some(1));
    assert!(browser.catalog_prefix.is_empty());
    assert!(!browser.back_directory());
}

#[test]
fn going_back_from_the_topmost_folder_moves_the_focus() {
    let mut browser = BrowserState::new(vec![]);
    browser.focus = Pane::Model;
    assert!(!browser.go_back());
    assert_eq!(browser.focus, Pane::Runtime);
    assert!(!browser.enter());
    assert_eq!(browser.focus, Pane::Runtime, "an empty pane is not entered");
    browser.models.replace(vec![blank("one", &["one"])]);
    browser.enter();
    assert_eq!(browser.focus, Pane::Model);
    assert_eq!(browser.breadcrumb(), ["one"]);
    assert_eq!(browser.status(false), ("one".to_string(), "catalog directory".to_string()));
}

#[test]
fn the_status_of_a_stored_model_names_what_it_is() {
    let mut browser = BrowserState::new(vec![]);
    browser.focus = Pane::Model;
    let mut model = blank("m", &["models", "m"]);
    model.path = "/m/m-Q4_K_M.gguf".into();
    model.size_bytes = 1536;
    model.quantization = Some("Q4_K_M".into());
    model.context_length = Some(4096);
    model.has_chat_template = true;
    model.projector_path = Some("/m/mmproj.gguf".into());
    model.modified = Some(86_400);
    browser.models.replace(vec![model]);
    assert_eq!(
        browser.status(false),
        (
            "/m/m-Q4_K_M.gguf".to_string(),
            "1.5 KB · Q4_K_M · ctx 4096 · chat-template · projector mmproj.gguf · 1970-01-02"
                .to_string()
        )
    );
    let mut online = blank("f", &["online", "huggingface", "o/r", "f"]);
    online.remote = Some(RemoteModel { likes: 3, downloads: 7, ..remote("o/r", Some("f.gguf")) });
    online.size_bytes = 512;
    browser.models.replace(vec![online]);
    assert_eq!(
        browser.status(false),
        ("hf://o/r/f.gguf".to_string(), "7 downloads · 3 likes · remote · 512 B".to_string())
    );
    assert!(browser.download_available());
    assert!(!browser.benchmark_available());
}

#[test]
fn arrangements_are_cycled() {
    assert_eq!(cycle_catalog_view(0, 2), 1);
    assert_eq!(cycle_catalog_view(1, 2), 0);
    assert_eq!(cycle_catalog_view(3, 1), 3);
    assert_eq!(cycle_catalog_view(usize::MAX, 2), 0);
}

// --- the catalog -------------------------------------------------------------

fn flm_catalog_entry(tag: &str, label: &str) -> Model {
    let mut model = blank(tag, &["online", label, tag]);
    model.id = format!("flm:{tag}");
    model.has_chat_template = true;
    model.runtime = llmctl::runtime::flm::NAME.into();
    model.flm = Some(FlmModel {
        tag: tag.into(),
        installed: false,
        repo: format!("FastFlowLM/{tag}"),
        revision: "main".into(),
        files: vec!["model.q4nx".into()],
        labels: vec![label.into()],
        vlm: false,
        asr: false,
        max_prefill_len: None,
    });
    model
}

#[test]
fn flat_catalog_walks_from_the_group_straight_to_the_models() {
    let mut flat = flm_catalog_entry("qwen3:4b", "reasoning");
    flat.catalog_path = texts(&["online", "qwen3:4b"]);
    let mut other = flm_catalog_entry("gpt-oss:20b", "chat");
    other.catalog_path = texts(&["online", "gpt-oss:20b"]);
    let mut local = flm_catalog_entry("qwen3:0.6b", "chat");
    local.catalog_path = texts(&["local", "qwen3:0.6b"]);
    let source = vec![flat, other, local];

    let top = catalog_children_of(&source, &Vec::new());
    assert_eq!(top.iter().map(|m| m.name.clone()).collect::<Vec<_>>(), ["local", "online"]);
    assert!(top.iter().all(|m| m.is_catalog_dir()));

    let online = catalog_children_of(&source, &texts(&["online"]));
    assert_eq!(online.len(), 2);
    assert!(online.iter().all(|m| m.is_model()), "flat entries must be leaves");
    assert!(online.iter().any(|m| m.name == "qwen3:4b"));
}

#[test]
fn artifacts_go_by_size_and_unknown_sizes_go_last() {
    let hub = ["online", "huggingface", "o/r"];
    let mut repository = blank("o/r", &hub);
    repository.remote = Some(remote("o/r", None));
    let mut list = vec![repository];
    for (name, size) in [("b.gguf", 0), ("A.gguf", 9), ("c.gguf", 3), ("a.gguf", 9)] {
        let mut m = blank(name, &[hub[0], hub[1], hub[2], name]);
        m.remote = Some(remote("o/r", Some(name)));
        m.size_bytes = size;
        list.push(m);
    }
    let names = |v: Vec<Model>| v.into_iter().map(|m| m.name).collect::<Vec<_>>();
    let artifacts = online_artifact_children(&list, &texts(&hub)).unwrap();
    assert_eq!(names(artifacts), ["c.gguf", "A.gguf", "a.gguf", "b.gguf"]);
    assert!(online_artifact_children(&list, &texts(&hub[..2])).is_none());
    assert!(online_repository_children(&list, &texts(&hub)).is_none());
    let repositories = catalog_children(&list, &texts(&hub[..2]));
    assert_eq!(names(repositories), ["o/r"]);
}

#[test]
fn a_route_leads_to_an_entry_or_nowhere() {
    let mut leaf = blank("m", &["models", "team", "m"]);
    leaf.path = "/m.gguf".into();
    let source = vec![leaf];
    let route = catalog_route(&source, &texts(&["models", "team", "m"])).unwrap();
    assert_eq!(route.prefix, ["models", "team"]);
    assert_eq!(route.history.len(), 2);
    assert_eq!(route.items[route.selected].name, "m");
    assert!(catalog_route(&source, &texts(&["models", "other"])).is_none());
    assert!(catalog_route(&source, &texts(&["models", "team", "m", "x"])).is_none());
    assert!(catalog_route(&source, &Vec::new()).is_none());

    let mut browser = BrowserState::new(vec![]);
    assert!(browser.jump_to_model(&source, "m"));
    assert_eq!(browser.catalog_prefix, ["models", "team"]);
    assert_eq!(browser.focus, Pane::Model);
    assert!(!browser.jump_to_model(&source, "absent"));
    let store = ProfileStore::new();
    browser.focus = Pane::Runtime;
    assert!(browser.descend_to_prefix(&source, &store, &texts(&["models", "gone"])));
    assert_eq!(browser.catalog_prefix, ["models"], "inside, whatever the focus");
    assert_eq!(browser.models.selected().unwrap().name, "team");
    assert_eq!(browser.focus, Pane::Runtime);
    assert!(!browser.descend_to_prefix(&source, &store, &texts(&["gone"])));
    assert_eq!(browser.catalog_prefix, ["models"]);
}

// --- searching ---------------------------------------------------------------

#[test]
fn search_indices_address_the_list_they_were_ranked_against() {
    let flm: Vec<Model> =
        (0..54).map(|i| flm_catalog_entry(&format!("qwen3:{i}b"), "reasoning")).collect();

    let scope = texts(&["online", "reasoning"]);
    let ranked = rank_models(&flm, "qwen3", &scope, false);
    assert!(!ranked.is_empty());
    for index in &ranked {
        assert!(*index < flm.len(), "index {index} escapes a {}-entry list", flm.len());
        assert_eq!(flm[*index].runtime, llmctl::runtime::flm::NAME);
    }

    assert!(rank_models(&flm, "qwen3", &scope, true).is_empty());
}

#[test]
fn the_best_fit_comes_first() {
    let mut list = Vec::new();
    for name in ["other-qwen", "Qwen-large.gguf", "qwen.gguf", "llama"] {
        list.push(blank(name, &["models", name]));
    }
    let ranked = rank_models(&list, "QWEN", &Vec::new(), false);
    let names: Vec<&str> = ranked.iter().map(|i| list[*i].name.as_str()).collect();
    assert_eq!(names, ["qwen.gguf", "Qwen-large.gguf", "other-qwen"]);
    assert_eq!(rank_models(&list, "models llama", &Vec::new(), false), [3]);
}

#[test]
fn an_open_search_follows_its_keys() {
    let mut list = Vec::new();
    for name in ["alpha", "beta", "alphabet"] {
        list.push(blank(name, &[name]));
    }
    let mut search = ModelSearch::open(&list, Vec::new(), false);
    assert_eq!(search.result_indices, [0, 2, 1]);
    assert_eq!(search.key(Key::Down), SearchAction::Nothing);
    assert_eq!(search.cursor, 1);
    assert_eq!(search.key(Key::Char('b')), SearchAction::Changed);
    assert_eq!(search.cursor, 0);
    search.refresh(&list);
    assert_eq!(search.result_indices, [1, 2]);
    assert_eq!(search.search_results(&list)[0].name, "beta");
    assert!(matches!(search.pick(&list), Pick::Jump(id) if id == "beta"));
    assert_eq!(search.due(), None);
    search.online = true;
    assert_eq!(search.due().as_deref(), Some("b"));
    let mut repository = blank("o/r", &["online", "huggingface", "o/r"]);
    repository.remote = Some(remote("o/r", None));
    search.result_indices = vec![0];
    assert!(matches!(search.pick(&vec![repository]), Pick::Promote(_)));
    assert_eq!(search.key(Key::Esc), SearchAction::Close);
}

#[test]
fn local_search_scope_is_the_current_directory_not_the_hovered_child() {
    let prefix = texts(&["models", "team"]);
    let hovered = texts(&["models", "team", "project"]);
    assert_eq!(normalized_search_scope(Pane::Model, Some(&hovered), &prefix, true), prefix);
    assert!(normalized_search_scope(Pane::Runtime, Some(&hovered), &prefix, true).is_empty());
}

#[test]
fn online_search_scope_tracks_the_flat_repository_folder() {
    let online = texts(&["online"]);
    assert_eq!(
        normalized_search_scope(Pane::Model, Some(&online), &Vec::new(), true),
        vec!["online", "huggingface"]
    );

    assert_eq!(
        normalized_search_scope(Pane::Model, Some(&online), &Vec::new(), false),
        Vec::<String>::new()
    );
    let flm = texts(&["online", "reasoning"]);
    assert_eq!(normalized_search_scope(Pane::Model, None, &flm, false), flm);

    let repository = texts(&["online", "huggingface", "unsloth/model"]);
    assert_eq!(normalized_search_scope(Pane::Profile, None, &repository, true), repository);
}

#[test]
fn online_artifact_pane_uses_the_standard_model_title() {
    assert_eq!(
        model_catalog_title(
            &texts(&["online", "huggingface", "DreamFast/gemma-3-12b"]),
            Sort::Trending,
        ),
        "Model"
    );
}

#[test]
fn recursive_scope_excludes_siblings_and_the_other_source_kind() {
    let scope = texts(&["models", "team"]);
    let nested = texts(&["models", "team", "repo", "model"]);
    let sibling = texts(&["models", "other", "model"]);
    let online = texts(&["online", "huggingface", "owner/repo"]);

    assert!(catalog_entry_in_search_scope(&nested, false, &scope, false));
    assert!(!catalog_entry_in_search_scope(&scope, false, &scope, false));
    assert!(!catalog_entry_in_search_scope(&sibling, false, &scope, false));
    assert!(!catalog_entry_in_search_scope(&online, true, &scope, false));
    assert!(catalog_entry_in_search_scope(
        &online,
        true,
        &texts(&["online", "huggingface"]),
        true
    ));
}

// --- the online catalog ------------------------------------------------------

#[test]
fn answers_for_another_layout_do_not_count() {
    let mut state = OnlineState::new(Sort::Trending);
    let request = Request::Repositories(Sort::Trending);
    assert!(state.fetch_online(&request));
    assert!(!state.fetch_online(&request), "one request at a time");
    let mut models = vec![blank("local", &["models", "local"]), blank("old", &["online", "old"])];
    let fresh = || vec![blank("new", &["online", "new"])];
    let answer = |epoch, result| Response {
        epoch,
        request: Request::Repositories(Sort::Trending),
        result,
    };

    assert!(!state.reload_online_layout(&mut models), "the pending answer is awaited");
    let taken = state.poll_online(answer(0, Ok(fresh())), &mut models, None);
    assert!(matches!(taken, Answer::Reload));
    assert_eq!(models[1].name, "old");

    let next = state.perform_online_reload(&mut models, true, &Vec::new());
    assert!(matches!(next, Some(Request::Repositories(Sort::Trending))));
    assert_eq!(models.len(), 1);
    let taken = state.poll_online(answer(state.epoch, Ok(fresh())), &mut models, None);
    assert!(matches!(taken, Answer::Refreshed { restore: true }));
    assert_eq!(models[1].name, "new");
    assert!(state.pending.is_none());

    let taken = state.poll_online(answer(state.epoch, Err("down".into())), &mut models, None);
    let Answer::Failed(message) = taken else { panic!("a failure was expected") };
    assert_eq!(message.lines, ["down", "Cached entries remain available."]);
    assert_eq!(models.len(), 2);
}

#[test]
fn clearing_a_search_gives_back_the_list() {
    let mut state = OnlineState::new(Sort::Trending);
    let mut models = vec![blank("a", &["a"]), blank("b", &["b"])];
    let found = vec![blank("b", &["b"]), blank("c", &["c"])];
    state.replace_online_search_results(&mut models, &found);
    assert_eq!(models.iter().map(|m| m.id.as_str()).collect::<Vec<_>>(), ["a", "b", "c"]);
    assert_eq!(state.search_results, ["c"]);
    state.clear_online_search_results(&mut models);
    assert_eq!(models.len(), 2);
    state.search_due = Some("  ".into());
    assert!(state.poll_online_search(true).is_none());
    state.search_due = Some("qwen".into());
    assert!(state.poll_online_search(false).is_none());
    assert!(matches!(state.poll_online_search(true), Some(Request::Search { .. })));
    assert!(state.search_due.is_none());
}

#[test]
fn known_repositories_are_not_asked_for_again() {
    let mut artifact = blank("f", &["online", "huggingface", "o/r", "f"]);
    artifact.remote = Some(remote("o/r", Some("f.gguf")));
    let repository = blank("o/r", &["online", "huggingface", "o/r"]);
    let ask = |models: &Vec<Model>, force| {
        maybe_fetch_online(true, Some(&repository), models, Sort::Trending, force)
    };
    assert!(matches!(ask(&Vec::new(), false), Some(Request::Repository(r)) if r == "o/r"));
    assert!(ask(&vec![artifact.clone()], false).is_some(), "nothing says how to fetch it");
    artifact.path = "/cached".into();
    assert!(ask(&vec![artifact.clone()], false).is_none());
    assert!(ask(&vec![artifact.clone()], true).is_some());
    let fixed = maybe_fetch_online(false, Some(&repository), &Vec::new(), Sort::Trending, true);
    assert!(fixed.is_none(), "a fixed catalog asks nothing");
}

#[test]
fn listings_wait_for_their_runtime() {
    let ctx = |view, reload| CatalogCtx {
        sources: Vec::new(),
        cache_path: String::new(),
        models_dir: String::new(),
        view,
        reload,
    };
    let done = || CatalogResult { runtime: "flm".into(), models: Vec::new() };
    let mut jobs = CatalogJobs::new();
    assert!(jobs.is_idle());
    assert!(jobs.request("flm", ctx(0, false)).is_some());
    assert!(jobs.request("flm", ctx(1, true)).is_none());
    assert!(jobs.request("flm", ctx(2, false)).is_none());
    assert!(!jobs.is_idle());
    let Polled::Start(next) = jobs.poll(done()) else { panic!("the waiting request starts") };
    assert!(next.view == 2 && next.reload);
    assert!(matches!(jobs.poll(done()), Polled::Deliver(_)));
    assert!(jobs.is_idle());
}

// --- downloads ---------------------------------------------------------------

#[test]
fn model_download_percentage_is_bounded() {
    assert_eq!(transfer_percent(0, 300), 0);
    assert_eq!(transfer_percent(201, 300), 67);
    assert_eq!(transfer_percent(400, 300), 100);
}

fn job(id: u64, source: DownloadSource) -> ModelDownload {
    ModelDownload {
        id,
        model_id: "model".into(),
        model: "model".into(),
        downloaded_bytes: 0,
        total_bytes: 100,
        status: ModelDownloadStatus::Downloading,
        source,
        cancelled: false,
    }
}

#[test]
fn stale_attempts_and_late_progress_cannot_overwrite_a_cancelled_job() {
    let mut manager = DownloadManager {
        jobs: vec![job(2, DownloadSource::Hub(remote("org/repo", Some("model.gguf"))))],
        next_id: 3,
    };
    manager.poll(vec![ModelDownloadEvent::Progress {
        id: 1,
        downloaded_bytes: 99,
        total_bytes: 100,
    }]);
    assert_eq!(manager.jobs[0].downloaded_bytes, 0);
    manager.poll(vec![ModelDownloadEvent::Progress {
        id: 2,
        downloaded_bytes: 50,
        total_bytes: 100,
    }]);
    manager.cancel(0);
    let changes = manager.poll(vec![
        ModelDownloadEvent::Progress { id: 2, downloaded_bytes: 98, total_bytes: 100 },
        ModelDownloadEvent::Finished { id: 2, result: Err("cancelled read".into()) },
    ]);
    assert_eq!(manager.jobs[0].downloaded_bytes, 50);
    assert!(matches!(manager.jobs[0].status, ModelDownloadStatus::Cancelled));
    assert!(changes.runtimes.is_empty() && changes.records.is_empty() && !changes.online);
}

#[test]
fn finished_downloads_say_what_changed() {
    let transfer = ModelTransfer {
        runtime: RuntimeId("FastFlowLM".into()),
        model: blank("m", &["m"]),
        targets: texts(&["/dir"]),
    };
    let mut manager = DownloadManager {
        jobs: vec![
            job(1, DownloadSource::Hub(remote("o/r", Some("f")))),
            job(2, DownloadSource::Backend(transfer)),
        ],
        next_id: u64::MAX,
    };
    assert_eq!(manager.jobs[1].targets("/hub"), ["/dir"]);
    let end = |id| ModelDownloadEvent::Finished {
        id,
        result: Ok(DownloadResult::Downloaded("/p".into())),
    };
    let changes = manager.poll(vec![end(1), end(2), end(2)]);
    assert!(changes.online);
    assert_eq!(changes.records, ["model"]);
    assert_eq!(changes.runtimes, ["FastFlowLM"]);
    assert_eq!(manager.jobs[0].percent(), 100);
    assert_eq!(manager.next_id(), u64::MAX);
    assert_eq!(manager.next_id(), 1, "zero is no number of an attempt");
}

#[test]
fn persisted_download_is_restored_as_interrupted() {
    let model_id = "online:huggingface:llmctl-tests/restart:model.gguf".to_string();
    let mut stored = remote("llmctl-tests/restart", Some("model.gguf"));
    stored.revision = Some("revision".into());
    stored.blobs = vec![RemoteBlob {
        oid: "cd".repeat(32),
        size_bytes: 42,
        file: "model.gguf".into(),
    }];
    let record = DownloadJobRecord::new(
        model_id.clone(),
        format!("{}/model.gguf", stored.repo),
        stored,
    );
    let records = vec![Recorded { record, downloaded: 0, finalized: false }];
    let (manager, done) = restore_model_downloads(&records);
    let downloads = manager.jobs;
    assert_eq!(downloads.len(), 1);
    assert_eq!(downloads[0].model_id, model_id);
    assert_eq!(downloads[0].downloaded_bytes, 0);
    assert_eq!(downloads[0].total_bytes, 42);
    assert!(matches!(downloads[0].status, ModelDownloadStatus::Interrupted));
    assert_eq!(manager.next_id, 2);
    assert!(done.is_empty());
}

#[test]
fn asking_for_a_download_says_what_follows() {
    let mut manager = DownloadManager { jobs: Vec::new(), next_id: 1 };
    let mut model = blank("m", &["online", "huggingface", "o/r", "m"]);
    assert!(matches!(
        manager.download_selected_model(&model, 0, true),
        DownloadStart::Nothing
    ));
    model.remote = Some(RemoteModel { gated: true, ..remote("o/r", Some("m.gguf")) });
    let DownloadStart::Refused(m) = manager.download_selected_model(&model, 0, false) else {
        panic!("a refusal was expected");
    };
    assert_eq!(m.lines, ["This gated model requires HF_TOKEN."]);
    let DownloadStart::Refused(m) = manager.download_selected_model(&model, 0, true) else {
        panic!("a refusal was expected");
    };
    assert!(m.lines[0].starts_with("Download metadata is unavailable"));
    let mut source = remote("o/r", Some("m.gguf"));
    source.blobs =
        vec![RemoteBlob { oid: "ab".into(), size_bytes: 10, file: "m.gguf".into() }];
    model.remote = Some(source.clone());
    let DownloadStart::Begin(name, total) = manager.download_selected_model(&model, 3, false)
    else {
        panic!("a start was expected");
    };
    assert_eq!((name.as_str(), total), ("o/r/m.gguf", 10));
    assert!(matches!(manager.download_selected_model(&model, 10, false), DownloadStart::Nothing));

    let id = manager.begin(&model.id, name, total, DownloadSource::Hub(source));
    assert_eq!(id, 1);
    assert!(matches!(manager.download_selected_model(&model, 3, false), DownloadStart::Reveal(0)));
    assert!(!manager.may_remove(0));
    manager.cancel(0);
    manager.poll(vec![ModelDownloadEvent::Finished { id, result: Ok(DownloadResult::Cancelled) }]);
    assert!(matches!(manager.download_selected_model(&model, 3, false), DownloadStart::Resume(0)));
    assert_eq!(manager.resume_record(0).unwrap().model, "o/r/m.gguf");
    assert_eq!(manager.resume_model_download(0, false), None, "its record could not be kept");
    assert_eq!(manager.resume_model_download(0, true), Some(3));
    assert!(manager.remove_async_job(0, &Ok(())).is_some());
    manager.poll(vec![ModelDownloadEvent::Finished { id: 3, result: Err("broken".into()) }]);
    let refused = manager.remove_async_job(0, &Err("denied".into())).unwrap();
    assert_eq!(refused.lines, ["Cannot remove persisted download state: denied"]);
    assert!(manager.remove_async_job(0, &Ok(())).is_none());
    assert!(manager.jobs.is_empty());
}
