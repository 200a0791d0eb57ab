use llmctl::app::hub::{
    downloaded_model, file_node, hub_file_downloaded, hub_pane_title, in_hub_tree,
    online_root_node, repo_node, repo_of, Download, DownloadState, HubChange, HubFetch, HubState,
    Opening,
};
use llmctl::hub::api::{
    authorization, describe, fitting_repo_files, repo_files, repo_url, resolve_url, search_models, search_url,
    urlencode, ApiGated, ApiModel, ApiRepo, ApiSibling, HttpError,
};
use llmctl::hub::download::{
    next_part, part_path, resume_offset, take_reply, Arrival, Outcome, PartStep, Reply,
};
use llmctl::hub::{repo_dir, FilePart, HubEvent, HubFile, HubModel, HubRepo};

fn texts(v: &[&str]) -> Vec<String> {
    v.iter().map(|s| s.to_string()).collect()
}

// --- the interface -----------------------------------------------------------

#[test]
fn parses_search_results_with_missing_optional_fields() {
    let json = r#"[
        {"id":"unsloth/Qwen3-GGUF","likes":184,"downloads":86454,
         "trendingScore":12.4,"createdAt":"2025-08-06T07:41:24.000Z"},
        {"id":"org/bare-model"}
    ]"#;
    let value: serde_json::Value = serde_json::from_str(json).unwrap();
    let answer = value
        .as_array()
        .unwrap()
        .iter()
        .map(|m| ApiModel {
            id: m["id"].as_str().unwrap().to_string(),
            likes: m["likes"].as_u64().unwrap_or(0),
            downloads: m["downloads"].as_u64().unwrap_or(0),
            created_at: m["createdAt"].as_str().map(str::to_string),
        })
        .collect();
    let models = search_models(&answer);
    assert_eq!(models.len(), 2);
    assert_eq!(models[0].id, "unsloth/Qwen3-GGUF");
    assert_eq!(models[0].likes, 184);
    assert_eq!(models[0].created.as_deref(), Some("2025-08-06"));
    assert_eq!(models[1].likes, 0);
    assert_eq!(models[1].created, None);
}

fn read_repo(json: &str) -> HubRepo {
    let value: serde_json::Value = serde_json::from_str(json).unwrap();
    let siblings = value["siblings"]
        .as_array()
        .unwrap()
        .iter()
        .map(|s| ApiSibling {
            rfilename: s["rfilename"].as_str().unwrap().to_string(),
            size: s["size"].as_u64(),
        })
        .collect();
    let gated = match &value["gated"] {
        serde_json::Value::Bool(flag) => ApiGated::Flag(*flag),
        serde_json::Value::String(mode) => ApiGated::Mode(mode.clone()),
        _ => ApiGated::Unsaid,
    };
    repo_files(&ApiRepo {
        gated,
        siblings,
        architecture: value["gguf"]["architecture"].as_str().map(str::to_string),
        context_length: value["gguf"]["context_length"].as_u64(),
    })
}

#[test]
fn parses_repo_and_groups_shards_into_one_artifact() {
    let repo = read_repo(
        r#"{
        "id":"org/model-GGUF",
        "gated":false,
        "gguf":{"architecture":"qwen3","context_length":262144},
        "siblings":[
            {"rfilename":"README.md"},
            {"rfilename":"mmproj-F16.gguf","size":10},
            {"rfilename":"model-Q4_K_M.gguf","size":90},
            {"rfilename":"UD-Q2_K_XL/model-UD-Q2_K_XL-00002-of-00002.gguf","size":30},
            {"rfilename":"UD-Q2_K_XL/model-UD-Q2_K_XL-00001-of-00002.gguf","size":70}
        ]
    }"#,
    );
    assert!(!repo.gated);
    assert_eq!(repo.architecture.as_deref(), Some("qwen3"));
    assert_eq!(repo.context_length, Some(262144));
    assert_eq!(repo.files.len(), 2);

    assert_eq!(repo.files[0].name, "model-Q4_K_M.gguf");
    assert_eq!(repo.files[0].quant.as_deref(), Some("Q4_K_M"));
    let sharded = &repo.files[1];
    assert_eq!(sharded.name, "UD-Q2_K_XL/model-UD-Q2_K_XL.gguf");
    assert_eq!(sharded.size_bytes, 100);
    assert_eq!(
        sharded.parts.iter().map(|p| p.rfilename.as_str()).collect::<Vec<_>>(),
        [
            "UD-Q2_K_XL/model-UD-Q2_K_XL-00001-of-00002.gguf",
            "UD-Q2_K_XL/model-UD-Q2_K_XL-00002-of-00002.gguf"
        ]
    );
}

#[test]
fn gated_mode_strings_count_as_gated() {
    let repo = read_repo(r#"{"id":"org/m","gated":"manual","siblings":[]}"#);
    assert!(repo.gated);
}

#[test]
fn resolve_url_percent_encodes_but_keeps_path_separators() {
    assert_eq!(
        resolve_url("org/repo", "UD Q2/model.gguf"),
        "https://huggingface.co/org/repo/resolve/main/UD%20Q2/model.gguf"
    );
}

#[test]
fn urlencode_covers_query_metacharacters() {
    assert_eq!(urlencode("qwen coder+7b&x=1"), "qwen%20coder%2B7b%26x%3D1");
}

#[test]
fn a_search_without_a_query_asks_for_everything() {
    let all = "https://huggingface.co/api/models?pipeline_tag=text-generation&library=gguf\
               &apps=llama.cpp&sort=trendingScore&limit=30";
    assert_eq!(search_url("  "), all);
    assert_eq!(search_url(" a b "), format!("{all}&search=a%20b"));
    assert_eq!(repo_url("o/r x"), "https://huggingface.co/api/models/o/r%20x?blobs=true");
    assert_eq!(authorization(&Some(" tok\n".into())).as_deref(), Some("Bearer tok"));
    assert_eq!(authorization(&Some("  ".into())), None);
    assert_eq!(authorization(&None), None);
}

#[test]
fn failed_requests_say_why() {
    assert!(describe(&HttpError::Status(403)).starts_with("access denied"));
    assert_eq!(describe(&HttpError::Status(500)), "Hugging Face returned HTTP 500");
    assert_eq!(describe(&HttpError::Transport("no route".into())), "network error: no route");
}

// --- downloading parts -------------------------------------------------------

#[test]
fn part_path_appends_the_part_suffix() {
    assert_eq!(part_path("/dl/org/repo/model-Q4.gguf"), "/dl/org/repo/model-Q4.gguf.part");
}

#[test]
fn already_complete_parts_are_skipped_and_counted() {
    let part = FilePart { rfilename: "done.gguf".into(), size: 4 };
    assert_eq!(next_part(&part, Some(4), 0), PartStep::Skip { done: 4 });
    assert_eq!(next_part(&part, Some(3), 0), PartStep::Fetch);
    assert_eq!(next_part(&part, None, 7), PartStep::Fetch);
    let unknown = FilePart { rfilename: "x".into(), size: 0 };
    assert_eq!(next_part(&unknown, Some(9), 1), PartStep::Skip { done: 10 });
}

#[test]
fn a_part_goes_on_where_it_stopped() {
    let part = FilePart { rfilename: "f.gguf".into(), size: 10 };
    assert_eq!(resume_offset(&part, Some(4)), 4);
    assert_eq!(resume_offset(&part, Some(10)), 0);
    assert_eq!(resume_offset(&part, None), 0);
    assert!(matches!(take_reply(4, false, &Ok(206)), Reply::From(4)));
    assert!(matches!(take_reply(4, false, &Ok(200)), Reply::From(0)));
    assert!(matches!(take_reply(4, false, &Err(HttpError::Status(416))), Reply::Restart));
    assert!(matches!(take_reply(0, true, &Err(HttpError::Status(416))), Reply::Failed(_)));
    let mut arrival = Arrival::begin(100, 4);
    arrival.wrote(5);
    assert_eq!(arrival.received(), 109);
    assert_eq!(
        arrival.end(&part).unwrap_err(),
        "f.gguf: got 9 of 10 bytes — connection dropped? retry to resume"
    );
    arrival.wrote(1);
    assert_eq!(arrival.end(&part), Ok(()));
}

#[test]
fn repo_dir_nests_owner_and_repo_under_the_root() {
    assert_eq!(repo_dir("/dl", "unsloth/Qwen3-4B-GGUF"), "/dl/unsloth/Qwen3-4B-GGUF");
}

#[test]
fn repo_dir_neutralizes_traversal_components() {
    assert_eq!(repo_dir("/dl", "../evil"), "/dl/_/evil");
    assert_eq!(repo_dir("/dl", "a//b"), "/dl/a/b");
}

// --- the tree ----------------------------------------------------------------

#[test]
fn hub_prefixes_are_recognized() {
    let deep = texts(&["online", "huggingface", "org/repo"]);
    assert!(in_hub_tree(&texts(&["online"])));
    assert!(in_hub_tree(&deep));
    assert!(!in_hub_tree(&texts(&["models", "online"])));
    assert_eq!(repo_of(&deep), Some("org/repo"));
    assert_eq!(repo_of(&deep[..2].to_vec()), None);
}

#[test]
fn remote_nodes_have_expected_shape() {
    let repo = repo_node(&HubModel { id: "org/repo".into(), likes: 1, downloads: 2, created: None });
    assert!(repo.is_catalog_dir());
    assert!(!repo.is_model());
    assert_eq!(repo.catalog_path, ["online", "huggingface", "org/repo"]);

    let file = file_node(
        "org/repo",
        &HubFile {
            name: "m-Q4_K_M.gguf".into(),
            quant: Some("Q4_K_M".into()),
            size_bytes: 9,
            parts: Vec::new(),
        },
    );
    assert!(file.is_remote_file());
    assert!(!file.is_catalog_dir());
    assert!(!file.is_model());
    assert_eq!(file.display_label(), "m-Q4_K_M.gguf");
    assert_eq!(file.size_bytes, 9);
    assert_eq!(file.quantization.as_deref(), Some("Q4_K_M"));
}

fn found(id: &str) -> HubModel {
    HubModel { id: id.into(), likes: 0, downloads: 0, created: None }
}

fn listing() -> HubRepo {
    HubRepo {
        gated: false,
        architecture: None,
        context_length: None,
        files: vec![HubFile {
            name: "m.gguf".into(),
            quant: None,
            size_bytes: 200,
            parts: vec![FilePart { rfilename: "m.gguf".into(), size: 200 }],
        }],
    }
}

#[test]
fn the_tree_fills_itself_once() {
    let mut hub = HubState::new();
    let top = texts(&["online"]);
    assert!(matches!(hub.hub_ensure_loaded(&texts(&["models"])), HubFetch::Nothing));
    assert!(matches!(hub.hub_ensure_loaded(&top), HubFetch::Search { epoch: 1, .. }));
    assert_eq!(hub.hub_activity(), Some(("Loading trending models…".to_string(), false)));
    assert!(matches!(hub.hub_ensure_loaded(&top), HubFetch::Nothing));
    assert!(matches!(hub.hub_search(" qwen ".into()), HubFetch::Search { epoch: 2, .. }));
    assert_eq!(hub.loading.as_deref(), Some("Searching “qwen”…"));

    let stale = HubEvent::SearchResults { epoch: 1, result: Ok(vec![found("a/b")]) };
    assert!(matches!(hub.drain_hub_event(stale, false), HubChange::Nothing));
    assert!(hub.results.is_empty());
    let fresh = HubEvent::SearchResults { epoch: 2, result: Ok(vec![found("o/r")]) };
    assert!(matches!(hub.drain_hub_event(fresh, false), HubChange::Tree));
    let open = HubEvent::SearchResults { epoch: 2, result: Ok(vec![found("x/y")]) };
    assert!(matches!(hub.drain_hub_event(open, true), HubChange::Found(v) if v[0].id == "x/y"));

    let root = hub.hub_children(&top).unwrap();
    assert_eq!(root[0].catalog_path, ["online", "huggingface"]);
    assert_eq!(online_root_node().catalog_path, ["online"]);
    let repositories = hub.hub_children(&root[0].catalog_path).unwrap();
    assert_eq!(repositories[0].name, "o/r");
    assert_eq!(hub.hub_repo_meta(&repositories[0]).unwrap().id, "o/r");
    assert!(matches!(
        hub.hub_prefetch_on_preview(&repositories[0]),
        HubFetch::Listing(repo) if repo == "o/r"
    ));
    assert!(matches!(hub.hub_fetch_listing("o/r"), HubFetch::Nothing));
    let files = HubEvent::RepoFiles { repo: "o/r".into(), result: Ok(listing()) };
    assert!(matches!(hub.drain_hub_event(files, false), HubChange::Tree));
    assert!(hub.pending_repos.is_empty());
    let files = hub.hub_children(&repositories[0].catalog_path).unwrap();
    assert_eq!(files[0].name, "m.gguf");
    assert!(hub.hub_children(&texts(&["models"])).is_none());
    assert_eq!(hub_pane_title(&repositories[0].catalog_path), "Files — o/r");
    assert_eq!(hub_pane_title(&top), "Model");
    assert!(matches!(
        hub.hub_refresh_current(&repositories[0].catalog_path),
        HubFetch::Listing(_)
    ));
    let failed = HubEvent::RepoFiles { repo: "o/r".into(), result: Err("gone".into()) };
    hub.drain_hub_event(failed, false);
    assert_eq!(hub.hub_activity(), Some(("gone".to_string(), true)));
}

#[test]
fn a_file_is_downloaded_opened_or_stopped() {
    let mut hub = HubState::new();
    hub.drain_hub_event(
        HubEvent::RepoFiles { repo: "o/r".into(), result: Ok(listing()) },
        false,
    );
    let node = hub.hub_children(&texts(&["online", "huggingface", "o/r"])).unwrap().remove(0);
    let (repo, file) = hub.hub_selected_artifact(&node).unwrap();
    assert_eq!(hub.hub_file_marker(&node, false), None);
    assert_eq!(hub.hub_file_marker(&node, true).as_deref(), Some("✓ downloaded"));
    assert!(matches!(hub.hub_download_or_open(&repo, &file, true), Opening::Open));
    assert!(matches!(hub.hub_download_or_open(&repo, &file, false), Opening::Begin(1)));
    assert!(matches!(hub.hub_download_or_open(&repo, &file, false), Opening::Nothing));
    hub.downloads[0].received = 50;
    assert_eq!(hub.hub_file_marker(&node, false).as_deref(), Some("⇣ 50 B / 200 B (25%)"));
    assert_eq!(
        hub.hub_activity(),
        Some(("⇣ m.gguf 50 B / 200 B (25%)".to_string(), false))
    );
    hub.hub_cancel_selected(&repo, &file.name);
    assert!(hub.download_for(&repo, &file.name).unwrap().cancelling());
    assert_eq!(hub.hub_file_marker(&node, false).as_deref(), Some("cancelling…"));
    let end = |id, result| HubEvent::DownloadDone { id, result };
    assert!(matches!(
        hub.drain_hub_event(end(1, Ok(Outcome::Cancelled)), false),
        HubChange::Nothing
    ));
    assert_eq!(
        hub.hub_file_marker(&node, false).as_deref(),
        Some("cancelled — Enter resumes")
    );
    assert!(matches!(hub.hub_download_or_open(&repo, &file, false), Opening::Begin(2)));
    assert_eq!(hub.downloads.len(), 1, "the earlier attempt is gone");
    hub.drain_hub_event(end(2, Err("full".into())), false);
    assert_eq!(hub.hub_file_marker(&node, false).as_deref(), Some("✗ full"));
    hub.hub_download_or_open(&repo, &file, false);
    assert!(matches!(
        hub.drain_hub_event(end(3, Ok(Outcome::Done)), false),
        HubChange::Arrived
    ));
    assert!(matches!(
        hub.drain_hub_event(end(9, Ok(Outcome::Done)), false),
        HubChange::Nothing
    ));
    assert!(hub_file_downloaded(&file, &vec![Some(200)]));
    assert!(!hub_file_downloaded(&file, &vec![Some(199)]));
    assert!(!hub_file_downloaded(&file, &vec![None]));
    let mut stored = node.clone();
    stored.shard_paths = texts(&["/dl/o/r/m.gguf"]);
    assert_eq!(downloaded_model(&vec![stored], "/dl/o/r//m.gguf"), Some(node.id.clone()));
}

#[test]
fn progress_is_told_with_and_without_a_total() {
    let mut d = Download {
        id: 1,
        repo: "o/r".into(),
        file: "f".into(),
        total: 0,
        received: 1536,
        cancel: false,
        state: DownloadState::Running,
    };
    assert_eq!(d.progress_label(), "1.5 KB");
    d.total = 1024;
    assert_eq!(d.progress_label(), "1.5 KB / 1.0 KB (100%)");
    assert_eq!(d.received_bytes(), 1536);
    d.cancel = true;
    d.state = DownloadState::Done;
    assert!(!d.cancelling());
}

#[test]
fn sizes_have_to_fit_artifact_by_artifact_on_the_hub() {
    let repo = |files: &[(&str, u64)]| ApiRepo {
        gated: ApiGated::Unsaid,
        siblings: files
            .iter()
            .map(|(name, size)| ApiSibling { rfilename: name.to_string(), size: Some(*size) })
            .collect(),
        architecture: None,
        context_length: None,
    };
    let apart = fitting_repo_files(&repo(&[("a.gguf", u64::MAX), ("b.gguf", 2)])).unwrap();
    assert_eq!(apart.files.len(), 2);
    let together =
        repo(&[("m-00001-of-00002.gguf", u64::MAX), ("m-00002-of-00002.gguf", 2)]);
    assert!(fitting_repo_files(&together).is_none());
}
