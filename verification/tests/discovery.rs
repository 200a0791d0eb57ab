use llmctl::config::{ModelLayout, ModelSourceConfig};
use llmctl::discovery::catalog::{catalog_path, resolved_layout, short_hash, ModelSource};
use llmctl::discovery::fastflowlm::{
    build_models, discover, json_payload, parse_port, safe_tag, sort_models, version_at_least,
    Entry, FastFlowProbe, FastFlowValidation,
};
use llmctl::discovery::fetch::{Ending, Event, Fetch, Order, Phase};
use llmctl::discovery::gguf::{file_type_label, read_gguf_info, GgufError};
use llmctl::discovery::hf::{
    after_attempt, before_attempt, exhausted_message, incomplete_message, range_header,
    refusal_message, refused, resolve_url, retryable_http_status, tree_url, wait_slice,
    AttemptEnd, Next, RetryPolicy, Start, Transfer, PROGRESS_INTERVAL,
};
use llmctl::discovery::manifest::{
    is_stale, leaf_of, mark_stale, reconcile, reconcile_cache_link, reconcile_link, LinkState,
    LinkStep,
};
use llmctl::discovery::models::{
    aggregate_size, build_model, is_candidate, is_first_shard, is_gguf, is_projector, shard_paths,
};
use llmctl::discovery::pairing::{pair_companions, Companion};
use llmctl::discovery::runtimes::{
    binary_candidates, discover_llama_cpp, discover_vllm, version_line,
};
use llmctl::discovery::scan::{
    main_ref_path, needs_header, prefer_huggingface_candidate, resolve_prefix_collisions, scan,
    Candidate, Found,
};
use llmctl::discovery::shards::quant_from_filename;
use llmctl::discovery::sources::{
    default_model_sources, expand, resolve_model_sources, SourceEnv,
};
use llmctl::domain::Model;

fn texts(v: &[&str]) -> Vec<String> {
    v.iter().map(|s| s.to_string()).collect()
}

fn source(name: &str, root: &str, layout: ModelLayout) -> ModelSource {
    ModelSource { name: name.into(), root: root.into(), layout }
}

fn model(id: &str, path: &str, catalog_path: &[&str]) -> Model {
    Model {
        id: id.into(),
        name: path.rsplit('/').next().unwrap().to_string(),
        path: path.into(),
        shard_paths: vec![path.into()],
        mtp_path: None,
        dflash_path: None,
        dflash_block_size: None,
        projector_path: None,
        has_mtp: false,
        catalog_path: texts(catalog_path),
        catalog_dir: String::new(),
        size_bytes: 0,
        quantization: None,
        architecture: None,
        context_length: None,
        modified: None,
        has_chat_template: false,
        remote: None,
        flm: None,
        hub: None,
        folder: false,
        runtime: "llama.cpp".into(),
    }
}

// --- places in the catalog ---------------------------------------------------

#[test]
fn parses_lmstudio_relative_tree() {
    let src = source("lmstudio", "/home/u/.lmstudio/models", ModelLayout::Auto);
    let path = "/home/u/.lmstudio/models/unsloth/Qwen3.6-35B-A3B-MTP-GGUF/Qwen3.6-Q8_0.gguf";
    assert_eq!(
        catalog_path(&src, path, "Qwen3.6-Q8_0.gguf"),
        ["lmstudio", "unsloth", "Qwen3.6-35B-A3B-MTP-GGUF", "Qwen3.6-Q8_0"]
    );
}

#[test]
fn removes_huggingface_snapshot_storage_components() {
    let src = source("huggingface", "/home/u/.cache/huggingface/hub", ModelLayout::Auto);
    let path =
        "/home/u/.cache/huggingface/hub/models--unsloth--Qwen3-GGUF/snapshots/abc/Qwen3-Q6_K.gguf";
    assert_eq!(
        catalog_path(&src, path, "Qwen3-Q6_K.gguf"),
        ["huggingface", "unsloth", "Qwen3-GGUF", "Qwen3-Q6_K"]
    );
}

#[test]
fn preserves_custom_relative_layout() {
    let src = source("archive", "/data/models", ModelLayout::Directory);
    let path = "/data/models/experimental/qwen/Qwen3-Q4.gguf";
    assert_eq!(
        catalog_path(&src, path, "Qwen3-Q4.gguf"),
        ["archive", "experimental", "qwen", "Qwen3-Q4"]
    );
}

#[test]
fn auto_layout_ignores_models_prefix_in_the_source_root() {
    let src = source("mirror", "/data/models--mirror/store", ModelLayout::Auto);
    let path = "/data/models--mirror/store/team/model.gguf";
    assert_eq!(resolved_layout(&src, path), ModelLayout::Directory);
    assert_eq!(catalog_path(&src, path, "model.gguf"), ["mirror", "team", "model"]);
}

#[test]
fn short_hashes_are_eight_digits() {
    assert_eq!(short_hash(""), "cbf29ce4");
    assert_eq!(short_hash("a"), "af63dc4c");
}

// --- the managed catalog -----------------------------------------------------

#[test]
fn reconciles_manifest_symlink_and_profile_directory() {
    let source = "/tmp/r/source.gguf";
    let mut models = vec![model("local:test", source, &["local", "Test"])];
    models[0].name = "Test.gguf".into();
    models[0].size_bytes = 4;
    let manifests = reconcile("/tmp/r/catalog", &mut models, &vec![true]);
    assert_eq!(models[0].catalog_dir, "/tmp/r/catalog/local/Test");
    assert_eq!(manifests.len(), 1);
    let (leaf, manifest) = &manifests[0];
    assert_eq!(leaf, "/tmp/r/catalog/local/Test");
    assert_eq!(manifest.source, "local");
    assert_eq!(manifest.artifact.source_path, source);
    assert!(manifest.available && manifest.schema == 1);
    assert_eq!(reconcile_link(&LinkState::Missing, source), LinkStep::Create);
}

#[test]
fn only_links_are_ever_replaced() {
    let to = |p: &str| LinkState::To(p.into());
    assert_eq!(reconcile_link(&to("/a//b"), "/a/b"), LinkStep::Keep);
    assert_eq!(reconcile_link(&to("/a/c"), "/a/b"), LinkStep::Replace);
    assert_eq!(reconcile_link(&LinkState::Other, "/a/b"), LinkStep::Refuse);
    assert_eq!(reconcile_cache_link(&LinkState::Other, true, "/a"), LinkStep::Keep);
    assert_eq!(reconcile_cache_link(&to("/gone"), false, "/a"), LinkStep::Replace);
    assert_eq!(reconcile_cache_link(&LinkState::Missing, false, "/a"), LinkStep::Create);
}

#[test]
fn a_directory_without_a_model_is_stale_once() {
    let mut models = vec![model("a", "/a.gguf", &["src", "a"])];
    let mut manifests = reconcile("/c", &mut models, &vec![true]);
    assert!(reconcile("/c", &mut models, &vec![false]).is_empty());
    let live = vec![leaf_of("/c", &models[0])];
    assert!(!is_stale("/c/src/a", &live));
    assert!(is_stale("/c/src/b", &live));
    assert!(mark_stale(&mut manifests[0].1));
    assert!(!mark_stale(&mut manifests[0].1));
}

// --- FastFlowLM --------------------------------------------------------------

fn entry(tag: &str, installed: bool) -> Entry {
    Entry {
        model: tag.into(),
        name: String::new(),
        installed,
        default_context_length: None,
        max_prefill_len: None,
        flm_min_version: None,
        size_bytes: 0,
        label: Vec::new(),
        vlm: false,
        family: None,
        parameter_size: None,
        quantization_level: None,
    }
}

#[test]
fn parses_json_after_flm_banner() {
    let output = b"[FLM] Fetching models from: /opt/model_list.json\n{\"version\":\"0.9.45\"}";
    let payload = json_payload(output).unwrap();
    let value: serde_json::Value = serde_json::from_slice(payload).unwrap();
    assert_eq!(value["version"], "0.9.45");
}

#[test]
fn compares_dotted_versions_numerically() {
    assert!(version_at_least("0.9.45", "0.9.9"));
    assert!(version_at_least("1.0", "0.9.45"));
    assert!(!version_at_least("0.9.22", "0.9.43"));
}

#[test]
fn unknown_runtime_version_does_not_reject_catalogue_models() {
    let mut e = entry("qwen3.5:4b", false);
    e.flm_min_version = Some("0.9.45".into());
    let models = build_models(&vec![e], &None, "/models");
    let flm = &models[0].fastflow;
    assert!(flm.supported);
    assert_eq!(flm.version_compatible, None);
}

#[test]
fn parses_port_after_status_banner() {
    assert_eq!(parse_port(b"[FLM] status\nServer Port: 52625\n"), Some(52625));
}

#[test]
fn catalogue_entry_becomes_a_runtime_owned_model_leaf() {
    let mut e = entry("qwen3:4b", false);
    e.default_context_length = Some(32768);
    e.max_prefill_len = Some(4096);
    e.flm_min_version = Some("0.9.22".into());
    e.size_bytes = 3_100_000_000;
    e.label = texts(&["reasoning", "tool-calling"]);
    e.family = Some("qwen3".into());
    e.parameter_size = Some("4B".into());
    e.quantization_level = Some("Q4_1".into());
    let models = build_models(&vec![e], &Some("0.9.45".into()), "/models");
    assert_eq!(models.len(), 1);
    let model = &models[0].model;
    assert_eq!(model.profile_key(), "flm:qwen3:4b");
    assert_eq!(model.catalog_path, ["qwen3:4b"]);
    assert!(model.is_model());
    assert!(models[0].fastflow.supported);
    assert!(model.catalog_dir.starts_with("/models/"));
}

#[test]
fn installed_models_sort_before_available_models() {
    let entries = vec![
        entry("available-a", false),
        entry("installed-z", true),
        entry("installed-b", true),
        entry("available-c", false),
    ];
    let mut models: Vec<Model> =
        build_models(&entries, &None, "/models").into_iter().map(|c| c.model).collect();

    sort_models(&mut models);

    assert_eq!(
        models.iter().map(|model| model.name.as_str()).collect::<Vec<_>>(),
        vec!["installed-b", "installed-z", "available-a", "available-c"]
    );
}

#[test]
fn the_kept_catalogue_stands_in_for_one_that_cannot_be_read() {
    let mut probe = FastFlowProbe {
        binary_path: Some("/usr/bin/flm".into()),
        version: Some("0.9.45".into()),
        validation: Some(FastFlowValidation { ready: true, devices: texts(&["NPU0"]) }),
        port: Some(b"no port".to_vec()),
        listed: None,
        kept: Some(vec![entry("b", false), entry("a", true)]),
    };
    let found = discover(&probe, "/models");
    assert_eq!(found.runtime.description, "AMD Ryzen AI NPU inference (NPU ready)");
    assert_eq!(found.command, ["/usr/bin/flm"]);
    assert_eq!(found.port, 52625);
    let names: Vec<&str> = found.models.iter().map(|m| m.model.name.as_str()).collect();
    assert_eq!(names, ["a", "b"]);
    assert!(found.models.iter().all(|m| m.fastflow.supported));
    assert_eq!(found.models[0].fastflow.tag, "a");
    probe.listed = Some(vec![entry("c", false)]);
    probe.port = Some(b"Server Port: 8080".to_vec());
    let found = discover(&probe, "/models");
    assert_eq!((found.models.len(), found.port), (1, 8080));
    probe.binary_path = None;
    let found = discover(&probe, "/models");
    assert_eq!((found.models.len(), found.port), (2, 52625), "what was kept");
    assert!(found.command.is_empty() && found.runtime.devices.is_empty());
    assert_eq!(safe_tag("a/b:c"), safe_tag("a/b:c"));
}

// --- GGUF headers ------------------------------------------------------------

fn push_string(bytes: &mut Vec<u8>, value: &str) {
    bytes.extend_from_slice(&(value.len() as u64).to_le_bytes());
    bytes.extend_from_slice(value.as_bytes());
}

fn header(count: u64) -> Vec<u8> {
    let mut bytes = Vec::new();
    bytes.extend_from_slice(b"GGUF");
    bytes.extend_from_slice(&3_u32.to_le_bytes());
    bytes.extend_from_slice(&0_u64.to_le_bytes());
    bytes.extend_from_slice(&count.to_le_bytes());
    bytes
}

#[test]
fn detects_integrated_mtp_metadata() {
    let mut bytes = header(1);
    push_string(&mut bytes, "gemma4-assistant.nextn_predict_layers");
    bytes.extend_from_slice(&4_u32.to_le_bytes());
    bytes.extend_from_slice(&1_u32.to_le_bytes());

    let info = read_gguf_info(&bytes).unwrap();
    assert!(info.has_mtp);
}

#[test]
fn a_header_names_architecture_context_and_file_type() {
    let mut bytes = header(3);
    push_string(&mut bytes, "general.architecture");
    bytes.extend_from_slice(&8_u32.to_le_bytes());
    push_string(&mut bytes, "qwen3");
    push_string(&mut bytes, "qwen3.context_length");
    bytes.extend_from_slice(&4_u32.to_le_bytes());
    bytes.extend_from_slice(&40960_u32.to_le_bytes());
    push_string(&mut bytes, "general.file_type");
    bytes.extend_from_slice(&4_u32.to_le_bytes());
    bytes.extend_from_slice(&15_u32.to_le_bytes());
    let info = read_gguf_info(&bytes).unwrap();
    assert_eq!(info.architecture.as_deref(), Some("qwen3"));
    assert_eq!(info.context_length, Some(40960));
    assert_eq!(info.file_type_label, file_type_label(15));
    assert!(!info.has_mtp);
}

#[test]
fn a_broken_header_says_how_it_is_broken() {
    let error = |bytes: &[u8]| read_gguf_info(bytes).unwrap_err();
    assert_eq!(error(b"GGU"), GgufError::UnexpectedEnd);
    assert_eq!(error(b"GGML\x03\0\0\0"), GgufError::NotGguf);
    let mut old = header(0);
    old[4] = 1;
    assert_eq!(error(&old), GgufError::UnsupportedVersion(1));
    let mut unknown = header(1);
    push_string(&mut unknown, "k");
    unknown.extend_from_slice(&99_u32.to_le_bytes());
    assert_eq!(error(&unknown), GgufError::UnknownType(99));
    let mut long = header(1);
    long.extend_from_slice(&u64::MAX.to_le_bytes());
    assert_eq!(error(&long), GgufError::ImplausibleLength(u64::MAX));
    let mut nested = header(1);
    push_string(&mut nested, "k");
    nested.extend_from_slice(&9_u32.to_le_bytes());
    let mut inner = nested.clone();
    nested.extend_from_slice(&9_u32.to_le_bytes());
    nested.extend_from_slice(&1_u64.to_le_bytes());
    assert_eq!(error(&nested), GgufError::NestedArray);
    inner.extend_from_slice(&77_u32.to_le_bytes());
    inner.extend_from_slice(&1_u64.to_le_bytes());
    assert_eq!(error(&inner), GgufError::UnknownElementType(77));
    let mut short = header(1);
    push_string(&mut short, "k");
    short.extend_from_slice(&9_u32.to_le_bytes());
    short.extend_from_slice(&0_u32.to_le_bytes());
    short.extend_from_slice(&10_u64.to_le_bytes());
    short.extend_from_slice(&[0; 4]);
    assert_eq!(error(&short), GgufError::SkippedPastEnd { wanted: 10, got: 4 });
}

// --- transfers ---------------------------------------------------------------

#[test]
fn urls_encode_only_what_needs_it() {
    assert_eq!(
        resolve_url("owner/repo", "main", "dir/model.gguf"),
        "https://huggingface.co/owner/repo/resolve/main/dir/model.gguf"
    );
    assert_eq!(
        resolve_url("FastFlowLM/Qwen3-0.6B-NPU2", "v0.9.22-faster-q4-1", "model.q4nx"),
        "https://huggingface.co/FastFlowLM/Qwen3-0.6B-NPU2/resolve/v0.9.22-faster-q4-1/model.q4nx"
    );
    assert_eq!(
        resolve_url("owner/model", "main", "nested/model Q4_K_M.gguf"),
        "https://huggingface.co/owner/model/resolve/main/nested/model%20Q4_K_M.gguf"
    );
    assert_eq!(
        tree_url("o/r", "a b"),
        "https://huggingface.co/api/models/o/r/tree/a%20b"
    );
}

#[test]
fn interrupted_transfer_retries_with_the_partial_file_range() {
    let retry = RetryPolicy { attempts: 2, initial_delay: 0 };
    let expected = 12;
    assert_eq!(before_attempt(false, 0, expected), Start::Fetch);
    assert_eq!(range_header(0), None);
    let mut first = Transfer::begin(0, 200);
    assert_eq!(first.wrote(5, expected), None);
    assert_eq!(first.end(expected), AttemptEnd::Retryable);
    assert_eq!(after_attempt(retry, 1, first.end(expected)), Next::Retry { delay: 0 });

    assert_eq!(before_attempt(false, 5, expected), Start::Fetch);
    assert_eq!(range_header(5).as_deref(), Some("bytes=5-"));
    let mut second = Transfer::begin(5, 206);
    second.wrote(7, expected);
    assert_eq!(second.end(expected), AttemptEnd::Completed);
    assert_eq!(after_attempt(retry, 2, second.end(expected)), Next::Finished);
    assert_eq!(before_attempt(false, 12, expected), Start::AlreadyComplete);
    assert_eq!(before_attempt(true, 12, expected), Start::Stop);
    assert_eq!(Transfer::begin(5, 200).downloaded, 0, "the range was ignored");
}

#[test]
fn attempts_end_and_say_why() {
    let retry = RetryPolicy { attempts: 0, initial_delay: u64::MAX };
    assert_eq!(after_attempt(retry, 1, AttemptEnd::Retryable), Next::Exhausted);
    assert_eq!(after_attempt(retry, 1, AttemptEnd::Fatal), Next::Fail);
    assert_eq!(after_attempt(retry, 1, AttemptEnd::Cancelled), Next::Stopped);
    let download = RetryPolicy::download();
    let delays: Vec<u64> = (1..7).map(|n| download.delay_after(n)).collect();
    assert_eq!(delays, [1000, 2000, 4000, 8000, 16000, 16000]);
    assert_eq!(retry.delay_after(2), u64::MAX);
    assert_eq!(refused(404), AttemptEnd::Fatal);
    assert_eq!(refused(503), AttemptEnd::Retryable);
    assert_eq!(
        refusal_message(404, "o/r", "f"),
        "Hugging Face returned HTTP 404 for hf://o/r/f"
    );
    assert_eq!(exhausted_message(download), "Hugging Face download failed after 5 attempts");
    assert_eq!(
        incomplete_message("f", 3, 9),
        "incomplete Hugging Face download for f: received 3 of 9 bytes"
    );
    assert_eq!(wait_slice(250), (150, 100));
    assert_eq!(wait_slice(30), (0, 30));
    let mut transfer = Transfer::begin(0, 200);
    assert_eq!(
        transfer.wrote(PROGRESS_INTERVAL, 10),
        Some((10, 10)),
        "progress stays within the expected size"
    );
}

#[test]
fn only_transient_http_statuses_are_retried() {
    for status in [408, 429, 500, 502, 503, 504, 599] {
        assert!(retryable_http_status(status), "HTTP {status}");
    }
    for status in [400, 401, 403, 404, 416] {
        assert!(!retryable_http_status(status), "HTTP {status}");
    }
}

// --- model files -------------------------------------------------------------

#[test]
fn suffixes_a_leaf_that_would_hide_a_directory() {
    let mut models = vec![
        model("leaf", "/models/foo.gguf", &["src", "foo"]),
        model("nested", "/models/foo/bar.gguf", &["src", "foo", "bar"]),
    ];
    resolve_prefix_collisions(&mut models);
    assert!(models[0].catalog_path[1].starts_with("foo-"));
    assert_eq!(models[1].catalog_path, ["src", "foo", "bar"]);
}

#[test]
fn huggingface_main_ref_wins_even_with_an_older_mtime() {
    let source = source("huggingface", "/tmp/hf", ModelLayout::HuggingFace);
    let main_ref = Some("main-revision\n".to_string());
    let main = Candidate {
        path: "/tmp/hf/models--org--repo/snapshots/main-revision/model.gguf",
        modified: Some(1),
        main_ref: &main_ref,
    };
    let other = Candidate {
        path: "/tmp/hf/models--org--repo/snapshots/other-revision/model.gguf",
        modified: Some(99),
        main_ref: &main_ref,
    };
    assert!(prefer_huggingface_candidate(&source, &main, &other));
    assert!(!prefer_huggingface_candidate(&source, &other, &main));
}

#[test]
fn huggingface_ties_have_a_deterministic_path_order() {
    let source = source("huggingface", "/cache", ModelLayout::HuggingFace);
    let a = Candidate {
        path: "/cache/models--org--repo/snapshots/aaa/model.gguf",
        modified: None,
        main_ref: &None,
    };
    let b = Candidate {
        path: "/cache/models--org--repo/snapshots/bbb/model.gguf",
        modified: None,
        main_ref: &None,
    };
    assert!(prefer_huggingface_candidate(&source, &b, &a));
    assert!(!prefer_huggingface_candidate(&source, &a, &b));
}

#[test]
fn file_names_say_what_a_file_is() {
    assert!(is_gguf("/m/a.GGUF") && !is_gguf("/m/a.bin"));
    assert!(is_projector("/m/mmproj-F16.gguf") && !is_projector("/m/a.gguf"));
    assert!(is_first_shard("/m/a-00001-of-00003.gguf"));
    assert!(!is_first_shard("/m/a-00002-of-00003.gguf"));
    assert!(is_candidate("/m/a.gguf") && !is_candidate("/m/mmproj.gguf"));
    assert_eq!(quant_from_filename("model-q4_k_m.gguf").as_deref(), Some("Q4_K_M"));
    assert_eq!(quant_from_filename("model-IQ2_XXS.gguf").as_deref(), Some("IQ2_XXS"));
    assert_eq!(quant_from_filename("model.gguf"), None);
    assert_eq!(
        shard_paths("/m/a-00001-of-00002.gguf"),
        ["/m/a-00001-of-00002.gguf", "/m/a-00002-of-00002.gguf"]
    );
    assert_eq!(aggregate_size(5, &vec![Some(7), None]), Some(7));
}

#[test]
fn a_model_is_described_by_its_file() {
    let m = build_model("/m/Qwen-Q8_0-00001-of-00002.gguf", 11, Some(3), &None);
    assert_eq!(m.name, "Qwen-Q8_0.gguf");
    assert_eq!(m.path, "/m/Qwen-Q8_0-00001-of-00002.gguf");
    assert_eq!(m.quantization.as_deref(), Some("Q8_0"));
    assert_eq!((m.size_bytes, m.modified), (11, Some(3)));
}

#[test]
fn a_scan_lists_each_file_once_and_by_name() {
    let sources = vec![
        source("one", "/a", ModelLayout::Directory),
        source("two", "/a/sub", ModelLayout::Directory),
    ];
    let found = |source, path: &str| Found {
        source,
        path: path.into(),
        length: 1,
        parts: vec![Some(1)],
        modified: None,
        info: None,
        main_ref: None,
    };
    let files = vec![
        found(0, "/a/sub/Zeta.gguf"),
        found(0, "/a/alpha.gguf"),
        found(1, "/a/sub/Zeta.gguf"),
    ];
    let (models, fresh) = scan(&sources, &files, &Vec::new());
    let names: Vec<&str> = models.iter().map(|m| m.name.as_str()).collect();
    assert_eq!(names, ["alpha.gguf", "Zeta.gguf"]);
    assert_eq!(fresh.len(), 2);
}

#[test]
fn a_scan_lists_only_models_and_adds_up_their_parts() {
    let sources = vec![source("one", "/a", ModelLayout::Directory)];
    let found = |path: &str, length, parts: &[Option<u64>]| Found {
        source: 0,
        path: path.into(),
        length,
        parts: parts.to_vec(),
        modified: Some(5),
        info: None,
        main_ref: None,
    };
    let files = vec![
        found("/a/notes.txt", 9, &[Some(9)]),
        found("/a/mmproj-F16.gguf", 9, &[Some(9)]),
        found("/a/mtp-big.gguf", 9, &[Some(9)]),
        found("/a/dflash.gguf", 9, &[Some(9)]),
        found("/a/big-00001-of-00003.gguf", 10, &[Some(10), Some(20), None]),
        found("/a/big-00002-of-00003.gguf", 20, &[Some(10), Some(20), None]),
        found("/a/Small.GGUF", 7, &[Some(7)]),
        found("/a//Small.GGUF", 7, &[Some(7)]),
    ];
    let (models, fresh) = scan(&sources, &files, &Vec::new());
    let listed: Vec<(&str, u64)> = models.iter().map(|m| (m.name.as_str(), m.size_bytes)).collect();
    assert_eq!(listed, [("big.gguf", 30), ("Small.GGUF", 7)]);

    assert!(!needs_header(&fresh, "/a/big-00001-of-00003.gguf", 30, Some(5)));
    assert!(needs_header(&fresh, "/a/big-00001-of-00003.gguf", 31, Some(5)));
    assert!(needs_header(&fresh, "/a/Small.GGUF", 7, None));
    assert!(!needs_header(&fresh, "/a/mmproj-F16.gguf", 9, Some(5)));
    let (again, _) = scan(&sources, &files, &fresh);
    assert_eq!(again.len(), 2);
    let mut moved = fresh;
    moved[0].1.path = "/elsewhere.gguf".into();
    let key = moved[0].0.clone();
    let (size, date) = (moved[0].1.size_bytes, moved[0].1.modified);
    assert!(!needs_header(&moved, &key, size, date), "size and date alone decide");
    let (again, _) = scan(&sources, &files, &moved);
    assert!(again.iter().any(|m| m.path == "/elsewhere.gguf"));
}

#[test]
fn the_main_reference_is_beside_the_snapshots() {
    let hub = source("hub", "/cache", ModelLayout::HuggingFace);
    assert_eq!(
        main_ref_path(&hub, "/cache/models--o--r/snapshots/abc/m.gguf").as_deref(),
        Some("/cache/models--o--r/refs/main")
    );
    assert_eq!(main_ref_path(&hub, "/cache/m.gguf"), None);
}

// --- sources and runtimes ----------------------------------------------------

#[test]
fn sources_come_from_the_configuration_or_the_well_known_places() {
    let env = SourceEnv {
        home: Some("/home/u".into()),
        llama_cache: None,
        huggingface_hub_cache: None,
        hf_home: Some("/hf".into()),
    };
    assert_eq!(expand("~/models", &env.home), "/home/u/models");
    assert_eq!(expand("/abs", &env.home), "/abs");
    assert_eq!(expand("~/a/./b", &env.home), "/home/u/a/./b");
    assert_eq!(expand("~/a//b/../c", &env.home), "/home/u/a//b/../c");
    assert_eq!(expand("~//a/", &env.home), "/home/u/a");
    assert_eq!(expand("~", &env.home), "/home/u/");
    assert_eq!(expand("~other/a", &env.home), "~other/a");
    assert_eq!(expand("~/a", &None), "~/a");
    let roots = |v: Vec<ModelSource>| v.into_iter().map(|s| s.root).collect::<Vec<_>>();
    assert_eq!(
        roots(resolve_model_sources(&Vec::new(), &Vec::new(), &env)),
        ["/hf/hub", "/home/u/.cache/llama.cpp", "/home/u/.lmstudio/models", "/home/u/models"]
    );
    let named = vec![ModelSourceConfig {
        name: "again".into(),
        path: "~/models".into(),
        layout: ModelLayout::Flat,
    }];
    let both = resolve_model_sources(&texts(&["~/models", "/z"]), &named, &env);
    assert_eq!(both.iter().map(|s| s.name.as_str()).collect::<Vec<_>>(), ["models", "z"]);
}

#[test]
fn discovers_vllm_without_executing_it() {
    let runtime = discover_vllm(Some("/opt/vllm".into()));
    assert_eq!(runtime.name, "vLLM");
    assert_eq!(runtime.version, None);
    assert_eq!(runtime.binary_path.as_deref(), Some("/opt/vllm"));
}

#[test]
fn a_binary_is_looked_for_on_the_search_path() {
    let path = Some("/usr/bin:/opt/bin".to_string());
    assert_eq!(
        binary_candidates("llama-server", &path),
        ["/usr/bin/llama-server", "/opt/bin/llama-server"]
    );
    assert_eq!(binary_candidates("/x/llama-server", &path), ["/x/llama-server"]);
    assert_eq!(version_line(b"", b"\n version: 1\nmore").as_deref(), Some("version: 1"));
    let runtime = discover_llama_cpp(None, None);
    assert!(runtime.binary_path.is_none());
}

#[test]
fn the_home_directory_is_never_scanned_as_a_whole() {
    let env = SourceEnv {
        home: Some("/home/u".into()),
        llama_cache: None,
        huggingface_hub_cache: None,
        hf_home: None,
    };
    let roots: Vec<String> = default_model_sources(&env).into_iter().map(|s| s.root).collect();
    assert_eq!(
        roots,
        [
            "/home/u/.cache/llama.cpp",
            "/home/u/.cache/huggingface/hub",
            "/home/u/.lmstudio/models",
            "/home/u/models",
        ]
    );
    let home = texts(&["~", "/home/u/", "/home/./u", "~/models"]);
    let kept = resolve_model_sources(&home, &Vec::new(), &env);
    assert_eq!(kept.into_iter().map(|s| s.root).collect::<Vec<_>>(), ["/home/u/models"]);
    let named = vec![ModelSourceConfig {
        name: "all".into(),
        path: "~".into(),
        layout: ModelLayout::Directory,
    }];
    assert!(resolve_model_sources(&Vec::new(), &named, &env).is_empty());
    let cache = SourceEnv {
        home: Some("/home/u".into()),
        llama_cache: Some("/home/u".into()),
        huggingface_hub_cache: None,
        hf_home: None,
    };
    let usual = resolve_model_sources(&Vec::new(), &Vec::new(), &cache);
    assert!(usual.iter().all(|s| s.root != "/home/u"));
    assert_eq!(usual.len(), 3);
}

#[test]
fn companions_beside_a_model_belong_to_it() {
    let mut models = vec![
        model("a", "/m/one/Qwen3-Q4_K_M.gguf", &["m", "a"]),
        model("b", "/m/two/Gemma-Q8_0.gguf", &["m", "b"]),
        model("c", "", &["m", "c"]),
    ];
    let found = |path: &str, block_size| Companion { path: path.into(), block_size };
    let files = vec![
        found("/m/one/mtp-Qwen3.gguf", None),
        found("/m/one/mmproj-F16.gguf", None),
        found("/m/one/mmproj-BF16.gguf", None),
        found("/m/two/mtp-Qwen3.gguf", None),
        found("/m/two/dflash-Q4_0.gguf", Some(16)),
        found("/m/two/dflash-F16.gguf", Some(8)),
        found("/m/three/mmproj-F16.gguf", None),
    ];
    pair_companions(&mut models, &files);
    assert_eq!(models[1].dflash_path.as_deref(), Some("/m/two/dflash-Q4_0.gguf"));
    assert_eq!(models[1].dflash_block_size, Some(16));
    assert_eq!((&models[0].dflash_path, models[0].dflash_block_size), (&None, None));
    assert_eq!(models[0].mtp_path.as_deref(), Some("/m/one/mtp-Qwen3.gguf"));
    assert_eq!(models[0].projector_path.as_deref(), Some("/m/one/mmproj-BF16.gguf"));
    assert!(models[0].supports_mtp() && models[0].supports_multimodal());
    assert_eq!(models[1].mtp_path, None, "a head of another family");
    assert_eq!(models[1].projector_path, None, "a projector of another directory");
    assert_eq!(models[2].mtp_path, None);
}

#[test]
fn a_fetch_goes_on_after_a_broken_connection() {
    let policy = RetryPolicy { attempts: 2, initial_delay: 150 };
    let mut fetch = Fetch::new(policy, 10);
    let nothing = Event::Measured { cancelled: false, length: 0 };
    assert_eq!(fetch.step(nothing), Order::Ask { existing: 0 });
    assert_eq!(fetch.step(Event::Answered { status: 200 }), Order::Receive { append: false });
    assert_eq!(fetch.step(Event::Wrote { bytes: 4 }), Order::Read);
    assert_eq!(fetch.step(Event::Broke), Order::Sleep { slice: 100 });
    assert_eq!(fetch.step(Event::Waited), Order::Sleep { slice: 50 });
    assert_eq!(fetch.step(Event::Drained), Order::Nothing);
    assert_eq!(fetch.step(Event::Waited), Order::Measure);
    assert_eq!(fetch.attempt, 2);
    let some = Event::Measured { cancelled: false, length: 4 };
    assert_eq!(fetch.step(some), Order::Ask { existing: 4 });
    assert_eq!(fetch.step(Event::Answered { status: 206 }), Order::Receive { append: true });
    assert_eq!(fetch.step(Event::Wrote { bytes: 6 }), Order::Read);
    assert_eq!(fetch.step(Event::Drained), Order::Finish { shown: 10, total: 10 });
    assert_eq!(fetch.phase, Phase::Ended { ending: Ending::Complete });
    assert_eq!(fetch.step(nothing), Order::Nothing);
}

#[test]
fn a_fetch_ends_in_one_of_four_ways() {
    let policy = RetryPolicy { attempts: 1, initial_delay: 0 };
    let begun = || {
        let mut fetch = Fetch::new(policy, 10);
        fetch.step(Event::Measured { cancelled: false, length: 3 });
        fetch
    };
    let end = |ending| Order::End { ending };
    assert_eq!(begun().step(Event::Refused { status: 404 }), end(Ending::Failed));
    assert_eq!(begun().step(Event::Refused { status: 503 }), end(Ending::Exhausted));
    assert_eq!(begun().step(Event::Broke), end(Ending::Exhausted));

    let mut ignored = begun();
    assert_eq!(ignored.step(Event::Answered { status: 200 }), Order::Receive { append: false });
    assert_eq!(ignored.step(Event::Wrote { bytes: 3 }), Order::Read);
    assert_eq!(ignored.step(Event::Drained), end(Ending::Exhausted), "seven bytes are missing");

    let mut stopped = begun();
    stopped.step(Event::Answered { status: 206 });
    assert_eq!(stopped.step(Event::Cancelled), end(Ending::Cancelled));
    let mut full = begun();
    full.step(Event::Answered { status: 206 });
    assert_eq!(full.step(Event::DiskFailed), end(Ending::Failed));

    let mut fetch = Fetch::new(policy, 10);
    let whole = Event::Measured { cancelled: false, length: 10 };
    assert_eq!(fetch.step(whole), Order::Finish { shown: 10, total: 10 });
    let mut fetch = Fetch::new(policy, 10);
    let unwanted = Event::Measured { cancelled: true, length: 10 };
    assert_eq!(fetch.step(unwanted), end(Ending::Cancelled));

    let mut long = Fetch::new(policy, 3 * PROGRESS_INTERVAL);
    long.step(Event::Measured { cancelled: false, length: 0 });
    long.step(Event::Answered { status: 200 });
    let report = long.step(Event::Wrote { bytes: PROGRESS_INTERVAL });
    assert_eq!(report, Order::Report { shown: PROGRESS_INTERVAL, total: 3 * PROGRESS_INTERVAL });
}
