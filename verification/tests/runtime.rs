use llmctl::app::browser::BrowserState;
use llmctl::app::launch::{
    command_message_lines, single_session_conflict, Fetches, LiveSession, Start,
};
use llmctl::app::panes::Pane;
use llmctl::config::Defaults;
use llmctl::domain::options::{FloatReading, FloatStep, OptionKind, OptionSpec};
use llmctl::domain::{FlmModel, Model, OptionItem, Profile, Runtime};
use llmctl::profiles::registry::{Dialect, OptionSchema, DEFAULT};
use llmctl::profiles::store::ProfileStore;
use llmctl::runtime::backend::{
    discover, templates_for, throughput_parser, Backend, ThroughputParser,
};
use llmctl::runtime::command::{shell_quote, Command, HuggingFaceCommand, LocalCommand};
use llmctl::runtime::deletion::{
    removal_outcome, Deletion, Husk, Removal, RemovalEnd, Resolved,
};
use llmctl::runtime::flm::{
    arrange, chunk_payload, deletion_tree, expected_files, file_sizes, model_dir_in, model_root,
    next_file, overall_progress, partial_path, download_total, stored_bytes, FileStep, repo_dir_name, sanitize, strip_preamble, Device, Entry,
    FlmBackend, FlmProbe, Validation, LOCAL_GROUP, NAME, ONLINE_GROUP,
};
use llmctl::runtime::llama_cpp::{cli_binary, parse_devices, LlamaCppBackend, LlamaProbe};
use llmctl::runtime::storage::{freed_bytes, tree_bytes, LinkFact};
use llmctl::runtime::{flm_options, llama_cpp, llama_options, LaunchContext, RuntimeBackend};
use llmctl::discovery::hf::TreeEntry;
use llmctl::discovery::online::cache::BlobSizes;

fn texts(v: &[&str]) -> Vec<String> {
    v.iter().map(|s| s.to_string()).collect()
}

fn llama() -> OptionSchema {
    OptionSchema::of(Dialect::LlamaCpp)
}

fn item(key: &str, value: &str, cli: &str) -> OptionItem {
    OptionItem {
        key: key.into(),
        value: value.into(),
        default: String::new(),
        range: None,
        cli: cli.into(),
        description: String::new(),
    }
}

fn opt(key: &str, value: &str) -> OptionItem {
    let schema = llama();
    let cli = schema.spec(key).map(|s| s.cli).unwrap_or("");
    item(key, value, cli)
}

fn sample_options() -> Vec<OptionItem> {
    vec![
        opt("ctx-size", "32768"),
        opt("gpu-layers", "999"),
        opt("temperature", "0.7"),
        opt("flash-attn", "on"),
        opt("host", "127.0.0.1"),
        opt("port", "8000"),
    ]
}

fn local(model_path: &str, options: &Vec<OptionItem>) -> Command {
    LocalCommand { binary: "llama-server", model_path, draft_path: None, projector_path: None }
        .build(options)
}

// --- command lines -----------------------------------------------------------

#[test]
fn builds_argv_in_order_with_model_first() {
    let cmd = local("/m/qwen.gguf", &sample_options());
    assert_eq!(
        cmd.argv,
        vec![
            "llama-server",
            "-m",
            "/m/qwen.gguf",
            "--ctx-size",
            "32768",
            "-ngl",
            "999",
            "--temp",
            "0.7",
            "--flash-attn",
            "on",
            "--host",
            "127.0.0.1",
            "--port",
            "8000",
        ]
    );
}

#[test]
fn builds_hugging_face_repo_and_exact_file() {
    let cmd = HuggingFaceCommand {
        binary: "llama-server",
        repo: "owner/model-GGUF",
        file: "model-Q4_K_M.gguf",
        draft_path: None,
        draft_hf: None,
        projector_path: None,
        projector_auto: false,
    }
    .build(&sample_options());
    assert_eq!(
        &cmd.argv[..5],
        ["llama-server", "--hf-repo", "owner/model-GGUF", "--hf-file", "model-Q4_K_M.gguf",]
    );
    assert!(!cmd.argv.iter().any(|arg| arg.starts_with("hf_")));
}

#[test]
fn flash_attn_emits_its_value() {
    let cmd = local("/m/x.gguf", &sample_options());
    let i = cmd.argv.iter().position(|a| a == "--flash-attn").unwrap();
    assert_eq!(cmd.argv[i + 1], "on");
}

#[test]
fn selected_device_is_emitted_and_default_is_omitted() {
    let mut opts = sample_options();
    opts.push(opt("device", "ROCm0"));
    let cmd = local("/m/x.gguf", &opts);
    let i = cmd.argv.iter().position(|a| a == "--device").unwrap();
    assert_eq!(cmd.argv[i + 1], "ROCm0");

    opts.pop();
    opts.push(opt("device", DEFAULT));
    let cmd = local("/m/x.gguf", &opts);
    assert!(!cmd.argv.iter().any(|a| a == "--device"));
}

#[test]
fn omitted_values_are_skipped() {
    let mut opts = sample_options();
    opts[3] = opt("flash-attn", "auto");
    opts.push(opt("batch-size", DEFAULT));
    let cmd = local("/m/x.gguf", &opts);
    assert!(!cmd.argv.iter().any(|a| a == "--flash-attn"));
    assert!(!cmd.argv.iter().any(|a| a == "--batch-size"));
    assert!(cmd.argv.iter().all(|a| a != DEFAULT && a != "auto"));
}

#[test]
fn sampling_params_at_default_are_omitted() {
    let mut opts = sample_options();
    opts[2] = opt("temperature", DEFAULT);
    opts.push(opt("top-k", DEFAULT));
    let cmd = local("/m/x.gguf", &opts);
    assert!(!cmd.argv.iter().any(|a| a == "--temp" || a == "--top-k"));
}

#[test]
fn local_mtp_sidecar_is_passed_as_the_draft_model() {
    let mut opts = sample_options();
    opts.push(opt("spec-type", "draft-mtp"));
    let cmd = LocalCommand {
        binary: "llama-server",
        model_path: "/m/model.gguf",
        draft_path: Some("/m/mtp-model.gguf"),
        projector_path: Some("/m/mmproj-BF16.gguf"),
    }
    .build(&opts);
    assert_eq!(
        &cmd.argv[..9],
        [
            "llama-server",
            "-m",
            "/m/model.gguf",
            "--spec-draft-model",
            "/m/mtp-model.gguf",
            "--mmproj",
            "/m/mmproj-BF16.gguf",
            "--ctx-size",
            "32768",
        ]
    );
    let spec = cmd.argv.iter().position(|arg| arg == "--spec-type").unwrap();
    assert_eq!(cmd.argv[spec + 1], "draft-mtp");
    let projector = cmd.argv.iter().position(|arg| arg == "--mmproj").unwrap();
    assert_eq!(cmd.argv[projector + 1], "/m/mmproj-BF16.gguf");
}

#[test]
fn dflash_multi_gpu_launch_reproduces_the_reference_command() {
    let opts = vec![
        opt("ctx-size", "131000"),
        opt("gpu-layers", "99"),
        opt("split-mode", "layer"),
        opt("tensor-split", "1,1"),
        opt("temperature", "1"),
        opt("top-p", "0.95"),
        opt("top-k", "64"),
        opt("spec-type", "draft-dflash"),
        opt("spec-draft-n-max", "3"),
        opt("parallel", "1"),
        opt("sleep-idle-seconds", "1200"),
        opt("host", "127.0.0.1"),
        opt("port", "9516"),
    ];
    let cmd = LocalCommand {
        binary: "/home/m/llama.cpp/build/bin/llama-server",
        model_path: "/m/Muse-Glimmer/Muse-Glimmer-30B-UD-Q8_K_XL.gguf",
        draft_path: Some("/m/Muse-Glimmer/dflash-kquant.gguf"),
        projector_path: Some("/m/Muse-Glimmer/mmproj-Muse-Glimmer-30B-Q8_0.gguf"),
    }
    .build(&opts);

    for pair in [
        ["-m", "/m/Muse-Glimmer/Muse-Glimmer-30B-UD-Q8_K_XL.gguf"],
        ["--spec-draft-model", "/m/Muse-Glimmer/dflash-kquant.gguf"],
        ["--mmproj", "/m/Muse-Glimmer/mmproj-Muse-Glimmer-30B-Q8_0.gguf"],
        ["--spec-type", "draft-dflash"],
        ["--spec-draft-n-max", "3"],
        ["-sm", "layer"],
        ["-ts", "1,1"],
        ["-ngl", "99"],
        ["--ctx-size", "131000"],
        ["-np", "1"],
        ["--sleep-idle-seconds", "1200"],
        ["--port", "9516"],
    ] {
        assert!(cmd.argv.windows(2).any(|args| args == pair), "missing {pair:?}");
    }
    assert!(!cmd.argv.iter().any(|arg| arg == "--no-jinja"));
}

#[test]
fn remote_companions_use_draft_hf_and_projector_auto() {
    let cmd = HuggingFaceCommand {
        binary: "llama-server",
        repo: "owner/model-GGUF",
        file: "model-Q4_K_M.gguf",
        draft_path: None,
        draft_hf: Some("owner/model-GGUF:Q4_0"),
        projector_path: None,
        projector_auto: true,
    }
    .build(&sample_options());
    assert!(cmd.argv.windows(2).any(|args| { args == ["--spec-draft-hf", "owner/model-GGUF:Q4_0"] }));
    assert!(cmd.argv.iter().any(|arg| arg == "--mmproj-auto"));
}

#[test]
fn hybrid_hf_launch_prefers_cached_companion_paths() {
    let cmd = HuggingFaceCommand {
        binary: "llama-server",
        repo: "owner/model-GGUF",
        file: "model-Q4_K_M.gguf",
        draft_path: Some("/cache/mtp-model.gguf"),
        draft_hf: Some("owner/model-GGUF:Q4_0"),
        projector_path: Some("/cache/mmproj-BF16.gguf"),
        projector_auto: true,
    }
    .build(&sample_options());
    assert!(cmd.argv.windows(2).any(|args| { args == ["--spec-draft-model", "/cache/mtp-model.gguf"] }));
    assert!(cmd.argv.windows(2).any(|args| { args == ["--mmproj", "/cache/mmproj-BF16.gguf"] }));
    assert!(!cmd.argv.iter().any(|arg| arg == "--spec-draft-hf"));
    assert!(!cmd.argv.iter().any(|arg| arg == "--mmproj-auto"));
}

#[test]
fn reasoning_effort_emits_chat_template_kwargs_json() {
    let mut opts = sample_options();
    opts.push(opt("reasoning-effort", "high"));
    let cmd = local("/m/x.gguf", &opts);
    let i = cmd.argv.iter().position(|a| a == "--chat-template-kwargs").unwrap();
    assert_eq!(cmd.argv[i + 1], r#"{"reasoning_effort":"high"}"#);
    assert!(cmd.display().contains(r#"'{"reasoning_effort":"high"}'"#));

    opts.pop();
    opts.push(opt("reasoning-effort", "default"));
    let cmd = local("/m/x.gguf", &opts);
    assert!(!cmd.argv.iter().any(|a| a == "--chat-template-kwargs"));
}

#[test]
fn jinja_off_emits_bare_no_jinja_flag_and_chat_template_its_name() {
    let mut opts = sample_options();
    opts.push(opt("jinja", "off"));
    opts.push(opt("chat-template", "llama3"));
    let cmd = local("/m/x.gguf", &opts);
    assert!(cmd.argv.iter().any(|a| a == "--no-jinja"));
    let i = cmd.argv.iter().position(|a| a == "--chat-template").unwrap();
    assert_eq!(cmd.argv[i + 1], "llama3");

    let opts = vec![opt("jinja", "on"), opt("chat-template", "default")];
    let cmd = local("/m/x.gguf", &opts);
    assert_eq!(cmd.argv, vec!["llama-server", "-m", "/m/x.gguf"]);
}

#[test]
fn load_mode_emits_its_value_and_is_omitted_at_default() {
    let mut opts = sample_options();
    opts.push(opt("load-mode", "none"));
    let cmd = local("/m/x.gguf", &opts);
    let i = cmd.argv.iter().position(|a| a == "-lm").unwrap();
    assert_eq!(cmd.argv[i + 1], "none");
    assert!(!cmd.argv.iter().any(|a| a == "--no-mmap"));

    opts.pop();
    opts.push(opt("load-mode", DEFAULT));
    let cmd = local("/m/x.gguf", &opts);
    assert!(!cmd.argv.iter().any(|a| a == "-lm"));
}

#[test]
fn commands_are_quoted_for_a_shell() {
    assert_eq!(shell_quote("plain-1.0"), "plain-1.0");
    assert_eq!(shell_quote("it's"), r"'it'\''s'");
    assert_eq!(shell_quote(""), "''");
    let cmd = Command { argv: texts(&["flm", "serve", "--port", "1", "a b"]) };
    assert_eq!(cmd.display(), "flm serve --port 1 'a b'");
    assert_eq!(cmd.pretty(), "flm serve \\\n  --port 1 'a b'");
    assert_eq!(
        command_message_lines(&cmd),
        ["flm serve \\", "  --port 1 'a b'", "", "(copied to clipboard)"]
    );
}

// --- llama.cpp options -------------------------------------------------------

fn kind(key: &str) -> OptionKind {
    llama().spec(key).unwrap().kind.clone()
}

fn bump(key: &str, current: &str, dir: i32) -> Option<String> {
    let schema = llama();
    let spec = schema.spec(key).unwrap();
    schema.bump(spec, &spec.kind, current, dir, &step_of(spec, current, dir))
}

/// How a text compares with an option's bounds.
fn reading_of(kind: &OptionKind, input: &str) -> FloatReading {
    let OptionKind::Float { min, max } = kind else { return FloatReading::Within };
    match input.trim().parse::<f64>() {
        Err(_) => FloatReading::NotANumber,
        Ok(v) if !v.is_finite() => FloatReading::NotFinite,
        Ok(v) if min.is_some_and(|m| v < m as f64 / 1000.0) => FloatReading::BelowMin,
        Ok(v) if max.is_some_and(|m| v > m as f64 / 1000.0) => FloatReading::AboveMax,
        Ok(_) => FloatReading::Within,
    }
}

/// What a step from a text leads to.
fn step_of(spec: &OptionSpec, current: &str, dir: i32) -> FloatStep {
    let OptionKind::Float { min, max } = &spec.kind else { return FloatStep::Nowhere };
    let Ok(v) = current.parse::<f64>() else { return FloatStep::Nowhere };
    let next = v + dir as f64 * (spec.step as f64 / 1000.0);
    if !next.is_finite() {
        FloatStep::Nowhere
    } else if min.is_some_and(|m| next < m as f64 / 1000.0) {
        FloatStep::BelowMin
    } else if max.is_some_and(|m| next > m as f64 / 1000.0) {
        FloatStep::AboveMax
    } else {
        let text = format!("{next:.3}");
        FloatStep::Value(text.trim_end_matches('0').trim_end_matches('.').to_string())
    }
}

fn validate(kind: &OptionKind, input: &str) -> Result<String, String> {
    kind.validate(input, reading_of(kind, input))
}

#[test]
fn int_range_is_enforced() {
    let kind = kind("gpu-layers");
    assert_eq!(validate(&kind, "50").unwrap(), "50");
    assert!(validate(&kind, "1000").is_err());
    assert!(validate(&kind, "-1").is_err());
    assert!(validate(&kind, "abc").is_err());
}

#[test]
fn float_range_is_enforced() {
    let kind = kind("temperature");
    assert_eq!(validate(&kind, "0.7").unwrap(), "0.7");
    assert!(validate(&kind, "3.0").is_err());
}

#[test]
fn flash_attn_is_an_enum_dropped_when_auto() {
    let kind = kind("flash-attn");
    assert_eq!(validate(&kind, "OFF").unwrap(), "off");
    assert!(validate(&kind, "true").is_err());
    assert_eq!(llama().omit_token("flash-attn"), Some("auto"));
    assert_eq!(bump("flash-attn", "auto", 1), Some("on".into()));
    assert_eq!(kind.extreme(-1), Some("auto".into()));
}

#[test]
fn numeric_omittables_fold_the_default_sentinel() {
    let schema = llama();
    assert_eq!(schema.omit_token("batch-size"), Some(DEFAULT));
    assert_eq!(schema.omit_token("threads"), Some(DEFAULT));
    for key in ["ctx-size", "temperature", "top-p", "top-k", "min-p", "repeat-penalty"] {
        assert_eq!(schema.omit_token(key), Some(DEFAULT), "{key} should fold the sentinel");
        assert!(schema.uses_sentinel(key), "{key} should get sentinel affordances");
    }
    assert_eq!(schema.omit_token("host"), None);
    assert_eq!(schema.omit_token("port"), None);

    assert_eq!(bump("gpu-layers", DEFAULT, 1), Some("999".into()));
    assert_eq!(bump("gpu-layers", DEFAULT, -1), Some(DEFAULT.into()));
    assert_eq!(kind("gpu-layers").extreme(-1), Some("0".into()));
    assert_eq!(kind("gpu-layers").extreme(1), Some("999".into()));
}

#[test]
fn device_uses_runtime_selector_and_is_omitted_at_default() {
    let schema = llama();
    let device = schema.spec("device").unwrap();
    assert_eq!(device.cli, "--device");
    assert_eq!(schema.omit_token("device"), Some(DEFAULT));
    assert!(schema.uses_sentinel("device"));
}

#[test]
fn adjust_clamps_numeric_and_cycles_enum() {
    let schema = llama();
    let temp = schema.spec("temperature").unwrap();
    let adjust = |current: &str, dir| {
        temp.kind.adjust(current, dir, temp.step, &step_of(temp, current, dir))
    };
    assert_eq!(adjust("1.95", 1), Some("2".into()));
    assert_eq!(adjust("0.8", -1), Some("0.75".into()));

    let cache = kind("cache-type-k");
    assert_eq!(cache.adjust("f16", 1, 1000, &FloatStep::Nowhere), Some("q8_0".into()));
    assert_eq!(cache.adjust("f16", -1, 1000, &FloatStep::Nowhere), Some("default".into()));
}

#[test]
fn cache_types_omit_at_their_default_variant_without_sentinel_affordances() {
    let schema = llama();
    for key in ["cache-type-k", "cache-type-v"] {
        assert_eq!(schema.omit_token(key), Some(DEFAULT));
        assert!(!schema.uses_sentinel(key));
        assert_eq!(bump(key, "default", 1), Some("f16".into()));
        assert_eq!(kind(key).extreme(-1), Some("default".into()));
        assert_eq!(kind(key).extreme(1), Some("q4_0".into()));
    }
}

#[test]
fn speculative_options_have_proper_omit_tokens() {
    let schema = llama();
    assert_eq!(schema.omit_token("spec-type"), Some("none"));
    assert!(!schema.uses_sentinel("spec-type"));
    assert_eq!(bump("spec-type", "none", 1), Some("draft-simple".into()));

    assert_eq!(schema.omit_token("spec-draft-n-max"), Some(DEFAULT));
    assert!(schema.uses_sentinel("spec-draft-n-max"));
    assert_eq!(bump("spec-draft-n-max", DEFAULT, 1), Some("3".into()));
    assert_eq!(schema.spec("spec-draft-n-min").unwrap().default, "0");
}

#[test]
fn reasoning_effort_is_a_json_kwarg_enum_omitted_at_default() {
    let schema = llama();
    assert_eq!(schema.omit_token("reasoning-effort"), Some(DEFAULT));
    assert!(!schema.uses_sentinel("reasoning-effort"));
    assert_eq!(bump("reasoning-effort", "default", 1), Some("low".into()));
    assert_eq!(kind("reasoning-effort").extreme(1), Some("high".into()));

    assert_eq!(schema.cli_value("reasoning-effort", "high"), r#"{"reasoning_effort":"high"}"#);
    assert_eq!(schema.cli_value("temperature", "0.7"), "0.7");
}

#[test]
fn mmap_is_a_flag_omitted_when_on() {
    let schema = llama();
    assert!(schema.is_flag("mmap"));
    assert_eq!(schema.omit_token("mmap"), Some("on"));
    assert_eq!(bump("mmap", "on", 1), Some("off".into()));
}

#[test]
fn jinja_is_a_flag_omitted_when_on() {
    let schema = llama();
    assert!(schema.is_flag("jinja"));
    assert_eq!(schema.omit_token("jinja"), Some("on"));
    assert_eq!(schema.spec("jinja").unwrap().cli, "--no-jinja");
    assert_eq!(bump("jinja", "on", 1), Some("off".into()));
}

#[test]
fn chat_template_is_an_enum_of_builtins_omitted_at_default() {
    let schema = llama();
    assert_eq!(schema.omit_token("chat-template"), Some(DEFAULT));
    assert!(!schema.uses_sentinel("chat-template"));
    let kind = kind("chat-template");
    assert_eq!(kind.extreme(-1), Some("default".into()));
    assert_eq!(bump("chat-template", "default", 1), Some("bailing".into()));
    assert_eq!(validate(&kind, "LLAMA3").unwrap(), "llama3");
    assert!(validate(&kind, "not-a-template").is_err());
}

#[test]
fn extreme_jumps_to_bounds() {
    assert_eq!(kind("port").extreme(-1), Some("1".into()));
    assert_eq!(kind("port").extreme(1), Some("65535".into()));
    assert_eq!(kind("cache-type-k").extreme(1), Some("q4_0".into()));
}

#[test]
fn omitted_values_are_recognized_as_they_are_spelled() {
    let schema = llama();
    assert_eq!(schema.matching_omit_token("temperature", " DEFAULT "), Some(DEFAULT));
    assert_eq!(schema.matching_omit_token("temperature", "0.7"), None);
    assert_eq!(schema.matching_omit_token("host", "default"), None);
    assert_eq!(llama_options::omit_token("flash-attn"), Some("auto"));
    assert_eq!(flm_options::omit_token("port"), None);
}

// --- llama.cpp on the system -------------------------------------------------

fn nothing_found() -> LlamaProbe {
    LlamaProbe {
        binary_path: None,
        bench_path: None,
        version: None,
        device_output: None,
        help: None,
    }
}

#[test]
fn devices_and_abilities_are_read_from_what_is_printed() {
    let devices = "Available devices:\n  ROCm0: AMD (1 MiB)\n  Vulkan0: AMD\nnot a device\n";
    let mut probe = nothing_found();
    probe.device_output = Some(devices.into());
    probe.help = Some("--hf-repo --hf-file --spec-draft-hf draft-dflash".into());
    assert_eq!(parse_devices(devices), ["ROCm0", "Vulkan0"]);
    let backend = LlamaCppBackend::discover(probe);
    assert_eq!(backend.runtime.devices, ["ROCm0", "Vulkan0"]);
    assert!(backend.hf_supported && backend.draft_hf_supported && backend.dflash_supported);
    assert!(!backend.mmproj_auto_supported);
    assert_eq!(cli_binary("/opt/llama-server").as_deref(), Some("/opt/llama-cli"));
}

#[test]
fn runtimes_are_known_by_name() {
    assert_eq!(throughput_parser("FastFlowLM"), ThroughputParser::Flm);
    assert_eq!(throughput_parser("llama.cpp"), ThroughputParser::LlamaCpp);
    assert_eq!(throughput_parser("other"), ThroughputParser::Nothing);
    assert!(!templates_for("llama.cpp").is_empty());
    assert!(templates_for("other").is_empty());
}

// --- FastFlowLM --------------------------------------------------------------

const SAMPLE: &str = r#"[FLM]  Fetching models from: /opt/fastflowlm/share/flm/model_list.json
{
    "models": [
        {
            "default_context_length": 16384,
            "details": { "family": "qwen3", "parameter_size": "4B", "quantization_level": "Q4_1" },
            "footprint": 2.8,
            "installed": true,
            "label": ["reasoning", "tool-calling"],
            "max_prefill_len": 4096,
            "model": "qwen3:4b",
            "name": "qwen3:4b",
            "size": 4000000000,
            "url": "https://huggingface.co/FastFlowLM/Qwen3-4B-NPU2/resolve/main"
        },
        {
            "default_context_length": 8192,
            "details": { "family": "llama3", "quantization_level": "Q4_1" },
            "footprint": 1.1,
            "installed": false,
            "label": [],
            "model": "llama3.2:1b",
            "name": "llama3.2:1b",
            "url": "https://huggingface.co/FastFlowLM/Llama-3.2-1B-NPU2/resolve/main"
        }
    ]
}"#;

fn named(label: &str) -> Vec<String> {
    vec![LOCAL_GROUP.into(), label.into()]
}

fn online(label: &str) -> Vec<String> {
    vec![ONLINE_GROUP.into(), label.into()]
}

fn entries() -> Vec<Entry> {
    let value: serde_json::Value = serde_json::from_str(&strip_preamble(SAMPLE)).unwrap();
    let text = |v: &serde_json::Value| v.as_str().map(str::to_string);
    value["models"]
        .as_array()
        .unwrap()
        .iter()
        .map(|m| Entry {
            name: text(&m["name"]).unwrap(),
            installed: m["installed"].as_bool().unwrap(),
            default_context_length: m["default_context_length"].as_u64(),
            max_prefill_len: m["max_prefill_len"].as_u64(),
            size_bytes: (m["footprint"].as_f64().unwrap() * 1e9).round() as u64,
            label: m["label"].as_array().unwrap().iter().map(|l| text(l).unwrap()).collect(),
            vlm: false,
            asr: false,
            url: text(&m["url"]).unwrap(),
            files: Vec::new(),
            family: text(&m["details"]["family"]),
            quantization_level: text(&m["details"]["quantization_level"]),
        })
        .collect()
}

#[test]
fn strips_the_banner_before_parsing() {
    assert!(strip_preamble(SAMPLE).starts_with('{'));
    assert_eq!(strip_preamble("{\"models\":[]}"), "{\"models\":[]}");
}

#[test]
fn parses_the_catalog() {
    let entries = entries();
    assert_eq!(entries.len(), 2);
    assert_eq!(entries[0].name, "qwen3:4b");
    assert!(entries[0].installed);
    assert_eq!(entries[0].default_context_length, Some(16384));
    assert_eq!(entries[0].quantization_level.as_deref(), Some("Q4_1"));
}

#[test]
fn a_catalog_row_without_a_url_resolves_to_no_directory_at_all() {
    assert_eq!(repo_dir_name("FastFlowLM/Qwen3-4B-NPU2").as_deref(), Some("Qwen3-4B-NPU2"));
    assert_eq!(repo_dir_name(""), None);
    assert_eq!(repo_dir_name("owner/"), None);
    assert_eq!(repo_dir_name(".."), None);

    let mut entry = entries().remove(0);
    entry.url = String::new();
    entry.installed = true;
    let model = entry.to_model(&named("reasoning"), "/models", "/cfg");
    assert_eq!(model.path, "", "no directory means no local path");
    assert_eq!(model_dir_in("/models", &model), None, "and nothing for a deletion to remove");
}

#[test]
fn a_model_root_that_is_not_absolute_resolves_to_no_directory_at_all() {
    let mut entry = entries().remove(0);
    entry.installed = true;
    let model = entry.to_model(&named("reasoning"), "/models", "/cfg");

    assert_eq!(model_dir_in("", &model), None, "an empty root names nothing");
    assert_eq!(model_dir_in("models", &model), None, "nor does a relative one");

    let dir = model_dir_in("/srv/flm", &model).expect("an absolute root resolves");
    assert_eq!(dir.rsplit_once('/').unwrap().0, "/srv/flm");
}

#[test]
fn only_closing_chunks_have_a_payload() {
    assert_eq!(chunk_payload("ChatCompletionChunk: {\"a\":1} ").as_deref(), Some("{\"a\":1}"));
    for line in ["[FLM]  Start prefill...", "[FLM]  Prefill chunk 1/1 with 299 tokens", ""] {
        assert_eq!(chunk_payload(line), None, "should not measure: {line}");
    }
}

fn flm_backend() -> FlmBackend {
    FlmBackend {
        runtime: Runtime {
            name: NAME.into(),
            description: String::new(),
            version: None,
            binary_path: None,
            bench_path: None,
            formats: vec![],
            devices: vec![],
        },
        npu_ready: true,
        npu_problem: None,
    }
}

#[test]
fn only_the_npu_runtime_is_single_session() {
    assert!(flm_backend().single_session());
    assert!(!LlamaCppBackend::discover(nothing_found()).single_session());
}

#[test]
fn local_and_online_split_by_installed_then_group_by_label() {
    let entries = entries();
    assert_eq!(entries[0].groups(false), [["local", "reasoning"], ["local", "tool-calling"]]);
    assert_eq!(entries[1].groups(false), [["online", "chat"]]);
}

#[test]
fn the_flat_view_places_each_model_exactly_once() {
    let entries = entries();
    assert_eq!(entries[0].groups(false).len(), 2);
    assert_eq!(entries[0].groups(true), [["local"]]);
    assert_eq!(entries[1].groups(true), [["online"]]);

    let flat = entries[0].to_model(&entries[0].groups(true)[0], "/models", "/cfg");
    assert_eq!(flat.catalog_path, ["local", "qwen3:4b"]);
    assert_eq!(flat.profile_key(), "flm:qwen3:4b");
    assert_eq!(flat.catalog_dir, "/cfg/fastflowlm/qwen3_4b");
}

#[test]
fn pinned_revisions_are_honored_and_bare_urls_fall_back_to_main() {
    let pinned = |url: &str| {
        let mut entry = entries().remove(0);
        entry.url = url.into();
        entry.revision()
    };

    assert_eq!(
        pinned("https://huggingface.co/FastFlowLM/Qwen3-0.6B-NPU2/resolve/v0.9.22-faster-q4-1"),
        "v0.9.22-faster-q4-1"
    );
    assert_eq!(pinned("https://huggingface.co/FastFlowLM/X-NPU2/resolve/main"), "main");
    assert_eq!(pinned("https://huggingface.co/FastFlowLM/Embedding-Gemma-300M-NPU2"), "main");
    assert_eq!(pinned(""), "main");
}

#[test]
fn a_multi_group_model_keeps_one_profile_identity() {
    let entry = &entries()[0];
    let models: Vec<Model> =
        entry.groups(false).iter().map(|g| entry.to_model(g, "/models", "/cfg")).collect();
    assert_eq!(models.len(), 2);
    assert_eq!(models[0].catalog_path, ["local", "reasoning", "qwen3:4b"]);
    assert_eq!(models[1].catalog_path, ["local", "tool-calling", "qwen3:4b"]);
    for model in &models {
        assert_eq!(model.profile_key(), "flm:qwen3:4b");
        assert_eq!(model.catalog_dir, "/cfg/fastflowlm/qwen3_4b");
    }
}

#[test]
fn disk_size_comes_from_footprint_not_the_parameter_count() {
    let model = entries()[0].to_model(&named("reasoning"), "/models", "/cfg");
    assert_eq!(model.size_bytes, 2_800_000_000);
}

#[test]
fn an_installed_model_resolves_its_directory_and_an_absent_one_stays_launchable() {
    let entries = entries();
    let installed = entries[0].to_model(&named("reasoning"), "/models", "/cfg");
    assert_eq!(installed.path, "/models/Qwen3-4B-NPU2");
    assert!(installed.is_model());

    let absent = entries[1].to_model(&online("chat"), "/models", "/cfg");
    assert_eq!(absent.path, "");
    assert!(absent.is_model());
    assert!(!absent.is_catalog_dir());
}

#[test]
fn every_flag_is_emitted_with_an_explicit_value() {
    let schema = OptionSchema::of(Dialect::Flm);
    assert!(!schema.is_flag("cors"));
    assert_eq!(schema.omit_token("host"), None);
    assert_eq!(schema.omit_token("port"), None);
    assert_eq!(schema.omit_token("pmode"), Some(DEFAULT));
}

#[test]
fn serve_command_always_carries_the_port() {
    let backend = flm_backend();
    let model = entries()[0].to_model(&named("reasoning"), "/models", "/cfg");
    let options = vec![
        item("ctx-len", "8192", "--ctx-len"),
        item("pmode", DEFAULT, "--pmode"),
        item("host", "127.0.0.1", "--host"),
        item("port", "52625", "--port"),
    ];
    let ctx = LaunchContext::new("flm", &model, &options).expect("selected model is launchable");
    let argv = backend.build_command(&ctx).argv;

    assert_eq!(argv[..4], ["flm", "serve", "qwen3:4b", "--quiet"]);
    assert!(argv.windows(2).any(|w| w == ["--ctx-len", "8192"]));
    assert!(!argv.iter().any(|a| a == "--pmode"));
    assert!(argv.windows(2).any(|w| w == ["--port", "52625"]));
    assert!(argv.windows(2).any(|w| w == ["--host", "127.0.0.1"]));
}

#[test]
fn chat_drops_server_only_options() {
    let backend = flm_backend();
    let model = entries()[0].to_model(&named("reasoning"), "/models", "/cfg");
    let options = vec![
        item("ctx-len", "8192", "--ctx-len"),
        item("host", "127.0.0.1", "--host"),
        item("port", "52625", "--port"),
    ];
    let ctx = LaunchContext::new("flm", &model, &options).expect("selected model is launchable");
    let argv = backend.chat_argv(&ctx).unwrap();

    assert_eq!(argv[..3], ["flm", "run", "qwen3:4b"]);
    assert!(argv.windows(2).any(|w| w == ["--ctx-len", "8192"]));
    assert!(!argv.iter().any(|a| a == "--port" || a == "--host"));
}

#[test]
fn bench_keeps_only_the_power_mode() {
    let backend = flm_backend();
    let model = entries()[0].to_model(&named("reasoning"), "/models", "/cfg");
    let options = vec![
        item("pmode", "turbo", "--pmode"),
        item("ctx-len", "8192", "--ctx-len"),
        item("port", "52625", "--port"),
    ];
    let ctx = LaunchContext::new("flm", &model, &options).expect("selected model is launchable");
    let argv = backend.bench_argv(&ctx).unwrap();

    assert_eq!(argv, ["flm", "bench", "qwen3:4b", "--pmode", "turbo"]);
}

#[test]
fn repo_ids_keep_their_owner_but_directories_do_not() {
    let entry = &entries()[0];
    assert_eq!(entry.repo(), "FastFlowLM/Qwen3-4B-NPU2");
    assert_eq!(repo_dir_name(&entry.repo()).as_deref(), Some("Qwen3-4B-NPU2"));
    let model = entry.to_model(&named("reasoning"), "/models", "/cfg");
    assert_eq!(model.path, "/models/Qwen3-4B-NPU2");
}

#[test]
fn tags_sanitize_into_one_path_segment() {
    assert_eq!(sanitize("qwen3:4b"), "qwen3_4b");
    assert_eq!(sanitize("qwen3.6-moe:35b-a3b"), "qwen3.6-moe_35b-a3b");
    assert!(!sanitize("a/b:c").contains('/'));
}

#[test]
fn both_arrangements_cover_the_catalog() {
    let entries = entries();
    let categories = arrange(&entries, 0, "/models", "/cfg");
    let flat = arrange(&entries, 1, "/models", "/cfg");
    assert_eq!((categories.len(), flat.len()), (3, 2));
    assert!(flat.iter().all(|m| m.catalog_path.len() == 2));
    assert!(categories.iter().all(|m| m.catalog_path.len() == 3));
}

#[test]
fn a_download_knows_its_files_and_its_place() {
    let tree = vec![
        TreeEntry { path: "config.json".into(), size: 10 },
        TreeEntry { path: "model.q4nx".into(), size: 90 },
    ];
    let wanted = texts(&["config.json", "model.q4nx"]);
    let sizes = file_sizes("o/r", "main", &wanted, &tree).unwrap();
    assert_eq!(expected_files("/d", &sizes)[1], ("/d/model.q4nx".to_string(), 90));
    assert!(file_sizes("o/r", "main", &texts(&["absent"]), &tree).is_err());
    assert_eq!(partial_path("/d", "model.q4nx"), "/d/model.q4nx.llmctl-part");
    assert_eq!(overall_progress(10, 50, 100), 60);
    assert_eq!(overall_progress(10, 500, 100), 100);
    assert_eq!(model_root(&None, &Some("/home/u".into())), "/home/u/.config/flm/models");

    let model = entries()[1].to_model(&online("chat"), "/models", "/cfg");
    let root = Some("/srv".to_string());
    let transfer = flm_backend().model_transfer(&model, &root, &None).unwrap();
    assert_eq!(transfer.targets, ["/srv/Llama-3.2-1B-NPU2"]);
    assert_eq!(transfer.runtime.0, NAME);
    let installed = entries()[0].to_model(&named("reasoning"), "/models", "/cfg");
    assert!(flm_backend().model_transfer(&installed, &root, &None).is_none());
    let tree = deletion_tree("/models", &installed, &vec![installed.clone()], true);
    assert_eq!(tree.as_deref(), Some("/models/Qwen3-4B-NPU2"));
    assert_eq!(deletion_tree("/models", &installed, &vec![installed.clone()], false), None);
}

#[test]
fn the_npu_says_what_is_wrong_with_it() {
    let mut v = Validation {
        ready: false,
        devices: vec![Device { device: "/dev/accel/accel0".into(), fw_major: 1, fw_minor: 1, fw_patch: 2 }],
        amd_device_found: false,
        kernel_ok: false,
        memlock_ok: false,
        all_fw_ok: false,
    };
    assert_eq!(v.devices[0].label(), "accel0 (fw 1.1.2)");
    assert_eq!(v.problem().as_deref(), Some("no AMD XDNA2 NPU found"));
    v.amd_device_found = true;
    assert!(v.problem().unwrap().contains("kernel"));
    v.kernel_ok = true;
    assert!(v.problem().unwrap().contains("firmware"));
    v.all_fw_ok = true;
    assert!(v.problem().unwrap().contains("memlock"));
    v.memlock_ok = true;
    assert!(v.problem().unwrap().contains("flm validate"));
    let backend = FlmBackend::discover(FlmProbe {
        binary_path: Some("/usr/bin/flm".into()),
        version: Some("0.9.45".into()),
        validation: Some(v),
    });
    assert_eq!(backend.runtime.version.as_deref(), Some("flm 0.9.45"));
    assert!(backend.unavailable_reason().is_some());
}

// --- launching ---------------------------------------------------------------

fn stored() -> Model {
    let mut m = entries()[0].to_model(&named("reasoning"), "/models", "/cfg");
    m.flm = None;
    m.path = "/m/x.gguf".into();
    m.runtime = llama_cpp::NAME.into();
    m
}

fn browser() -> BrowserState {
    let mut probe = nothing_found();
    probe.binary_path = Some("/opt/llama-server".into());
    let found = discover(LlamaCppBackend::discover(probe), flm_backend());
    let mut browser = BrowserState::new(found);
    browser.focus = Pane::Profile;
    browser.models.replace(vec![stored()]);
    browser
}

#[test]
fn a_launch_is_refused_until_everything_is_selected() {
    let mut browser = browser();
    let hub = Fetches { hub: None, files: Vec::new() };
    let within: Vec<FloatReading> = (0..6).map(|_| FloatReading::Within).collect();
    let refused = |b: &BrowserState| b.build_launch_request(&hub).unwrap_err();
    let stopped = |b: &BrowserState, readings: &Vec<FloatReading>| {
        match b.start_session(&hub, readings, &None) {
            Start::Refused(message) => message.lines,
            _ => Vec::new(),
        }
    };
    assert_eq!(refused(&browser), "no profile selected");
    let profiles = vec![Profile { name: "Default".into(), builtin: true, favorite: false }];
    browser.profiles.replace(profiles);
    browser.options.replace(sample_options());
    assert_eq!(stopped(&browser, &within), ["ctx-size: must be ≤ 16384"]);
    browser.options.items[0].value = "16384".into();
    let request = browser.build_launch_request(&hub).unwrap();
    assert_eq!((request.host.as_str(), request.port), ("127.0.0.1", 8000));
    assert_eq!(request.command.argv[..3], ["/opt/llama-server", "-m", "/m/x.gguf"]);
    assert_eq!(request.runtime, "llama.cpp");
    assert!(matches!(browser.start_session(&hub, &within, &None), Start::Run(_)));
    browser.options.replace(vec![opt("port", "70000")]);
    assert_eq!(browser.build_launch_request(&hub).unwrap().port, 8000);
    assert_eq!(stopped(&browser, &within), ["port: must be ≤ 65535"]);
    assert!(matches!(browser.start_chat(&within, &None), Start::Refused(_)));
    browser.options.replace(vec![opt("temperature", "x")]);
    assert!(stopped(&browser, &within).is_empty());
    assert_eq!(stopped(&browser, &vec![FloatReading::NotANumber]).len(), 1);
    browser.options.replace(vec![item("no-such-option", "1", "")]);
    assert_eq!(stopped(&browser, &within), ["unknown option: no-such-option"]);
    browser.models.replace(Vec::new());
    assert_eq!(refused(&browser), "no model selected");
    browser.focus = Pane::Model;
    assert!(matches!(browser.start_session(&hub, &within, &None), Start::Nothing));
    assert!(matches!(browser.start_chat(&within, &None), Start::Nothing));
    browser.runtimes.state.select(None);
    assert_eq!(refused(&browser), "no runtime selected");
}

#[test]
fn a_live_session_holds_a_runtime_of_one_model() {
    let runtimes = browser().runtimes.items;
    let live = Some(LiveSession { name: "qwen3:0.6b".into(), status: "Running".into() });
    let lines = single_session_conflict(&runtimes, NAME, &live).expect("it must block");
    assert!(lines[0].contains("one model at a time"), "{lines:?}");
    assert_eq!(lines[1], "qwen3:0.6b is Running.");
    assert!(single_session_conflict(&runtimes, NAME, &None).is_none());
    assert!(single_session_conflict(&runtimes, "llama.cpp", &live).is_none());
}

#[test]
fn panes_follow_the_selection() {
    let mut browser = browser();
    browser.focus = Pane::Runtime;
    let source = vec![stored()];
    let store = ProfileStore::new();
    browser.rebuild_below(Pane::Runtime, &source, &store);
    assert_eq!(browser.models.items[0].name, "local");
    assert_eq!(browser.catalog_preview[0].name, "reasoning");
    assert!(browser.profiles.is_empty());
    assert!(browser.jump_to_model(&source, &source[0].id));
    browser.rebuild_below(Pane::Model, &source, &store);
    assert_eq!(browser.profiles.items[0].name, "Default");
    let defaults = Defaults::default();
    let count = browser.option_texts(&store, &defaults).len();
    let readings = (0..count).map(|_| FloatReading::Within).collect();
    browser.rebuild_options(&store, &defaults, &readings);
    assert_eq!(browser.options.items.len(), count);
    assert!(browser.select_profile("Coding") && !browser.select_profile("absent"));
    assert!(matches!(browser.runtimes.selected(), Some(Backend::LlamaCpp(_))));
    browser.focus = Pane::Options;
    assert_eq!(browser.breadcrumb().first().map(String::as_str), Some("llama.cpp"));
}

// --- deletion ----------------------------------------------------------------

#[test]
fn a_plan_overlaps_a_transfer_writing_the_same_files() {
    let plan = Deletion {
        files: texts(&["/r/blobs/aa"]),
        trees: texts(&["/r/flm-model"]),
        prune: Vec::new(),
        husk: None,
        bytes: 0,
    };
    let links = Resolved {
        pairs: vec![("/r/blobs/../blobs/aa".to_string(), "/r/blobs/aa".to_string())],
    };
    assert!(plan.overlaps(&texts(&["/r/blobs/aa"]), &links));
    assert!(plan.overlaps(&texts(&["/r/blobs/../blobs/aa"]), &links));
    assert!(plan.overlaps(&texts(&["/r/flm-model/model.bin"]), &links));
    assert!(!plan.overlaps(&texts(&["/r/blobs/bb"]), &links));
    assert!(!plan.overlaps(&Vec::new(), &links));
    assert!(!plan.is_empty());
}

#[test]
fn a_deletion_goes_step_by_step() {
    let plan = Deletion {
        files: texts(&["/f"]),
        trees: texts(&["/t"]),
        prune: texts(&["/p"]),
        husk: Some(Husk { dir: "/h".into(), empty_first: texts(&["/h/blobs"]) }),
        bytes: 0,
    };
    assert!(matches!(plan.execute_step(0), Removal::File(p) if p == "/f"));
    assert!(matches!(plan.execute_step(1), Removal::Tree(p) if p == "/t"));
    assert!(matches!(plan.execute_step(2), Removal::IfEmpty(p) if p == "/p"));
    assert!(matches!(plan.execute_step(3), Removal::Husk));
    assert!(matches!(plan.execute_step(4), Removal::Done));
    let step = plan.execute_step(0);
    assert_eq!(removal_outcome(&step, &RemovalEnd::NotFound), Ok(()));
    assert_eq!(
        removal_outcome(&step, &RemovalEnd::Failed("denied".into())),
        Err("removing /f: denied".to_string())
    );
    assert_eq!(removal_outcome(&plan.execute_step(2), &RemovalEnd::Failed("full".into())), Ok(()));
}

#[test]
fn a_file_counts_only_once_its_last_name_goes() {
    let file = |canonical: &str, inode, length, links| {
        Some(LinkFact {
            symlink: false,
            canonical: canonical.into(),
            device: 1,
            inode,
            length,
            links,
        })
    };
    let plain = || file("/r/plain.gguf", 1, 100, 1);
    assert_eq!(freed_bytes(&vec![plain()]), 100, "a file with one name frees its length");
    assert_eq!(freed_bytes(&vec![plain(), plain()]), 100);

    let shared = || file("/r/shared.gguf", 2, 400, 2);
    let other_name = || file("/r/also-shared.gguf", 2, 400, 2);
    assert_eq!(freed_bytes(&vec![shared()]), 0, "the contents survive under the other name");
    assert_eq!(
        freed_bytes(&vec![shared(), other_name()]),
        400,
        "unlinking every name does free them"
    );
    assert_eq!(
        freed_bytes(&vec![plain(), shared()]),
        100,
        "and a mixed plan counts only what it fully releases"
    );

    let link = Some(LinkFact {
        symlink: true,
        canonical: "/r/plain.gguf".into(),
        device: 1,
        inode: 3,
        length: 14,
        links: 1,
    });
    assert_eq!(freed_bytes(&vec![link, plain(), None]), 100);
}

#[test]
fn a_flm_entry_is_served_by_its_tag() {
    let flm = FlmModel {
        tag: "t:1b".into(),
        installed: true,
        repo: "o/r".into(),
        revision: "main".into(),
        files: Vec::new(),
        labels: Vec::new(),
        vlm: false,
        asr: false,
        max_prefill_len: None,
    };
    let mut model = stored();
    model.flm = Some(flm);
    assert_eq!(model.profile_key(), "flm:t:1b");
    let backend = flm_backend();
    let options = Vec::new();
    let ctx = LaunchContext::new("flm", &model, &options).unwrap();
    assert_eq!(backend.process_token(&ctx), "t:1b");
    assert_eq!(backend.health_path(), "/v1/models");
}

#[test]
fn a_model_is_downloaded_file_by_file() {
    let sizes = vec![("config.json".to_string(), 10), ("model.q4nx".to_string(), 90)];
    assert_eq!(download_total("org/repo", &sizes), Ok(100));
    assert_eq!(
        download_total("org/repo", &Vec::new()),
        Err("hf://org/repo reports no downloadable files".to_string())
    );
    let huge = vec![("a".to_string(), u64::MAX), ("b".to_string(), 1)];
    assert_eq!(
        download_total("org/repo", &huge),
        Err("hf://org/repo reports impossible file sizes".to_string())
    );
    let disk = vec![
        BlobSizes { incomplete: None, complete: Some(10) },
        BlobSizes { incomplete: Some(40), complete: Some(7) },
    ];
    assert_eq!(stored_bytes(&sizes, &disk), 50);
    assert!(matches!(next_file(true, 10, Some(10)), FileStep::Stop));
    assert!(matches!(next_file(false, 10, Some(10)), FileStep::Skip));
    assert!(matches!(next_file(false, 90, Some(7)), FileStep::Fetch));
    assert!(matches!(next_file(false, 90, None), FileStep::Fetch));
}

#[test]
fn removing_a_fastflow_model_takes_its_directory() {
    let installed = entries()[0].to_model(&named("reasoning"), "/models", "/cfg");
    let catalog = vec![installed.clone()];
    let plan = flm_backend().deletion("/models", &installed, &catalog, &Some(vec![10, 90]));
    let plan = plan.unwrap();
    assert_eq!(plan.trees, ["/models/Qwen3-4B-NPU2"]);
    assert_eq!((plan.bytes, plan.files.len(), plan.prune.len()), (100, 0, 0));
    assert!(flm_backend().deletion("/models", &installed, &catalog, &None).is_none());
    assert_eq!(tree_bytes(&Vec::new()), 0);
}

#[test]
fn a_launch_that_pulls_its_model_shows_the_files_growing() {
    let model = entries()[1].to_model(&online("chat"), "/models", "/cfg");
    let options = Vec::new();
    let ctx = LaunchContext::new("flm", &model, &options).unwrap();
    let files = vec![("/models/L/model.q4nx".to_string(), 90), ("/models/L/.keep".to_string(), 1)];
    let fetched = flm_backend().launch_download(&ctx, &files);
    assert_eq!(fetched[0].incomplete_file, "/models/L/model.q4nx");
    assert_eq!(fetched[0].complete_file, "/models/L/model.llmctl-never-complete");
    assert_eq!(fetched[0].expected_bytes, 90);
    assert_eq!(fetched[1].complete_file, "/models/L/.keep.llmctl-never-complete");
    let installed = entries()[0].to_model(&named("reasoning"), "/models", "/cfg");
    let ctx = LaunchContext::new("flm", &installed, &options).unwrap();
    assert!(flm_backend().launch_download(&ctx, &files).is_empty());
}

#[test]
fn two_links_to_one_file_are_two_names() {
    let pairs = vec![
        ("/hub/a".to_string(), "/disk/a".to_string()),
        ("/hub/a/x.gguf".to_string(), "/disk/blob".to_string()),
        ("/hub/a/y.gguf".to_string(), "/disk/blob".to_string()),
    ];
    let links = Resolved { pairs };
    assert_eq!(links.resolve("/hub/a/x.gguf"), links.resolve("/hub/a/y.gguf"));
    assert_eq!(links.name_identity("/hub/a/x.gguf"), "/disk/a/x.gguf");
    assert_eq!(links.name_identity("/hub/a/y.gguf"), "/disk/a/y.gguf");
    assert_eq!(links.name_identity("/"), "/");
}

fn with_profile() -> BrowserState {
    let mut browser = browser();
    let profiles = vec![
        Profile { name: "Default".into(), builtin: true, favorite: false },
        Profile { name: "Coding".into(), builtin: true, favorite: false },
    ];
    browser.profiles.replace(profiles);
    browser
}

#[test]
fn edits_of_a_profile_are_kept_for_the_selected_model() {
    let mut browser = with_profile();
    let mut store = ProfileStore::new();
    let defaults = Defaults::default();
    let model = stored().profile_key();
    assert_eq!(browser.current_runtime_model(), Some((llama_cpp::NAME.to_string(), model.clone())));

    let edited = browser.apply_option_value(&mut store, &defaults, "port", "9000".into()).unwrap();
    assert_eq!((edited.model.as_str(), edited.profile.as_str()), (model.as_str(), "Default"));
    let kept = store.get(llama_cpp::NAME, &model, "Default").unwrap();
    assert_eq!(kept.values.get("port").map(String::as_str), Some("9000"));
    assert!(kept.values.get("host").is_some(), "an edit starts from what the profile sets");
    assert!(!kept.custom && !kept.favorite);

    assert!(browser.toggle_favorite(&mut store, &defaults).is_some());
    assert!(store.is_favorite(llama_cpp::NAME, &model, "Default"));
    browser.toggle_favorite(&mut store, &defaults);
    assert!(!store.is_favorite(llama_cpp::NAME, &model, "Default"));

    browser.focus = Pane::Options;
    assert!(browser.toggle_favorite(&mut store, &defaults).is_none());
    assert!(browser.delete_profile().is_none());
    browser.focus = Pane::Profile;
    assert_eq!(browser.delete_profile().unwrap().profile, "Default");
    browser.profiles.replace(Vec::new());
    let nowhere = browser.apply_option_value(&mut store, &defaults, "port", "1".into());
    assert!(nowhere.is_none());
    assert!(browser.delete_profile().is_none());
}

#[test]
fn profiles_of_ones_own_start_from_another() {
    let mut browser = with_profile();
    let mut store = ProfileStore::new();
    let defaults = Defaults::default();
    let model = stored().profile_key();
    let failed = |r: Result<llmctl::profiles::store::Key, String>| r.unwrap_err();

    let empty = browser.commit_new_profile(&mut store, &defaults, "");
    assert_eq!(failed(empty), "name cannot be empty");
    let taken = browser.commit_new_profile(&mut store, &defaults, "coding");
    assert_eq!(failed(taken), "'coding' already exists");

    browser.apply_option_value(&mut store, &defaults, "port", "9000".into());
    browser.commit_new_profile(&mut store, &defaults, "mine").unwrap();
    let mine = store.get(llama_cpp::NAME, &model, "mine").unwrap();
    assert!(mine.custom);
    assert_ne!(mine.values.get("port").map(String::as_str), Some("9000"));

    let readings = Vec::new();
    let copied =
        browser.commit_duplicate_profile(&mut store, &defaults, "Default", "copy", &readings);
    assert_eq!(copied.unwrap().profile, "copy");
    let copy = store.get(llama_cpp::NAME, &model, "copy").unwrap();
    assert!(copy.custom);
    assert_eq!(copy.values.get("port").map(String::as_str), Some("9000"));

    browser.models.replace(Vec::new());
    let nothing = browser.commit_new_profile(&mut store, &defaults, "x");
    assert_eq!(failed(nothing), "no model selected");
    let nothing = browser.commit_duplicate_profile(&mut store, &defaults, "Default", "x", &readings);
    assert_eq!(failed(nothing), "no model selected");
    assert_eq!(browser.current_runtime_model(), None);
}
