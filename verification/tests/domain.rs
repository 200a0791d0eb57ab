use llmctl::config::{BaseDirs, Config, Paths, DEFAULT_CONFIG};
use llmctl::domain::options::{FloatReading, FloatStep, OptionKind};
use llmctl::domain::wire::{read_entry, CatalogEntry, ModelFile, ModelSource};
use llmctl::domain::{format_unix_date, human_size, option_value, FlmModel, Model, RemoteModel};
use llmctl::runtime::LaunchContext;

fn legacy() -> ModelFile {
    ModelFile {
        id: String::new(),
        name: "model".into(),
        path: String::new(),
        shard_paths: Vec::new(),
        mtp_path: None,
        dflash_path: None,
        dflash_block_size: None,
        projector_path: None,
        has_mtp: false,
        catalog_path: Vec::new(),
        catalog_dir: String::new(),
        size_bytes: 0,
        quantization: None,
        architecture: None,
        context_length: None,
        modified: None,
        has_chat_template: false,
        remote: None,
        flm: None,
        runtime: "llama.cpp".into(),
    }
}

fn remote() -> RemoteModel {
    RemoteModel {
        repo: "org/repo".into(),
        revision: Some("main".into()),
        file: Some("model.gguf".into()),
        blobs: Vec::new(),
        mtp_file: None,
        dflash_file: None,
        projector_file: None,
        downloads: 0,
        likes: 0,
        gated: false,
    }
}

#[test]
fn an_uncached_gguf_is_a_model_and_keeps_its_identity_after_download() {
    let mut file = legacy();
    file.remote = Some(remote());
    let entry = read_entry("", Some(remote()), None).unwrap();
    assert!(matches!(entry, CatalogEntry::Model(ModelSource::Gguf { .. })));
    let mut model = Model::try_from(file).unwrap();
    let key = model.profile_key();
    let options = Vec::new();
    assert!(LaunchContext::new("server", &model, &options).is_some());
    model.path = "/cache/model.gguf".into();
    assert_eq!(model.profile_key(), key);
    let saved = ModelFile::from(model);
    let restored = Model::try_from(saved).unwrap();
    assert_eq!(restored.profile_key(), key);
    assert!(restored.is_model());
}

#[test]
fn directories_cannot_construct_a_launch_context() {
    let mut directory = Model::try_from(legacy()).unwrap();
    assert!(directory.is_catalog_dir());
    directory.path = "/catalog/directory".into();
    assert!(directory.is_catalog_dir());
    let options = Vec::new();
    assert!(LaunchContext::new("server", &directory, &options).is_none());
}

#[test]
fn legacy_fastflowlm_round_trips_and_mixed_identities_are_rejected() {
    let flm = || FlmModel {
        tag: "qwen:1b".into(),
        installed: false,
        repo: "org/repo".into(),
        revision: "main".into(),
        files: Vec::new(),
        labels: Vec::new(),
        vlm: false,
        asr: false,
        max_prefill_len: None,
    };
    let mut file = legacy();
    file.flm = Some(flm());
    let entry = read_entry("", None, Some(flm())).unwrap();
    assert!(matches!(entry, CatalogEntry::Model(ModelSource::FastFlowLm(_))));
    let model = Model::try_from(file).unwrap();
    assert_eq!(model.profile_key(), "flm:qwen:1b");
    let restored = Model::try_from(ModelFile::from(model)).unwrap();
    assert!(restored.flm.is_some());
    let mut mixed = legacy();
    mixed.flm = Some(flm());
    mixed.remote = Some(remote());
    assert_eq!(
        Model::try_from(mixed).unwrap_err(),
        "a model cannot have both FastFlowLM and GGUF identities"
    );
}

// --- options -----------------------------------------------------------------

fn reading_of(kind: &OptionKind, input: &str) -> FloatReading {
    let OptionKind::Float { min, max } = kind else { return FloatReading::Within };
    match input.trim().parse::<f64>() {
        Err(_) => FloatReading::NotANumber,
        Ok(v) if !v.is_finite() => FloatReading::NotFinite,
        Ok(v) if min.is_some_and(|m| v < m as f64 / 1000.0) => FloatReading::BelowMin,
        Ok(v) if max.is_some_and(|m| v > m as f64 / 1000.0) => FloatReading::AboveMax,
        Ok(_) => FloatReading::Within,
    }
}

fn validate(kind: &OptionKind, input: &str) -> Result<String, String> {
    kind.validate(input, reading_of(kind, input))
}

#[test]
fn float_validation_rejects_nan_and_infinity_with_or_without_bounds() {
    for kind in [
        OptionKind::Float { min: None, max: None },
        OptionKind::Float { min: Some(0), max: Some(2000) },
    ] {
        for input in ["NaN", "nan", "inf", "-inf", "1e999"] {
            assert!(validate(&kind, input).is_err(), "{input}");
        }
        assert_eq!(validate(&kind, " 0.7 ").unwrap(), "0.7");
    }
}

#[test]
fn integer_bounds_remain_exact_above_float_precision() {
    let limit: i64 = 9_007_199_254_740_992;
    let kind = OptionKind::Int { min: Some(limit), max: Some(limit) };
    assert!(validate(&kind, &(limit - 1).to_string()).is_err());
    assert!(validate(&kind, &(limit + 1).to_string()).is_err());
    assert!(validate(&kind, &limit.to_string()).is_ok());
}

#[test]
fn integer_adjustment_saturates_before_clamping() {
    let none = FloatStep::Nowhere;
    let kind = OptionKind::Int { min: None, max: None };
    assert_eq!(kind.adjust(&i64::MAX.to_string(), 1, 1000, &none).unwrap(), i64::MAX.to_string());
    assert_eq!(kind.adjust(&i64::MIN.to_string(), -1, 1000, &none).unwrap(), i64::MIN.to_string());
    let bounded = OptionKind::Int { min: Some(0), max: Some(10) };
    assert_eq!(bounded.adjust("9", 1, 4000, &none).unwrap(), "10");
    assert_eq!(bounded.adjust("1", -1, 4000, &none).unwrap(), "0");
}

#[test]
fn invalid_adjustments_do_not_panic_or_produce_nonfinite_values() {
    let none = FloatStep::Nowhere;
    assert!(OptionKind::Enum(vec![]).adjust("", 1, 1000, &none).is_none());
    assert!(OptionKind::Float { min: None, max: None }.adjust("NaN", 1, 1000, &none).is_none());
}

#[test]
fn ranges_are_shown_with_their_bounds() {
    let label = |kind: OptionKind| kind.range_label();
    assert_eq!(
        label(OptionKind::Float { min: Some(0), max: Some(2500) }).as_deref(),
        Some("0 – 2.5")
    );
    assert!(label(OptionKind::Int { min: Some(1), max: None }).unwrap().contains('1'));
    assert_eq!(label(OptionKind::Str), None);
}

// --- sizes, dates, configuration ---------------------------------------------

#[test]
fn sizes_are_rounded_to_one_decimal() {
    assert_eq!(human_size(0), "0 B");
    assert_eq!(human_size(1023), "1023 B");
    assert_eq!(human_size(1024), "1.0 KB");
    assert_eq!(human_size(1536), "1.5 KB");
    assert_eq!(human_size(5 * 1024 * 1024 * 1024), "5.0 GB");
    for bytes in [1u64, 1100, 104_858, 1_048_575, 123_456_789, 98_765_432_109, u64::MAX] {
        let mut value = bytes as f64;
        let mut unit = 0;
        let units = ["B", "KB", "MB", "GB", "TB"];
        while value >= 1024.0 && unit < units.len() - 1 {
            value /= 1024.0;
            unit += 1;
        }
        let want = if unit == 0 {
            format!("{bytes} B")
        } else {
            format!("{value:.1} {}", units[unit])
        };
        assert_eq!(human_size(bytes), want);
    }
}

#[test]
fn dates_are_those_of_the_calendar() {
    assert_eq!(format_unix_date(0), "1970-01-01");
    assert_eq!(format_unix_date(951_782_400), "2000-02-29");
    assert_eq!(format_unix_date(951_868_799), "2000-02-29");
    assert_eq!(format_unix_date(1_735_689_600), "2025-01-01");
    assert_eq!(format_unix_date(4_107_542_400), "2100-03-01");
}

#[test]
fn directories_follow_the_base_directories() {
    let dirs = BaseDirs {
        config_dir: "/home/u/.config/llmctl".into(),
        state_dir: None,
        data_dir: "/home/u/.local/share/llmctl".into(),
        cache_dir: "/home/u/.cache/llmctl".into(),
    };
    let paths = Paths::resolve(&dirs);
    assert_eq!(paths.config_file, "/home/u/.config/llmctl/config.toml");
    assert_eq!(paths.models_dir, "/home/u/.config/llmctl/models");
    assert_eq!(paths.log_dir, "/home/u/.local/share/llmctl/logs");
    assert_eq!(paths.directories().len(), 5);
    let config = Config::default();
    assert_eq!((config.defaults.host.as_str(), config.defaults.port), ("127.0.0.1", 8000));
    assert_eq!(config.runtime.llama_cpp.binary, "llama-server");
    assert_eq!(option_value(&Vec::new(), "port"), None);
}

#[test]
fn first_load_creates_parseable_default_with_standard_sources() {
    let config: toml::Value = toml::from_str(DEFAULT_CONFIG).unwrap();
    let sources = config["models"]["sources"].as_array().unwrap();
    assert_eq!(sources.len(), 4);
    assert_eq!(sources[0]["name"].as_str(), Some("llama-cache"));
    assert_eq!(sources[1]["layout"].as_str(), Some("hugging-face"));
    assert_eq!(sources[2]["layout"].as_str(), Some("lm-studio"));
    assert_eq!(sources[3]["path"].as_str(), Some("~/models"));
}
