//! The configuration: model sources, runtimes, launch defaults, and where the
//! program keeps its files.

use vstd::prelude::*;
use crate::path;
use crate::text;

verus! {

/// The configuration that is written where there is none.
pub const DEFAULT_CONFIG: &'static str = r#"# llmctl configuration
#
# Model sources are scanned recursively for GGUF files. `directory` preserves
# relative folders; the two store-specific layouts normalize their cache paths.

[[models.sources]]
name = "llama-cache"
path = "~/.cache/llama.cpp"
layout = "directory"

[[models.sources]]
name = "huggingface"
path = "~/.cache/huggingface/hub"
layout = "hugging-face"

[[models.sources]]
name = "lmstudio"
path = "~/.lmstudio/models"
layout = "lm-studio"

[[models.sources]]
name = "models"
path = "~/models"
layout = "directory"

[runtime.llama_cpp]
binary = "llama-server"

[defaults]
host = "127.0.0.1"
port = 8000
"#;

/// How a source lays out its models.
#[derive(Debug, Clone, Copy, PartialEq, Eq, Structural)]
pub enum ModelLayout {
    /// Told from the paths.
    Auto,
    /// Folders are kept as they are.
    Directory,
    /// Folders are dropped.
    Flat,
    LmStudio,
    HuggingFace,
}

impl Default for ModelLayout {
    fn default() -> (r: Self)
        ensures
            r == ModelLayout::Auto,
    {
        ModelLayout::Auto
    }
}

/// A named directory to look for models in.
#[derive(Debug)]
pub struct ModelSourceConfig {
    pub name: String,
    pub path: String,
    pub layout: ModelLayout,
}

/// Where to look for models.
#[derive(Debug)]
pub struct ModelsConfig {
    pub paths: Vec<String>,
    pub sources: Vec<ModelSourceConfig>,
}

impl Default for ModelsConfig {
    fn default() -> (r: Self)
        ensures
            r.paths@.len() == 0,
            r.sources@.len() == 0,
    {
        ModelsConfig { paths: Vec::new(), sources: Vec::new() }
    }
}

/// How llama.cpp is found.
#[derive(Debug)]
pub struct LlamaCppConfig {
    /// Name or path of the server binary.
    pub binary: String,
}

impl Default for LlamaCppConfig {
    fn default() -> (r: Self)
        ensures
            r.binary@ == "llama-server"@,
    {
        LlamaCppConfig { binary: text::copy("llama-server") }
    }
}

/// How FastFlowLM is found.
#[derive(Debug)]
pub struct FastFlowLmConfig {
    /// Name or path of the binary.
    pub binary: String,
}

impl Default for FastFlowLmConfig {
    fn default() -> (r: Self)
        ensures
            r.binary@ == "flm"@,
    {
        FastFlowLmConfig { binary: text::copy("flm") }
    }
}

/// How the runtimes are found.
#[derive(Debug)]
pub struct RuntimeConfig {
    pub llama_cpp: LlamaCppConfig,
    pub fastflowlm: FastFlowLmConfig,
}

impl Default for RuntimeConfig {
    fn default() -> (r: Self)
        ensures
            r.llama_cpp.binary@ == "llama-server"@,
            r.fastflowlm.binary@ == "flm"@,
    {
        RuntimeConfig {
            llama_cpp: LlamaCppConfig::default(),
            fastflowlm: FastFlowLmConfig::default(),
        }
    }
}

/// Where a server listens unless a profile says otherwise.
#[derive(Debug)]
pub struct Defaults {
    pub host: String,
    pub port: u16,
}

impl Default for Defaults {
    fn default() -> (r: Self)
        ensures
            r.host@ == "127.0.0.1"@,
            r.port == 8000,
    {
        Defaults { host: text::copy("127.0.0.1"), port: 8000 }
    }
}

/// The whole configuration.
#[derive(Debug)]
pub struct Config {
    pub models: ModelsConfig,
    pub runtime: RuntimeConfig,
    pub defaults: Defaults,
}

impl Default for Config {
    fn default() -> (r: Self)
        ensures
            r.models.paths@.len() == 0,
            r.models.sources@.len() == 0,
            r.runtime.llama_cpp.binary@ == "llama-server"@,
            r.runtime.fastflowlm.binary@ == "flm"@,
            r.defaults.host@ == "127.0.0.1"@,
            r.defaults.port == 8000,
    {
        Config {
            models: ModelsConfig::default(),
            runtime: RuntimeConfig::default(),
            defaults: Defaults::default(),
        }
    }
}

/// Where the program keeps its files.
#[derive(Debug)]
pub struct Paths {
    pub config_file: String,
    /// The managed catalog.
    pub models_dir: String,
    pub state_dir: String,
    pub cache_dir: String,
    pub log_dir: String,
    pub sessions_dir: String,
}

/// The directories that the platform offers the program.
#[derive(Debug)]
pub struct BaseDirs {
    pub config_dir: String,
    pub cache_dir: String,
    pub data_dir: String,
    /// Not every platform has one.
    pub state_dir: Option<String>,
}

/// The directory for state: the platform's, else that for data.
pub open spec fn state_place(dirs: BaseDirs) -> Seq<char> {
    match dirs.state_dir {
        Some(s) => s@,
        None => dirs.data_dir@,
    }
}

impl Paths {
    /// Where the program keeps its files, below the directories that the platform
    /// offers.
    pub fn resolve(dirs: &BaseDirs) -> (r: Paths)
        ensures
            r.config_file@ == path::joined(dirs.config_dir@, "config.toml"@),
            r.models_dir@ == path::joined(dirs.config_dir@, "models"@),
            r.state_dir@ == state_place(*dirs),
            r.cache_dir@ == dirs.cache_dir@,
            r.log_dir@ == path::joined(state_place(*dirs), "logs"@),
            r.sessions_dir@ == path::joined(state_place(*dirs), "sessions"@),
    {
        let state = match &dirs.state_dir {
            Some(s) => s.clone(),
            None => dirs.data_dir.clone(),
        };
        Paths {
            config_file: path::join(dirs.config_dir.as_str(), "config.toml"),
            models_dir: path::join(dirs.config_dir.as_str(), "models"),
            log_dir: path::join(state.as_str(), "logs"),
            sessions_dir: path::join(state.as_str(), "sessions"),
            state_dir: state,
            cache_dir: dirs.cache_dir.clone(),
        }
    }

    /// The directories that must exist before anything is written.
    pub fn directories(&self) -> (r: Vec<String>)
        ensures
            text::strs(r@) == seq![
                self.state_dir@,
                self.cache_dir@,
                self.log_dir@,
                self.sessions_dir@,
                self.models_dir@,
            ],
    {
        let mut out: Vec<String> = Vec::new();
        out.push(self.state_dir.clone());
        out.push(self.cache_dir.clone());
        out.push(self.log_dir.clone());
        out.push(self.sessions_dir.clone());
        out.push(self.models_dir.clone());
        assert(text::strs(out@) =~= seq![
            self.state_dir@,
            self.cache_dir@,
            self.log_dir@,
            self.sessions_dir@,
            self.models_dir@,
        ]);
        out
    }
}

} // verus!
