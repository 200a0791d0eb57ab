//! llama.cpp's option vocabulary: its options, how they are spelled on the command
//! line, and its built-in profiles.

use vstd::prelude::*;
use crate::domain::options::{lits, spec_views, KindView, OptionKind, OptionSpec, SpecView};
use crate::profiles::registry::DEFAULT;
use crate::profiles::templates::{pairs, template_views, Template, TemplateView};
use crate::text;

verus! {

// --- options -----------------------------------------------------------------

/// The options of llama.cpp, in the order of display.
pub open spec fn table() -> Seq<SpecView> {
    seq![
        SpecView {
            key: "ctx-size"@,
            cli: "--ctx-size"@,
            kind: KindView::Int(Some(0), None),
            default: "4096"@,
            step: 1024000,
            description: "Maximum context window size in tokens (0 or 'default' = the model's full trained context — watch your memory)."@,
        },
        SpecView {
            key: "gpu-layers"@,
            cli: "-ngl"@,
            kind: KindView::Int(Some(0), Some(999)),
            default: "999"@,
            step: 1000,
            description: "Layers to offload to the GPU (999 = all; 'default' lets llama.cpp decide)."@,
        },
        SpecView {
            key: "device"@,
            cli: "--device"@,
            kind: KindView::Str,
            default: "default"@,
            step: 0,
            description: "Device to use for offloading, selected from llama-server --list-devices ('default' lets llama.cpp choose)."@,
        },
        SpecView {
            key: "split-mode"@,
            cli: "-sm"@,
            kind: KindView::Enum(seq!["default"@, "none"@, "layer"@, "row"@]),
            default: "default"@,
            step: 1000,
            description: "How to split the model across several GPUs (default = llama.cpp default; omitted from command)."@,
        },
        SpecView {
            key: "tensor-split"@,
            cli: "-ts"@,
            kind: KindView::Str,
            default: "default"@,
            step: 0,
            description: "Share of the model for each GPU, as a list of proportions such as 1,1 ('default' lets llama.cpp decide)."@,
        },
        SpecView {
            key: "temperature"@,
            cli: "--temp"@,
            kind: KindView::Float(Some(0), Some(2000)),
            default: "0.8"@,
            step: 50,
            description: "Sampling temperature; lower is more deterministic ('default' = llama.cpp's 0.8)."@,
        },
        SpecView {
            key: "top-p"@,
            cli: "--top-p"@,
            kind: KindView::Float(Some(0), Some(1000)),
            default: "0.95"@,
            step: 50,
            description: "Nucleus sampling: keep tokens within this cumulative probability ('default' = llama.cpp's 0.95)."@,
        },
        SpecView {
            key: "top-k"@,
            cli: "--top-k"@,
            kind: KindView::Int(Some(0), None),
            default: "40"@,
            step: 1000,
            description: "Keep only the top-K most likely tokens (0 = disabled; 'default' = llama.cpp's 40)."@,
        },
        SpecView {
            key: "min-p"@,
            cli: "--min-p"@,
            kind: KindView::Float(Some(0), Some(1000)),
            default: "0.05"@,
            step: 10,
            description: "Minimum token probability relative to the most likely token ('default' = llama.cpp's 0.05)."@,
        },
        SpecView {
            key: "repeat-penalty"@,
            cli: "--repeat-penalty"@,
            kind: KindView::Float(Some(0), Some(2000)),
            default: "1.0"@,
            step: 50,
            description: "Penalty applied to repeated tokens (1.0 = disabled; 'default' = llama.cpp's 1.0)."@,
        },
        SpecView {
            key: "presence-penalty"@,
            cli: "--presence-penalty"@,
            kind: KindView::Float(Some(-2000i64), Some(2000)),
            default: "0.0"@,
            step: 50,
            description: "Penalty applied to tokens that are there already (0.0 = disabled; 'default' = llama.cpp's 0.0)."@,
        },
        SpecView {
            key: "threads"@,
            cli: "--threads"@,
            kind: KindView::Int(Some(0), None),
            default: "0"@,
            step: 1000,
            description: "CPU threads for generation ('default' lets llama.cpp auto-detect, i.e. -1)."@,
        },
        SpecView {
            key: "batch-size"@,
            cli: "--batch-size"@,
            kind: KindView::Int(Some(1), None),
            default: "2048"@,
            step: 256000,
            description: "Logical batch size for prompt processing ('default' = llama.cpp's 2048)."@,
        },
        SpecView {
            key: "parallel"@,
            cli: "-np"@,
            kind: KindView::Int(Some(1), None),
            default: "1"@,
            step: 1000,
            description: "Requests that the server works on at the same time ('default' lets llama.cpp decide)."@,
        },
        SpecView {
            key: "flash-attn"@,
            cli: "--flash-attn"@,
            kind: KindView::Enum(seq!["auto"@, "on"@, "off"@]),
            default: "auto"@,
            step: 1000,
            description: "Flash attention (auto = llama.cpp default; omitted from command)."@,
        },
        SpecView {
            key: "reasoning"@,
            cli: "--reasoning"@,
            kind: KindView::Enum(seq!["auto"@, "on"@, "off"@]),
            default: "auto"@,
            step: 1000,
            description: "Reasoning/thinking in chat (auto = llama.cpp default; omitted from command)."@,
        },
        SpecView {
            key: "reasoning-effort"@,
            cli: "--chat-template-kwargs"@,
            kind: KindView::Enum(seq!["default"@, "low"@, "medium"@, "high"@]),
            default: "default"@,
            step: 1000,
            description: "Reasoning effort passed to the chat template as {\"reasoning_effort\": …} (GPT-OSS-style models; default = omitted)."@,
        },
        SpecView {
            key: "chat-template"@,
            cli: "--chat-template"@,
            kind: KindView::Enum(seq!["default"@, "bailing"@, "bailing-think"@, "bailing2"@, "chatglm3"@, "chatglm4"@, "chatml"@, "command-r"@, "deepseek"@, "deepseek-ocr"@, "deepseek2"@, "deepseek3"@, "exaone-moe"@, "exaone3"@, "exaone4"@, "falcon3"@, "gemma"@, "gigachat"@, "glmedge"@, "gpt-oss"@, "granite"@, "granite-4.0"@, "granite-4.1"@, "grok-2"@, "hunyuan-dense"@, "hunyuan-moe"@, "hunyuan-vl"@, "kimi-k2"@, "llama2"@, "llama2-sys"@, "llama2-sys-bos"@, "llama2-sys-strip"@, "llama3"@, "llama4"@, "megrez"@, "minicpm"@, "mistral-v1"@, "mistral-v3"@, "mistral-v3-tekken"@, "mistral-v7"@, "mistral-v7-tekken"@, "monarch"@, "openchat"@, "orion"@, "pangu-embedded"@, "phi3"@, "phi4"@, "rwkv-world"@, "seed_oss"@, "smolvlm"@, "solar-open"@, "vicuna"@, "vicuna-orca"@, "yandex"@, "zephyr"@]),
            default: "default"@,
            step: 1000,
            description: "Override the chat template with a llama.cpp built-in (default = use the template from the model's GGUF metadata)."@,
        },
        SpecView {
            key: "jinja"@,
            cli: "--no-jinja"@,
            kind: KindView::Enum(seq!["on"@, "off"@]),
            default: "on"@,
            step: 1000,
            description: "Jinja chat template engine (on = llama.cpp default; turn off to add --no-jinja for legacy formatting — disables tool calls and reasoning-effort)."@,
        },
        SpecView {
            key: "mmap"@,
            cli: "--no-mmap"@,
            kind: KindView::Enum(seq!["on"@, "off"@]),
            default: "on"@,
            step: 1000,
            description: "Memory-map the model (on = llama.cpp default; turn off to add --no-mmap for ROCm/AMD GPU compatibility)."@,
        },
        SpecView {
            key: "load-mode"@,
            cli: "-lm"@,
            kind: KindView::Enum(seq!["default"@, "none"@, "mmap"@, "mlock"@]),
            default: "default"@,
            step: 1000,
            description: "How the model is brought into memory (default = llama.cpp default; omitted from command)."@,
        },
        SpecView {
            key: "cache-type-k"@,
            cli: "--cache-type-k"@,
            kind: KindView::Enum(seq!["default"@, "f16"@, "q8_0"@, "q4_0"@]),
            default: "default"@,
            step: 1000,
            description: "KV cache data type for keys (default = llama.cpp default; lower precision = less memory)."@,
        },
        SpecView {
            key: "cache-type-v"@,
            cli: "--cache-type-v"@,
            kind: KindView::Enum(seq!["default"@, "f16"@, "q8_0"@, "q4_0"@]),
            default: "default"@,
            step: 1000,
            description: "KV cache data type for values (default = llama.cpp default; lower precision = less memory)."@,
        },
        SpecView {
            key: "spec-type"@,
            cli: "--spec-type"@,
            kind: KindView::Enum(seq!["none"@, "draft-simple"@, "draft-eagle3"@, "draft-mtp"@, "draft-dflash"@, "ngram-simple"@, "ngram-map-k"@, "ngram-map-k4v"@, "ngram-mod"@, "ngram-cache"@]),
            default: "none"@,
            step: 1000,
            description: "Speculative decoding type (none = disabled; draft-mtp uses the model's integrated or companion MTP head; draft-dflash its block drafter)."@,
        },
        SpecView {
            key: "spec-draft-n-max"@,
            cli: "--spec-draft-n-max"@,
            kind: KindView::Int(Some(0), None),
            default: "3"@,
            step: 1000,
            description: "Max tokens to draft per step for speculative decoding ('default' = llama.cpp's 3)."@,
        },
        SpecView {
            key: "spec-draft-n-min"@,
            cli: "--spec-draft-n-min"@,
            kind: KindView::Int(Some(0), None),
            default: "0"@,
            step: 1000,
            description: "Min draft tokens for speculative decoding ('default' = llama.cpp's 0)."@,
        },
        SpecView {
            key: "sleep-idle-seconds"@,
            cli: "--sleep-idle-seconds"@,
            kind: KindView::Int(Some(-1i64), None),
            default: "-1"@,
            step: 60000,
            description: "Seconds without a request after which the server frees the model (-1 = never; 'default' = llama.cpp's -1)."@,
        },
        SpecView {
            key: "host"@,
            cli: "--host"@,
            kind: KindView::Str,
            default: "127.0.0.1"@,
            step: 0,
            description: "Network interface to bind the server to."@,
        },
        SpecView {
            key: "port"@,
            cli: "--port"@,
            kind: KindView::Int(Some(1), Some(65535)),
            default: "8000"@,
            step: 1000,
            description: "TCP port the server listens on."@,
        },
    ]
}

/// The options of llama.cpp, in the order of display.
pub fn specs() -> (r: Vec<OptionSpec>)
    ensures
        spec_views(r@) == table(),
{
    let mut out: Vec<OptionSpec> = Vec::new();
    out.push(
        OptionSpec {
            key: "ctx-size",
            cli: "--ctx-size",
            kind: OptionKind::Int { min: Some(0), max: None },
            default: "4096",
            step: 1024000,
            description: "Maximum context window size in tokens (0 or 'default' = the model's full trained context — watch your memory).",
        },
    );
    out.push(
        OptionSpec {
            key: "gpu-layers",
            cli: "-ngl",
            kind: OptionKind::Int { min: Some(0), max: Some(999) },
            default: "999",
            step: 1000,
            description: "Layers to offload to the GPU (999 = all; 'default' lets llama.cpp decide).",
        },
    );
    out.push(
        OptionSpec {
            key: "device",
            cli: "--device",
            kind: OptionKind::Str,
            default: "default",
            step: 0,
            description: "Device to use for offloading, selected from llama-server --list-devices ('default' lets llama.cpp choose).",
        },
    );
    let variants: Vec<&'static str> = vec!["default", "none", "layer", "row"];
    assert(lits(variants@) =~= seq!["default"@, "none"@, "layer"@, "row"@]);
    out.push(
        OptionSpec {
            key: "split-mode",
            cli: "-sm",
            kind: OptionKind::Enum(variants),
            default: "default",
            step: 1000,
            description: "How to split the model across several GPUs (default = llama.cpp default; omitted from command).",
        },
    );
    out.push(
        OptionSpec {
            key: "tensor-split",
            cli: "-ts",
            kind: OptionKind::Str,
            default: "default",
            step: 0,
            description: "Share of the model for each GPU, as a list of proportions such as 1,1 ('default' lets llama.cpp decide).",
        },
    );
    out.push(
        OptionSpec {
            key: "temperature",
            cli: "--temp",
            kind: OptionKind::Float { min: Some(0), max: Some(2000) },
            default: "0.8",
            step: 50,
            description: "Sampling temperature; lower is more deterministic ('default' = llama.cpp's 0.8).",
        },
    );
    out.push(
        OptionSpec {
            key: "top-p",
            cli: "--top-p",
            kind: OptionKind::Float { min: Some(0), max: Some(1000) },
            default: "0.95",
            step: 50,
            description: "Nucleus sampling: keep tokens within this cumulative probability ('default' = llama.cpp's 0.95).",
        },
    );
    out.push(
        OptionSpec {
            key: "top-k",
            cli: "--top-k",
            kind: OptionKind::Int { min: Some(0), max: None },
            default: "40",
            step: 1000,
            description: "Keep only the top-K most likely tokens (0 = disabled; 'default' = llama.cpp's 40).",
        },
    );
    out.push(
        OptionSpec {
            key: "min-p",
            cli: "--min-p",
            kind: OptionKind::Float { min: Some(0), max: Some(1000) },
            default: "0.05",
            step: 10,
            description: "Minimum token probability relative to the most likely token ('default' = llama.cpp's 0.05).",
        },
    );
    out.push(
        OptionSpec {
            key: "repeat-penalty",
            cli: "--repeat-penalty",
            kind: OptionKind::Float { min: Some(0), max: Some(2000) },
            default: "1.0",
            step: 50,
            description: "Penalty applied to repeated tokens (1.0 = disabled; 'default' = llama.cpp's 1.0).",
        },
    );
    out.push(
        OptionSpec {
            key: "presence-penalty",
            cli: "--presence-penalty",
            kind: OptionKind::Float { min: Some(-2000), max: Some(2000) },
            default: "0.0",
            step: 50,
            description: "Penalty applied to tokens that are there already (0.0 = disabled; 'default' = llama.cpp's 0.0).",
        },
    );
    out.push(
        OptionSpec {
            key: "threads",
            cli: "--threads",
            kind: OptionKind::Int { min: Some(0), max: None },
            default: "0",
            step: 1000,
            description: "CPU threads for generation ('default' lets llama.cpp auto-detect, i.e. -1).",
        },
    );
    out.push(
        OptionSpec {
            key: "batch-size",
            cli: "--batch-size",
            kind: OptionKind::Int { min: Some(1), max: None },
            default: "2048",
            step: 256000,
            description: "Logical batch size for prompt processing ('default' = llama.cpp's 2048).",
        },
    );
    out.push(
        OptionSpec {
            key: "parallel",
            cli: "-np",
            kind: OptionKind::Int { min: Some(1), max: None },
            default: "1",
            step: 1000,
            description: "Requests that the server works on at the same time ('default' lets llama.cpp decide).",
        },
    );
    let variants: Vec<&'static str> = vec!["auto", "on", "off"];
    assert(lits(variants@) =~= seq!["auto"@, "on"@, "off"@]);
    out.push(
        OptionSpec {
            key: "flash-attn",
            cli: "--flash-attn",
            kind: OptionKind::Enum(variants),
            default: "auto",
            step: 1000,
            description: "Flash attention (auto = llama.cpp default; omitted from command).",
        },
    );
    let variants: Vec<&'static str> = vec!["auto", "on", "off"];
    assert(lits(variants@) =~= seq!["auto"@, "on"@, "off"@]);
    out.push(
        OptionSpec {
            key: "reasoning",
            cli: "--reasoning",
            kind: OptionKind::Enum(variants),
            default: "auto",
            step: 1000,
            description: "Reasoning/thinking in chat (auto = llama.cpp default; omitted from command).",
        },
    );
    let variants: Vec<&'static str> = vec!["default", "low", "medium", "high"];
    assert(lits(variants@) =~= seq!["default"@, "low"@, "medium"@, "high"@]);
    out.push(
        OptionSpec {
            key: "reasoning-effort",
            cli: "--chat-template-kwargs",
            kind: OptionKind::Enum(variants),
            default: "default",
            step: 1000,
            description: "Reasoning effort passed to the chat template as {\"reasoning_effort\": …} (GPT-OSS-style models; default = omitted).",
        },
    );
    let variants: Vec<&'static str> = vec!["default", "bailing", "bailing-think", "bailing2", "chatglm3", "chatglm4", "chatml", "command-r", "deepseek", "deepseek-ocr", "deepseek2", "deepseek3", "exaone-moe", "exaone3", "exaone4", "falcon3", "gemma", "gigachat", "glmedge", "gpt-oss", "granite", "granite-4.0", "granite-4.1", "grok-2", "hunyuan-dense", "hunyuan-moe", "hunyuan-vl", "kimi-k2", "llama2", "llama2-sys", "llama2-sys-bos", "llama2-sys-strip", "llama3", "llama4", "megrez", "minicpm", "mistral-v1", "mistral-v3", "mistral-v3-tekken", "mistral-v7", "mistral-v7-tekken", "monarch", "openchat", "orion", "pangu-embedded", "phi3", "phi4", "rwkv-world", "seed_oss", "smolvlm", "solar-open", "vicuna", "vicuna-orca", "yandex", "zephyr"];
    assert(lits(variants@) =~= seq!["default"@, "bailing"@, "bailing-think"@, "bailing2"@, "chatglm3"@, "chatglm4"@, "chatml"@, "command-r"@, "deepseek"@, "deepseek-ocr"@, "deepseek2"@, "deepseek3"@, "exaone-moe"@, "exaone3"@, "exaone4"@, "falcon3"@, "gemma"@, "gigachat"@, "glmedge"@, "gpt-oss"@, "granite"@, "granite-4.0"@, "granite-4.1"@, "grok-2"@, "hunyuan-dense"@, "hunyuan-moe"@, "hunyuan-vl"@, "kimi-k2"@, "llama2"@, "llama2-sys"@, "llama2-sys-bos"@, "llama2-sys-strip"@, "llama3"@, "llama4"@, "megrez"@, "minicpm"@, "mistral-v1"@, "mistral-v3"@, "mistral-v3-tekken"@, "mistral-v7"@, "mistral-v7-tekken"@, "monarch"@, "openchat"@, "orion"@, "pangu-embedded"@, "phi3"@, "phi4"@, "rwkv-world"@, "seed_oss"@, "smolvlm"@, "solar-open"@, "vicuna"@, "vicuna-orca"@, "yandex"@, "zephyr"@]);
    out.push(
        OptionSpec {
            key: "chat-template",
            cli: "--chat-template",
            kind: OptionKind::Enum(variants),
            default: "default",
            step: 1000,
            description: "Override the chat template with a llama.cpp built-in (default = use the template from the model's GGUF metadata).",
        },
    );
    let variants: Vec<&'static str> = vec!["on", "off"];
    assert(lits(variants@) =~= seq!["on"@, "off"@]);
    out.push(
        OptionSpec {
            key: "jinja",
            cli: "--no-jinja",
            kind: OptionKind::Enum(variants),
            default: "on",
            step: 1000,
            description: "Jinja chat template engine (on = llama.cpp default; turn off to add --no-jinja for legacy formatting — disables tool calls and reasoning-effort).",
        },
    );
    let variants: Vec<&'static str> = vec!["on", "off"];
    assert(lits(variants@) =~= seq!["on"@, "off"@]);
    out.push(
        OptionSpec {
            key: "mmap",
            cli: "--no-mmap",
            kind: OptionKind::Enum(variants),
            default: "on",
            step: 1000,
            description: "Memory-map the model (on = llama.cpp default; turn off to add --no-mmap for ROCm/AMD GPU compatibility).",
        },
    );
    let variants: Vec<&'static str> = vec!["default", "none", "mmap", "mlock"];
    assert(lits(variants@) =~= seq!["default"@, "none"@, "mmap"@, "mlock"@]);
    out.push(
        OptionSpec {
            key: "load-mode",
            cli: "-lm",
            kind: OptionKind::Enum(variants),
            default: "default",
            step: 1000,
            description: "How the model is brought into memory (default = llama.cpp default; omitted from command).",
        },
    );
    let variants: Vec<&'static str> = vec!["default", "f16", "q8_0", "q4_0"];
    assert(lits(variants@) =~= seq!["default"@, "f16"@, "q8_0"@, "q4_0"@]);
    out.push(
        OptionSpec {
            key: "cache-type-k",
            cli: "--cache-type-k",
            kind: OptionKind::Enum(variants),
            default: "default",
            step: 1000,
            description: "KV cache data type for keys (default = llama.cpp default; lower precision = less memory).",
        },
    );
    let variants: Vec<&'static str> = vec!["default", "f16", "q8_0", "q4_0"];
    assert(lits(variants@) =~= seq!["default"@, "f16"@, "q8_0"@, "q4_0"@]);
    out.push(
        OptionSpec {
            key: "cache-type-v",
            cli: "--cache-type-v",
            kind: OptionKind::Enum(variants),
            default: "default",
            step: 1000,
            description: "KV cache data type for values (default = llama.cpp default; lower precision = less memory).",
        },
    );
    let variants: Vec<&'static str> = vec!["none", "draft-simple", "draft-eagle3", "draft-mtp", "draft-dflash", "ngram-simple", "ngram-map-k", "ngram-map-k4v", "ngram-mod", "ngram-cache"];
    assert(lits(variants@) =~= seq!["none"@, "draft-simple"@, "draft-eagle3"@, "draft-mtp"@, "draft-dflash"@, "ngram-simple"@, "ngram-map-k"@, "ngram-map-k4v"@, "ngram-mod"@, "ngram-cache"@]);
    out.push(
        OptionSpec {
            key: "spec-type",
            cli: "--spec-type",
            kind: OptionKind::Enum(variants),
            default: "none",
            step: 1000,
            description: "Speculative decoding type (none = disabled; draft-mtp uses the model's integrated or companion MTP head; draft-dflash its block drafter).",
        },
    );
    out.push(
        OptionSpec {
            key: "spec-draft-n-max",
            cli: "--spec-draft-n-max",
            kind: OptionKind::Int { min: Some(0), max: None },
            default: "3",
            step: 1000,
            description: "Max tokens to draft per step for speculative decoding ('default' = llama.cpp's 3).",
        },
    );
    out.push(
        OptionSpec {
            key: "spec-draft-n-min",
            cli: "--spec-draft-n-min",
            kind: OptionKind::Int { min: Some(0), max: None },
            default: "0",
            step: 1000,
            description: "Min draft tokens for speculative decoding ('default' = llama.cpp's 0).",
        },
    );
    out.push(
        OptionSpec {
            key: "sleep-idle-seconds",
            cli: "--sleep-idle-seconds",
            kind: OptionKind::Int { min: Some(-1), max: None },
            default: "-1",
            step: 60000,
            description: "Seconds without a request after which the server frees the model (-1 = never; 'default' = llama.cpp's -1).",
        },
    );
    out.push(
        OptionSpec {
            key: "host",
            cli: "--host",
            kind: OptionKind::Str,
            default: "127.0.0.1",
            step: 0,
            description: "Network interface to bind the server to.",
        },
    );
    out.push(
        OptionSpec {
            key: "port",
            cli: "--port",
            kind: OptionKind::Int { min: Some(1), max: Some(65535) },
            default: "8000",
            step: 1000,
            description: "TCP port the server listens on.",
        },
    );
    assert(spec_views(out@) =~= table());
    out
}

// --- the command line --------------------------------------------------------

/// The value at which an option is left off the command line, because llama.cpp
/// does the same without it. The host and the port are always given: the endpoint
/// has to be known.
pub open spec fn omitted_at(key: Seq<char>) -> Option<Seq<char>> {
    if key == "flash-attn"@ || key == "reasoning"@ {
        Some("auto"@)
    } else if key == "mmap"@ || key == "jinja"@ {
        Some("on"@)
    } else if key == "spec-type"@ {
        Some("none"@)
    } else if key == "batch-size"@ || key == "device"@ || key == "gpu-layers"@ || key == "threads"@ || key == "cache-type-k"@ || key == "cache-type-v"@ || key == "spec-draft-n-max"@ || key == "spec-draft-n-min"@ || key == "reasoning-effort"@ || key == "chat-template"@ || key == "ctx-size"@ || key == "temperature"@ || key == "top-p"@ || key == "top-k"@ || key == "min-p"@ || key == "repeat-penalty"@ || key == "presence-penalty"@ || key == "split-mode"@ || key == "tensor-split"@ || key == "parallel"@ || key == "load-mode"@ || key == "sleep-idle-seconds"@ {
        Some(DEFAULT@)
    } else {
        None
    }
}

/// The value at which an option is left off the command line.
pub fn omit_token(key: &str) -> (r: Option<&'static str>)
    ensures
        match r {
            Some(t) => omitted_at(key@) == Some(t@),
            None => omitted_at(key@) is None,
        },
{
    if text::same(key, "flash-attn") || text::same(key, "reasoning") {
        Some("auto")
    } else if text::same(key, "mmap") || text::same(key, "jinja") {
        Some("on")
    } else if text::same(key, "spec-type") {
        Some("none")
    } else if text::same(key, "batch-size") || text::same(key, "device") || text::same(key, "gpu-layers") || text::same(key, "threads") || text::same(key, "cache-type-k") || text::same(key, "cache-type-v") || text::same(key, "spec-draft-n-max") || text::same(key, "spec-draft-n-min") || text::same(key, "reasoning-effort") || text::same(key, "chat-template") || text::same(key, "ctx-size") || text::same(key, "temperature") || text::same(key, "top-p") || text::same(key, "top-k") || text::same(key, "min-p") || text::same(key, "repeat-penalty") || text::same(key, "presence-penalty") || text::same(key, "split-mode") || text::same(key, "tensor-split") || text::same(key, "parallel") || text::same(key, "load-mode") || text::same(key, "sleep-idle-seconds") {
        Some(DEFAULT)
    } else {
        None
    }
}

/// Whether an option is a flag without a value.
pub open spec fn flag(key: Seq<char>) -> bool {
    key == "mmap"@ || key == "jinja"@
}

/// Whether an option is a flag without a value.
pub fn is_flag(key: &str) -> (r: bool)
    ensures
        r == flag(key@),
{
    text::same(key, "mmap") || text::same(key, "jinja")
}

/// The value as it stands on the command line: itself, but the reasoning effort
/// goes to the chat template as a JSON argument.
pub open spec fn spelled(key: Seq<char>, value: Seq<char>) -> Seq<char> {
    if key == "reasoning-effort"@ {
        "{\"reasoning_effort\":\""@ + value + "\"}"@
    } else {
        value
    }
}

/// The value as it stands on the command line.
pub fn cli_value(key: &str, value: &str) -> (r: String)
    ensures
        r@ == spelled(key@, value@),
{
    if text::same(key, "reasoning-effort") {
        text::cat3("{\"reasoning_effort\":\"", value, "\"}")
    } else {
        text::copy(value)
    }
}

// --- built-in profiles -------------------------------------------------------

/// The built-in profiles of llama.cpp, in the order of display.
pub open spec fn template_table() -> Seq<TemplateView> {
    seq![
        TemplateView { name: "Default"@, overrides: Seq::<(Seq<char>, Seq<char>)>::empty() },
        TemplateView { name: "Chat"@, overrides: seq![("temperature"@, "0.7"@), ("top-p"@, "0.9"@), ("top-k"@, "40"@), ("repeat-penalty"@, "1.1"@)] },
        TemplateView { name: "Coding"@, overrides: seq![("temperature"@, "0.2"@), ("top-p"@, "0.95"@), ("repeat-penalty"@, "1.05"@), ("ctx-size"@, "16384"@)] },
        TemplateView { name: "Long Context"@, overrides: seq![("ctx-size"@, "131072"@), ("flash-attn"@, "on"@)] },
        TemplateView { name: "Server"@, overrides: seq![("host"@, "0.0.0.0"@), ("flash-attn"@, "on"@), ("gpu-layers"@, "999"@)] },
    ]
}

/// The built-in profiles of llama.cpp, in the order of display.
pub fn templates() -> (r: Vec<Template>)
    ensures
        template_views(r@) == template_table(),
{
    let mut out: Vec<Template> = Vec::new();
    let set: Vec<(&'static str, &'static str)> = Vec::new();
    assert(pairs(set@) =~= Seq::<(Seq<char>, Seq<char>)>::empty());
    out.push(Template::new("Default", set));
    let set: Vec<(&'static str, &'static str)> = vec![("temperature", "0.7"), ("top-p", "0.9"), ("top-k", "40"), ("repeat-penalty", "1.1")];
    assert(pairs(set@) =~= seq![("temperature"@, "0.7"@), ("top-p"@, "0.9"@), ("top-k"@, "40"@), ("repeat-penalty"@, "1.1"@)]);
    out.push(Template::new("Chat", set));
    let set: Vec<(&'static str, &'static str)> = vec![("temperature", "0.2"), ("top-p", "0.95"), ("repeat-penalty", "1.05"), ("ctx-size", "16384")];
    assert(pairs(set@) =~= seq![("temperature"@, "0.2"@), ("top-p"@, "0.95"@), ("repeat-penalty"@, "1.05"@), ("ctx-size"@, "16384"@)]);
    out.push(Template::new("Coding", set));
    let set: Vec<(&'static str, &'static str)> = vec![("ctx-size", "131072"), ("flash-attn", "on")];
    assert(pairs(set@) =~= seq![("ctx-size"@, "131072"@), ("flash-attn"@, "on"@)]);
    out.push(Template::new("Long Context", set));
    let set: Vec<(&'static str, &'static str)> = vec![("host", "0.0.0.0"), ("flash-attn", "on"), ("gpu-layers", "999")];
    assert(pairs(set@) =~= seq![("host"@, "0.0.0.0"@), ("flash-attn"@, "on"@), ("gpu-layers"@, "999"@)]);
    out.push(Template::new("Server", set));
    assert(template_views(out@) =~= template_table());
    out
}

// --- laws --------------------------------------------------------------------

/// Whether an option is passed on by a flag.
pub open spec fn passed_by(key: Seq<char>, flag: Seq<char>) -> bool {
    exists|i: int|
        0 <= i < table().len() && (#[trigger] table()[i]).key == key && table()[i].cli == flag
}

/// Whether a built-in profile sets an option to a value.
pub open spec fn presets(profile: Seq<char>, key: Seq<char>, value: Seq<char>) -> bool {
    exists|i: int, j: int|
        0 <= i < template_table().len() && 0 <= j < template_table()[i].overrides.len()
            && template_table()[i].name == profile && #[trigger] template_table()[i].overrides[j]
            == (key, value)
}

/// Each option reaches the server by the flag that llama-server has for it.
pub proof fn law_options_have_their_flags()
    ensures
        passed_by("ctx-size"@, "--ctx-size"@),
        passed_by("gpu-layers"@, "-ngl"@),
        passed_by("device"@, "--device"@),
        passed_by("split-mode"@, "-sm"@),
        passed_by("tensor-split"@, "-ts"@),
        passed_by("temperature"@, "--temp"@),
        passed_by("top-p"@, "--top-p"@),
        passed_by("top-k"@, "--top-k"@),
        passed_by("min-p"@, "--min-p"@),
        passed_by("repeat-penalty"@, "--repeat-penalty"@),
        passed_by("presence-penalty"@, "--presence-penalty"@),
        passed_by("threads"@, "--threads"@),
        passed_by("batch-size"@, "--batch-size"@),
        passed_by("parallel"@, "-np"@),
        passed_by("flash-attn"@, "--flash-attn"@),
        passed_by("reasoning"@, "--reasoning"@),
        passed_by("reasoning-effort"@, "--chat-template-kwargs"@),
        passed_by("chat-template"@, "--chat-template"@),
        passed_by("jinja"@, "--no-jinja"@),
        passed_by("mmap"@, "--no-mmap"@),
        passed_by("load-mode"@, "-lm"@),
        passed_by("cache-type-k"@, "--cache-type-k"@),
        passed_by("cache-type-v"@, "--cache-type-v"@),
        passed_by("spec-type"@, "--spec-type"@),
        passed_by("spec-draft-n-max"@, "--spec-draft-n-max"@),
        passed_by("spec-draft-n-min"@, "--spec-draft-n-min"@),
        passed_by("sleep-idle-seconds"@, "--sleep-idle-seconds"@),
        passed_by("host"@, "--host"@),
        passed_by("port"@, "--port"@),
        table().len() == 29,
{
    assert(table()[0].key == "ctx-size"@ && table()[0].cli == "--ctx-size"@);
    assert(table()[1].key == "gpu-layers"@ && table()[1].cli == "-ngl"@);
    assert(table()[2].key == "device"@ && table()[2].cli == "--device"@);
    assert(table()[3].key == "split-mode"@ && table()[3].cli == "-sm"@);
    assert(table()[4].key == "tensor-split"@ && table()[4].cli == "-ts"@);
    assert(table()[5].key == "temperature"@ && table()[5].cli == "--temp"@);
    assert(table()[6].key == "top-p"@ && table()[6].cli == "--top-p"@);
    assert(table()[7].key == "top-k"@ && table()[7].cli == "--top-k"@);
    assert(table()[8].key == "min-p"@ && table()[8].cli == "--min-p"@);
    assert(table()[9].key == "repeat-penalty"@ && table()[9].cli == "--repeat-penalty"@);
    assert(table()[10].key == "presence-penalty"@ && table()[10].cli == "--presence-penalty"@);
    assert(table()[11].key == "threads"@ && table()[11].cli == "--threads"@);
    assert(table()[12].key == "batch-size"@ && table()[12].cli == "--batch-size"@);
    assert(table()[13].key == "parallel"@ && table()[13].cli == "-np"@);
    assert(table()[14].key == "flash-attn"@ && table()[14].cli == "--flash-attn"@);
    assert(table()[15].key == "reasoning"@ && table()[15].cli == "--reasoning"@);
    assert(table()[16].key == "reasoning-effort"@ && table()[16].cli == "--chat-template-kwargs"@);
    assert(table()[17].key == "chat-template"@ && table()[17].cli == "--chat-template"@);
    assert(table()[18].key == "jinja"@ && table()[18].cli == "--no-jinja"@);
    assert(table()[19].key == "mmap"@ && table()[19].cli == "--no-mmap"@);
    assert(table()[20].key == "load-mode"@ && table()[20].cli == "-lm"@);
    assert(table()[21].key == "cache-type-k"@ && table()[21].cli == "--cache-type-k"@);
    assert(table()[22].key == "cache-type-v"@ && table()[22].cli == "--cache-type-v"@);
    assert(table()[23].key == "spec-type"@ && table()[23].cli == "--spec-type"@);
    assert(table()[24].key == "spec-draft-n-max"@ && table()[24].cli == "--spec-draft-n-max"@);
    assert(table()[25].key == "spec-draft-n-min"@ && table()[25].cli == "--spec-draft-n-min"@);
    assert(table()[26].key == "sleep-idle-seconds"@ && table()[26].cli == "--sleep-idle-seconds"@);
    assert(table()[27].key == "host"@ && table()[27].cli == "--host"@);
    assert(table()[28].key == "port"@ && table()[28].cli == "--port"@);
}

/// What the built-in profiles are for: each sets what its name says, and the default one
/// sets nothing.
pub proof fn law_builtin_profiles_are_what_they_say()
    ensures
        presets("Chat"@, "temperature"@, "0.7"@),
        presets("Chat"@, "top-p"@, "0.9"@),
        presets("Chat"@, "top-k"@, "40"@),
        presets("Chat"@, "repeat-penalty"@, "1.1"@),
        presets("Coding"@, "temperature"@, "0.2"@),
        presets("Coding"@, "top-p"@, "0.95"@),
        presets("Coding"@, "repeat-penalty"@, "1.05"@),
        presets("Coding"@, "ctx-size"@, "16384"@),
        presets("Long Context"@, "ctx-size"@, "131072"@),
        presets("Long Context"@, "flash-attn"@, "on"@),
        presets("Server"@, "host"@, "0.0.0.0"@),
        presets("Server"@, "flash-attn"@, "on"@),
        presets("Server"@, "gpu-layers"@, "999"@),
        template_table()[0].name == "Default"@ && template_table()[0].overrides.len() == 0,
        template_table().len() == 5,
{
    assert(template_table()[1].overrides[0] == ("temperature"@, "0.7"@));
    assert(template_table()[1].overrides[1] == ("top-p"@, "0.9"@));
    assert(template_table()[1].overrides[2] == ("top-k"@, "40"@));
    assert(template_table()[1].overrides[3] == ("repeat-penalty"@, "1.1"@));
    assert(template_table()[2].overrides[0] == ("temperature"@, "0.2"@));
    assert(template_table()[2].overrides[1] == ("top-p"@, "0.95"@));
    assert(template_table()[2].overrides[2] == ("repeat-penalty"@, "1.05"@));
    assert(template_table()[2].overrides[3] == ("ctx-size"@, "16384"@));
    assert(template_table()[3].overrides[0] == ("ctx-size"@, "131072"@));
    assert(template_table()[3].overrides[1] == ("flash-attn"@, "on"@));
    assert(template_table()[4].overrides[0] == ("host"@, "0.0.0.0"@));
    assert(template_table()[4].overrides[1] == ("flash-attn"@, "on"@));
    assert(template_table()[4].overrides[2] == ("gpu-layers"@, "999"@));
}

/// Whether the option of a key takes values of a kind, and steps by so many thousandths.
pub open spec fn takes(key: Seq<char>, kind: KindView, step: int) -> bool {
    exists|i: int|
        0 <= i < table().len() && (#[trigger] table()[i]).key == key && table()[i].kind == kind
            && table()[i].step == step
}

/// Each option has its range, with the steps that the keys take.
pub proof fn law_options_have_their_ranges()
    ensures
        takes("ctx-size"@, KindView::Int(Some(0), None), 1024000),
        takes("gpu-layers"@, KindView::Int(Some(0), Some(999)), 1000),
        takes("device"@, KindView::Str, 0),
        takes("split-mode"@, KindView::Enum(seq!["default"@, "none"@, "layer"@, "row"@]), 1000),
        takes("tensor-split"@, KindView::Str, 0),
        takes("temperature"@, KindView::Float(Some(0), Some(2000)), 50),
        takes("top-p"@, KindView::Float(Some(0), Some(1000)), 50),
        takes("top-k"@, KindView::Int(Some(0), None), 1000),
        takes("min-p"@, KindView::Float(Some(0), Some(1000)), 10),
        takes("repeat-penalty"@, KindView::Float(Some(0), Some(2000)), 50),
        takes("presence-penalty"@, KindView::Float(Some(-2000i64), Some(2000)), 50),
        takes("threads"@, KindView::Int(Some(0), None), 1000),
        takes("batch-size"@, KindView::Int(Some(1), None), 256000),
        takes("parallel"@, KindView::Int(Some(1), None), 1000),
        takes("flash-attn"@, KindView::Enum(seq!["auto"@, "on"@, "off"@]), 1000),
        takes("reasoning"@, KindView::Enum(seq!["auto"@, "on"@, "off"@]), 1000),
        takes("reasoning-effort"@, KindView::Enum(seq!["default"@, "low"@, "medium"@, "high"@]), 1000),
        takes("jinja"@, KindView::Enum(seq!["on"@, "off"@]), 1000),
        takes("mmap"@, KindView::Enum(seq!["on"@, "off"@]), 1000),
        takes("load-mode"@, KindView::Enum(seq!["default"@, "none"@, "mmap"@, "mlock"@]), 1000),
        takes("cache-type-k"@, KindView::Enum(seq!["default"@, "f16"@, "q8_0"@, "q4_0"@]), 1000),
        takes("cache-type-v"@, KindView::Enum(seq!["default"@, "f16"@, "q8_0"@, "q4_0"@]), 1000),
        takes("spec-draft-n-max"@, KindView::Int(Some(0), None), 1000),
        takes("spec-draft-n-min"@, KindView::Int(Some(0), None), 1000),
        takes("sleep-idle-seconds"@, KindView::Int(Some(-1i64), None), 60000),
        takes("host"@, KindView::Str, 0),
        takes("port"@, KindView::Int(Some(1), Some(65535)), 1000),
{
    assert(table()[0].key == "ctx-size"@ && table()[0].kind == KindView::Int(Some(0), None));
    assert(table()[1].key == "gpu-layers"@ && table()[1].kind == KindView::Int(Some(0), Some(999)));
    assert(table()[2].key == "device"@ && table()[2].kind == KindView::Str);
    assert(table()[3].key == "split-mode"@ && table()[3].kind == KindView::Enum(seq!["default"@, "none"@, "layer"@, "row"@]));
    assert(table()[4].key == "tensor-split"@ && table()[4].kind == KindView::Str);
    assert(table()[5].key == "temperature"@ && table()[5].kind == KindView::Float(Some(0), Some(2000)));
    assert(table()[6].key == "top-p"@ && table()[6].kind == KindView::Float(Some(0), Some(1000)));
    assert(table()[7].key == "top-k"@ && table()[7].kind == KindView::Int(Some(0), None));
    assert(table()[8].key == "min-p"@ && table()[8].kind == KindView::Float(Some(0), Some(1000)));
    assert(table()[9].key == "repeat-penalty"@ && table()[9].kind == KindView::Float(Some(0), Some(2000)));
    assert(table()[10].key == "presence-penalty"@ && table()[10].kind == KindView::Float(Some(-2000i64), Some(2000)));
    assert(table()[11].key == "threads"@ && table()[11].kind == KindView::Int(Some(0), None));
    assert(table()[12].key == "batch-size"@ && table()[12].kind == KindView::Int(Some(1), None));
    assert(table()[13].key == "parallel"@ && table()[13].kind == KindView::Int(Some(1), None));
    assert(table()[14].key == "flash-attn"@ && table()[14].kind == KindView::Enum(seq!["auto"@, "on"@, "off"@]));
    assert(table()[15].key == "reasoning"@ && table()[15].kind == KindView::Enum(seq!["auto"@, "on"@, "off"@]));
    assert(table()[16].key == "reasoning-effort"@ && table()[16].kind == KindView::Enum(seq!["default"@, "low"@, "medium"@, "high"@]));
    assert(table()[18].key == "jinja"@ && table()[18].kind == KindView::Enum(seq!["on"@, "off"@]));
    assert(table()[19].key == "mmap"@ && table()[19].kind == KindView::Enum(seq!["on"@, "off"@]));
    assert(table()[20].key == "load-mode"@ && table()[20].kind == KindView::Enum(seq!["default"@, "none"@, "mmap"@, "mlock"@]));
    assert(table()[21].key == "cache-type-k"@ && table()[21].kind == KindView::Enum(seq!["default"@, "f16"@, "q8_0"@, "q4_0"@]));
    assert(table()[22].key == "cache-type-v"@ && table()[22].kind == KindView::Enum(seq!["default"@, "f16"@, "q8_0"@, "q4_0"@]));
    assert(table()[24].key == "spec-draft-n-max"@ && table()[24].kind == KindView::Int(Some(0), None));
    assert(table()[25].key == "spec-draft-n-min"@ && table()[25].kind == KindView::Int(Some(0), None));
    assert(table()[26].key == "sleep-idle-seconds"@ && table()[26].kind == KindView::Int(Some(-1i64), None));
    assert(table()[27].key == "host"@ && table()[27].kind == KindView::Str);
    assert(table()[28].key == "port"@ && table()[28].kind == KindView::Int(Some(1), Some(65535)));
}


/// Whether the value that an option starts at is one of its variants, where it has any.
pub open spec fn starts_well(spec: SpecView) -> bool {
    spec.kind is Enum ==> spec.kind->Enum_0.contains(spec.default)
}

/// Every enumeration starts at one of its variants, and the endpoint at the usual one.
pub proof fn law_defaults_are_allowed(i: int)
    requires
        0 <= i < table().len(),
    ensures
        starts_well(table()[i]),
        table()[i].key == "host"@ ==> table()[i].default == "127.0.0.1"@,
{
    reveal_strlit("batch-size");
    reveal_strlit("cache-type-k");
    reveal_strlit("cache-type-v");
    reveal_strlit("chat-template");
    reveal_strlit("ctx-size");
    reveal_strlit("device");
    reveal_strlit("flash-attn");
    reveal_strlit("gpu-layers");
    reveal_strlit("host");
    reveal_strlit("jinja");
    reveal_strlit("load-mode");
    reveal_strlit("min-p");
    reveal_strlit("mmap");
    reveal_strlit("parallel");
    reveal_strlit("port");
    reveal_strlit("presence-penalty");
    reveal_strlit("reasoning");
    reveal_strlit("reasoning-effort");
    reveal_strlit("repeat-penalty");
    reveal_strlit("sleep-idle-seconds");
    reveal_strlit("spec-draft-n-max");
    reveal_strlit("spec-draft-n-min");
    reveal_strlit("spec-type");
    reveal_strlit("split-mode");
    reveal_strlit("temperature");
    reveal_strlit("tensor-split");
    reveal_strlit("threads");
    reveal_strlit("top-k");
    reveal_strlit("top-p");
    assert("batch-size"@.len() == 10 && "batch-size"@[0] == 'b');
    assert("cache-type-k"@.len() == 12 && "cache-type-k"@[0] == 'c');
    assert("cache-type-v"@.len() == 12 && "cache-type-v"@[0] == 'c');
    assert("chat-template"@.len() == 13 && "chat-template"@[0] == 'c');
    assert("ctx-size"@.len() == 8 && "ctx-size"@[0] == 'c');
    assert("device"@.len() == 6 && "device"@[0] == 'd');
    assert("flash-attn"@.len() == 10 && "flash-attn"@[0] == 'f');
    assert("gpu-layers"@.len() == 10 && "gpu-layers"@[0] == 'g');
    assert("host"@.len() == 4 && "host"@[0] == 'h');
    assert("jinja"@.len() == 5 && "jinja"@[0] == 'j');
    assert("load-mode"@.len() == 9 && "load-mode"@[0] == 'l');
    assert("min-p"@.len() == 5 && "min-p"@[0] == 'm');
    assert("mmap"@.len() == 4 && "mmap"@[0] == 'm');
    assert("parallel"@.len() == 8 && "parallel"@[0] == 'p');
    assert("port"@.len() == 4 && "port"@[0] == 'p');
    assert("presence-penalty"@.len() == 16 && "presence-penalty"@[0] == 'p');
    assert("reasoning"@.len() == 9 && "reasoning"@[0] == 'r');
    assert("reasoning-effort"@.len() == 16 && "reasoning-effort"@[0] == 'r');
    assert("repeat-penalty"@.len() == 14 && "repeat-penalty"@[0] == 'r');
    assert("sleep-idle-seconds"@.len() == 18 && "sleep-idle-seconds"@[0] == 's');
    assert("spec-draft-n-max"@.len() == 16 && "spec-draft-n-max"@[0] == 's');
    assert("spec-draft-n-min"@.len() == 16 && "spec-draft-n-min"@[0] == 's');
    assert("spec-type"@.len() == 9 && "spec-type"@[0] == 's');
    assert("split-mode"@.len() == 10 && "split-mode"@[0] == 's');
    assert("temperature"@.len() == 11 && "temperature"@[0] == 't');
    assert("tensor-split"@.len() == 12 && "tensor-split"@[0] == 't');
    assert("threads"@.len() == 7 && "threads"@[0] == 't');
    assert("top-k"@.len() == 5 && "top-k"@[0] == 't');
    assert("top-p"@.len() == 5 && "top-p"@[0] == 't');
    if i == 3 {
        assert(table()[3].kind->Enum_0[0] == table()[3].default);
    }
    if i == 14 {
        assert(table()[14].kind->Enum_0[0] == table()[14].default);
    }
    if i == 15 {
        assert(table()[15].kind->Enum_0[0] == table()[15].default);
    }
    if i == 16 {
        assert(table()[16].kind->Enum_0[0] == table()[16].default);
    }
    if i == 17 {
        assert(table()[17].kind->Enum_0[0] == table()[17].default);
    }
    if i == 18 {
        assert(table()[18].kind->Enum_0[0] == table()[18].default);
    }
    if i == 19 {
        assert(table()[19].kind->Enum_0[0] == table()[19].default);
    }
    if i == 20 {
        assert(table()[20].kind->Enum_0[0] == table()[20].default);
    }
    if i == 21 {
        assert(table()[21].kind->Enum_0[0] == table()[21].default);
    }
    if i == 22 {
        assert(table()[22].kind->Enum_0[0] == table()[22].default);
    }
    if i == 23 {
        assert(table()[23].kind->Enum_0[0] == table()[23].default);
    }
}

/// The endpoint is always given; switches are left off where the server decides, and
/// drafting where there is none.
pub proof fn law_options_are_left_to_the_server(key: Seq<char>)
    ensures
        omitted_at("flash-attn"@) == Some("auto"@),
        omitted_at("reasoning"@) == Some("auto"@),
        omitted_at("host"@) is None,
        omitted_at("port"@) is None,
        key == "mmap"@ || key == "jinja"@ ==> omitted_at(key) == Some("on"@),
        key == "spec-type"@ ==> omitted_at(key) == Some("none"@),
        key == "ctx-size"@ || key == "gpu-layers"@ || key == "device"@ || key == "threads"@
            || key == "batch-size"@ || key == "temperature"@ || key == "top-p"@ || key == "top-k"@
            || key == "min-p"@ || key == "repeat-penalty"@ || key == "presence-penalty"@
            || key == "parallel"@ || key == "cache-type-k"@ || key == "cache-type-v"@
            || key == "chat-template"@ || key == "reasoning-effort"@ || key == "split-mode"@
            || key == "tensor-split"@ || key == "load-mode"@ || key == "sleep-idle-seconds"@
            || key == "spec-draft-n-max"@ || key == "spec-draft-n-min"@ ==> omitted_at(key) == Some(
            "default"@,
        ),
{
    reveal_strlit("flash-attn");
    reveal_strlit("reasoning");
    reveal_strlit("mmap");
    reveal_strlit("jinja");
    reveal_strlit("spec-type");
    reveal_strlit("batch-size");
    reveal_strlit("device");
    reveal_strlit("gpu-layers");
    reveal_strlit("threads");
    reveal_strlit("cache-type-k");
    reveal_strlit("cache-type-v");
    reveal_strlit("spec-draft-n-max");
    reveal_strlit("spec-draft-n-min");
    reveal_strlit("reasoning-effort");
    reveal_strlit("chat-template");
    reveal_strlit("ctx-size");
    reveal_strlit("temperature");
    reveal_strlit("top-p");
    reveal_strlit("top-k");
    reveal_strlit("min-p");
    reveal_strlit("repeat-penalty");
    reveal_strlit("presence-penalty");
    reveal_strlit("split-mode");
    reveal_strlit("tensor-split");
    reveal_strlit("parallel");
    reveal_strlit("load-mode");
    reveal_strlit("sleep-idle-seconds");
    reveal_strlit("host");
    reveal_strlit("port");
    assert("flash-attn"@.len() == 10 && "flash-attn"@[0] == 'f');
    assert("reasoning"@.len() == 9 && "reasoning"@[0] == 'r');
    assert("mmap"@.len() == 4 && "mmap"@[0] == 'm');
    assert("jinja"@.len() == 5 && "jinja"@[0] == 'j');
    assert("spec-type"@.len() == 9 && "spec-type"@[0] == 's');
    assert("batch-size"@.len() == 10 && "batch-size"@[0] == 'b');
    assert("device"@.len() == 6 && "device"@[0] == 'd');
    assert("gpu-layers"@.len() == 10 && "gpu-layers"@[0] == 'g');
    assert("threads"@.len() == 7 && "threads"@[0] == 't');
    assert("cache-type-k"@.len() == 12 && "cache-type-k"@[0] == 'c');
    assert("cache-type-v"@.len() == 12 && "cache-type-v"@[0] == 'c');
    assert("spec-draft-n-max"@.len() == 16 && "spec-draft-n-max"@[0] == 's');
    assert("spec-draft-n-min"@.len() == 16 && "spec-draft-n-min"@[0] == 's');
    assert("reasoning-effort"@.len() == 16 && "reasoning-effort"@[0] == 'r');
    assert("chat-template"@.len() == 13 && "chat-template"@[0] == 'c');
    assert("ctx-size"@.len() == 8 && "ctx-size"@[0] == 'c');
    assert("temperature"@.len() == 11 && "temperature"@[0] == 't');
    assert("top-p"@.len() == 5 && "top-p"@[0] == 't');
    assert("top-k"@.len() == 5 && "top-k"@[0] == 't');
    assert("min-p"@.len() == 5 && "min-p"@[0] == 'm');
    assert("repeat-penalty"@.len() == 14 && "repeat-penalty"@[0] == 'r');
    assert("presence-penalty"@.len() == 16 && "presence-penalty"@[0] == 'p');
    assert("split-mode"@.len() == 10 && "split-mode"@[0] == 's');
    assert("tensor-split"@.len() == 12 && "tensor-split"@[0] == 't');
    assert("parallel"@.len() == 8 && "parallel"@[0] == 'p');
    assert("load-mode"@.len() == 9 && "load-mode"@[0] == 'l');
    assert("sleep-idle-seconds"@.len() == 18 && "sleep-idle-seconds"@[0] == 's');
    assert("host"@.len() == 4 && "host"@[0] == 'h');
    assert("port"@.len() == 4 && "port"@[0] == 'p');
}

} // verus!
