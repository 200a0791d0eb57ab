//! FastFlowLM's launch options and built-in profiles as a plain table: the options
//! with the defaults of the binary itself as their omitted values.

use vstd::prelude::*;
use crate::domain::options::{lits, spec_views, KindView, OptionKind, OptionSpec, SpecView};
use crate::profiles::registry::{find_spec, spec_at, DEFAULT};
use crate::profiles::templates;
use crate::profiles::templates::{
    builtin, names_of, overridden, pairs, template_views, Template, TemplateView,
};
use crate::text;
use crate::text::opt;

verus! {

/// The options of FastFlowLM, in the order of display.
pub open spec fn table() -> Seq<SpecView> {
    seq![
        SpecView {
            key: "ctx-len"@,
            cli: "--ctx-len"@,
            kind: KindView::Int(Some(512), None),
            default: "4096"@,
            step: 1024000,
            description: "Context length in tokens. FastFlowLM requires at least 512 and rounds to a power of two; 'default' uses the catalogue default."@,
        },
        SpecView {
            key: "pmode"@,
            cli: "--pmode"@,
            kind: KindView::Enum(seq!["powersaver"@, "balanced"@, "performance"@, "turbo"@]),
            default: "performance"@,
            step: 1000,
            description: "AMD NPU power mode (performance is FastFlowLM's default)."@,
        },
        SpecView {
            key: "prefill-chunk-len"@,
            cli: "--prefill-chunk-len"@,
            kind: KindView::Int(Some(512), None),
            default: "4096"@,
            step: 512000,
            description: "Tokens processed per prefill chunk; 'default' lets FastFlowLM choose."@,
        },
        SpecView {
            key: "img-pre-resize"@,
            cli: "--img-pre-resize"@,
            kind: KindView::Enum(seq!["default"@, "0"@, "1"@, "2"@, "3"@, "4"@]),
            default: "default"@,
            step: 1000,
            description: "Vision input resize: 0 original, 1 480p, 2 720p, 3 1080p, 4 1440p; default omits the flag."@,
        },
        SpecView {
            key: "host"@,
            cli: "--host"@,
            kind: KindView::Str,
            default: "127.0.0.1"@,
            step: 0,
            description: "Network interface to bind the FastFlowLM server to."@,
        },
        SpecView {
            key: "port"@,
            cli: "--port"@,
            kind: KindView::Int(Some(1), Some(65535)),
            default: "52625"@,
            step: 1000,
            description: "TCP port for the OpenAI-compatible FastFlowLM server."@,
        },
        SpecView {
            key: "q-len"@,
            cli: "--q-len"@,
            kind: KindView::Int(Some(1), None),
            default: "10"@,
            step: 1000,
            description: "Maximum queued NPU requests."@,
        },
        SpecView {
            key: "socket"@,
            cli: "--socket"@,
            kind: KindView::Int(Some(1), None),
            default: "10"@,
            step: 1000,
            description: "Maximum concurrent socket connections; normally at least q-len."@,
        },
        SpecView {
            key: "cors"@,
            cli: "--cors"@,
            kind: KindView::Enum(seq!["1"@, "0"@]),
            default: "1"@,
            step: 1000,
            description: "Cross-origin requests: 1 enabled, 0 disabled."@,
        },
    ]
}

/// The options of FastFlowLM, in the order of display.
pub fn specs() -> (r: Vec<OptionSpec>)
    ensures
        spec_views(r@) == table(),
{
    let mut out: Vec<OptionSpec> = Vec::new();
    out.push(
        OptionSpec {
            key: "ctx-len",
            cli: "--ctx-len",
            kind: OptionKind::Int { min: Some(512), max: None },
            default: "4096",
            step: 1024000,
            description: "Context length in tokens. FastFlowLM requires at least 512 and rounds to a power of two; 'default' uses the catalogue default.",
        },
    );
    let variants: Vec<&'static str> = vec!["powersaver", "balanced", "performance", "turbo"];
    assert(lits(variants@) =~= seq!["powersaver"@, "balanced"@, "performance"@, "turbo"@]);
    out.push(
        OptionSpec {
            key: "pmode",
            cli: "--pmode",
            kind: OptionKind::Enum(variants),
            default: "performance",
            step: 1000,
            description: "AMD NPU power mode (performance is FastFlowLM's default).",
        },
    );
    out.push(
        OptionSpec {
            key: "prefill-chunk-len",
            cli: "--prefill-chunk-len",
            kind: OptionKind::Int { min: Some(512), max: None },
            default: "4096",
            step: 512000,
            description: "Tokens processed per prefill chunk; 'default' lets FastFlowLM choose.",
        },
    );
    let variants: Vec<&'static str> = vec!["default", "0", "1", "2", "3", "4"];
    assert(lits(variants@) =~= seq!["default"@, "0"@, "1"@, "2"@, "3"@, "4"@]);
    out.push(
        OptionSpec {
            key: "img-pre-resize",
            cli: "--img-pre-resize",
            kind: OptionKind::Enum(variants),
            default: "default",
            step: 1000,
            description: "Vision input resize: 0 original, 1 480p, 2 720p, 3 1080p, 4 1440p; default omits the flag.",
        },
    );
    out.push(
        OptionSpec {
            key: "host",
            cli: "--host",
            kind: OptionKind::Str,
            default: "127.0.0.1",
            step: 0,
            description: "Network interface to bind the FastFlowLM server to.",
        },
    );
    out.push(
        OptionSpec {
            key: "port",
            cli: "--port",
            kind: OptionKind::Int { min: Some(1), max: Some(65535) },
            default: "52625",
            step: 1000,
            description: "TCP port for the OpenAI-compatible FastFlowLM server.",
        },
    );
    out.push(
        OptionSpec {
            key: "q-len",
            cli: "--q-len",
            kind: OptionKind::Int { min: Some(1), max: None },
            default: "10",
            step: 1000,
            description: "Maximum queued NPU requests.",
        },
    );
    out.push(
        OptionSpec {
            key: "socket",
            cli: "--socket",
            kind: OptionKind::Int { min: Some(1), max: None },
            default: "10",
            step: 1000,
            description: "Maximum concurrent socket connections; normally at least q-len.",
        },
    );
    let variants: Vec<&'static str> = vec!["1", "0"];
    assert(lits(variants@) =~= seq!["1"@, "0"@]);
    out.push(
        OptionSpec {
            key: "cors",
            cli: "--cors",
            kind: OptionKind::Enum(variants),
            default: "1",
            step: 1000,
            description: "Cross-origin requests: 1 enabled, 0 disabled.",
        },
    );
    assert(spec_views(out@) =~= table());
    out
}

/// The option of a key.
pub fn spec(key: &str) -> (r: Option<OptionSpec>)
    ensures
        match r {
            Some(s) => spec_at(table(), key@) == Some(s@),
            None => spec_at(table(), key@) is None,
        },
{
    let mut all = specs();
    match find_spec(&all, key) {
        Some(i) => Some(all.swap_remove(i)),
        None => None,
    }
}

/// The value at which an option is left off the command line.
pub open spec fn omitted_at(key: Seq<char>) -> Option<Seq<char>> {
    if key == "ctx-len"@ || key == "prefill-chunk-len"@ || key == "img-pre-resize"@ {
        Some(DEFAULT@)
    } else if key == "pmode"@ {
        Some("performance"@)
    } else if key == "q-len"@ || key == "socket"@ {
        Some("10"@)
    } else if key == "cors"@ {
        Some("1"@)
    } else {
        None
    }
}

/// The value at which an option is left off the command line.
pub fn omit_token(key: &str) -> (r: Option<&'static str>)
    ensures
        match r {
            Some(t) => omitted_at(key@) == Some(t@),
            None => omitted_at(key@) is None,
        },
{
    if text::same(key, "ctx-len") || text::same(key, "prefill-chunk-len") || text::same(
        key,
        "img-pre-resize",
    ) {
        Some(DEFAULT)
    } else if text::same(key, "pmode") {
        Some("performance")
    } else if text::same(key, "q-len") || text::same(key, "socket") {
        Some("10")
    } else if text::same(key, "cors") {
        Some("1")
    } else {
        None
    }
}

/// The built-in profiles of FastFlowLM, in the order of display.
pub open spec fn template_table() -> Seq<TemplateView> {
    seq![
        TemplateView { name: "Default"@, overrides: Seq::<(Seq<char>, Seq<char>)>::empty() },
        TemplateView { name: "Power Saver"@, overrides: seq![("pmode"@, "powersaver"@)] },
        TemplateView { name: "Balanced"@, overrides: seq![("pmode"@, "balanced"@)] },
        TemplateView { name: "Turbo"@, overrides: seq![("pmode"@, "turbo"@)] },
        TemplateView { name: "Server"@, overrides: seq![("host"@, "0.0.0.0"@), ("cors"@, "0"@)] },
    ]
}

/// The built-in profiles of FastFlowLM, in the order of display.
pub fn all_templates() -> (r: Vec<Template>)
    ensures
        template_views(r@) == template_table(),
{
    let mut out: Vec<Template> = Vec::new();
    let set: Vec<(&'static str, &'static str)> = Vec::new();
    assert(pairs(set@) =~= Seq::<(Seq<char>, Seq<char>)>::empty());
    out.push(Template::new("Default", set));
    let set: Vec<(&'static str, &'static str)> = vec![("pmode", "powersaver")];
    assert(pairs(set@) =~= seq![("pmode"@, "powersaver"@)]);
    out.push(Template::new("Power Saver", set));
    let set: Vec<(&'static str, &'static str)> = vec![("pmode", "balanced")];
    assert(pairs(set@) =~= seq![("pmode"@, "balanced"@)]);
    out.push(Template::new("Balanced", set));
    let set: Vec<(&'static str, &'static str)> = vec![("pmode", "turbo")];
    assert(pairs(set@) =~= seq![("pmode"@, "turbo"@)]);
    out.push(Template::new("Turbo", set));
    let set: Vec<(&'static str, &'static str)> = vec![("host", "0.0.0.0"), ("cors", "0")];
    assert(pairs(set@) =~= seq![("host"@, "0.0.0.0"@), ("cors"@, "0"@)]);
    out.push(Template::new("Server", set));
    assert(template_views(out@) =~= template_table());
    out
}

/// The names of the built-in profiles, in the order of display.
pub fn names() -> (r: Vec<&'static str>)
    ensures
        lits(r@) == names_of(template_table()),
{
    templates::names(&all_templates())
}

/// Whether a profile is a built-in one.
pub fn is_builtin(name: &str) -> (r: bool)
    ensures
        r == builtin(template_table(), name@),
{
    templates::is_builtin(&all_templates(), name)
}

/// What a built-in profile sets a key to, if it does.
pub fn override_value(profile: &str, key: &str) -> (r: Option<String>)
    ensures
        opt(r) == overridden(template_table(), profile@, key@),
{
    templates::template_value(&all_templates(), profile, key)
}

} // verus!
