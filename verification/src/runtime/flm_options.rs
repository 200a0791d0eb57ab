//! FastFlowLM's option vocabulary: its options, how they are spelled on the
//! command line, and its built-in profiles.

use vstd::prelude::*;
use crate::domain::options::{lits, spec_views, KindView, OptionKind, OptionSpec, SpecView};
use crate::profiles::registry::DEFAULT;
use crate::profiles::templates::{pairs, template_views, Template, TemplateView};
use crate::text;

verus! {

// --- options -----------------------------------------------------------------

/// The options of FastFlowLM, in the order of display.
pub open spec fn table() -> Seq<SpecView> {
    seq![
        SpecView {
            key: "ctx-len"@,
            cli: "--ctx-len"@,
            kind: KindView::Int(Some(0), None),
            default: "4096"@,
            step: 1024000,
            description: "Context length in tokens (rounded to the nearest power of two; capped at the model's trained context)."@,
        },
        SpecView {
            key: "prefill-chunk-len"@,
            cli: "--prefill-chunk-len"@,
            kind: KindView::Int(Some(0), None),
            default: "4096"@,
            step: 1024000,
            description: "Prompt prefill chunk size ('default' uses the model's own maximum prefill length)."@,
        },
        SpecView {
            key: "pmode"@,
            cli: "--pmode"@,
            kind: KindView::Enum(seq!["powersaver"@, "balanced"@, "performance"@, "turbo"@]),
            default: "performance"@,
            step: 1000,
            description: "NPU power mode: trades sustained throughput against power draw."@,
        },
        SpecView {
            key: "q-len"@,
            cli: "--q-len"@,
            kind: KindView::Int(Some(1), Some(256)),
            default: "10"@,
            step: 1000,
            description: "Maximum NPU queue length — how many requests may be in flight."@,
        },
        SpecView {
            key: "socket"@,
            cli: "--socket"@,
            kind: KindView::Int(Some(1), Some(256)),
            default: "10"@,
            step: 1000,
            description: "Maximum number of concurrent socket connections."@,
        },
        SpecView {
            key: "cors"@,
            cli: "--cors"@,
            kind: KindView::Enum(seq!["1"@, "0"@]),
            default: "1"@,
            step: 1000,
            description: "Cross-Origin Resource Sharing (1 = enabled, the FastFlowLM default)."@,
        },
        SpecView {
            key: "preemption"@,
            cli: "--preemption"@,
            kind: KindView::Enum(seq!["0"@, "1"@]),
            default: "0"@,
            step: 1000,
            description: "Allow a queued request to preempt one in flight."@,
        },
        SpecView {
            key: "embed"@,
            cli: "--embed"@,
            kind: KindView::Enum(seq!["0"@, "1"@]),
            default: "0"@,
            step: 1000,
            description: "Also load the embedding model, serving /v1/embeddings."@,
        },
        SpecView {
            key: "asr"@,
            cli: "--asr"@,
            kind: KindView::Enum(seq!["0"@, "1"@]),
            default: "0"@,
            step: 1000,
            description: "Also load the speech model, serving /v1/audio/transcriptions."@,
        },
        SpecView {
            key: "img-pre-resize"@,
            cli: "--img-pre-resize"@,
            kind: KindView::Enum(seq!["0"@, "1"@, "2"@, "3"@, "4"@]),
            default: "2"@,
            step: 1000,
            description: "Pre-resize input images for vision models (0 = original, 1 = 480p, 2 = 720p, 3 = 1080p, 4 = 1440p)."@,
        },
        SpecView {
            key: "host"@,
            cli: "--host"@,
            kind: KindView::Str,
            default: "127.0.0.1"@,
            step: 0,
            description: "Network interface to bind the server to."@,
        },
        SpecView {
            key: "port"@,
            cli: "--port"@,
            kind: KindView::Int(Some(1), Some(65535)),
            default: "52625"@,
            step: 1000,
            description: "TCP port the server listens on (FastFlowLM's own default is 52625)."@,
        },
    ]
}

/// The options of FastFlowLM, in the order of display.
pub fn specs() -> (r: Vec<OptionSpec>)
    ensures
        spec_views(r@) == table(),
{
    let mut out: Vec<OptionSpec> = Vec::new();
    out.push(
        OptionSpec {
            key: "ctx-len",
            cli: "--ctx-len",
            kind: OptionKind::Int { min: Some(0), max: None },
            default: "4096",
            step: 1024000,
            description: "Context length in tokens (rounded to the nearest power of two; capped at the model's trained context).",
        },
    );
    out.push(
        OptionSpec {
            key: "prefill-chunk-len",
            cli: "--prefill-chunk-len",
            kind: OptionKind::Int { min: Some(0), max: None },
            default: "4096",
            step: 1024000,
            description: "Prompt prefill chunk size ('default' uses the model's own maximum prefill length).",
        },
    );
    let variants: Vec<&'static str> = vec!["powersaver", "balanced", "performance", "turbo"];
    assert(lits(variants@) =~= seq!["powersaver"@, "balanced"@, "performance"@, "turbo"@]);
    out.push(
        OptionSpec {
            key: "pmode",
            cli: "--pmode",
            kind: OptionKind::Enum(variants),
            default: "performance",
            step: 1000,
            description: "NPU power mode: trades sustained throughput against power draw.",
        },
    );
    out.push(
        OptionSpec {
            key: "q-len",
            cli: "--q-len",
            kind: OptionKind::Int { min: Some(1), max: Some(256) },
            default: "10",
            step: 1000,
            description: "Maximum NPU queue length — how many requests may be in flight.",
        },
    );
    out.push(
        OptionSpec {
            key: "socket",
            cli: "--socket",
            kind: OptionKind::Int { min: Some(1), max: Some(256) },
            default: "10",
            step: 1000,
            description: "Maximum number of concurrent socket connections.",
        },
    );
    let variants: Vec<&'static str> = vec!["1", "0"];
    assert(lits(variants@) =~= seq!["1"@, "0"@]);
    out.push(
        OptionSpec {
            key: "cors",
            cli: "--cors",
            kind: OptionKind::Enum(variants),
            default: "1",
            step: 1000,
            description: "Cross-Origin Resource Sharing (1 = enabled, the FastFlowLM default).",
        },
    );
    let variants: Vec<&'static str> = vec!["0", "1"];
    assert(lits(variants@) =~= seq!["0"@, "1"@]);
    out.push(
        OptionSpec {
            key: "preemption",
            cli: "--preemption",
            kind: OptionKind::Enum(variants),
            default: "0",
            step: 1000,
            description: "Allow a queued request to preempt one in flight.",
        },
    );
    let variants: Vec<&'static str> = vec!["0", "1"];
    assert(lits(variants@) =~= seq!["0"@, "1"@]);
    out.push(
        OptionSpec {
            key: "embed",
            cli: "--embed",
            kind: OptionKind::Enum(variants),
            default: "0",
            step: 1000,
            description: "Also load the embedding model, serving /v1/embeddings.",
        },
    );
    let variants: Vec<&'static str> = vec!["0", "1"];
    assert(lits(variants@) =~= seq!["0"@, "1"@]);
    out.push(
        OptionSpec {
            key: "asr",
            cli: "--asr",
            kind: OptionKind::Enum(variants),
            default: "0",
            step: 1000,
            description: "Also load the speech model, serving /v1/audio/transcriptions.",
        },
    );
    let variants: Vec<&'static str> = vec!["0", "1", "2", "3", "4"];
    assert(lits(variants@) =~= seq!["0"@, "1"@, "2"@, "3"@, "4"@]);
    out.push(
        OptionSpec {
            key: "img-pre-resize",
            cli: "--img-pre-resize",
            kind: OptionKind::Enum(variants),
            default: "2",
            step: 1000,
            description: "Pre-resize input images for vision models (0 = original, 1 = 480p, 2 = 720p, 3 = 1080p, 4 = 1440p).",
        },
    );
    out.push(
        OptionSpec {
            key: "host",
            cli: "--host",
            kind: OptionKind::Str,
            default: "127.0.0.1",
            step: 0,
            description: "Network interface to bind the server to.",
        },
    );
    out.push(
        OptionSpec {
            key: "port",
            cli: "--port",
            kind: OptionKind::Int { min: Some(1), max: Some(65535) },
            default: "52625",
            step: 1000,
            description: "TCP port the server listens on (FastFlowLM's own default is 52625).",
        },
    );
    assert(spec_views(out@) =~= table());
    out
}

// --- the command line --------------------------------------------------------

/// The value at which an option is left off the command line. The host and the
/// port are always given: the endpoint has to be known.
pub open spec fn omitted_at(key: Seq<char>) -> Option<Seq<char>> {
    if key == "host"@ || key == "port"@ {
        None
    } else {
        Some(DEFAULT@)
    }
}

/// The value at which an option is left off the command line.
pub fn omit_token(key: &str) -> (r: Option<&'static str>)
    ensures
        match r {
            Some(t) => omitted_at(key@) == Some(t@),
            None => omitted_at(key@) is None,
        },
{
    if text::same(key, "host") || text::same(key, "port") {
        None
    } else {
        Some(DEFAULT)
    }
}

// --- built-in profiles -------------------------------------------------------

/// The built-in profiles of FastFlowLM, in the order of display.
pub open spec fn template_table() -> Seq<TemplateView> {
    seq![
        TemplateView { name: "Default"@, overrides: Seq::<(Seq<char>, Seq<char>)>::empty() },
        TemplateView { name: "Chat"@, overrides: seq![("pmode"@, "performance"@)] },
        TemplateView { name: "Long Context"@, overrides: seq![("ctx-len"@, "131072"@), ("prefill-chunk-len"@, "8192"@)] },
        TemplateView { name: "Server"@, overrides: seq![("host"@, "0.0.0.0"@), ("q-len"@, "20"@), ("socket"@, "20"@), ("preemption"@, "1"@)] },
        TemplateView { name: "Low Power"@, overrides: seq![("pmode"@, "powersaver"@)] },
    ]
}

/// The built-in profiles of FastFlowLM, in the order of display.
pub fn templates() -> (r: Vec<Template>)
    ensures
        template_views(r@) == template_table(),
{
    let mut out: Vec<Template> = Vec::new();
    let set: Vec<(&'static str, &'static str)> = Vec::new();
    assert(pairs(set@) =~= Seq::<(Seq<char>, Seq<char>)>::empty());
    out.push(Template::new("Default", set));
    let set: Vec<(&'static str, &'static str)> = vec![("pmode", "performance")];
    assert(pairs(set@) =~= seq![("pmode"@, "performance"@)]);
    out.push(Template::new("Chat", set));
    let set: Vec<(&'static str, &'static str)> = vec![("ctx-len", "131072"), ("prefill-chunk-len", "8192")];
    assert(pairs(set@) =~= seq![("ctx-len"@, "131072"@), ("prefill-chunk-len"@, "8192"@)]);
    out.push(Template::new("Long Context", set));
    let set: Vec<(&'static str, &'static str)> = vec![("host", "0.0.0.0"), ("q-len", "20"), ("socket", "20"), ("preemption", "1")];
    assert(pairs(set@) =~= seq![("host"@, "0.0.0.0"@), ("q-len"@, "20"@), ("socket"@, "20"@), ("preemption"@, "1"@)]);
    out.push(Template::new("Server", set));
    let set: Vec<(&'static str, &'static str)> = vec![("pmode", "powersaver")];
    assert(pairs(set@) =~= seq![("pmode"@, "powersaver"@)]);
    out.push(Template::new("Low Power", set));
    assert(template_views(out@) =~= template_table());
    out
}

// --- laws --------------------------------------------------------------------

/// Whether an option is passed on by a flag.
pub open spec fn passed_by(key: Seq<char>, flag: Seq<char>) -> bool {
    exists|i: int|
        0 <= i < table().len() && (#[trigger] table()[i]).key == key && table()[i].cli == flag
}

/// Whether a built-in profile sets an option to a value.
pub open spec fn presets(profile: Seq<char>, key: Seq<char>, value: Seq<char>) -> bool {
    exists|i: int, j: int|
        0 <= i < template_table().len() && 0 <= j < template_table()[i].overrides.len()
            && template_table()[i].name == profile && #[trigger] template_table()[i].overrides[j]
            == (key, value)
}

/// Each option reaches the server by the flag that FastFlowLM has for it.
pub proof fn law_options_have_their_flags()
    ensures
        passed_by("ctx-len"@, "--ctx-len"@),
        passed_by("prefill-chunk-len"@, "--prefill-chunk-len"@),
        passed_by("pmode"@, "--pmode"@),
        passed_by("q-len"@, "--q-len"@),
        passed_by("socket"@, "--socket"@),
        passed_by("cors"@, "--cors"@),
        passed_by("preemption"@, "--preemption"@),
        passed_by("embed"@, "--embed"@),
        passed_by("asr"@, "--asr"@),
        passed_by("img-pre-resize"@, "--img-pre-resize"@),
        passed_by("host"@, "--host"@),
        passed_by("port"@, "--port"@),
        table().len() == 12,
{
    assert(table()[0].key == "ctx-len"@ && table()[0].cli == "--ctx-len"@);
    assert(table()[1].key == "prefill-chunk-len"@ && table()[1].cli == "--prefill-chunk-len"@);
    assert(table()[2].key == "pmode"@ && table()[2].cli == "--pmode"@);
    assert(table()[3].key == "q-len"@ && table()[3].cli == "--q-len"@);
    assert(table()[4].key == "socket"@ && table()[4].cli == "--socket"@);
    assert(table()[5].key == "cors"@ && table()[5].cli == "--cors"@);
    assert(table()[6].key == "preemption"@ && table()[6].cli == "--preemption"@);
    assert(table()[7].key == "embed"@ && table()[7].cli == "--embed"@);
    assert(table()[8].key == "asr"@ && table()[8].cli == "--asr"@);
    assert(table()[9].key == "img-pre-resize"@ && table()[9].cli == "--img-pre-resize"@);
    assert(table()[10].key == "host"@ && table()[10].cli == "--host"@);
    assert(table()[11].key == "port"@ && table()[11].cli == "--port"@);
}

/// What the built-in profiles are for: each sets what its name says, and the default one
/// sets nothing.
pub proof fn law_builtin_profiles_are_what_they_say()
    ensures
        presets("Chat"@, "pmode"@, "performance"@),
        presets("Long Context"@, "ctx-len"@, "131072"@),
        presets("Long Context"@, "prefill-chunk-len"@, "8192"@),
        presets("Server"@, "host"@, "0.0.0.0"@),
        presets("Server"@, "q-len"@, "20"@),
        presets("Server"@, "socket"@, "20"@),
        presets("Server"@, "preemption"@, "1"@),
        presets("Low Power"@, "pmode"@, "powersaver"@),
        template_table()[0].name == "Default"@ && template_table()[0].overrides.len() == 0,
        template_table().len() == 5,
{
    assert(template_table()[1].overrides[0] == ("pmode"@, "performance"@));
    assert(template_table()[2].overrides[0] == ("ctx-len"@, "131072"@));
    assert(template_table()[2].overrides[1] == ("prefill-chunk-len"@, "8192"@));
    assert(template_table()[3].overrides[0] == ("host"@, "0.0.0.0"@));
    assert(template_table()[3].overrides[1] == ("q-len"@, "20"@));
    assert(template_table()[3].overrides[2] == ("socket"@, "20"@));
    assert(template_table()[3].overrides[3] == ("preemption"@, "1"@));
    assert(template_table()[4].overrides[0] == ("pmode"@, "powersaver"@));
}

/// Whether the option of a key takes values of a kind, and steps by so many thousandths.
pub open spec fn takes(key: Seq<char>, kind: KindView, step: int) -> bool {
    exists|i: int|
        0 <= i < table().len() && (#[trigger] table()[i]).key == key && table()[i].kind == kind
            && table()[i].step == step
}

/// Each option has its range, with the steps that the keys take.
pub proof fn law_options_have_their_ranges()
    ensures
        takes("ctx-len"@, KindView::Int(Some(0), None), 1024000),
        takes("prefill-chunk-len"@, KindView::Int(Some(0), None), 1024000),
        takes("pmode"@, KindView::Enum(seq!["powersaver"@, "balanced"@, "performance"@, "turbo"@]), 1000),
        takes("q-len"@, KindView::Int(Some(1), Some(256)), 1000),
        takes("socket"@, KindView::Int(Some(1), Some(256)), 1000),
        takes("cors"@, KindView::Enum(seq!["1"@, "0"@]), 1000),
        takes("preemption"@, KindView::Enum(seq!["0"@, "1"@]), 1000),
        takes("embed"@, KindView::Enum(seq!["0"@, "1"@]), 1000),
        takes("asr"@, KindView::Enum(seq!["0"@, "1"@]), 1000),
        takes("img-pre-resize"@, KindView::Enum(seq!["0"@, "1"@, "2"@, "3"@, "4"@]), 1000),
        takes("host"@, KindView::Str, 0),
        takes("port"@, KindView::Int(Some(1), Some(65535)), 1000),
{
    assert(table()[0].key == "ctx-len"@ && table()[0].kind == KindView::Int(Some(0), None));
    assert(table()[1].key == "prefill-chunk-len"@ && table()[1].kind == KindView::Int(Some(0), None));
    assert(table()[2].key == "pmode"@ && table()[2].kind == KindView::Enum(seq!["powersaver"@, "balanced"@, "performance"@, "turbo"@]));
    assert(table()[3].key == "q-len"@ && table()[3].kind == KindView::Int(Some(1), Some(256)));
    assert(table()[4].key == "socket"@ && table()[4].kind == KindView::Int(Some(1), Some(256)));
    assert(table()[5].key == "cors"@ && table()[5].kind == KindView::Enum(seq!["1"@, "0"@]));
    assert(table()[6].key == "preemption"@ && table()[6].kind == KindView::Enum(seq!["0"@, "1"@]));
    assert(table()[7].key == "embed"@ && table()[7].kind == KindView::Enum(seq!["0"@, "1"@]));
    assert(table()[8].key == "asr"@ && table()[8].kind == KindView::Enum(seq!["0"@, "1"@]));
    assert(table()[9].key == "img-pre-resize"@ && table()[9].kind == KindView::Enum(seq!["0"@, "1"@, "2"@, "3"@, "4"@]));
    assert(table()[10].key == "host"@ && table()[10].kind == KindView::Str);
    assert(table()[11].key == "port"@ && table()[11].kind == KindView::Int(Some(1), Some(65535)));
}


/// Whether the value that an option starts at is one of its variants, where it has any.
pub open spec fn starts_well(spec: SpecView) -> bool {
    spec.kind is Enum ==> spec.kind->Enum_0.contains(spec.default)
}

/// Every enumeration starts at one of its variants, and the endpoint at the usual one.
pub proof fn law_defaults_are_allowed(i: int)
    requires
        0 <= i < table().len(),
    ensures
        starts_well(table()[i]),
        table()[i].key == "host"@ ==> table()[i].default == "127.0.0.1"@,
{
    reveal_strlit("asr");
    reveal_strlit("cors");
    reveal_strlit("ctx-len");
    reveal_strlit("embed");
    reveal_strlit("host");
    reveal_strlit("img-pre-resize");
    reveal_strlit("pmode");
    reveal_strlit("port");
    reveal_strlit("preemption");
    reveal_strlit("prefill-chunk-len");
    reveal_strlit("q-len");
    reveal_strlit("socket");
    assert("asr"@.len() == 3 && "asr"@[0] == 'a');
    assert("cors"@.len() == 4 && "cors"@[0] == 'c');
    assert("ctx-len"@.len() == 7 && "ctx-len"@[0] == 'c');
    assert("embed"@.len() == 5 && "embed"@[0] == 'e');
    assert("host"@.len() == 4 && "host"@[0] == 'h');
    assert("img-pre-resize"@.len() == 14 && "img-pre-resize"@[0] == 'i');
    assert("pmode"@.len() == 5 && "pmode"@[0] == 'p');
    assert("port"@.len() == 4 && "port"@[0] == 'p');
    assert("preemption"@.len() == 10 && "preemption"@[0] == 'p');
    assert("prefill-chunk-len"@.len() == 17 && "prefill-chunk-len"@[0] == 'p');
    assert("q-len"@.len() == 5 && "q-len"@[0] == 'q');
    assert("socket"@.len() == 6 && "socket"@[0] == 's');
    if i == 2 {
        assert(table()[2].kind->Enum_0[2] == table()[2].default);
    }
    if i == 5 {
        assert(table()[5].kind->Enum_0[0] == table()[5].default);
    }
    if i == 6 {
        assert(table()[6].kind->Enum_0[0] == table()[6].default);
    }
    if i == 7 {
        assert(table()[7].kind->Enum_0[0] == table()[7].default);
    }
    if i == 8 {
        assert(table()[8].kind->Enum_0[0] == table()[8].default);
    }
    if i == 9 {
        assert(table()[9].kind->Enum_0[2] == table()[9].default);
    }
}

/// The endpoint is always given; every other option can be left to FastFlowLM.
pub proof fn law_only_the_endpoint_is_always_given(key: Seq<char>)
    ensures
        omitted_at("host"@) is None,
        omitted_at("port"@) is None,
        key != "host"@ && key != "port"@ ==> omitted_at(key) == Some("default"@),
{
}

} // verus!
