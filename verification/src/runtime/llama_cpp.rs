//! The llama.cpp backend: what was found of `llama-server`, how its options
//! default, and how a launch is built.

use vstd::prelude::*;
use crate::chars;
use crate::config::Defaults;
use crate::discovery::shards;
use crate::domain::options::{lits, KindView, OptionKind, OptionSpec, SpecView};
use crate::domain::{
    option_views, Model, ModelView, OptionItem, OptionItemView, RemoteModel, RemoteView, Runtime,
    RuntimeView,
};
use crate::number;
use crate::path;
use crate::profiles::registry::{Dialect, OptionSchema, DEFAULT};
use crate::profiles::templates::{Template, TemplateView};
use crate::runtime::command::{
    draft_args, hub_argv, local_argv, projector_args, Command, HuggingFaceCommand, LocalCommand,
};
use crate::runtime::{llama_options, ContextView, LaunchContext, RuntimeBackend, RuntimeId};
use crate::table::TextMap;
use crate::text;
use crate::text::{opt, strs};

verus! {

/// The runtime's name.
pub const NAME: &'static str = "llama.cpp";

/// llama.cpp as it was found, with what its help says it can do.
#[derive(Debug)]
pub struct LlamaCppBackend {
    pub runtime: Runtime,
    /// It can fetch a model from the Hub.
    pub hf_supported: bool,
    /// It can fetch a draft model from the Hub.
    pub draft_hf_supported: bool,
    /// It can find a projector by itself.
    pub mmproj_auto_supported: bool,
    /// It can draft in blocks.
    pub dflash_supported: bool,
}

/// What asking the system for llama.cpp gave.
#[derive(Debug)]
pub struct LlamaProbe {
    pub binary_path: Option<String>,
    pub bench_path: Option<String>,
    pub version: Option<String>,
    /// What the server prints when asked for its devices.
    pub device_output: Option<String>,
    /// What the server prints when asked for help.
    pub help: Option<String>,
}

// --- devices -----------------------------------------------------------------

/// Whether a text holds white space.
pub open spec fn has_white(s: Seq<char>) -> bool {
    exists|i: int| 0 <= i < s.len() && chars::is_white(#[trigger] s[i])
}

/// The device that a line of the list names: what stands before its first colon,
/// where that is one word that ends in a digit.
pub open spec fn device_in(line: Seq<char>) -> Option<Seq<char>> {
    match text::find_from(line, ":"@, 0) {
        None => None,
        Some(i) => {
            let name = chars::trimmed(line.take(i));
            if name.len() == 0 || has_white(name) || !chars::is_digit(name.last()) {
                None
            } else {
                Some(name)
            }
        },
    }
}

/// The reading of an output's lines: whether the list has begun, and the devices
/// so far, each once.
pub open spec fn devices_upto(lines: Seq<Seq<char>>, n: nat) -> (bool, Seq<Seq<char>>)
    decreases n,
{
    if n == 0 {
        (false, Seq::<Seq<char>>::empty())
    } else {
        let (begun, found) = devices_upto(lines, (n - 1) as nat);
        let line = chars::trimmed(lines[n - 1]);
        if chars::same_fold(line, "Available devices:"@) {
            (true, found)
        } else if !begun {
            (begun, found)
        } else {
            match device_in(line) {
                Some(d) => if found.contains(d) {
                    (begun, found)
                } else {
                    (begun, found.push(d))
                },
                None => (begun, found),
            }
        }
    }
}

/// The devices in an output.
pub open spec fn devices_of(output: Seq<char>) -> Seq<Seq<char>> {
    devices_upto(chars::lines(output), chars::lines(output).len()).1
}

fn any_white(s: &str) -> (r: bool)
    ensures
        r == has_white(s@),
{
    let cs = text::chars(s);
    let mut i: usize = 0;
    while i < cs.len()
        invariant
            cs@ == s@,
            i <= cs.len(),
            forall|j: int| 0 <= j < i ==> !chars::is_white(#[trigger] s@[j]),
        decreases cs.len() - i,
    {
        if chars::white(cs[i]) {
            assert(chars::is_white(s@[i as int]));
            return true;
        }
        i += 1;
    }
    false
}

fn device_name(line: &str) -> (r: Option<String>)
    ensures
        opt(r) == device_in(line@),
{
    proof {
        text::lemma_find_from(line@, ":"@, 0);
    }
    match text::find(line, ":") {
        None => None,
        Some(i) => {
            let name = chars::trim(text::piece(line, 0, i).as_str());
            let n = name.as_str().unicode_len();
            if n == 0 || any_white(name.as_str()) || !chars::digit(name.as_str().get_char(n - 1)) {
                None
            } else {
                Some(name)
            }
        },
    }
}

/// The devices in an output of `llama-server --list-devices`, each once.
pub fn parse_devices(output: &str) -> (r: Vec<String>)
    ensures
        strs(r@) == devices_of(output@),
{
    let lines = chars::split_lines(output);
    let ghost all = chars::lines(output@);
    let mut begun = false;
    let mut found: Vec<String> = Vec::new();
    let mut i: usize = 0;
    assert(strs(found@) =~= devices_upto(all, 0).1);
    while i < lines.len()
        invariant
            i <= lines.len(),
            all == strs(lines@),
            all == chars::lines(output@),
            devices_upto(all, i as nat) == (begun, strs(found@)),
        decreases lines.len() - i,
    {
        assert(all[i as int] == lines@[i as int]@);
        let line = chars::trim(lines[i].as_str());
        if chars::eq_fold(line.as_str(), "Available devices:") {
            begun = true;
        } else if begun {
            if let Some(d) = device_name(line.as_str()) {
                if !text::list_contains(&found, d.as_str()) {
                    let ghost before = strs(found@);
                    let ghost view = d@;
                    found.push(d);
                    assert(strs(found@) =~= before.push(view));
                }
            }
        }
        i += 1;
    }
    found
}

// --- discovery ---------------------------------------------------------------

/// Whether the help mentions a flag.
pub open spec fn advertises(help: Option<Seq<char>>, flag: Seq<char>) -> bool {
    help is Some && text::has(help->0, flag)
}

fn mentions(help: &Option<String>, flag: &str) -> (r: bool)
    ensures
        r == advertises(opt(*help), flag@),
{
    match help {
        Some(h) => text::contains(h.as_str(), flag),
        None => false,
    }
}

impl LlamaCppBackend {
    /// llama.cpp from what asking the system gave.
    pub fn discover(probe: LlamaProbe) -> (r: LlamaCppBackend)
        ensures
            r.runtime@ == (RuntimeView {
                name: NAME@,
                description: "GGUF inference via llama-server"@,
                version: opt(probe.version),
                binary_path: opt(probe.binary_path),
                bench_path: opt(probe.bench_path),
                formats: seq!["GGUF"@],
                devices: match probe.device_output {
                    Some(t) => devices_of(t@),
                    None => Seq::<Seq<char>>::empty(),
                },
            }),
            r.hf_supported == (advertises(opt(probe.help), "--hf-repo"@) && advertises(
                opt(probe.help),
                "--hf-file"@,
            )),
            r.draft_hf_supported == advertises(opt(probe.help), "--spec-draft-hf"@),
            r.mmproj_auto_supported == advertises(opt(probe.help), "--mmproj-auto"@),
            r.dflash_supported == advertises(opt(probe.help), "draft-dflash"@),
    {
        let devices: Vec<String> = match &probe.device_output {
            Some(t) => parse_devices(t.as_str()),
            None => Vec::new(),
        };
        let mut formats: Vec<String> = Vec::new();
        formats.push(text::copy("GGUF"));
        assert(strs(formats@) =~= seq!["GGUF"@]);
        assert(probe.device_output is None ==> strs(devices@) =~= Seq::<Seq<char>>::empty());
        LlamaCppBackend {
            hf_supported: mentions(&probe.help, "--hf-repo") && mentions(&probe.help, "--hf-file"),
            draft_hf_supported: mentions(&probe.help, "--spec-draft-hf"),
            mmproj_auto_supported: mentions(&probe.help, "--mmproj-auto"),
            dflash_supported: mentions(&probe.help, "draft-dflash"),
            runtime: Runtime {
                name: text::copy(NAME),
                description: text::copy("GGUF inference via llama-server"),
                version: probe.version,
                binary_path: probe.binary_path,
                bench_path: probe.bench_path,
                formats,
                devices,
            },
        }
    }
}

// --- options -----------------------------------------------------------------

/// A model's trained context as a bound: it never wraps into a negative one.
pub open spec fn context_bound(context: u64) -> i64 {
    if context > i64::MAX {
        i64::MAX
    } else {
        context as i64
    }
}

fn bound_of(context: u64) -> (r: i64)
    ensures
        r == context_bound(context),
{
    if context > i64::MAX as u64 {
        i64::MAX
    } else {
        context as i64
    }
}

/// What values an option takes for a model: the context is bounded by what the
/// model was trained for.
pub open spec fn model_kind(spec: SpecView, model: ModelView) -> KindView {
    match model.context_length {
        Some(c) => if spec.key == "ctx-size"@ {
            KindView::Int(Some(0), Some(context_bound(c)))
        } else {
            spec.kind
        },
        None => spec.kind,
    }
}

/// The default of the table, but host and port from the configuration.
pub open spec fn config_default(spec: SpecView, host: Seq<char>, port: u16) -> Seq<char> {
    if spec.key == "host"@ {
        host
    } else if spec.key == "port"@ {
        number::decimal(port as nat)
    } else {
        spec.default
    }
}

/// What an option starts at for a model: the drafter that the model brings; one
/// eighth of the trained context; else the value at which the option is left off.
pub open spec fn model_default(spec: SpecView, model: ModelView, host: Seq<char>, port: u16, dflash: bool) -> Seq<char> {
    if spec.key == "spec-type"@ && model.supports_mtp() {
        "draft-mtp"@
    } else if spec.key == "spec-type"@ && dflash && model.supports_dflash() {
        "draft-dflash"@
    } else if spec.key == "ctx-size"@ {
        match model.context_length {
            Some(c) => if c >= 8 {
                number::decimal((c / 8) as nat)
            } else {
                config_default(spec, host, port)
            },
            None => config_default(spec, host, port),
        }
    } else {
        match llama_options::omitted_at(spec.key) {
            Some(t) => t,
            None => config_default(spec, host, port),
        }
    }
}

fn write_config_default(spec: &OptionSpec, defaults: &Defaults) -> (r: String)
    ensures
        r@ == config_default(spec@, defaults.host@, defaults.port),
{
    if text::same(spec.key, "host") {
        defaults.host.clone()
    } else if text::same(spec.key, "port") {
        number::nat_text(defaults.port as u64)
    } else {
        text::copy(spec.default)
    }
}

/// A stored value in today's vocabulary: switches and the old sentinel became
/// variants.
pub open spec fn modern_value(key: Seq<char>, value: Seq<char>) -> Seq<char> {
    if key != "flash-attn"@ && key != "reasoning"@ {
        value
    } else if value == "true"@ {
        "on"@
    } else if value == "false"@ {
        "off"@
    } else if value == "default"@ {
        "auto"@
    } else {
        value
    }
}

/// A number above a limit becomes the limit; any other value stays.
pub open spec fn capped(value: Seq<char>, limit: Option<u64>) -> Seq<char> {
    match (limit, number::parse_int(value)) {
        (Some(c), Some(v)) => if v > context_bound(c) {
            number::decimal(c as nat)
        } else {
            value
        },
        _ => value,
    }
}

/// A value within what a model supports: a context above the trained one becomes
/// the trained one.
pub open spec fn fitted(key: Seq<char>, value: Seq<char>, model: ModelView, context_key: Seq<char>) -> Seq<char> {
    if key == context_key {
        capped(value, model.context_length)
    } else {
        value
    }
}

/// A value with a limit to it.
pub fn cap(value: String, limit: Option<u64>) -> (r: String)
    ensures
        r@ == capped(value@, limit),
{
    match (limit, number::read_int(value.as_str())) {
        (Some(c), Some(v)) => if v > bound_of(c) {
            number::nat_text(c)
        } else {
            value
        },
        _ => value,
    }
}

/// A value within what a model supports.
pub fn fit_context(key: &str, value: String, model: &Model, context_key: &str) -> (r: String)
    ensures
        r@ == fitted(key@, value@, model@, context_key@),
{
    if text::same(key, context_key) {
        cap(value, model.context_length)
    } else {
        value
    }
}

/// A number that was given a limit is not above it.
pub proof fn law_capped_values_fit(value: Seq<char>, limit: u64)
    ensures
        match number::parse_int(capped(value, Some(limit))) {
            Some(v) => v <= limit,
            None => true,
        },
{
    if number::parse_int(value) is Some && number::parse_int(value)->0 > context_bound(limit) {
        number::law_read_int_undoes_write(limit as int);
    }
}

// --- launching ---------------------------------------------------------------

/// Whether an option has a value.
pub open spec fn selects(options: Seq<OptionItemView>, key: Seq<char>, value: Seq<char>) -> bool {
    exists|i: int|
        0 <= i < options.len() && (#[trigger] options[i]).key == key && options[i].value == value
}

/// Whether an option has a value.
pub fn has_value(options: &Vec<OptionItem>, key: &str, value: &str) -> (r: bool)
    ensures
        r == selects(option_views(options@), key@, value@),
{
    let ghost all = option_views(options@);
    let mut i: usize = 0;
    while i < options.len()
        invariant
            i <= options.len(),
            all == option_views(options@),
            forall|j: int|
                0 <= j < i ==> !((#[trigger] all[j]).key == key@ && all[j].value == value@),
        decreases options.len() - i,
    {
        assert(all[i as int] == options@[i as int]@);
        if text::same(options[i].key.as_str(), key) && text::same(options[i].value.as_str(), value) {
            return true;
        }
        i += 1;
    }
    false
}

/// Whether multi-token prediction is on.
pub open spec fn mtp_on(options: Seq<OptionItemView>) -> bool {
    selects(options, "spec-type"@, "draft-mtp"@)
}

/// Whether block drafting is on.
pub open spec fn dflash_on(options: Seq<OptionItemView>) -> bool {
    selects(options, "spec-type"@, "draft-dflash"@)
}

/// The draft model on disk, if drafting is on.
pub open spec fn draft_file(model: ModelView, options: Seq<OptionItemView>) -> Option<Seq<char>> {
    if mtp_on(options) {
        model.mtp_path
    } else if dflash_on(options) {
        model.dflash_path
    } else {
        None
    }
}

/// The identity to launch from, where a file that the launch needs is not on
/// disk and llama.cpp has to fetch it.
pub open spec fn fetched_from(model: ModelView, mtp: bool) -> Option<RemoteView> {
    match model.remote {
        None => None,
        Some(r) => {
            let base = model.path.len() == 0;
            let head = mtp && model.mtp_path is None && r.mtp_file is Some;
            let projector = model.projector_path is None && r.projector_file is Some;
            if base || head || projector {
                Some(r)
            } else {
                None
            }
        },
    }
}

/// Whether a launch has to fetch.
pub fn has_to_fetch(model: &Model, mtp: bool) -> (r: bool)
    ensures
        r == (fetched_from(model@, mtp) is Some),
{
    match &model.remote {
        None => false,
        Some(r) => model.path.as_str().is_empty() || (mtp && model.mtp_path.is_none()
            && r.mtp_file.is_some()) || (model.projector_path.is_none()
            && r.projector_file.is_some()),
    }
}

/// What names a head in a repository for llama.cpp, given the quantization label
/// in its file name: the repository with the label, the repository alone for a
/// head in a subdirectory, and nothing for a plain head at its root, which
/// llama.cpp finds by itself.
pub open spec fn head_source(repo: Seq<char>, file: Seq<char>, quant: Option<Seq<char>>) -> Option<Seq<char>> {
    match quant {
        Some(q) => Some(repo + ":"@ + q),
        None => if text::has(file, "/"@) {
            Some(repo)
        } else {
            None
        },
    }
}

/// What names a head in a repository for llama.cpp, given its quantization label.
pub fn draft_hf_source(repo: &str, file: &str, quant: &Option<String>) -> (r: Option<String>)
    ensures
        opt(r) == head_source(repo@, file@, opt(*quant)),
{
    match quant {
        Some(q) => Some(text::cat3(repo, ":", q.as_str())),
        None => if text::contains(file, "/") {
            Some(text::copy(repo))
        } else {
            None
        },
    }
}

/// What names the head to fetch, where multi-token prediction is on and the head
/// is not on disk.
pub open spec fn fetched_head(remote: RemoteView, mtp: bool, mtp_path: Option<Seq<char>>) -> Option<Seq<char>> {
    if !mtp || mtp_path is Some {
        None
    } else {
        match remote.mtp_file {
            Some(f) => head_source(remote.repo, f, shards::quant_label(f)),
            None => None,
        }
    }
}

fn head_to_fetch(remote: &RemoteModel, mtp: bool, mtp_path: &Option<String>) -> (r: Option<String>)
    ensures
        opt(r) == fetched_head(remote@, mtp, opt(*mtp_path)),
{
    if !mtp || mtp_path.is_some() {
        return None;
    }
    match &remote.mtp_file {
        Some(f) => {
            let quant = shards::quant_from_filename(f.as_str());
            draft_hf_source(remote.repo.as_str(), f.as_str(), &quant)
        },
        None => None,
    }
}

/// A text, or nothing.
pub open spec fn or_empty(o: Option<Seq<char>>) -> Seq<char> {
    match o {
        Some(s) => s,
        None => Seq::<char>::empty(),
    }
}

/// The arguments that launch a server: from disk, or from the Hub where a file is
/// missing.
pub open spec fn server_argv(ctx: ContextView) -> Seq<Seq<char>> {
    let m = ctx.model;
    let mtp = mtp_on(ctx.options);
    let draft = draft_file(m, ctx.options);
    match fetched_from(m, mtp) {
        Some(r) => hub_argv(
            ctx.binary,
            r.repo,
            or_empty(r.file),
            draft_args(
                draft,
                fetched_head(
                    r,
                    mtp,
                    if mtp {
                        m.mtp_path
                    } else {
                        None
                    },
                ),
            ),
            projector_args(
                m.projector_path,
                m.projector_path is None && r.projector_file is Some,
            ),
            ctx.options,
        ),
        None => local_argv(ctx.binary, m.path, draft, m.projector_path, ctx.options),
    }
}

fn borrow(o: &Option<String>) -> (r: Option<&str>)
    ensures
        crate::runtime::command::opt_ref(r) == opt(*o),
{
    match o {
        Some(s) => Some(s.as_str()),
        None => None,
    }
}

fn build_server(ctx: &LaunchContext) -> (r: Command)
    ensures
        r@ == server_argv(ctx@),
{
    let m = ctx.model;
    let mtp = has_value(ctx.options, "spec-type", "draft-mtp");
    let draft: Option<String> = if mtp {
        text::copy_opt(&m.mtp_path)
    } else if has_value(ctx.options, "spec-type", "draft-dflash") {
        text::copy_opt(&m.dflash_path)
    } else {
        None
    };
    if has_to_fetch(m, mtp) {
        if let Some(r) = &m.remote {
            let held: Option<String> = if mtp {
                text::copy_opt(&m.mtp_path)
            } else {
                None
            };
            let head = head_to_fetch(r, mtp, &held);
            let file = match &r.file {
                Some(f) => f.clone(),
                None => String::new(),
            };
            return HuggingFaceCommand {
                binary: ctx.binary,
                repo: r.repo.as_str(),
                file: file.as_str(),
                draft_path: borrow(&draft),
                draft_hf: borrow(&head),
                projector_path: borrow(&m.projector_path),
                projector_auto: m.projector_path.is_none() && r.projector_file.is_some(),
            }.build(ctx.options);
        }
    }
    LocalCommand {
        binary: ctx.binary,
        model_path: m.path.as_str(),
        draft_path: borrow(&draft),
        projector_path: borrow(&m.projector_path),
    }.build(ctx.options)
}

// --- clients -----------------------------------------------------------------

/// The chat client beside a server, where the server's file name says that it is
/// one.
pub open spec fn client_of(server: Seq<char>) -> Option<Seq<char>> {
    match path::base_name(server) {
        None => None,
        Some(name) => if text::has(name, "llama-server"@) {
            Some(
                path::joined(
                    or_empty(path::parent_of(server)),
                    text::replaced_all(name, "llama-server"@, "llama-cli"@),
                ),
            )
        } else {
            None
        },
    }
}

/// The chat client beside a server.
pub fn cli_binary(server: &str) -> (r: Option<String>)
    ensures
        opt(r) == client_of(server@),
{
    match path::file_name(server) {
        None => None,
        Some(name) => {
            if !text::contains(name.as_str(), "llama-server") {
                return None;
            }
            let dir = match path::parent(server) {
                Some(d) => d,
                None => String::new(),
            };
            proof {
                reveal_strlit("llama-server");
            }
            let client = text::replace(name.as_str(), "llama-server", "llama-cli");
            Some(path::join(dir.as_str(), client.as_str()))
        },
    }
}

/// The options without those of the endpoint.
pub open spec fn without_endpoint(options: Seq<OptionItemView>) -> Seq<OptionItemView>
    decreases options.len(),
{
    if options.len() == 0 {
        options
    } else {
        let rest = without_endpoint(options.drop_last());
        let o = options.last();
        if o.key == "host"@ || o.key == "port"@ {
            rest
        } else {
            rest.push(o)
        }
    }
}

fn drop_endpoint(options: &Vec<OptionItem>) -> (r: Vec<OptionItem>)
    ensures
        option_views(r@) == without_endpoint(option_views(options@)),
{
    let ghost all = option_views(options@);
    let mut out: Vec<OptionItem> = Vec::new();
    let mut i: usize = 0;
    assert(option_views(out@) =~= without_endpoint(all.take(0)));
    while i < options.len()
        invariant
            i <= options.len(),
            all == option_views(options@),
            option_views(out@) == without_endpoint(all.take(i as int)),
        decreases options.len() - i,
    {
        proof {
            assert(all.take(i + 1).drop_last() =~= all.take(i as int));
            assert(all.take(i + 1).last() == options@[i as int]@);
        }
        let key = options[i].key.as_str();
        if !text::same(key, "host") && !text::same(key, "port") {
            let ghost before = option_views(out@);
            out.push(options[i].clone());
            assert(option_views(out@) =~= before.push(all[i as int]));
        }
        i += 1;
    }
    assert(all.take(i as int) =~= all);
    out
}

/// The first value of an option that is not the sentinel.
pub open spec fn set_value(options: Seq<OptionItemView>, key: Seq<char>) -> Option<Seq<char>>
    decreases options.len(),
{
    if options.len() == 0 {
        None
    } else if options[0].key == key && options[0].value != DEFAULT@ {
        Some(options[0].value)
    } else {
        set_value(options.skip(1), key)
    }
}

fn find_set_value(options: &Vec<OptionItem>, key: &str) -> (r: Option<String>)
    ensures
        opt(r) == set_value(option_views(options@), key@),
{
    let ghost all = option_views(options@);
    let mut i: usize = 0;
    assert(all.skip(0) =~= all);
    while i < options.len()
        invariant
            i <= options.len(),
            all == option_views(options@),
            set_value(all, key@) == set_value(all.skip(i as int), key@),
        decreases options.len() - i,
    {
        assert(all.skip(i as int)[0] == options@[i as int]@);
        if text::same(options[i].key.as_str(), key) && !text::same(
            options[i].value.as_str(),
            DEFAULT,
        ) {
            return Some(options[i].value.clone());
        }
        assert(all.skip(i as int).skip(1) =~= all.skip(i + 1));
        i += 1;
    }
    None
}

/// A flag with a value, where there is one.
pub open spec fn flag_args(flag: Seq<char>, value: Option<Seq<char>>) -> Seq<Seq<char>> {
    match value {
        Some(v) => seq![flag, v],
        None => Seq::<Seq<char>>::empty(),
    }
}

/// The arguments of a benchmark: the model, and on which device how much of it
/// runs.
pub open spec fn benchmark_argv(bench: Seq<char>, ctx: ContextView) -> Seq<Seq<char>> {
    seq![bench, "-m"@, ctx.model.path] + flag_args(
        "--device"@,
        set_value(ctx.options, "device"@),
    ) + flag_args("-ngl"@, set_value(ctx.options, "gpu-layers"@))
}

/// Why a launch that fetches cannot go ahead: the server is too old for it.
pub open spec fn fetch_blocker(b: LlamaCppBackend, ctx: ContextView) -> Option<Seq<char>> {
    let m = ctx.model;
    let mtp = mtp_on(ctx.options);
    match fetched_from(m, mtp) {
        None => None,
        Some(r) => if !b.hf_supported {
            Some(
                "this llama-server does not advertise --hf-repo/--hf-file; upgrade llama.cpp"@,
            )
        } else if fetched_head(
            r,
            mtp,
            if mtp {
                m.mtp_path
            } else {
                None
            },
        ) is Some && !b.draft_hf_supported {
            Some(
                "this llama-server does not advertise --spec-draft-hf; upgrade llama.cpp or download the MTP companion first"@,
            )
        } else if m.projector_path is None && r.projector_file is Some && !b.mmproj_auto_supported {
            Some(
                "this llama-server does not advertise --mmproj-auto; upgrade llama.cpp or download the projector first"@,
            )
        } else {
            None
        },
    }
}

impl RuntimeBackend for LlamaCppBackend {
    open spec fn descriptor_view(&self) -> RuntimeView {
        self.runtime@
    }

    open spec fn dialect(&self) -> Dialect {
        Dialect::LlamaCpp
    }

    open spec fn template_table(&self) -> Seq<TemplateView> {
        llama_options::template_table()
    }

    open spec fn kind_for(&self, spec: SpecView, model: ModelView) -> KindView {
        model_kind(spec, model)
    }

    open spec fn default_for(&self, spec: SpecView, model: ModelView, host: Seq<char>, port: u16) -> Seq<char> {
        model_default(spec, model, host, port, self.dflash_supported)
    }

    open spec fn normalized(&self, key: Seq<char>, value: Seq<char>) -> Seq<char> {
        modern_value(key, value)
    }

    open spec fn recovered(&self, key: Seq<char>, stored: Map<Seq<char>, Seq<char>>) -> Option<Seq<char>> {
        None
    }

    open spec fn clamped(&self, key: Seq<char>, value: Seq<char>, model: ModelView) -> Seq<char> {
        fitted(key, value, model, "ctx-size"@)
    }

    open spec fn launch_argv(&self, ctx: ContextView) -> Seq<Seq<char>> {
        server_argv(ctx)
    }

    open spec fn chat_spec(&self, ctx: ContextView) -> Option<Seq<Seq<char>>> {
        match client_of(ctx.binary) {
            Some(client) => Some(
                server_argv(
                    ContextView {
                        binary: client,
                        model: ctx.model,
                        options: without_endpoint(ctx.options),
                    },
                ).push("-cnv"@),
            ),
            None => None,
        }
    }

    open spec fn bench_spec(&self, ctx: ContextView) -> Option<Seq<Seq<char>>> {
        match opt(self.runtime.bench_path) {
            Some(bench) => Some(benchmark_argv(bench, ctx)),
            None => None,
        }
    }

    open spec fn health_spec(&self) -> Seq<char> {
        "/health"@
    }

    open spec fn token_spec(&self, ctx: ContextView) -> Seq<char> {
        match fetched_from(ctx.model, mtp_on(ctx.options)) {
            Some(r) => or_empty(r.file),
            None => ctx.model.path,
        }
    }

    open spec fn blocker_spec(&self, ctx: ContextView) -> Option<Seq<char>> {
        fetch_blocker(*self, ctx)
    }

    open spec fn unavailable_spec(&self) -> Option<Seq<char>> {
        if self.runtime.binary_path is None {
            Some("llama-server binary not found on PATH"@)
        } else {
            None
        }
    }

    open spec fn single_spec(&self) -> bool {
        false
    }

    open spec fn views_spec(&self) -> Seq<Seq<char>> {
        Seq::<Seq<char>>::empty()
    }

    open spec fn browse_spec(&self) -> bool {
        true
    }

    fn id(&self) -> (r: RuntimeId) {
        RuntimeId(self.runtime.name.clone())
    }

    fn descriptor(&self) -> (r: &Runtime) {
        &self.runtime
    }

    fn schema(&self) -> (r: OptionSchema) {
        OptionSchema::of(Dialect::LlamaCpp)
    }

    fn templates(&self) -> (r: Vec<Template>) {
        llama_options::templates()
    }

    fn effective_kind(&self, spec: &OptionSpec, model: &Model) -> (r: OptionKind) {
        match model.context_length {
            Some(c) => if text::same(spec.key, "ctx-size") {
                OptionKind::Int { min: Some(0), max: Some(bound_of(c)) }
            } else {
                spec.kind.clone()
            },
            None => spec.kind.clone(),
        }
    }

    fn spec_default(&self, spec: &OptionSpec, model: &Model, defaults: &Defaults) -> (r: String) {
        let drafts = text::same(spec.key, "spec-type");
        if drafts && model.supports_mtp() {
            return text::copy("draft-mtp");
        }
        if drafts && self.dflash_supported && model.supports_dflash() {
            return text::copy("draft-dflash");
        }
        if text::same(spec.key, "ctx-size") {
            return match model.context_length {
                Some(c) => if c >= 8 {
                    number::nat_text(c / 8)
                } else {
                    write_config_default(spec, defaults)
                },
                None => write_config_default(spec, defaults),
            };
        }
        match llama_options::omit_token(spec.key) {
            Some(t) => text::copy(t),
            None => write_config_default(spec, defaults),
        }
    }

    fn normalize_legacy(&self, key: &str, value: String) -> (r: String) {
        if !text::same(key, "flash-attn") && !text::same(key, "reasoning") {
            return value;
        }
        if text::same(value.as_str(), "true") {
            text::copy("on")
        } else if text::same(value.as_str(), "false") {
            text::copy("off")
        } else if text::same(value.as_str(), "default") {
            text::copy("auto")
        } else {
            value
        }
    }

    fn legacy_value(&self, key: &str, stored: &TextMap) -> (r: Option<String>) {
        None
    }

    fn clamp_to_model(&self, key: &str, value: String, model: &Model) -> (r: String) {
        fit_context(key, value, model, "ctx-size")
    }

    fn build_command(&self, ctx: &LaunchContext) -> (r: Command) {
        build_server(ctx)
    }

    fn chat_argv(&self, ctx: &LaunchContext) -> (r: Option<Vec<String>>) {
        match cli_binary(ctx.binary) {
            None => None,
            Some(client) => {
                let options = drop_endpoint(ctx.options);
                let sub_ctx = LaunchContext {
                    binary: client.as_str(),
                    model: ctx.model,
                    options: &options,
                };
                let mut argv = build_server(&sub_ctx).argv;
                let ghost before = strs(argv@);
                argv.push(text::copy("-cnv"));
                assert(strs(argv@) =~= before.push("-cnv"@));
                Some(argv)
            },
        }
    }

    fn bench_argv(&self, ctx: &LaunchContext) -> (r: Option<Vec<String>>) {
        match &self.runtime.bench_path {
            None => None,
            Some(bench) => {
                let mut argv: Vec<String> = Vec::new();
                argv.push(bench.clone());
                argv.push(text::copy("-m"));
                argv.push(ctx.model.path.clone());
                if let Some(v) = find_set_value(ctx.options, "device") {
                    argv.push(text::copy("--device"));
                    argv.push(v);
                }
                if let Some(v) = find_set_value(ctx.options, "gpu-layers") {
                    argv.push(text::copy("-ngl"));
                    argv.push(v);
                }
                assert(strs(argv@) =~= benchmark_argv(bench@, ctx@));
                Some(argv)
            },
        }
    }

    fn health_path(&self) -> (r: &'static str) {
        "/health"
    }

    fn process_token(&self, ctx: &LaunchContext) -> (r: String) {
        let mtp = has_value(ctx.options, "spec-type", "draft-mtp");
        if has_to_fetch(ctx.model, mtp) {
            match &ctx.model.remote {
                Some(r) => match &r.file {
                    Some(f) => f.clone(),
                    None => String::new(),
                },
                None => String::new(),
            }
        } else {
            ctx.model.path.clone()
        }
    }

    fn launch_blocker(&self, ctx: &LaunchContext) -> (r: Option<String>) {
        let m = ctx.model;
        let mtp = has_value(ctx.options, "spec-type", "draft-mtp");
        if !has_to_fetch(m, mtp) {
            return None;
        }
        let r = match &m.remote {
            Some(r) => r,
            None => return None,
        };
        if !self.hf_supported {
            return Some(
                text::copy(
                    "this llama-server does not advertise --hf-repo/--hf-file; upgrade llama.cpp",
                ),
            );
        }
        let held: Option<String> = if mtp {
            text::copy_opt(&m.mtp_path)
        } else {
            None
        };
        if head_to_fetch(r, mtp, &held).is_some() && !self.draft_hf_supported {
            return Some(
                text::copy(
                    "this llama-server does not advertise --spec-draft-hf; upgrade llama.cpp or download the MTP companion first",
                ),
            );
        }
        if m.projector_path.is_none() && r.projector_file.is_some() && !self.mmproj_auto_supported {
            return Some(
                text::copy(
                    "this llama-server does not advertise --mmproj-auto; upgrade llama.cpp or download the projector first",
                ),
            );
        }
        None
    }

    fn unavailable_reason(&self) -> (r: Option<String>) {
        if self.runtime.binary_path.is_none() {
            Some(text::copy("llama-server binary not found on PATH"))
        } else {
            None
        }
    }

    fn single_session(&self) -> (r: bool) {
        false
    }

    fn catalog_views(&self) -> (r: Vec<&'static str>) {
        let none: Vec<&'static str> = Vec::new();
        assert(lits(none@) =~= Seq::<Seq<char>>::empty());
        none
    }

    fn supports_online_browse(&self) -> (r: bool) {
        true
    }
}

/// The chat client of a server lies beside it.
pub proof fn law_the_client_lies_beside_the_server(dir: Seq<char>, ending: Seq<char>)
    requires
        dir.len() > 0,
        dir.last() != '/',
        path::strip_tail(dir) == dir,
        !ending.contains('/'),
        ending.len() < 12,
    ensures
        client_of(path::joined(dir, "llama-server"@ + ending)) == Some(
            path::joined(dir, "llama-cli"@ + ending),
        ),
{
    reveal_strlit("llama-server");
    reveal_strlit("llama-cli");
    let word = "llama-server"@;
    let name = word + ending;
    assert(word.len() == 12);
    assert forall|i: int| 0 <= i < name.len() implies name[i] != '/' by {
        if i >= 12 {
            assert(name[i] == ending[i - 12]);
            assert(ending.contains(name[i]));
        } else {
            assert(name[i] == word[i]);
        }
    }
    assert(!name.contains('/'));
    assert(name.len() >= 12);
    path::law_joined_files_have_their_names(dir, name);
    assert(name.subrange(0, 12) =~= word);
    assert(text::occurs_at(name, word, 0));
    text::law_the_first_place_is_found(name, word, 0);
    assert(name.skip(12) =~= ending);
    text::lemma_find_from(ending, word, 0);
    assert(text::replaced_all(ending, word, "llama-cli"@) == ending);
    assert(text::replaced_all(name, word, "llama-cli"@) =~= "llama-cli"@ + ending);
}

/// Devices are told from the list that the server prints: a line of one word with a
/// number and a colon behind the heading names one, and what stands before the heading
/// names none.
pub proof fn law_devices_are_listed_behind_the_heading(lines: Seq<Seq<char>>, n: nat, d: Seq<char>)
    requires
        0 < n <= lines.len(),
        !chars::same_fold(chars::trimmed(lines[n - 1]), "Available devices:"@),
        device_in(chars::trimmed(lines[n - 1])) == Some(d),
    ensures
        devices_upto(lines, (n - 1) as nat).0 ==> devices_upto(lines, n).1.contains(d),
        !devices_upto(lines, (n - 1) as nat).0 ==> devices_upto(lines, n).1
            == devices_upto(lines, (n - 1) as nat).1,
        devices_upto(lines, n).0 == devices_upto(lines, (n - 1) as nat).0,
{
    let (begun, found) = devices_upto(lines, (n - 1) as nat);
    if begun && !found.contains(d) {
        assert(found.push(d).last() == d);
    }
}

/// A device is what stands before the first colon of its line.
pub proof fn law_a_device_is_before_its_colon(name: Seq<char>, rest: Seq<char>)
    requires
        name.len() > 0,
        !name.contains(':'),
        !has_white(name),
        chars::is_digit(name.last()),
    ensures
        device_in(name + ":"@ + rest) == Some(name),
{
    reveal_strlit(":");
    let line = name + ":"@ + rest;
    let n = name.len() as int;
    assert(line.subrange(n, n + 1) =~= ":"@);
    assert forall|j: int| 0 <= j < n implies !text::occurs_at(line, ":"@, j) by {
        if text::occurs_at(line, ":"@, j) {
            assert(line.subrange(j, j + 1)[0] == line[j]);
            assert(name.contains(name[j]));
        }
    }
    text::law_the_first_place_is_found(line, ":"@, n);
    assert(line.take(n) =~= name);
    assert(!chars::is_white(name[0]));
    assert(!chars::is_white(name[n - 1]));
    assert(chars::trimmed(name) == name);
}

/// The heading begins the list, and no device is listed twice.
pub proof fn law_devices_are_listed_once(lines: Seq<Seq<char>>, n: nat)
    requires
        n <= lines.len(),
    ensures
        devices_upto(lines, n).1.no_duplicates(),
        n > 0 && chars::same_fold(chars::trimmed(lines[n - 1]), "Available devices:"@)
            ==> devices_upto(lines, n).0,
        n == 0 ==> !devices_upto(lines, n).0,
    decreases n,
{
    if n > 0 {
        law_devices_are_listed_once(lines, (n - 1) as nat);
        let (begun, found) = devices_upto(lines, (n - 1) as nat);
        if let Some(d) = device_in(chars::trimmed(lines[n - 1])) {
            if !found.contains(d) {
                let out = found.push(d);
                assert forall|i: int, j: int| 0 <= i < j < out.len() implies out[i] != out[j] by {
                    assert(found.contains(found[i]));
                }
            }
        }
    }
}

/// A launch that has to fetch is stopped on a server that cannot, and a launch from disk
/// never is.
pub proof fn law_fetching_needs_a_server_that_can(b: LlamaCppBackend, ctx: ContextView, r: RemoteView)
    ensures
        ctx.model.remote is None ==> fetch_blocker(b, ctx) is None,
        ctx.model.remote == Some(r) && ctx.model.path.len() == 0 && !b.hf_supported
            ==> fetch_blocker(b, ctx) is Some,
        ctx.model.remote == Some(r) && ctx.model.path.len() > 0 && r.mtp_file is None
            && r.projector_file is None ==> fetch_blocker(b, ctx) is None,
        ctx.model.remote == Some(r) && ctx.model.projector_path is None && r.projector_file is Some
            && !b.mmproj_auto_supported ==> fetch_blocker(b, ctx) is Some,
        b.hf_supported && b.draft_hf_supported && b.mmproj_auto_supported ==> fetch_blocker(
            b,
            ctx,
        ) is None,
{
}

/// A head is named for the server by its repository and its label; one in a folder by
/// the repository alone, and a plain one at the top not at all.
pub proof fn law_heads_are_named_by_their_label(repo: Seq<char>, file: Seq<char>, quant: Seq<char>)
    ensures
        head_source(repo, file, Some(quant)) == Some(repo + ":"@ + quant),
        file.contains('/') ==> head_source(repo, file, None) == Some(repo),
        !file.contains('/') ==> head_source(repo, file, None) is None,
{
    reveal_strlit("/");
    if file.contains('/') {
        let i = choose|i: int| 0 <= i < file.len() && file[i] == '/';
        assert(file.subrange(i, i + 1) =~= "/"@);
        assert(text::occurs_at(file, "/"@, i));
    } else if text::has(file, "/"@) {
        let i = choose|i: int| text::occurs_at(file, "/"@, i);
        assert(file.subrange(i, i + 1)[0] == '/');
        assert(file[i] == '/');
    }
}

/// A number above its limit becomes the limit, and one within stays as it was written.
pub proof fn law_values_are_cut_to_their_limit(n: nat, limit: u64)
    requires
        limit <= i64::MAX,
        number::parse_int(number::decimal(n)) == Some(n as int),
    ensures
        n <= limit ==> capped(number::decimal(n), Some(limit)) == number::decimal(n),
        n > limit ==> capped(number::decimal(n), Some(limit)) == number::decimal(limit as nat),
        capped(number::decimal(n), None) == number::decimal(n),
{
}

/// A server can what its help mentions, and where there is no help nothing is known.
pub proof fn law_the_help_says_what_a_server_can(front: Seq<char>, flag: Seq<char>, rest: Seq<char>)
    ensures
        advertises(Some(front + flag + rest), flag),
        !advertises(None, flag),
        flag.len() > 0 ==> !advertises(Some(Seq::<char>::empty()), flag),
{
    let s = front + flag + rest;
    let n = front.len() as int;
    assert(s.subrange(n, n + flag.len()) =~= flag);
    assert(text::occurs_at(s, flag, n));
}

/// No output names a device twice.
pub proof fn law_outputs_name_devices_once(output: Seq<char>)
    ensures
        devices_of(output).no_duplicates(),
{
    law_devices_are_listed_once(chars::lines(output), chars::lines(output).len());
}

} // verus!
