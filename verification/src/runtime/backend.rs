//! The runtimes together: one value for whichever it is, and what has to be known
//! of a runtime by its name alone.

use vstd::prelude::*;
use crate::config::Defaults;
use crate::discovery::online::cache;
use crate::domain::options::{KindView, OptionKind, OptionSpec, SpecView};
use crate::domain::{Model, ModelView, RemoteView, Runtime, RuntimeView};
use crate::path;
use crate::profiles::registry::{Dialect, OptionSchema};
use crate::profiles::templates::{template_views, Template, TemplateView};
use crate::runtime::command::Command;
use crate::runtime::flm::FlmBackend;
use crate::runtime::llama_cpp::LlamaCppBackend;
use crate::runtime::{
    flm, flm_options, llama_cpp, llama_options, ContextView, LaunchContext, RuntimeBackend,
    RuntimeId,
};
use crate::table::TextMap;
use crate::text;
use crate::text::opt;

verus! {

/// One of the runtimes.
#[derive(Debug)]
pub enum Backend {
    LlamaCpp(LlamaCppBackend),
    Flm(FlmBackend),
}

impl RuntimeBackend for Backend {
    open spec fn descriptor_view(&self) -> RuntimeView {
        match self {
            Backend::LlamaCpp(b) => b.descriptor_view(),
            Backend::Flm(b) => b.descriptor_view(),
        }
    }

    open spec fn dialect(&self) -> Dialect {
        match self {
            Backend::LlamaCpp(b) => b.dialect(),
            Backend::Flm(b) => b.dialect(),
        }
    }

    open spec fn template_table(&self) -> Seq<TemplateView> {
        match self {
            Backend::LlamaCpp(b) => b.template_table(),
            Backend::Flm(b) => b.template_table(),
        }
    }

    open spec fn kind_for(&self, spec: SpecView, model: ModelView) -> KindView {
        match self {
            Backend::LlamaCpp(b) => b.kind_for(spec, model),
            Backend::Flm(b) => b.kind_for(spec, model),
        }
    }

    open spec fn default_for(&self, spec: SpecView, model: ModelView, host: Seq<char>, port: u16) -> Seq<char> {
        match self {
            Backend::LlamaCpp(b) => b.default_for(spec, model, host, port),
            Backend::Flm(b) => b.default_for(spec, model, host, port),
        }
    }

    open spec fn normalized(&self, key: Seq<char>, value: Seq<char>) -> Seq<char> {
        match self {
            Backend::LlamaCpp(b) => b.normalized(key, value),
            Backend::Flm(b) => b.normalized(key, value),
        }
    }

    open spec fn recovered(&self, key: Seq<char>, stored: Map<Seq<char>, Seq<char>>) -> Option<Seq<char>> {
        match self {
            Backend::LlamaCpp(b) => b.recovered(key, stored),
            Backend::Flm(b) => b.recovered(key, stored),
        }
    }

    open spec fn clamped(&self, key: Seq<char>, value: Seq<char>, model: ModelView) -> Seq<char> {
        match self {
            Backend::LlamaCpp(b) => b.clamped(key, value, model),
            Backend::Flm(b) => b.clamped(key, value, model),
        }
    }

    open spec fn launch_argv(&self, ctx: ContextView) -> Seq<Seq<char>> {
        match self {
            Backend::LlamaCpp(b) => b.launch_argv(ctx),
            Backend::Flm(b) => b.launch_argv(ctx),
        }
    }

    open spec fn chat_spec(&self, ctx: ContextView) -> Option<Seq<Seq<char>>> {
        match self {
            Backend::LlamaCpp(b) => b.chat_spec(ctx),
            Backend::Flm(b) => b.chat_spec(ctx),
        }
    }

    open spec fn bench_spec(&self, ctx: ContextView) -> Option<Seq<Seq<char>>> {
        match self {
            Backend::LlamaCpp(b) => b.bench_spec(ctx),
            Backend::Flm(b) => b.bench_spec(ctx),
        }
    }

    open spec fn health_spec(&self) -> Seq<char> {
        match self {
            Backend::LlamaCpp(b) => b.health_spec(),
            Backend::Flm(b) => b.health_spec(),
        }
    }

    open spec fn token_spec(&self, ctx: ContextView) -> Seq<char> {
        match self {
            Backend::LlamaCpp(b) => b.token_spec(ctx),
            Backend::Flm(b) => b.token_spec(ctx),
        }
    }

    open spec fn blocker_spec(&self, ctx: ContextView) -> Option<Seq<char>> {
        match self {
            Backend::LlamaCpp(b) => b.blocker_spec(ctx),
            Backend::Flm(b) => b.blocker_spec(ctx),
        }
    }

    open spec fn unavailable_spec(&self) -> Option<Seq<char>> {
        match self {
            Backend::LlamaCpp(b) => b.unavailable_spec(),
            Backend::Flm(b) => b.unavailable_spec(),
        }
    }

    open spec fn single_spec(&self) -> bool {
        match self {
            Backend::LlamaCpp(b) => b.single_spec(),
            Backend::Flm(b) => b.single_spec(),
        }
    }

    open spec fn views_spec(&self) -> Seq<Seq<char>> {
        match self {
            Backend::LlamaCpp(b) => b.views_spec(),
            Backend::Flm(b) => b.views_spec(),
        }
    }

    open spec fn browse_spec(&self) -> bool {
        match self {
            Backend::LlamaCpp(b) => b.browse_spec(),
            Backend::Flm(b) => b.browse_spec(),
        }
    }

    fn id(&self) -> (r: RuntimeId) {
        match self {
            Backend::LlamaCpp(b) => b.id(),
            Backend::Flm(b) => b.id(),
        }
    }

    fn descriptor(&self) -> (r: &Runtime) {
        match self {
            Backend::LlamaCpp(b) => b.descriptor(),
            Backend::Flm(b) => b.descriptor(),
        }
    }

    fn schema(&self) -> (r: OptionSchema) {
        match self {
            Backend::LlamaCpp(b) => b.schema(),
            Backend::Flm(b) => b.schema(),
        }
    }

    fn templates(&self) -> (r: Vec<Template>) {
        match self {
            Backend::LlamaCpp(b) => b.templates(),
            Backend::Flm(b) => b.templates(),
        }
    }

    fn effective_kind(&self, spec: &OptionSpec, model: &Model) -> (r: OptionKind) {
        match self {
            Backend::LlamaCpp(b) => b.effective_kind(spec, model),
            Backend::Flm(b) => b.effective_kind(spec, model),
        }
    }

    fn spec_default(&self, spec: &OptionSpec, model: &Model, defaults: &Defaults) -> (r: String) {
        match self {
            Backend::LlamaCpp(b) => b.spec_default(spec, model, defaults),
            Backend::Flm(b) => b.spec_default(spec, model, defaults),
        }
    }

    fn normalize_legacy(&self, key: &str, value: String) -> (r: String) {
        match self {
            Backend::LlamaCpp(b) => b.normalize_legacy(key, value),
            Backend::Flm(b) => b.normalize_legacy(key, value),
        }
    }

    fn legacy_value(&self, key: &str, stored: &TextMap) -> (r: Option<String>) {
        match self {
            Backend::LlamaCpp(b) => b.legacy_value(key, stored),
            Backend::Flm(b) => b.legacy_value(key, stored),
        }
    }

    fn clamp_to_model(&self, key: &str, value: String, model: &Model) -> (r: String) {
        match self {
            Backend::LlamaCpp(b) => b.clamp_to_model(key, value, model),
            Backend::Flm(b) => b.clamp_to_model(key, value, model),
        }
    }

    fn build_command(&self, ctx: &LaunchContext) -> (r: Command) {
        match self {
            Backend::LlamaCpp(b) => b.build_command(ctx),
            Backend::Flm(b) => b.build_command(ctx),
        }
    }

    fn chat_argv(&self, ctx: &LaunchContext) -> (r: Option<Vec<String>>) {
        match self {
            Backend::LlamaCpp(b) => b.chat_argv(ctx),
            Backend::Flm(b) => b.chat_argv(ctx),
        }
    }

    fn bench_argv(&self, ctx: &LaunchContext) -> (r: Option<Vec<String>>) {
        match self {
            Backend::LlamaCpp(b) => b.bench_argv(ctx),
            Backend::Flm(b) => b.bench_argv(ctx),
        }
    }

    fn health_path(&self) -> (r: &'static str) {
        match self {
            Backend::LlamaCpp(b) => b.health_path(),
            Backend::Flm(b) => b.health_path(),
        }
    }

    fn process_token(&self, ctx: &LaunchContext) -> (r: String) {
        match self {
            Backend::LlamaCpp(b) => b.process_token(ctx),
            Backend::Flm(b) => b.process_token(ctx),
        }
    }

    fn launch_blocker(&self, ctx: &LaunchContext) -> (r: Option<String>) {
        match self {
            Backend::LlamaCpp(b) => b.launch_blocker(ctx),
            Backend::Flm(b) => b.launch_blocker(ctx),
        }
    }

    fn unavailable_reason(&self) -> (r: Option<String>) {
        match self {
            Backend::LlamaCpp(b) => b.unavailable_reason(),
            Backend::Flm(b) => b.unavailable_reason(),
        }
    }

    fn single_session(&self) -> (r: bool) {
        match self {
            Backend::LlamaCpp(b) => b.single_session(),
            Backend::Flm(b) => b.single_session(),
        }
    }

    fn catalog_views(&self) -> (r: Vec<&'static str>) {
        match self {
            Backend::LlamaCpp(b) => b.catalog_views(),
            Backend::Flm(b) => b.catalog_views(),
        }
    }

    fn supports_online_browse(&self) -> (r: bool) {
        match self {
            Backend::LlamaCpp(b) => b.supports_online_browse(),
            Backend::Flm(b) => b.supports_online_browse(),
        }
    }
}

/// The runtimes, in the order of display.
pub fn discover(llama: LlamaCppBackend, fastflow: FlmBackend) -> (r: Vec<Backend>)
    ensures
        r@ == seq![Backend::LlamaCpp(llama), Backend::Flm(fastflow)],
{
    let mut out: Vec<Backend> = Vec::new();
    out.push(Backend::LlamaCpp(llama));
    out.push(Backend::Flm(fastflow));
    assert(out@ =~= seq![Backend::LlamaCpp(llama), Backend::Flm(fastflow)]);
    out
}

// --- by name -----------------------------------------------------------------

/// The built-in profiles of a runtime by its name. What is read off the disk
/// names its runtime long before any runtime is asked for.
pub open spec fn templates_of(runtime: Seq<char>) -> Seq<TemplateView> {
    if runtime == flm::NAME@ {
        flm_options::template_table()
    } else if runtime == llama_cpp::NAME@ {
        llama_options::template_table()
    } else {
        Seq::<TemplateView>::empty()
    }
}

/// The built-in profiles of a runtime by its name.
pub fn templates_for(runtime: &str) -> (r: Vec<Template>)
    ensures
        template_views(r@) == templates_of(runtime@),
{
    if text::same(runtime, flm::NAME) {
        flm_options::templates()
    } else if text::same(runtime, llama_cpp::NAME) {
        llama_options::templates()
    } else {
        let none: Vec<Template> = Vec::new();
        assert(template_views(none@) =~= Seq::<TemplateView>::empty());
        none
    }
}

/// How the rates of requests are read out of a runtime's log.
#[derive(Debug, Clone, Copy, PartialEq, Eq, Structural)]
pub enum ThroughputParser {
    Flm,
    LlamaCpp,
    Nothing,
}

/// How the rates of requests are read out of a runtime's log, by its name.
pub fn throughput_parser(runtime: &str) -> (r: ThroughputParser)
    ensures
        r == if runtime@ == flm::NAME@ {
            ThroughputParser::Flm
        } else if runtime@ == llama_cpp::NAME@ {
            ThroughputParser::LlamaCpp
        } else {
            ThroughputParser::Nothing
        },
{
    if text::same(runtime, flm::NAME) {
        ThroughputParser::Flm
    } else if text::same(runtime, llama_cpp::NAME) {
        ThroughputParser::LlamaCpp
    } else {
        ThroughputParser::Nothing
    }
}

// --- what a launch fetches ---------------------------------------------------

/// A file that a launch fetches: where it is while it arrives, where when it is
/// complete, and its size.
#[derive(Debug)]
pub struct DownloadBlob {
    pub incomplete_file: String,
    pub complete_file: String,
    pub expected_bytes: u64,
}

pub struct DownloadBlobView {
    pub incomplete_file: Seq<char>,
    pub complete_file: Seq<char>,
    pub expected_bytes: u64,
}

impl View for DownloadBlob {
    type V = DownloadBlobView;

    open spec fn view(&self) -> DownloadBlobView {
        DownloadBlobView {
            incomplete_file: self.incomplete_file@,
            complete_file: self.complete_file@,
            expected_bytes: self.expected_bytes,
        }
    }
}

/// The views of a list of files.
pub open spec fn download_views(v: Seq<DownloadBlob>) -> Seq<DownloadBlobView> {
    v.map_values(|b: DownloadBlob| b@)
}

/// The files of the first `n` blobs that a launch from the Hub fetches: those of
/// the model itself that have a place in the cache.
pub open spec fn launch_files(hub: Seq<char>, remote: RemoteView, n: nat) -> Seq<DownloadBlobView>
    decreases n,
{
    if n == 0 {
        Seq::<DownloadBlobView>::empty()
    } else {
        let rest = launch_files(hub, remote, (n - 1) as nat);
        let blob = remote.blobs[n - 1];
        match cache::blob_places(hub, remote.repo, blob.oid) {
            Some(p) => if remote.mtp_file != Some(blob.file) && remote.projector_file != Some(
                blob.file,
            ) {
                rest.push(
                    DownloadBlobView {
                        incomplete_file: p.0,
                        complete_file: p.1,
                        expected_bytes: blob.size_bytes,
                    },
                )
            } else {
                rest
            },
            None => rest,
        }
    }
}

fn names_file(o: &Option<String>, file: &str) -> (r: bool)
    ensures
        r == (opt(*o) == Some(file@)),
{
    match o {
        Some(f) => text::same(f.as_str(), file),
        None => false,
    }
}

impl LlamaCppBackend {
    /// The files that a launch fetches, so that a session can show its progress;
    /// none where everything is on disk or nothing has a place in the cache.
    pub fn launch_download(&self, ctx: &LaunchContext, hub: &str) -> (r: Vec<DownloadBlob>)
        ensures
            download_views(r@) == match llama_cpp::fetched_from(
                ctx@.model,
                llama_cpp::mtp_on(ctx@.options),
            ) {
                Some(remote) => launch_files(hub@, remote, remote.blobs.len()),
                None => Seq::<DownloadBlobView>::empty(),
            },
    {
        let mut out: Vec<DownloadBlob> = Vec::new();
        assert(download_views(out@) =~= Seq::<DownloadBlobView>::empty());
        let mtp = llama_cpp::has_value(ctx.options, "spec-type", "draft-mtp");
        if !llama_cpp::has_to_fetch(ctx.model, mtp) {
            return out;
        }
        let remote = match &ctx.model.remote {
            Some(r) => r,
            None => return out,
        };
        let mut i: usize = 0;
        while i < remote.blobs.len()
            invariant
                i <= remote.blobs.len(),
                download_views(out@) == launch_files(hub@, remote@, i as nat),
            decreases remote.blobs.len() - i,
        {
            let blob = &remote.blobs[i];
            assert(remote@.blobs[i as int] == blob@);
            let places = cache::cache_blob_paths_in(
                hub,
                remote.repo.as_str(),
                blob.oid.as_str(),
            );
            if let Some((incomplete_file, complete_file)) = places {
                if !names_file(&remote.mtp_file, blob.file.as_str()) && !names_file(
                    &remote.projector_file,
                    blob.file.as_str(),
                ) {
                    let ghost before = download_views(out@);
                    let file = DownloadBlob {
                        incomplete_file,
                        complete_file,
                        expected_bytes: blob.size_bytes,
                    };
                    let ghost view = file@;
                    out.push(file);
                    assert(download_views(out@) =~= before.push(view));
                }
            }
            i += 1;
        }
        out
    }
}

/// The extension of a file that never comes to be.
pub const NEVER_COMPLETE: &'static str = "llmctl-never-complete";

/// The first `n` files that a launch leaves to FastFlowLM to fetch. It writes them
/// in place, so that none of them counts as complete on the grounds of being there.
pub open spec fn pulled_files(files: Seq<(String, u64)>, n: nat) -> Seq<DownloadBlobView>
    decreases n,
{
    if n == 0 {
        Seq::<DownloadBlobView>::empty()
    } else {
        pulled_files(files, (n - 1) as nat).push(
            DownloadBlobView {
                incomplete_file: files[n - 1].0@,
                complete_file: path::re_extended(files[n - 1].0@, NEVER_COMPLETE@),
                expected_bytes: files[n - 1].1,
            },
        )
    }
}

impl FlmBackend {
    /// The files that a launch leaves to FastFlowLM to fetch, out of those that the
    /// model has; none where it is installed.
    pub fn launch_download(&self, ctx: &LaunchContext, files: &Vec<(String, u64)>) -> (r: Vec<DownloadBlob>)
        ensures
            download_views(r@) == match ctx@.model.flm {
                Some(f) => if f.installed {
                    Seq::<DownloadBlobView>::empty()
                } else {
                    pulled_files(files@, files@.len())
                },
                None => Seq::<DownloadBlobView>::empty(),
            },
    {
        let mut out: Vec<DownloadBlob> = Vec::new();
        assert(download_views(out@) =~= Seq::<DownloadBlobView>::empty());
        match &ctx.model.flm {
            Some(f) => if f.installed {
                return out;
            },
            None => return out,
        }
        let mut i: usize = 0;
        while i < files.len()
            invariant
                i <= files.len(),
                download_views(out@) == pulled_files(files@, i as nat),
            decreases files.len() - i,
        {
            let ghost before = download_views(out@);
            let file = DownloadBlob {
                incomplete_file: text::copy(files[i].0.as_str()),
                complete_file: path::with_extension(files[i].0.as_str(), NEVER_COMPLETE),
                expected_bytes: files[i].1,
            };
            let ghost view = file@;
            out.push(file);
            assert(download_views(out@) =~= before.push(view));
            i += 1;
        }
        out
    }
}

/// What names a model among the arguments of its server is one of them, so that the
/// process can be found again by it.
pub proof fn law_the_token_is_in_the_command(b: Backend, ctx: ContextView)
    ensures
        b.launch_argv(ctx).contains(b.token_spec(ctx)),
{
    let argv = b.launch_argv(ctx);
    let at: int = match b {
        Backend::LlamaCpp(_) => if llama_cpp::fetched_from(
            ctx.model,
            llama_cpp::mtp_on(ctx.options),
        ) is Some {
            4
        } else {
            2
        },
        Backend::Flm(_) => 2,
    };
    assert(argv[at] == b.token_spec(ctx));
}

/// Each runtime is known by its name: its built-in profiles, and where it serves what
/// says that it is ready.
pub proof fn law_runtimes_are_known_by_name(llama: LlamaCppBackend, flm: FlmBackend)
    ensures
        templates_of("llama.cpp"@) == Backend::LlamaCpp(llama).template_table(),
        templates_of("FastFlowLM"@) == Backend::Flm(flm).template_table(),
        Backend::LlamaCpp(llama).health_spec() == "/health"@,
        Backend::Flm(flm).health_spec() == "/v1/models"@,
        Backend::Flm(flm).single_spec(),
        !Backend::LlamaCpp(llama).single_spec(),
        Backend::LlamaCpp(llama).browse_spec(),
        !Backend::Flm(flm).browse_spec(),
{
    reveal_strlit("llama.cpp");
    reveal_strlit("FastFlowLM");
    assert("llama.cpp"@.len() == 9);
    assert("FastFlowLM"@.len() == 10);
}

/// Whether a launch shows the progress of a file.
pub open spec fn shows_file(files: Seq<DownloadBlobView>, complete: Seq<char>, incomplete: Seq<char>, size: u64) -> bool {
    exists|i: int|
        0 <= i < files.len() && (#[trigger] files[i]).complete_file == complete
            && files[i].incomplete_file == incomplete && files[i].expected_bytes == size
}

/// A launch from the Hub shows the progress of each file of the model itself, by its
/// place in the cache and its size, and of no companion.
pub proof fn law_launches_show_the_files_of_the_model(hub: Seq<char>, r: RemoteView, n: nat, i: int)
    requires
        n <= r.blobs.len(),
        0 <= i < n,
        cache::blob_places(hub, r.repo, r.blobs[i].oid) is Some,
        r.mtp_file != Some(r.blobs[i].file),
        r.projector_file != Some(r.blobs[i].file),
    ensures
        ({
            let places = cache::blob_places(hub, r.repo, r.blobs[i].oid)->0;
            shows_file(launch_files(hub, r, n), places.1, places.0, r.blobs[i].size_bytes)
        }),
        launch_files(hub, r, n).len() <= n,
    decreases n,
{
    lemma_launch_files(hub, r, n);
    let m = (n - 1) as nat;
    let before = launch_files(hub, r, m);
    let now = launch_files(hub, r, n);
    let places = cache::blob_places(hub, r.repo, r.blobs[i].oid)->0;
    if i == m {
        assert(now.last().complete_file == places.1);
    } else {
        law_launches_show_the_files_of_the_model(hub, r, m, i);
        let k = choose|k: int|
            0 <= k < before.len() && (#[trigger] before[k]).complete_file == places.1
                && before[k].incomplete_file == places.0 && before[k].expected_bytes
                == r.blobs[i].size_bytes;
        assert(now[k] == before[k]);
    }
}

proof fn lemma_launch_files(hub: Seq<char>, r: RemoteView, n: nat)
    requires
        n <= r.blobs.len(),
    ensures
        launch_files(hub, r, n).len() <= n,
        (forall|i: int|
            0 <= i < n ==> r.mtp_file == Some((#[trigger] r.blobs[i]).file) || r.projector_file
                == Some(r.blobs[i].file)) ==> launch_files(hub, r, n).len() == 0,
    decreases n,
{
    if n > 0 {
        lemma_launch_files(hub, r, (n - 1) as nat);
    }
}

/// A launch that leaves the files to FastFlowLM shows each of them, where it is written
/// and how large it becomes.
pub proof fn law_launches_show_the_files_to_pull(files: Seq<(String, u64)>, n: nat, i: int)
    requires
        n <= files.len(),
        0 <= i < n,
    ensures
        pulled_files(files, n).len() == n,
        pulled_files(files, n)[i].incomplete_file == files[i].0@,
        pulled_files(files, n)[i].expected_bytes == files[i].1,
    decreases n,
{
    lemma_pulled_files(files, n);
    if i < n - 1 {
        law_launches_show_the_files_to_pull(files, (n - 1) as nat, i);
    }
}

proof fn lemma_pulled_files(files: Seq<(String, u64)>, n: nat)
    ensures
        pulled_files(files, n).len() == n,
    decreases n,
{
    if n > 0 {
        lemma_pulled_files(files, (n - 1) as nat);
    }
}

} // verus!
