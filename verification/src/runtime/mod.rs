//! Inference runtimes behind one interface.
//!
//! What differs between runtimes is behind [`RuntimeBackend`]: which options there
//! are and how they are spelled, what they default to for a model, how a launch is
//! built, and how readiness is asked for. Profiles and the browser know nothing
//! else of a runtime.

pub mod arguments;
pub mod backend;
pub mod command;
pub mod deletion;
pub mod flm;
pub mod flm_options;
pub mod llama_cpp;
pub mod llama_options;
pub mod storage;

use vstd::prelude::*;
use crate::config::Defaults;
use crate::discovery::catalog::ModelSource;
use crate::domain::options::{lits, spec_views, KindView, OptionKind, OptionSpec, SpecView};
use crate::domain::{
    option_views, Model, ModelView, OptionItem, OptionItemView, Runtime, RuntimeView,
};
use crate::profiles::registry::{Dialect, OptionSchema};
use crate::profiles::templates::{template_views, Template, TemplateView};
use crate::runtime::command::Command;
use crate::table::TextMap;
use crate::text;
use crate::text::{opt, strs};

verus! {

/// The identity of a runtime in catalogs and kept profiles.
#[derive(Debug)]
pub struct RuntimeId(pub String);

impl View for RuntimeId {
    type V = Seq<char>;

    open spec fn view(&self) -> Seq<char> {
        self.0@
    }
}

impl Clone for RuntimeId {
    fn clone(&self) -> (r: Self)
        ensures
            r@ == self@,
    {
        RuntimeId(self.0.clone())
    }
}

/// What the models of a runtime are listed from.
#[derive(Debug)]
pub struct CatalogCtx {
    /// The places to scan.
    pub sources: Vec<ModelSource>,
    /// The file that holds the last scan.
    pub cache_path: String,
    /// The root of the managed catalog.
    pub models_dir: String,
    /// Which of the runtime's arrangements to build.
    pub view: usize,
    /// Whether to read the source again where an earlier reading is at hand.
    pub reload: bool,
}

/// A transfer whose layout belongs to a runtime: the model, and the paths that
/// are written.
#[derive(Debug)]
pub struct ModelTransfer {
    pub runtime: RuntimeId,
    pub model: Model,
    pub targets: Vec<String>,
}

pub struct TransferView {
    pub runtime: Seq<char>,
    pub model: ModelView,
    pub targets: Seq<Seq<char>>,
}

impl View for ModelTransfer {
    type V = TransferView;

    open spec fn view(&self) -> TransferView {
        TransferView {
            runtime: self.runtime@,
            model: self.model@,
            targets: strs(self.targets@),
        }
    }
}

impl Clone for ModelTransfer {
    fn clone(&self) -> (r: Self)
        ensures
            r@ == self@,
    {
        ModelTransfer {
            runtime: self.runtime.clone(),
            model: self.model.clone(),
            targets: text::copy_all(&self.targets),
        }
    }
}

/// What a launch is built from: the binary, a model, and its resolved options.
pub struct LaunchContext<'a> {
    pub binary: &'a str,
    pub model: &'a Model,
    pub options: &'a Vec<OptionItem>,
}

pub struct ContextView {
    pub binary: Seq<char>,
    pub model: ModelView,
    pub options: Seq<OptionItemView>,
}

impl<'a> View for LaunchContext<'a> {
    type V = ContextView;

    open spec fn view(&self) -> ContextView {
        ContextView {
            binary: self.binary@,
            model: self.model@,
            options: option_views(self.options@),
        }
    }
}

impl<'a> LaunchContext<'a> {
    /// A launch of a model; a directory cannot be launched.
    pub fn new(binary: &'a str, model: &'a Model, options: &'a Vec<OptionItem>) -> (r: Option<LaunchContext<'a>>)
        ensures
            match r {
                Some(c) => model@.is_model() && c@ == (ContextView {
                    binary: binary@,
                    model: model@,
                    options: option_views(options@),
                }),
                None => !model@.is_model(),
            },
    {
        if model.is_model() {
            Some(LaunchContext { binary, model, options })
        } else {
            None
        }
    }
}

/// The view of optional arguments.
pub open spec fn opt_args(o: Option<Vec<String>>) -> Option<Seq<Seq<char>>> {
    match o {
        Some(v) => Some(strs(v@)),
        None => None,
    }
}

/// One inference runtime: what was found of it, its dialect and its behaviour.
pub trait RuntimeBackend {
    /// What was found of the runtime.
    spec fn descriptor_view(&self) -> RuntimeView;

    /// How options are spelled.
    spec fn dialect(&self) -> Dialect;

    /// The built-in profiles.
    spec fn template_table(&self) -> Seq<TemplateView>;

    /// What values an option takes for a model.
    spec fn kind_for(&self, spec: SpecView, model: ModelView) -> KindView;

    /// What an option starts at for a model, before any profile.
    spec fn default_for(&self, spec: SpecView, model: ModelView, host: Seq<char>, port: u16) -> Seq<char>;

    /// A stored value in today's vocabulary.
    spec fn normalized(&self, key: Seq<char>, value: Seq<char>) -> Seq<char>;

    /// The value of an option that is stored under a name of the past.
    spec fn recovered(&self, key: Seq<char>, stored: Map<Seq<char>, Seq<char>>) -> Option<Seq<char>>;

    /// A value within what a model supports.
    spec fn clamped(&self, key: Seq<char>, value: Seq<char>, model: ModelView) -> Seq<char>;

    /// The arguments that launch a server.
    spec fn launch_argv(&self, ctx: ContextView) -> Seq<Seq<char>>;

    /// The arguments that start an interactive chat, if there is one.
    spec fn chat_spec(&self, ctx: ContextView) -> Option<Seq<Seq<char>>>;

    /// The arguments that start a benchmark, if there is one.
    spec fn bench_spec(&self, ctx: ContextView) -> Option<Seq<Seq<char>>>;

    /// Where a server says that it is ready.
    spec fn health_spec(&self) -> Seq<char>;

    /// What names the model among the arguments of its process.
    spec fn token_spec(&self, ctx: ContextView) -> Seq<char>;

    /// Why a launch cannot go ahead.
    spec fn blocker_spec(&self, ctx: ContextView) -> Option<Seq<char>>;

    /// Why the runtime cannot launch anything.
    spec fn unavailable_spec(&self) -> Option<Seq<char>>;

    /// Whether only one model can be loaded at a time.
    spec fn single_spec(&self) -> bool;

    /// The arrangements of the catalog.
    spec fn views_spec(&self) -> Seq<Seq<char>>;

    /// Whether the runtime offers the live tree of the Hub.
    spec fn browse_spec(&self) -> bool;

    fn id(&self) -> (r: RuntimeId)
        ensures
            r@ == self.descriptor_view().name,
    ;

    fn descriptor(&self) -> (r: &Runtime)
        ensures
            r@ == self.descriptor_view(),
    ;

    fn schema(&self) -> (r: OptionSchema)
        ensures
            r.dialect == self.dialect(),
            spec_views(r.specs@) == self.dialect().table(),
    ;

    fn templates(&self) -> (r: Vec<Template>)
        ensures
            template_views(r@) == self.template_table(),
    ;

    fn effective_kind(&self, spec: &OptionSpec, model: &Model) -> (r: OptionKind)
        ensures
            r@ == self.kind_for(spec@, model@),
    ;

    fn spec_default(&self, spec: &OptionSpec, model: &Model, defaults: &Defaults) -> (r: String)
        ensures
            r@ == self.default_for(spec@, model@, defaults.host@, defaults.port),
    ;

    fn normalize_legacy(&self, key: &str, value: String) -> (r: String)
        ensures
            r@ == self.normalized(key@, value@),
    ;

    fn legacy_value(&self, key: &str, stored: &TextMap) -> (r: Option<String>)
        requires
            stored.wf(),
        ensures
            opt(r) == self.recovered(key@, stored@),
    ;

    fn clamp_to_model(&self, key: &str, value: String, model: &Model) -> (r: String)
        ensures
            r@ == self.clamped(key@, value@, model@),
    ;

    fn build_command(&self, ctx: &LaunchContext) -> (r: Command)
        ensures
            r@ == self.launch_argv(ctx@),
    ;

    fn chat_argv(&self, ctx: &LaunchContext) -> (r: Option<Vec<String>>)
        ensures
            opt_args(r) == self.chat_spec(ctx@),
    ;

    fn bench_argv(&self, ctx: &LaunchContext) -> (r: Option<Vec<String>>)
        ensures
            opt_args(r) == self.bench_spec(ctx@),
    ;

    fn health_path(&self) -> (r: &'static str)
        ensures
            r@ == self.health_spec(),
    ;

    fn process_token(&self, ctx: &LaunchContext) -> (r: String)
        ensures
            r@ == self.token_spec(ctx@),
    ;

    fn launch_blocker(&self, ctx: &LaunchContext) -> (r: Option<String>)
        ensures
            opt(r) == self.blocker_spec(ctx@),
    ;

    fn unavailable_reason(&self) -> (r: Option<String>)
        ensures
            opt(r) == self.unavailable_spec(),
    ;

    fn single_session(&self) -> (r: bool)
        ensures
            r == self.single_spec(),
    ;

    fn catalog_views(&self) -> (r: Vec<&'static str>)
        ensures
            lits(r@) == self.views_spec(),
    ;

    fn supports_online_browse(&self) -> (r: bool)
        ensures
            r == self.browse_spec(),
    ;
}

} // verus!
