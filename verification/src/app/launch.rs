//! Starting something with the selected model: a server, a chat or a measurement.

use vstd::prelude::*;
use crate::app::browser::{BrowserState, BrowserView};
use crate::app::editor::{Message, MessageView};
use crate::app::panes::Pane;
use crate::chars;
use crate::domain::options::{FloatReading, SpecView};
use crate::domain::{option_value, option_views, value_of, OptionItem, OptionItemView};
use crate::number;
use crate::profiles;
use crate::profiles::first_fault;
use crate::profiles::registry::{spec_at, Dialect};
use crate::runtime::arguments::{
    given, law_the_endpoint_is_always_given, law_the_program_comes_first,
};
use crate::runtime::backend::{
    download_views, launch_files, law_the_token_is_in_the_command, pulled_files, Backend,
    DownloadBlob, DownloadBlobView,
};
use crate::runtime::command::{grouped, quoted_all, Command};
use crate::runtime::{llama_cpp, ContextView, LaunchContext, RuntimeBackend};
use crate::text;
use crate::text::{opt, strs};

verus! {

// --- a server ----------------------------------------------------------------

/// Everything that a server is started with.
#[derive(Debug)]
pub struct LaunchRequest {
    pub runtime: String,
    pub model: String,
    /// What names the model among the arguments of the process.
    pub model_path: String,
    pub command: Command,
    /// Where the server says that it is ready.
    pub health_path: String,
    /// The files that the launch fetches.
    pub download: Vec<DownloadBlob>,
    pub profile: String,
    pub host: String,
    pub port: u16,
}

pub struct RequestView {
    pub runtime: Seq<char>,
    pub model: Seq<char>,
    pub model_path: Seq<char>,
    pub command: Seq<Seq<char>>,
    pub health_path: Seq<char>,
    pub download: Seq<DownloadBlobView>,
    pub profile: Seq<char>,
    pub host: Seq<char>,
    pub port: u16,
}

impl View for LaunchRequest {
    type V = RequestView;

    open spec fn view(&self) -> RequestView {
        RequestView {
            runtime: self.runtime@,
            model: self.model@,
            model_path: self.model_path@,
            command: self.command@,
            health_path: self.health_path@,
            download: download_views(self.download@),
            profile: self.profile@,
            host: self.host@,
            port: self.port,
        }
    }
}

/// The port that a text names.
pub open spec fn port_of(s: Seq<char>) -> Option<u16> {
    match number::parse_nat(s, u16::MAX as nat) {
        Some(n) => Some(n as u16),
        None => None,
    }
}

/// The port of a launch: what the options say, else what the runtime's option
/// starts at, else a fixed one.
pub open spec fn launch_port(b: Backend, options: Seq<OptionItemView>) -> u16 {
    let chosen = match value_of(options, "port"@) {
        Some(v) => port_of(v),
        None => None,
    };
    let usual = match spec_at(b.dialect().table(), "port"@) {
        Some(s) => port_of(s.default),
        None => None,
    };
    match (chosen, usual) {
        (Some(p), _) => p,
        (None, Some(p)) => p,
        (None, None) => 8000,
    }
}

/// The host of a launch.
pub open spec fn launch_host(options: Seq<OptionItemView>) -> Seq<char> {
    match value_of(options, "host"@) {
        Some(v) => v,
        None => "127.0.0.1"@,
    }
}

/// What a launch may have to fetch: where the cache of the Hub is, and the files of
/// the selected FastFlowLM model with their sizes, as far as they are known.
#[derive(Debug)]
pub struct Fetches {
    pub hub: Option<String>,
    pub files: Vec<(String, u64)>,
}

/// The files that a launch fetches.
pub open spec fn fetched_files(b: Backend, ctx: ContextView, fetches: Fetches) -> Seq<DownloadBlobView> {
    match b {
        Backend::LlamaCpp(_) => match (
            llama_cpp::fetched_from(ctx.model, llama_cpp::mtp_on(ctx.options)),
            fetches.hub,
        ) {
            (Some(remote), Some(hub)) => launch_files(hub@, remote, remote.blobs.len()),
            _ => Seq::<DownloadBlobView>::empty(),
        },
        Backend::Flm(_) => match ctx.model.flm {
            Some(f) => if f.installed {
                Seq::<DownloadBlobView>::empty()
            } else {
                pulled_files(fetches.files@, fetches.files@.len())
            },
            None => Seq::<DownloadBlobView>::empty(),
        },
    }
}

/// Why the selected model cannot run with the options that are shown: the first
/// value that is not allowed. `readings` says of each value how it compares as a
/// floating-point number.
pub open spec fn options_fault(b: BrowserView, readings: Seq<FloatReading>) -> Option<Seq<char>> {
    first_fault(&b.runtimes.chosen()->0, b.model()->0, b.options.items, readings, 0)
}

/// What the selection launches, or the first reason why it has no command. Whether the
/// values of its options are allowed is for those to ask who start it.
pub open spec fn launch_of(b: BrowserView, fetches: Fetches) -> Result<RequestView, Seq<char>> {
    match b.runtimes.chosen() {
        None => Err("no runtime selected"@),
        Some(backend) => if backend.unavailable_spec() is Some {
            Err(backend.unavailable_spec()->0)
        } else if b.model() is None {
            Err("no model selected"@)
        } else if b.profiles.chosen() is None {
            Err("no profile selected"@)
        } else if backend.descriptor_view().binary_path is None {
            Err("runtime binary not found on PATH"@)
        } else {
            let ctx = ContextView {
                binary: backend.descriptor_view().binary_path->0,
                model: b.model()->0,
                options: b.options.items,
            };
            if backend.blocker_spec(ctx) is Some {
                Err(backend.blocker_spec(ctx)->0)
            } else {
                Ok(
                    RequestView {
                        runtime: backend.descriptor_view().name,
                        model: b.model()->0.name,
                        model_path: backend.token_spec(ctx),
                        command: backend.launch_argv(ctx),
                        health_path: backend.health_spec(),
                        download: fetched_files(backend, ctx, fetches),
                        profile: b.profiles.chosen()->0.name,
                        host: launch_host(b.options.items),
                        port: launch_port(backend, b.options.items),
                    },
                )
            }
        },
    }
}

fn read_port(s: &str) -> (r: Option<u16>)
    ensures
        r == port_of(s@),
{
    match number::read_nat(s, 65535) {
        Some(n) => Some(n as u16),
        None => None,
    }
}

fn choose_port(backend: &Backend, options: &Vec<OptionItem>) -> (r: u16)
    ensures
        r == launch_port(*backend, option_views(options@)),
{
    if let Some(v) = option_value(options, "port") {
        if let Some(p) = read_port(v.as_str()) {
            return p;
        }
    }
    let schema = backend.schema();
    if let Some(spec) = schema.spec("port") {
        if let Some(p) = read_port(spec.default) {
            return p;
        }
    }
    8000
}

fn files_to_fetch(backend: &Backend, ctx: &LaunchContext, fetches: &Fetches) -> (r: Vec<DownloadBlob>)
    ensures
        download_views(r@) == fetched_files(*backend, ctx@, *fetches),
{
    match backend {
        Backend::LlamaCpp(b) => match &fetches.hub {
            Some(hub) => b.launch_download(ctx, hub.as_str()),
            None => {
                let none: Vec<DownloadBlob> = Vec::new();
                assert(download_views(none@) =~= Seq::<DownloadBlobView>::empty());
                none
            },
        },
        Backend::Flm(b) => b.launch_download(ctx, &fetches.files),
    }
}

// --- one model at a time -----------------------------------------------------

/// A session that is live on a runtime.
#[derive(Debug)]
pub struct LiveSession {
    pub name: String,
    pub status: String,
}

/// The first runtime of a name, from `from` on.
pub open spec fn runtime_named(runtimes: Seq<Backend>, name: Seq<char>, from: int) -> Option<Backend>
    decreases runtimes.len() - from,
{
    if from < 0 || from >= runtimes.len() {
        None
    } else if runtimes[from].descriptor_view().name == name {
        Some(runtimes[from])
    } else {
        runtime_named(runtimes, name, from + 1)
    }
}

/// Why a runtime cannot take another model: it holds one at a time, and one is
/// live.
pub open spec fn conflict(runtimes: Seq<Backend>, runtime: Seq<char>, live: Option<LiveSession>) -> Option<Seq<Seq<char>>> {
    match (runtime_named(runtimes, runtime, 0), live) {
        (Some(b), Some(s)) => if b.single_spec() {
            Some(
                seq![
                    runtime + " can only run one model at a time."@,
                    s.name@ + " is "@ + s.status@ + "."@,
                    "Stop it in the Session Manager (x), then start this one."@,
                ],
            )
        } else {
            None
        },
        _ => None,
    }
}

/// The view of optional lines.
pub open spec fn opt_lines(o: Option<Vec<String>>) -> Option<Seq<Seq<char>>> {
    match o {
        Some(v) => Some(strs(v@)),
        None => None,
    }
}

fn find_runtime<'a>(runtimes: &'a Vec<Backend>, name: &str) -> (r: Option<&'a Backend>)
    ensures
        match r {
            Some(b) => runtime_named(runtimes@, name@, 0) == Some(*b),
            None => runtime_named(runtimes@, name@, 0) is None,
        },
{
    let mut i: usize = 0;
    while i < runtimes.len()
        invariant
            i <= runtimes.len(),
            runtime_named(runtimes@, name@, 0) == runtime_named(runtimes@, name@, i as int),
        decreases runtimes.len() - i,
    {
        let d = runtimes[i].descriptor();
        assert(d.name@ == d@.name);
        if text::same(d.name.as_str(), name) {
            return Some(&runtimes[i]);
        }
        i += 1;
    }
    None
}

/// Why a second model cannot be started on a runtime, where one is live.
pub fn single_session_conflict(runtimes: &Vec<Backend>, runtime: &str, live: &Option<LiveSession>) -> (r: Option<Vec<String>>)
    ensures
        opt_lines(r) == conflict(runtimes@, runtime@, *live),
{
    let backend = match find_runtime(runtimes, runtime) {
        Some(b) => b,
        None => return None,
    };
    if !backend.single_session() {
        return None;
    }
    match live {
        None => None,
        Some(s) => {
            let mut lines: Vec<String> = Vec::new();
            lines.push(text::cat(runtime, " can only run one model at a time."));
            let mut line = text::cat3(s.name.as_str(), " is ", s.status.as_str());
            line.append(".");
            lines.push(line);
            lines.push(text::copy("Stop it in the Session Manager (x), then start this one."));
            assert(strs(lines@) =~= conflict(runtimes@, runtime@, *live)->0);
            Some(lines)
        },
    }
}

// --- what is started ---------------------------------------------------------

/// What asking for a start leads to.
#[derive(Debug)]
pub enum Start<T> {
    Nothing,
    Refused(Message),
    Run(T),
}

/// Whether the focus is on a profile or its options, from which things start.
pub open spec fn on_profile(focus: Pane) -> bool {
    focus == Pane::Profile || focus == Pane::Options
}

/// A title and lines.
pub open spec fn message(title: Seq<char>, lines: Seq<Seq<char>>) -> MessageView {
    MessageView { title, lines }
}

/// What the selection starts as a chat, where nothing stands against it.
pub open spec fn chat_context(b: BrowserView) -> Option<ContextView> {
    match (b.runtimes.chosen(), b.model()) {
        (Some(backend), Some(m)) => match backend.descriptor_view().binary_path {
            Some(binary) => Some(ContextView { binary, model: m, options: b.options.items }),
            None => None,
        },
        _ => None,
    }
}

/// Whether an outcome is that of asking for a chat.
pub open spec fn chats(b: BrowserView, readings: Seq<FloatReading>, live: Option<LiveSession>, r: Start<Vec<String>>) -> bool {
    if !on_profile(b.focus) || b.runtimes.chosen() is None {
        r is Nothing
    } else {
        let backend = b.runtimes.chosen()->0;
        let name = backend.descriptor_view().name;
        let title = "Cannot start chat"@;
        if backend.unavailable_spec() is Some {
            r is Refused && r->Refused_0@ == message(title, seq![backend.unavailable_spec()->0])
        } else if conflict(b.runtimes.items, name, live) is Some {
            r is Refused && r->Refused_0@ == message(
                title,
                conflict(b.runtimes.items, name, live)->0,
            )
        } else {
            match chat_context(b) {
                None => r is Nothing,
                Some(ctx) => if options_fault(b, readings) is Some {
                    r is Refused && r->Refused_0@ == message(
                        title,
                        seq![options_fault(b, readings)->0],
                    )
                } else {
                    match backend.chat_spec(ctx) {
                        Some(argv) => r is Run && strs(r->Run_0@) == argv,
                        None => r is Refused && r->Refused_0@ == message(
                            "Chat unavailable"@,
                            seq![name + " has no interactive client on this system."@],
                        ),
                    }
                },
            }
        }
    }
}

/// Whether an outcome is that of asking for a measurement. Only a stored model is
/// measured, by a runtime that has a tool for it.
pub open spec fn measures(b: BrowserView, readings: Seq<FloatReading>, live: Option<LiveSession>, r: Start<Vec<String>>) -> bool {
    if b.runtimes.chosen() is None || b.model() is None {
        r is Nothing
    } else {
        let backend = b.runtimes.chosen()->0;
        let name = backend.descriptor_view().name;
        if conflict(b.runtimes.items, name, live) is Some {
            r is Refused && r->Refused_0@ == message(
                "Cannot start benchmark"@,
                conflict(b.runtimes.items, name, live)->0,
            )
        } else {
            match chat_context(b) {
                None => r is Nothing,
                Some(ctx) => if b.model()->0.path.len() == 0
                    || backend.descriptor_view().bench_path is None {
                    r is Nothing
                } else if options_fault(b, readings) is Some {
                    r is Refused && r->Refused_0@ == message(
                        "Cannot start benchmark"@,
                        seq![options_fault(b, readings)->0],
                    )
                } else {
                    match backend.bench_spec(ctx) {
                        Some(argv) => r is Run && strs(r->Run_0@) == argv,
                        None => r is Nothing,
                    }
                },
            }
        }
    }
}

/// Whether an outcome is that of asking for a server.
pub open spec fn serves(b: BrowserView, fetches: Fetches, readings: Seq<FloatReading>, live: Option<LiveSession>, r: Start<LaunchRequest>) -> bool {
    let title = "Cannot launch"@;
    if !on_profile(b.focus) {
        r is Nothing
    } else {
        match launch_of(b, fetches) {
            Err(e) => r is Refused && r->Refused_0@ == message(title, seq![e]),
            Ok(req) => if options_fault(b, readings) is Some {
                r is Refused && r->Refused_0@ == message(
                    title,
                    seq![options_fault(b, readings)->0],
                )
            } else {
                match conflict(b.runtimes.items, req.runtime, live) {
                    Some(lines) => r is Refused && r->Refused_0@ == message(title, lines),
                    None => r is Run && r->Run_0@ == req,
                }
            },
        }
    }
}

impl BrowserState {
    /// What the selection launches, or the first reason why it has no command.
    pub fn build_launch_request(&self, fetches: &Fetches) -> (r: Result<LaunchRequest, String>)
        ensures
            match (launch_of(self@, *fetches), r) {
                (Ok(v), Ok(req)) => req@ == v,
                (Err(e), Err(s)) => s@ == e,
                _ => false,
            },
    {
        assert(self@.profiles.items.len() == self.profiles.items@.len());
        let backend = match self.runtimes.selected() {
            Some(b) => b,
            None => return Err(text::copy("no runtime selected")),
        };
        assert(self@.runtimes.chosen() == Some(*backend));
        if let Some(reason) = backend.unavailable_reason() {
            return Err(reason);
        }
        let model = match self.selected_model() {
            Some(m) => m,
            None => return Err(text::copy("no model selected")),
        };
        let profile = match self.profiles.selected() {
            Some(p) => p,
            None => return Err(text::copy("no profile selected")),
        };
        assert(self@.profiles.chosen() == Some(profile@));
        let d = backend.descriptor();
        assert(opt(d.binary_path) == d@.binary_path && d.name@ == d@.name);
        let binary = match &d.binary_path {
            Some(p) => p,
            None => return Err(text::copy("runtime binary not found on PATH")),
        };
        let options = &self.options.items;
        let ctx = LaunchContext { binary: binary.as_str(), model, options };
        if let Some(blocker) = backend.launch_blocker(&ctx) {
            return Err(blocker);
        }
        let host = match option_value(options, "host") {
            Some(v) => v,
            None => text::copy("127.0.0.1"),
        };
        Ok(
            LaunchRequest {
                runtime: d.name.clone(),
                model: model.name.clone(),
                model_path: backend.process_token(&ctx),
                command: backend.build_command(&ctx),
                health_path: text::copy(backend.health_path()),
                download: files_to_fetch(backend, &ctx, fetches),
                profile: profile.name.clone(),
                host,
                port: choose_port(backend, options),
            },
        )
    }

    /// What asking for a server leads to; `live` is the session that holds the
    /// runtime, if there is one.
    pub fn start_session(&self, fetches: &Fetches, readings: &Vec<FloatReading>, live: &Option<LiveSession>) -> (r: Start<LaunchRequest>)
        ensures
            serves(self@, *fetches, readings@, *live, r),
    {
        if self.focus != Pane::Profile && self.focus != Pane::Options {
            return Start::Nothing;
        }
        let req = match self.build_launch_request(fetches) {
            Ok(req) => req,
            Err(e) => return Start::Refused(Message::line("Cannot launch", e.as_str())),
        };
        if let (Some(backend), Some(model)) = (self.runtimes.selected(), self.selected_model()) {
            assert(self@.runtimes.chosen() == Some(*backend));
            if let Err(fault) = profiles::validate_options(
                backend,
                model,
                &self.options.items,
                readings,
            ) {
                return Start::Refused(Message::line("Cannot launch", fault.as_str()));
            }
        }
        match single_session_conflict(&self.runtimes.items, req.runtime.as_str(), live) {
            Some(lines) => Start::Refused(Message { title: text::copy("Cannot launch"), lines }),
            None => Start::Run(req),
        }
    }

    /// What asking for a chat leads to.
    pub fn start_chat(&self, readings: &Vec<FloatReading>, live: &Option<LiveSession>) -> (r: Start<Vec<String>>)
        ensures
            chats(self@, readings@, *live, r),
    {
        if self.focus != Pane::Profile && self.focus != Pane::Options {
            return Start::Nothing;
        }
        let backend = match self.runtimes.selected() {
            Some(b) => b,
            None => return Start::Nothing,
        };
        assert(self@.runtimes.chosen() == Some(*backend));
        if let Some(reason) = backend.unavailable_reason() {
            return Start::Refused(Message::line("Cannot start chat", reason.as_str()));
        }
        let d = backend.descriptor();
        assert(opt(d.binary_path) == d@.binary_path && d.name@ == d@.name);
        if let Some(lines) = single_session_conflict(
            &self.runtimes.items,
            d.name.as_str(),
            live,
        ) {
            return Start::Refused(Message { title: text::copy("Cannot start chat"), lines });
        }
        let model = match self.selected_model() {
            Some(m) => m,
            None => return Start::Nothing,
        };
        let binary = match &d.binary_path {
            Some(p) => p,
            None => return Start::Nothing,
        };
        let ctx = LaunchContext { binary: binary.as_str(), model, options: &self.options.items };
        assert(chat_context(self@) == Some(ctx@));
        if let Err(fault) = profiles::validate_options(
            backend,
            model,
            &self.options.items,
            readings,
        ) {
            return Start::Refused(Message::line("Cannot start chat", fault.as_str()));
        }
        match backend.chat_argv(&ctx) {
            Some(argv) => Start::Run(argv),
            None => {
                let line = text::cat(
                    d.name.as_str(),
                    " has no interactive client on this system.",
                );
                Start::Refused(Message::line("Chat unavailable", line.as_str()))
            },
        }
    }

    /// What asking for a measurement leads to.
    pub fn start_benchmark(&self, readings: &Vec<FloatReading>, live: &Option<LiveSession>) -> (r: Start<Vec<String>>)
        ensures
            measures(self@, readings@, *live, r),
    {
        let backend = match self.runtimes.selected() {
            Some(b) => b,
            None => return Start::Nothing,
        };
        assert(self@.runtimes.chosen() == Some(*backend));
        let model = match self.selected_model() {
            Some(m) => m,
            None => return Start::Nothing,
        };
        let d = backend.descriptor();
        assert(opt(d.binary_path) == d@.binary_path && d.name@ == d@.name);
        if let Some(lines) = single_session_conflict(
            &self.runtimes.items,
            d.name.as_str(),
            live,
        ) {
            return Start::Refused(Message { title: text::copy("Cannot start benchmark"), lines });
        }
        let binary = match &d.binary_path {
            Some(p) => p,
            None => return Start::Nothing,
        };
        let ctx = LaunchContext { binary: binary.as_str(), model, options: &self.options.items };
        assert(chat_context(self@) == Some(ctx@));
        assert(opt(d.bench_path) == d@.bench_path);
        if model.path.as_str().is_empty() || d.bench_path.is_none() {
            return Start::Nothing;
        }
        if let Err(fault) = profiles::validate_options(
            backend,
            model,
            &self.options.items,
            readings,
        ) {
            return Start::Refused(Message::line("Cannot start benchmark", fault.as_str()));
        }
        match backend.bench_argv(&ctx) {
            Some(argv) => Start::Run(argv),
            None => Start::Nothing,
        }
    }

    /// The command of the selection for copying. Copying starts nothing, so the values
    /// of the options are taken as they are.
    pub fn yank_command(&self, fetches: &Fetches) -> (r: Start<Command>)
        ensures
            if !on_profile(self@.focus) {
                r is Nothing
            } else {
                match launch_of(self@, *fetches) {
                    Ok(req) => r is Run && r->Run_0@ == req.command,
                    Err(e) => r is Refused && r->Refused_0@ == message(
                        "Cannot build command"@,
                        seq![e],
                    ),
                }
            },
    {
        if self.focus != Pane::Profile && self.focus != Pane::Options {
            return Start::Nothing;
        }
        match self.build_launch_request(fetches) {
            Ok(req) => Start::Run(req.command),
            Err(e) => Start::Refused(Message::line("Cannot build command", e.as_str())),
        }
    }
}

/// The lines of a message that shows a copied command.
pub open spec fn command_lines(argv: Seq<Seq<char>>) -> Seq<Seq<char>> {
    chars::lines(text::join(grouped(quoted_all(argv), argv, argv.len()), " \\\n  "@)).push(
        Seq::<char>::empty(),
    ).push("(copied to clipboard)"@)
}

/// The lines of a message that shows a copied command.
pub fn command_message_lines(cmd: &Command) -> (r: Vec<String>)
    ensures
        strs(r@) == command_lines(cmd@),
{
    let mut lines = chars::split_lines(cmd.pretty().as_str());
    let ghost shown = strs(lines@);
    let blank = String::new();
    assert(blank@ =~= Seq::<char>::empty());
    lines.push(blank);
    lines.push(text::copy("(copied to clipboard)"));
    assert(strs(lines@) =~= shown.push(Seq::<char>::empty()).push("(copied to clipboard)"@));
    lines
}

// --- laws --------------------------------------------------------------------

/// While a session is live on a runtime that holds one model at a time, neither a
/// server nor a chat nor a measurement starts there.
pub proof fn law_a_held_runtime_starts_nothing(b: BrowserView, fetches: Fetches, readings: Seq<FloatReading>, live: LiveSession, server: Start<LaunchRequest>, chat: Start<Vec<String>>, bench: Start<Vec<String>>)
    requires
        b.runtimes.chosen() is Some,
        runtime_named(b.runtimes.items, b.runtimes.chosen()->0.descriptor_view().name, 0) is Some,
        runtime_named(
            b.runtimes.items,
            b.runtimes.chosen()->0.descriptor_view().name,
            0,
        )->0.single_spec(),
        serves(b, fetches, readings, Some(live), server),
        chats(b, readings, Some(live), chat),
        measures(b, readings, Some(live), bench),
    ensures
        !(server is Run),
        !(chat is Run),
        !(bench is Run),
{
}

/// Nothing starts with a value that is not allowed.
pub proof fn law_invalid_options_start_nothing(b: BrowserView, fetches: Fetches, readings: Seq<FloatReading>, live: Option<LiveSession>, server: Start<LaunchRequest>, chat: Start<Vec<String>>, bench: Start<Vec<String>>)
    requires
        b.runtimes.chosen() is Some,
        b.model() is Some,
        options_fault(b, readings) is Some,
        serves(b, fetches, readings, live, server),
        chats(b, readings, live, chat),
        measures(b, readings, live, bench),
    ensures
        !(server is Run),
        !(chat is Run),
        !(bench is Run),
{
}

/// A runtime that can hold several models never refuses one for another's sake.
pub proof fn law_free_runtimes_never_conflict(runtimes: Seq<Backend>, runtime: Seq<char>, live: Option<LiveSession>)
    requires
        runtime_named(runtimes, runtime, 0) is Some ==> !runtime_named(
            runtimes,
            runtime,
            0,
        )->0.single_spec(),
    ensures
        conflict(runtimes, runtime, live) is None,
{
}

proof fn lemma_first_value(options: Seq<OptionItemView>, i: int)
    requires
        0 <= i < options.len(),
        forall|j: int| 0 <= j < i ==> (#[trigger] options[j]).key != options[i].key,
    ensures
        value_of(options, options[i].key) == Some(options[i].value),
    decreases i,
{
    if i > 0 {
        let rest = options.skip(1);
        assert(options[0].key != options[i].key);
        assert(rest[i - 1] == options[i]);
        assert forall|j: int| 0 <= j < i - 1 implies (#[trigger] rest[j]).key != rest[i - 1].key by {
            assert(rest[j] == options[j + 1]);
        }
        lemma_first_value(rest, i - 1);
    }
}

proof fn lemma_no_value(options: Seq<OptionItemView>, key: Seq<char>)
    requires
        forall|j: int| 0 <= j < options.len() ==> (#[trigger] options[j]).key != key,
    ensures
        value_of(options, key) is None,
    decreases options.len(),
{
    if options.len() > 0 {
        assert(options[0].key != key);
        assert forall|j: int| 0 <= j < options.skip(1).len() implies (#[trigger] options.skip(
            1,
        )[j]).key != key by {
            assert(options.skip(1)[j] == options[j + 1]);
        }
        lemma_no_value(options.skip(1), key);
    }
}

/// A request is for the port that its own command has the server listen on: the
/// number that the first port among the options reads as.
pub proof fn law_requests_are_for_the_port_of_their_command(b: BrowserView, fetches: Fetches, i: int, port: u16)
    requires
        launch_of(b, fetches) is Ok,
        0 <= i < b.options.items.len(),
        b.options.items[i].key == "port"@,
        forall|j: int| 0 <= j < i ==> (#[trigger] b.options.items[j]).key != "port"@,
        number::parse_nat(b.options.items[i].value, 65535) == Some(port as nat),
    ensures
        launch_of(b, fetches)->Ok_0.port == port,
        given(
            launch_of(b, fetches)->Ok_0.command,
            b.options.items[i].cli,
            b.options.items[i].value,
        ),
{
    lemma_first_value(b.options.items, i);
    let backend = b.runtimes.chosen()->0;
    let ctx = ContextView {
        binary: backend.descriptor_view().binary_path->0,
        model: b.model()->0,
        options: b.options.items,
    };
    law_the_endpoint_is_always_given(backend, ctx, i);
}

/// A request is for the host that its own command has the server listen on: the first
/// among the options.
pub proof fn law_requests_are_for_the_host_of_their_command(b: BrowserView, fetches: Fetches, i: int)
    requires
        launch_of(b, fetches) is Ok,
        0 <= i < b.options.items.len(),
        b.options.items[i].key == "host"@,
        forall|j: int| 0 <= j < i ==> (#[trigger] b.options.items[j]).key != "host"@,
    ensures
        launch_of(b, fetches)->Ok_0.host == b.options.items[i].value,
        given(
            launch_of(b, fetches)->Ok_0.command,
            b.options.items[i].cli,
            b.options.items[i].value,
        ),
{
    lemma_first_value(b.options.items, i);
    let backend = b.runtimes.chosen()->0;
    let ctx = ContextView {
        binary: backend.descriptor_view().binary_path->0,
        model: b.model()->0,
        options: b.options.items,
    };
    law_the_endpoint_is_always_given(backend, ctx, i);
}

/// The place of an option in a table of options with different keys.
proof fn lemma_spec_at(specs: Seq<SpecView>, i: int)
    requires
        0 <= i < specs.len(),
        forall|j: int| 0 <= j < i ==> (#[trigger] specs[j]).key != specs[i].key,
    ensures
        spec_at(specs, specs[i].key) == Some(specs[i]),
    decreases i,
{
    if i > 0 {
        let rest = specs.skip(1);
        assert(specs[0].key != specs[i].key);
        assert(rest[i - 1] == specs[i]);
        assert forall|j: int| 0 <= j < i - 1 implies (#[trigger] rest[j]).key != rest[i - 1].key by {
            assert(rest[j] == specs[j + 1]);
        }
        lemma_spec_at(rest, i - 1);
    }
}

proof fn lemma_usual_ports()
    ensures
        spec_at(Dialect::LlamaCpp.table(), "port"@) is Some,
        port_of(spec_at(Dialect::LlamaCpp.table(), "port"@)->0.default) == Some(8000u16),
        spec_at(Dialect::Flm.table(), "port"@) is Some,
        port_of(spec_at(Dialect::Flm.table(), "port"@)->0.default) == Some(52625u16),
{
    reveal_strlit("ctx-size");
    reveal_strlit("gpu-layers");
    reveal_strlit("device");
    reveal_strlit("split-mode");
    reveal_strlit("tensor-split");
    reveal_strlit("temperature");
    reveal_strlit("top-p");
    reveal_strlit("top-k");
    reveal_strlit("min-p");
    reveal_strlit("repeat-penalty");
    reveal_strlit("presence-penalty");
    reveal_strlit("threads");
    reveal_strlit("batch-size");
    reveal_strlit("parallel");
    reveal_strlit("flash-attn");
    reveal_strlit("reasoning");
    reveal_strlit("reasoning-effort");
    reveal_strlit("chat-template");
    reveal_strlit("jinja");
    reveal_strlit("mmap");
    reveal_strlit("load-mode");
    reveal_strlit("cache-type-k");
    reveal_strlit("cache-type-v");
    reveal_strlit("spec-type");
    reveal_strlit("spec-draft-n-max");
    reveal_strlit("spec-draft-n-min");
    reveal_strlit("sleep-idle-seconds");
    reveal_strlit("host");
    reveal_strlit("port");
    reveal_strlit("ctx-len");
    reveal_strlit("prefill-chunk-len");
    reveal_strlit("pmode");
    reveal_strlit("q-len");
    reveal_strlit("socket");
    reveal_strlit("cors");
    reveal_strlit("preemption");
    reveal_strlit("embed");
    reveal_strlit("asr");
    reveal_strlit("img-pre-resize");
    reveal_strlit("8000");
    reveal_strlit("52625");
    assert("port"@.len() == 4 && "port"@[0] == 'p');
    assert("host"@[0] == 'h');
    assert("mmap"@[0] == 'm');
    assert("cors"@[0] == 'c');
    assert("ctx-size"@.len() != 4);
    assert("gpu-layers"@.len() != 4);
    assert("device"@.len() != 4);
    assert("split-mode"@.len() != 4);
    assert("tensor-split"@.len() != 4);
    assert("temperature"@.len() != 4);
    assert("top-p"@.len() != 4);
    assert("top-k"@.len() != 4);
    assert("min-p"@.len() != 4);
    assert("repeat-penalty"@.len() != 4);
    assert("presence-penalty"@.len() != 4);
    assert("threads"@.len() != 4);
    assert("batch-size"@.len() != 4);
    assert("parallel"@.len() != 4);
    assert("flash-attn"@.len() != 4);
    assert("reasoning"@.len() != 4);
    assert("reasoning-effort"@.len() != 4);
    assert("chat-template"@.len() != 4);
    assert("jinja"@.len() != 4);
    assert("load-mode"@.len() != 4);
    assert("cache-type-k"@.len() != 4);
    assert("cache-type-v"@.len() != 4);
    assert("spec-type"@.len() != 4);
    assert("spec-draft-n-max"@.len() != 4);
    assert("spec-draft-n-min"@.len() != 4);
    assert("sleep-idle-seconds"@.len() != 4);
    assert("ctx-len"@.len() != 4);
    assert("prefill-chunk-len"@.len() != 4);
    assert("pmode"@.len() != 4);
    assert("q-len"@.len() != 4);
    assert("socket"@.len() != 4);
    assert("preemption"@.len() != 4);
    assert("embed"@.len() != 4);
    assert("asr"@.len() != 4);
    assert("img-pre-resize"@.len() != 4);
    let llama = Dialect::LlamaCpp.table();
    let flm = Dialect::Flm.table();
    lemma_spec_at(llama, 28);
    lemma_spec_at(flm, 11);
    reveal_with_fuel(number::digits_value, 6);
    assert("8000"@.drop_last().drop_last().drop_last() =~= seq!['8']);
    assert("52625"@.drop_last().drop_last().drop_last().drop_last() =~= seq!['5']);
    assert(number::digits_value("8000"@) == 8000);
    assert(number::digits_value("52625"@) == 52625);
}

/// Where the options say nothing of an endpoint, a request is for this machine and
/// for the port at which its runtime's own option starts.
pub proof fn law_requests_have_the_usual_endpoint(b: BrowserView, fetches: Fetches)
    requires
        launch_of(b, fetches) is Ok,
        forall|j: int|
            0 <= j < b.options.items.len() ==> (#[trigger] b.options.items[j]).key != "port"@
                && b.options.items[j].key != "host"@,
    ensures
        launch_of(b, fetches)->Ok_0.host == "127.0.0.1"@,
        launch_of(b, fetches)->Ok_0.port == match b.runtimes.chosen()->0 {
            Backend::LlamaCpp(_) => 8000u16,
            Backend::Flm(_) => 52625u16,
        },
{
    lemma_no_value(b.options.items, "port"@);
    lemma_no_value(b.options.items, "host"@);
    lemma_usual_ports();
}

/// What a request says of itself: the runtime, the model and the profile that are
/// selected, a name of the model that stands in the command, and the place where its
/// runtime answers once the model is loaded.
pub proof fn law_requests_are_for_the_selection(b: BrowserView, fetches: Fetches)
    requires
        launch_of(b, fetches) is Ok,
    ensures
        ({
            let req = launch_of(b, fetches)->Ok_0;
            let backend = b.runtimes.chosen()->0;
            &&& b.runtimes.chosen() is Some
            &&& b.model() is Some
            &&& b.profiles.chosen() is Some
            &&& req.runtime == backend.descriptor_view().name
            &&& req.model == b.model()->0.name
            &&& req.profile == b.profiles.chosen()->0.name
            &&& Some(req.command[0]) == backend.descriptor_view().binary_path
            &&& req.command.contains(req.model_path)
            &&& req.health_path == match backend {
                Backend::LlamaCpp(_) => "/health"@,
                Backend::Flm(_) => "/v1/models"@,
            }
        }),
{
    let backend = b.runtimes.chosen()->0;
    let ctx = ContextView {
        binary: backend.descriptor_view().binary_path->0,
        model: b.model()->0,
        options: b.options.items,
    };
    law_the_token_is_in_the_command(backend, ctx);
    law_the_program_comes_first(backend, ctx);
}

/// From a profile or its options, a selection with allowed values starts on a runtime
/// that nothing holds: the server of its request, the chat of its client, and the
/// measurement of a stored model.
pub proof fn law_a_sound_selection_starts(b: BrowserView, fetches: Fetches, readings: Seq<FloatReading>, ctx: ContextView, server: Start<LaunchRequest>, chat: Start<Vec<String>>, bench: Start<Vec<String>>)
    requires
        b.focus == Pane::Profile || b.focus == Pane::Options,
        launch_of(b, fetches) is Ok,
        options_fault(b, readings) is None,
        b.runtimes.chosen() is Some,
        b.model() == Some(ctx.model),
        b.options.items == ctx.options,
        b.runtimes.chosen()->0.descriptor_view().binary_path == Some(ctx.binary),
        serves(b, fetches, readings, None, server),
        chats(b, readings, None, chat),
        measures(b, readings, None, bench),
    ensures
        server is Run,
        server->Run_0@ == launch_of(b, fetches)->Ok_0,
        server->Run_0@.command == b.runtimes.chosen()->0.launch_argv(ctx),
        b.runtimes.chosen()->0.chat_spec(ctx) is Some ==> chat is Run && strs(chat->Run_0@)
            == b.runtimes.chosen()->0.chat_spec(ctx)->0,
        ctx.model.path.len() > 0 && b.runtimes.chosen()->0.descriptor_view().bench_path is Some
            && b.runtimes.chosen()->0.bench_spec(ctx) is Some ==> bench is Run && strs(
            bench->Run_0@,
        ) == b.runtimes.chosen()->0.bench_spec(ctx)->0,
{
    assert(chat_context(b) == Some(ctx));
}

/// The shown command ends with a blank line and the word that it was copied; what stands
/// above it is the command, in as many lines as it takes.
pub proof fn law_the_command_is_shown_and_copied(argv: Seq<Seq<char>>)
    ensures
        ({
            let shown = command_lines(argv);
            let n = shown.len() as int;
            &&& n >= 2 && shown[n - 1] == "(copied to clipboard)"@ && shown[n - 2].len() == 0
            &&& shown.take(n - 2) == chars::lines(
                text::join(grouped(quoted_all(argv), argv, argv.len()), " \\\n  "@),
            )
        }),
{
    let shown = command_lines(argv);
    let n = shown.len() as int;
    assert(shown.take(n - 2) =~= chars::lines(
        text::join(grouped(quoted_all(argv), argv, argv.len()), " \\\n  "@),
    ));
}

/// A sound selection is chatted with, by the runtime's own client; options with a fault,
/// and a runtime that is missing, are refused.
pub proof fn law_a_sound_selection_is_chatted_with(b: BrowserView, readings: Seq<FloatReading>, r: Start<Vec<String>>, backend: Backend, ctx: ContextView)
    requires
        chats(b, readings, None, r),
        on_profile(b.focus),
        b.runtimes.chosen() == Some(backend),
        chat_context(b) == Some(ctx),
    ensures
        b.model() == Some(ctx.model),
        ctx.options == b.options.items,
        backend.descriptor_view().binary_path == Some(ctx.binary),
        backend.unavailable_spec() is Some ==> r is Refused,
        backend.unavailable_spec() is None && options_fault(b, readings) is Some ==> r is Refused,
        backend.unavailable_spec() is None && options_fault(b, readings) is None
            && backend.chat_spec(ctx) is Some ==> r is Run && strs(r->Run_0@)
            == backend.chat_spec(ctx)->0,
        backend.unavailable_spec() is None && options_fault(b, readings) is None
            && backend.chat_spec(ctx) is None ==> r is Refused,
{
}

/// A stored model is measured by a runtime that has a tool for it, and nothing else is.
pub proof fn law_stored_models_are_measured(b: BrowserView, readings: Seq<FloatReading>, r: Start<Vec<String>>, backend: Backend, ctx: ContextView)
    requires
        measures(b, readings, None, r),
    ensures
        b.model() is None || b.runtimes.chosen() is None ==> r is Nothing,
        b.model() is Some && b.model()->0.path.len() == 0 ==> r is Nothing,
        b.runtimes.chosen() == Some(backend) && backend.descriptor_view().bench_path is None
            ==> r is Nothing,
        b.runtimes.chosen() == Some(backend) && b.model() is Some && b.model()->0.path.len() > 0
            && backend.descriptor_view().bench_path is Some && chat_context(b) == Some(ctx)
            && options_fault(b, readings) is None && backend.bench_spec(ctx) is Some ==> r is Run
            && strs(r->Run_0@) == backend.bench_spec(ctx)->0,
        b.runtimes.chosen() == Some(backend) && b.model() is Some && b.model()->0.path.len() > 0
            && backend.descriptor_view().bench_path is Some && chat_context(b) == Some(ctx)
            && options_fault(b, readings) is Some ==> r is Refused,
{
}

/// A runtime that has room for one model refuses another while one is served; llama.cpp
/// refuses none, and without a live session nothing is refused.
pub proof fn law_one_model_holds_the_device(runtimes: Seq<Backend>, name: Seq<char>, b: Backend, live: LiveSession)
    requires
        runtime_named(runtimes, name, 0) == Some(b),
    ensures
        conflict(runtimes, name, None) is None,
        b is Flm ==> conflict(runtimes, name, Some(live)) is Some && conflict(
            runtimes,
            name,
            Some(live),
        )->0[1] == live.name@ + " is "@ + live.status@ + "."@,
        b is LlamaCpp ==> conflict(runtimes, name, Some(live)) is None,
{
}

} // verus!
