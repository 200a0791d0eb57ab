//! What the frame around the panes says: the two status lines, the breadcrumb,
//! the titles, and which actions the selection allows.

use vstd::prelude::*;
use crate::app::browser::{BrowserState, BrowserView};
use crate::app::catalog::Step;
use crate::app::panes::Pane;
use crate::app::search::{folder_title, model_catalog_title};
use crate::discovery::online::catalog::{is_online, is_online_path, Sort};
use crate::domain::format::{date_text, day_number, is_date, size_text};
use crate::domain::options::lits;
use crate::domain::{
    format_unix_date, human_size, Model, ModelView, OptionItem, OptionItemView, Profile,
    ProfileView, RemoteModel, RemoteView,
};
use crate::number;
use crate::path;
use crate::runtime::backend::Backend;
use crate::runtime::flm::FlmBackend;
use crate::runtime::llama_cpp::LlamaCppBackend;
use crate::runtime::RuntimeBackend;
use crate::text;
use crate::text::{opt, strs};

verus! {

// --- lists of optional parts -------------------------------------------------

/// What stands between the parts of a status line.
pub const DOT: &'static str = " · ";

/// A part, where there is one.
pub open spec fn maybe(o: Option<Seq<char>>) -> Seq<Seq<char>> {
    match o {
        Some(s) => seq![s],
        None => Seq::<Seq<char>>::empty(),
    }
}

/// A part, where a condition holds.
pub open spec fn when(b: bool, s: Seq<char>) -> Seq<Seq<char>> {
    if b {
        seq![s]
    } else {
        Seq::<Seq<char>>::empty()
    }
}

fn add_text(list: &mut Vec<String>, s: String)
    ensures
        strs(final(list)@) == strs(old(list)@) + seq![s@],
{
    let ghost before = strs(list@);
    list.push(s);
    assert(strs(list@) =~= before + seq![s@]);
}

fn add_maybe(list: &mut Vec<String>, o: Option<String>)
    ensures
        strs(final(list)@) == strs(old(list)@) + maybe(opt(o)),
{
    let ghost before = strs(list@);
    match o {
        Some(s) => add_text(list, s),
        None => {},
    }
    assert(strs(list@) =~= before + maybe(opt(o)));
}

fn add_when(list: &mut Vec<String>, b: bool, s: &str)
    ensures
        strs(final(list)@) == strs(old(list)@) + when(b, s@),
{
    let ghost before = strs(list@);
    if b {
        add_text(list, text::copy(s));
    }
    assert(strs(list@) =~= before + when(b, s@));
}

fn no_parts() -> (r: Vec<String>)
    ensures
        strs(r@) == Seq::<Seq<char>>::empty(),
{
    let out: Vec<String> = Vec::new();
    assert(strs(out@) =~= Seq::<Seq<char>>::empty());
    out
}

// --- the status lines --------------------------------------------------------

/// Two lines: where something is, and what it is.
pub struct Lines {
    pub primary: Seq<char>,
    pub secondary: Seq<char>,
}

/// The lines for a runtime: its binary; its version, formats and devices, and why
/// it cannot be used.
pub open spec fn runtime_lines(b: Backend) -> Lines {
    let d = b.descriptor_view();
    Lines {
        primary: match d.binary_path {
            Some(p) => p,
            None => "(binary not found)"@,
        },
        secondary: text::join(
            maybe(d.version) + seq![text::join(d.formats, ", "@)] + when(
                d.devices.len() > 0,
                text::join(d.devices, ", "@),
            ) + maybe(b.unavailable_spec()),
            DOT@,
        ),
    }
}

/// How a model's token-prediction head is named, where there is one.
pub open spec fn head_part(paired: Option<Seq<char>>, integrated: bool) -> Seq<Seq<char>> {
    match paired {
        Some(s) => seq![s],
        None => when(integrated, "MTP integrated"@),
    }
}

/// What is said of one file of a repository.
pub open spec fn artifact_parts(m: ModelView, r: RemoteView) -> Seq<Seq<char>> {
    seq![
        if m.path.len() == 0 {
            "remote"@
        } else {
            "cached"@
        },
        size_text(m.size_bytes as nat),
    ] + maybe(m.quantization) + head_part(
        match r.mtp_file {
            Some(_) => Some("MTP"@),
            None => None,
        },
        m.has_mtp,
    ) + when(m.supports_multimodal(), "multimodal"@)
}

/// The lines for an entry of the Hub.
pub open spec fn remote_lines(m: ModelView, r: RemoteView) -> Lines {
    Lines {
        primary: match r.file {
            Some(f) => "hf://"@ + r.repo + "/"@ + f,
            None => "hf://"@ + r.repo,
        },
        secondary: text::join(
            seq![
                number::decimal(r.downloads as nat) + " downloads"@,
                number::decimal(r.likes as nat) + " likes"@,
            ] + when(r.gated, "gated"@) + (if r.file is Some {
                artifact_parts(m, r)
            } else {
                Seq::<Seq<char>>::empty()
            }),
            DOT@,
        ),
    }
}

/// The lines for a folder.
pub open spec fn folder_lines(m: ModelView, pending: bool) -> Lines {
    Lines {
        primary: text::join(m.catalog_path, " / "@),
        secondary: if is_online(m.catalog_path) && pending {
            "loading Hugging Face…"@
        } else if is_online(m.catalog_path) {
            "online catalog · F5 refresh"@
        } else {
            "catalog directory"@
        },
    }
}

/// Whether a text is the date of a time.
pub open spec fn shows_date(secs: u64, s: Seq<char>) -> bool {
    exists|y: int, m: int, d: int|
        is_date(y, m, d) && 1970 <= y && day_number(y, m, d) == secs / 86_400 && s
            == #[trigger] date_text(y, m, d)
}

/// Whether a text is the date at which a model was changed, if that is known.
pub open spec fn shows_changed(m: ModelView, date: Option<Seq<char>>) -> bool {
    match (m.modified, date) {
        (Some(secs), Some(s)) => shows_date(secs, s),
        (None, None) => true,
        _ => false,
    }
}

/// The name of a file behind a word.
pub open spec fn with_name(word: Seq<char>, p: Seq<char>) -> Seq<char> {
    word + match path::base_name(p) {
        Some(n) => n,
        None => Seq::<char>::empty(),
    }
}

/// The lines for a stored model, changed at a date.
pub open spec fn stored_lines(m: ModelView, date: Option<Seq<char>>) -> Lines {
    Lines {
        primary: m.path,
        secondary: text::join(
            seq![size_text(m.size_bytes as nat)] + maybe(m.quantization) + maybe(m.architecture)
                + maybe(
                match m.context_length {
                    Some(n) => Some("ctx "@ + number::decimal(n as nat)),
                    None => None,
                },
            ) + when(m.has_chat_template, "chat-template"@) + head_part(
                match m.mtp_path {
                    Some(p) => Some(with_name("MTP "@, p)),
                    None => None,
                },
                m.has_mtp,
            ) + maybe(
                match m.projector_path {
                    Some(p) => Some(with_name("projector "@, p)),
                    None => None,
                },
            ) + maybe(date),
            DOT@,
        ),
    }
}

/// The lines for an entry of the catalog; `date` is when it was changed.
pub open spec fn model_lines(m: ModelView, pending: bool, date: Option<Seq<char>>) -> Lines {
    match m.remote {
        Some(r) => remote_lines(m, r),
        None => if m.is_catalog_dir() {
            folder_lines(m, pending)
        } else {
            stored_lines(m, date)
        },
    }
}

/// The lines for a profile.
pub open spec fn profile_lines(p: ProfileView) -> Lines {
    Lines {
        primary: p.name,
        secondary: (if p.builtin {
            "built-in template"@
        } else {
            "custom profile"@
        }) + (if p.favorite {
            " · ★"@
        } else {
            ""@
        }),
    }
}

/// The lines for an option.
pub open spec fn option_lines(o: OptionItemView) -> Lines {
    Lines {
        primary: o.key,
        secondary: "current "@ + o.value + " · default "@ + o.default + DOT@ + o.cli,
    }
}

/// No lines.
pub open spec fn blank_lines() -> Lines {
    Lines { primary: ""@, secondary: ""@ }
}

/// Whether two lines are those of the selection. `pending` says whether the Hub is
/// being asked.
pub open spec fn says(b: BrowserView, pending: bool, lines: Lines) -> bool {
    match b.focus {
        Pane::Runtime => lines == (match b.runtimes.chosen() {
            Some(r) => runtime_lines(r),
            None => blank_lines(),
        }),
        Pane::Model => match b.models.chosen() {
            Some(m) => exists|date: Option<Seq<char>>|
                shows_changed(m, date) && lines == #[trigger] model_lines(m, pending, date),
            None => lines == blank_lines(),
        },
        Pane::Profile => lines == (match b.profiles.chosen() {
            Some(p) => profile_lines(p),
            None => blank_lines(),
        }),
        Pane::Options => lines == (match b.options.chosen() {
            Some(o) => option_lines(o),
            None => blank_lines(),
        }),
    }
}

/// Two lines as mathematics sees them.
pub open spec fn lines_of(r: (String, String)) -> Lines {
    Lines { primary: r.0@, secondary: r.1@ }
}

fn runtime_status(backend: &Backend) -> (r: (String, String))
    ensures
        lines_of(r) == runtime_lines(*backend),
{
    let d = backend.descriptor();
    let ghost view = backend.descriptor_view();
    assert(d@ == view);
    let primary = match &d.binary_path {
        Some(p) => p.clone(),
        None => text::copy("(binary not found)"),
    };
    let mut meta = no_parts();
    add_maybe(&mut meta, text::copy_opt(&d.version));
    add_text(&mut meta, d.formats_label());
    assert(strs(d.devices@).len() == d.devices@.len());
    let devices = text::join_all(&d.devices, ", ");
    add_when(&mut meta, d.devices.len() > 0, devices.as_str());
    add_maybe(&mut meta, backend.unavailable_reason());
    assert(strs(meta@) =~= maybe(view.version) + seq![text::join(view.formats, ", "@)] + when(
        view.devices.len() > 0,
        text::join(view.devices, ", "@),
    ) + maybe(backend.unavailable_spec()));
    (primary, text::join_all(&meta, DOT))
}

fn add_head(list: &mut Vec<String>, paired: Option<String>, integrated: bool)
    ensures
        strs(final(list)@) == strs(old(list)@) + head_part(opt(paired), integrated),
{
    match paired {
        Some(s) => add_text(list, s),
        None => add_when(list, integrated, "MTP integrated"),
    }
}

#[verifier::rlimit(40)]
fn remote_status(m: &Model, remote: &RemoteModel) -> (r: (String, String))
    ensures
        lines_of(r) == remote_lines(m@, remote@),
{
    let primary = match &remote.file {
        Some(f) => {
            let mut s = text::cat3("hf://", remote.repo.as_str(), "/");
            s.append(f.as_str());
            s
        },
        None => text::cat("hf://", remote.repo.as_str()),
    };
    let mut meta = no_parts();
    add_text(&mut meta, text::cat(number::nat_text(remote.downloads).as_str(), " downloads"));
    add_text(&mut meta, text::cat(number::nat_text(remote.likes).as_str(), " likes"));
    add_when(&mut meta, remote.gated, "gated");
    let ghost head = seq![
        number::decimal(remote.downloads as nat) + " downloads"@,
        number::decimal(remote.likes as nat) + " likes"@,
    ] + when(remote.gated, "gated"@);
    assert(strs(meta@) =~= head);
    if remote.file.is_some() {
        let place = if m.path.as_str().is_empty() {
            text::copy("remote")
        } else {
            text::copy("cached")
        };
        add_text(&mut meta, place);
        add_text(&mut meta, human_size(m.size_bytes));
        add_maybe(&mut meta, text::copy_opt(&m.quantization));
        let paired = if remote.mtp_file.is_some() {
            Some(text::copy("MTP"))
        } else {
            None
        };
        add_head(&mut meta, paired, m.has_mtp);
        add_when(&mut meta, m.supports_multimodal(), "multimodal");
        assert(strs(meta@) =~= head + artifact_parts(m@, remote@));
    } else {
        assert(strs(meta@) =~= head + Seq::<Seq<char>>::empty());
    }
    (primary, text::join_all(&meta, DOT))
}

fn folder_status(m: &Model, pending: bool) -> (r: (String, String))
    ensures
        lines_of(r) == folder_lines(m@, pending),
{
    let online = is_online_path(&m.catalog_path);
    let secondary = if online && pending {
        text::copy("loading Hugging Face…")
    } else if online {
        text::copy("online catalog · F5 refresh")
    } else {
        text::copy("catalog directory")
    };
    (text::join_all(&m.catalog_path, " / "), secondary)
}

fn name_behind(word: &str, p: &str) -> (r: String)
    ensures
        r@ == with_name(word@, p@),
{
    match path::file_name(p) {
        Some(n) => text::cat(word, n.as_str()),
        None => {
            assert(word@ + Seq::<char>::empty() =~= word@);
            text::copy(word)
        },
    }
}

fn stored_status(m: &Model, date: Option<String>) -> (r: (String, String))
    ensures
        lines_of(r) == stored_lines(m@, opt(date)),
{
    let ghost changed = opt(date);
    let mut meta = no_parts();
    add_text(&mut meta, human_size(m.size_bytes));
    add_maybe(&mut meta, text::copy_opt(&m.quantization));
    add_maybe(&mut meta, text::copy_opt(&m.architecture));
    let ctx = match m.context_length {
        Some(n) => Some(text::cat("ctx ", number::nat_text(n).as_str())),
        None => None,
    };
    add_maybe(&mut meta, ctx);
    add_when(&mut meta, m.has_chat_template, "chat-template");
    let paired = match &m.mtp_path {
        Some(p) => Some(name_behind("MTP ", p.as_str())),
        None => None,
    };
    add_head(&mut meta, paired, m.has_mtp);
    let projector = match &m.projector_path {
        Some(p) => Some(name_behind("projector ", p.as_str())),
        None => None,
    };
    add_maybe(&mut meta, projector);
    add_maybe(&mut meta, date);
    proof {
        let v = m@;
        let want = seq![size_text(v.size_bytes as nat)] + maybe(v.quantization) + maybe(
            v.architecture,
        ) + maybe(
            match v.context_length {
                Some(n) => Some("ctx "@ + number::decimal(n as nat)),
                None => None,
            },
        ) + when(v.has_chat_template, "chat-template"@) + head_part(
            match v.mtp_path {
                Some(p) => Some(with_name("MTP "@, p)),
                None => None,
            },
            v.has_mtp,
        ) + maybe(
            match v.projector_path {
                Some(p) => Some(with_name("projector "@, p)),
                None => None,
            },
        ) + maybe(changed);
        assert(strs(meta@) =~= want);
    }
    (m.path.clone(), text::join_all(&meta, DOT))
}

fn model_status(m: &Model, pending: bool) -> (r: (String, String))
    ensures
        exists|date: Option<Seq<char>>|
            shows_changed(m@, date) && lines_of(r) == #[trigger] model_lines(m@, pending, date),
{
    let date = match m.modified {
        Some(secs) => Some(format_unix_date(secs)),
        None => None,
    };
    let ghost changed = opt(date);
    assert(shows_changed(m@, changed));
    let r = match &m.remote {
        Some(remote) => remote_status(m, remote),
        None => if m.is_catalog_dir() {
            folder_status(m, pending)
        } else {
            stored_status(m, date)
        },
    };
    assert(lines_of(r) == model_lines(m@, pending, changed));
    r
}

fn profile_status(p: &Profile) -> (r: (String, String))
    ensures
        lines_of(r) == profile_lines(p@),
{
    let kind = if p.builtin {
        "built-in template"
    } else {
        "custom profile"
    };
    let mark = if p.favorite {
        " · ★"
    } else {
        ""
    };
    (p.name.clone(), text::cat(kind, mark))
}

fn option_status(o: &OptionItem) -> (r: (String, String))
    ensures
        lines_of(r) == option_lines(o@),
{
    let mut s = text::cat3("current ", o.value.as_str(), " · default ");
    s.append(o.default.as_str());
    s.append(DOT);
    s.append(o.cli.as_str());
    (o.key.clone(), s)
}

fn blank_status() -> (r: (String, String))
    ensures
        lines_of(r) == blank_lines(),
{
    (text::copy(""), text::copy(""))
}

// --- the breadcrumb ----------------------------------------------------------

/// The way from the runtime to the selection of the focused pane.
pub open spec fn crumbs(b: BrowserView) -> Seq<Seq<char>> {
    let none = Seq::<Seq<char>>::empty();
    (match b.runtimes.chosen() {
        Some(r) => seq![r.descriptor_view().name],
        None => none,
    }) + (if b.focus.place() >= Pane::Model.place() {
        b.prefix + (match b.models.chosen() {
            Some(m) => if m.catalog_path.len() > 0 {
                seq![m.catalog_path.last()]
            } else {
                none
            },
            None => none,
        })
    } else {
        none
    }) + (match b.profiles.chosen() {
        Some(p) => when(b.focus.place() >= Pane::Profile.place(), p.name),
        None => none,
    }) + (match b.options.chosen() {
        Some(o) => when(b.focus.place() >= Pane::Options.place(), o.key),
        None => none,
    })
}

fn add_all(list: &mut Vec<String>, more: &Vec<String>)
    ensures
        strs(final(list)@) == strs(old(list)@) + strs(more@),
{
    let ghost before = strs(list@);
    let ghost all = strs(more@);
    let mut i: usize = 0;
    assert(strs(list@) =~= before + all.take(0));
    while i < more.len()
        invariant
            i <= more.len(),
            all == strs(more@),
            strs(list@) == before + all.take(i as int),
        decreases more.len() - i,
    {
        assert(all[i as int] == more@[i as int]@);
        add_text(list, more[i].clone());
        assert(all.take(i + 1) =~= all.take(i as int) + seq![all[i as int]]);
        assert(strs(list@) =~= before + all.take(i + 1));
        i += 1;
    }
    assert(all.take(i as int) =~= all);
}

// --- titles and actions ------------------------------------------------------

/// The name of the catalog's arrangement, where there is more than one.
pub open spec fn view_label(b: BrowserView, view: int) -> Option<Seq<char>> {
    match b.runtimes.chosen() {
        Some(r) => if r.views_spec().len() < 2 {
            None
        } else {
            Some(r.views_spec()[view % r.views_spec().len() as int])
        },
        None => None,
    }
}

/// The title of a folder: the arrangement where there are several, else what the
/// folder is.
pub open spec fn catalog_title_of(b: BrowserView, prefix: Seq<Seq<char>>, view: int, sort: Sort) -> Seq<char> {
    match view_label(b, view) {
        Some(l) => l,
        None => folder_title(prefix, sort),
    }
}

/// Whether the live tree of the Hub is shown: the runtime offers it, and the
/// folder or the selection lies in it.
pub open spec fn online_shown(b: BrowserView) -> bool {
    &&& b.runtimes.chosen() is Some
    &&& b.runtimes.chosen()->0.browse_spec()
    &&& b.focus.place() >= Pane::Model.place()
    &&& is_online(b.prefix) || (b.models.chosen() is Some && is_online(
        b.models.chosen()->0.catalog_path,
    ))
}

/// Whether a model can be downloaded: a FastFlowLM model that is not installed,
/// or a file of the Hub that is not cached.
pub open spec fn downloadable(m: ModelView) -> bool {
    match m.flm {
        Some(flm) => !flm.installed,
        None => m.path.len() == 0 && m.remote_file() is Some,
    }
}

impl BrowserState {
    /// The two status lines for the selection. `pending` says whether the Hub is
    /// being asked.
    pub fn status(&self, pending: bool) -> (r: (String, String))
        ensures
            says(self@, pending, lines_of(r)),
    {
        assert(self@.models.items.len() == self.models.items@.len());
        assert(self@.profiles.items.len() == self.profiles.items@.len());
        assert(self@.options.items.len() == self.options.items@.len());
        match self.focus {
            Pane::Runtime => match self.runtimes.selected() {
                Some(backend) => runtime_status(backend),
                None => blank_status(),
            },
            Pane::Model => match self.models.selected() {
                Some(m) => {
                    assert(self@.models.chosen() == Some(m@));
                    model_status(m, pending)
                },
                None => blank_status(),
            },
            Pane::Profile => match self.profiles.selected() {
                Some(p) => {
                    assert(self@.profiles.chosen() == Some(p@));
                    profile_status(p)
                },
                None => blank_status(),
            },
            Pane::Options => match self.options.selected() {
                Some(o) => {
                    assert(self@.options.chosen() == Some(o@));
                    option_status(o)
                },
                None => blank_status(),
            },
        }
    }

    /// The way from the runtime to the selection of the focused pane.
    pub fn breadcrumb(&self) -> (r: Vec<String>)
        ensures
            strs(r@) == crumbs(self@),
    {
        assert(self@.models.items.len() == self.models.items@.len());
        assert(self@.profiles.items.len() == self.profiles.items@.len());
        assert(self@.options.items.len() == self.options.items@.len());
        let mut out = no_parts();
        if let Some(backend) = self.runtimes.selected() {
            let d = backend.descriptor();
            assert(d.name@ == d@.name);
            add_text(&mut out, d.name.clone());
        }
        let level = self.focus.index();
        if level >= Pane::Model.index() {
            add_all(&mut out, &self.catalog_prefix);
            if let Some(m) = self.models.selected() {
                assert(self@.models.chosen() == Some(m@));
                let n = m.catalog_path.len();
                assert(strs(m.catalog_path@).len() == n);
                if n > 0 {
                    assert(strs(m.catalog_path@)[n - 1] == m.catalog_path@[n - 1]@);
                    add_text(&mut out, m.catalog_path[n - 1].clone());
                }
            }
        }
        if let Some(p) = self.profiles.selected() {
            assert(self@.profiles.chosen() == Some(p@));
            add_when(&mut out, level >= Pane::Profile.index(), p.name.as_str());
        }
        if let Some(o) = self.options.selected() {
            assert(self@.options.chosen() == Some(o@));
            add_when(&mut out, level >= Pane::Options.index(), o.key.as_str());
        }
        assert(strs(out@) =~= crumbs(self@));
        out
    }

    /// Whether the live tree of the Hub is shown.
    pub fn online_view_active(&self) -> (r: bool)
        ensures
            r == online_shown(self@),
    {
        assert(self@.models.items.len() == self.models.items@.len());
        let browses = match self.runtimes.selected() {
            Some(backend) => backend.supports_online_browse(),
            None => false,
        };
        let selected = match self.models.selected() {
            Some(m) => {
                assert(self@.models.chosen() == Some(m@));
                is_online_path(&m.catalog_path)
            },
            None => false,
        };
        browses && self.focus.index() >= Pane::Model.index() && (is_online_path(
            &self.catalog_prefix,
        ) || selected)
    }

    /// How many arrangements the catalog has.
    pub fn catalog_view_count(&self) -> (r: usize)
        ensures
            r == (match self@.runtimes.chosen() {
                Some(b) => b.views_spec().len(),
                None => 0,
            }),
    {
        match self.runtimes.selected() {
            Some(backend) => {
                let names = backend.catalog_views();
                assert(lits(names@).len() == names@.len());
                names.len()
            },
            None => 0,
        }
    }

    /// The name of the catalog's arrangement, where there is more than one.
    pub fn catalog_view_label(&self, view: usize) -> (r: Option<&'static str>)
        ensures
            match r {
                Some(s) => view_label(self@, view as int) == Some(s@),
                None => view_label(self@, view as int) is None,
            },
    {
        match self.runtimes.selected() {
            Some(backend) => {
                let names = backend.catalog_views();
                assert(lits(names@).len() == names@.len());
                if names.len() < 2 {
                    return None;
                }
                let i: usize = view % names.len();
                assert(lits(names@)[i as int] == names@[i as int]@);
                Some(names[i])
            },
            None => None,
        }
    }

    fn catalog_title(&self, prefix: &Vec<String>, view: usize, sort: Sort) -> (r: String)
        ensures
            r@ == catalog_title_of(self@, strs(prefix@), view as int, sort),
    {
        match self.catalog_view_label(view) {
            Some(l) => text::copy(l),
            None => model_catalog_title(prefix, sort),
        }
    }

    /// The title of the catalog's pane.
    pub fn model_pane_title(&self, view: usize, sort: Sort) -> (r: String)
        ensures
            r@ == catalog_title_of(self@, self@.prefix, view as int, sort),
    {
        self.catalog_title(&self.catalog_prefix, view, sort)
    }

    /// The title of the folder above.
    pub fn catalog_parent_title(&self, view: usize, sort: Sort) -> (r: String)
        ensures
            r@ == (if self@.history.len() > 0 {
                catalog_title_of(self@, self@.history.last().prefix, view as int, sort)
            } else {
                "Model"@
            }),
    {
        let n = self.catalog_history.len();
        assert(self@.history.len() == n);
        if n > 0 {
            assert(self@.history[n - 1] == self.catalog_history@[n - 1]@);
            self.catalog_title(&self.catalog_history[n - 1].prefix, view, sort)
        } else {
            text::copy("Model")
        }
    }

    /// The title of the selected folder's preview.
    pub fn catalog_preview_title(&self, view: usize, sort: Sort) -> (r: String)
        ensures
            r@ == (if self@.models.chosen() is Some && self@.models.chosen()->0.is_catalog_dir() {
                catalog_title_of(self@, self@.models.chosen()->0.catalog_path, view as int, sort)
            } else {
                catalog_title_of(self@, self@.prefix, view as int, sort)
            }),
    {
        assert(self@.models.items.len() == self.models.items@.len());
        if let Some(m) = self.models.selected() {
            assert(self@.models.chosen() == Some(m@));
            if m.is_catalog_dir() {
                return self.catalog_title(&m.catalog_path, view, sort);
            }
        }
        self.model_pane_title(view, sort)
    }

    /// Whether the selection can be downloaded.
    pub fn download_available(&self) -> (r: bool)
        ensures
            r == (self@.focus == Pane::Model && self@.model() is Some && downloadable(
                self@.model()->0,
            )),
    {
        if self.focus != Pane::Model {
            return false;
        }
        match self.selected_model() {
            Some(m) => match &m.flm {
                Some(flm) => !flm.installed,
                None => m.path.as_str().is_empty() && m.has_remote_file(),
            },
            None => false,
        }
    }

    /// Whether the selected model can be measured: it is stored, and the runtime
    /// has a tool for it.
    pub fn benchmark_available(&self) -> (r: bool)
        ensures
            r == (self@.model() is Some && self@.model()->0.path.len() > 0
                && self@.runtimes.chosen() is Some
                && self@.runtimes.chosen()->0.descriptor_view().bench_path is Some),
    {
        let stored = match self.selected_model() {
            Some(m) => !m.path.as_str().is_empty(),
            None => false,
        };
        let tool = match self.runtimes.selected() {
            Some(backend) => {
                let d = backend.descriptor();
                assert(opt(d.bench_path) == d@.bench_path);
                d.bench_path.is_some()
            },
            None => false,
        };
        stored && tool
    }

    /// The folder above, with what is selected in it.
    pub fn catalog_parent(&self) -> (r: Option<&Step>)
        ensures
            match r {
                Some(s) => self@.history.len() > 0 && s@ == self@.history.last(),
                None => self@.history.len() == 0,
            },
    {
        let n = self.catalog_history.len();
        assert(self@.history.len() == n);
        if n > 0 {
            assert(self@.history[n - 1] == self.catalog_history@[n - 1]@);
            Some(&self.catalog_history[n - 1])
        } else {
            None
        }
    }

    /// The list of models that the catalog of the selected runtime is built from:
    /// the runtime that offers the tree of the Hub has the scanned models, any
    /// other its own.
    pub fn catalog_source<'a>(&self, scanned: &'a Vec<Model>, own: &'a Vec<Model>) -> (r: &'a Vec<Model>)
        ensures
            *r == (if self@.runtimes.chosen() is Some && !self@.runtimes.chosen()->0.browse_spec() {
                *own
            } else {
                *scanned
            }),
    {
        match self.runtimes.selected() {
            Some(backend) => if backend.supports_online_browse() {
                scanned
            } else {
                own
            },
            None => scanned,
        }
    }
}

/// The arrangement after the current one, in turn.
pub fn cycle_catalog_view(view: usize, count: usize) -> (r: usize)
    ensures
        r == (if count < 2 {
            view as int
        } else {
            (view + 1) % count as int
        }),
{
    if count < 2 {
        return view;
    }
    let next: u128 = (view as u128 + 1) % (count as u128);
    next as usize
}

// --- laws --------------------------------------------------------------------

/// The breadcrumb never grows shorter as the focus goes to the right.
pub proof fn law_breadcrumb_grows(b: BrowserView, left: Pane, right: Pane)
    requires
        left.place() <= right.place(),
    ensures
        crumbs(BrowserView { focus: left, ..b }).len() <= crumbs(
            BrowserView { focus: right, ..b },
        ).len(),
{
}

/// The tree of the Hub is shown only by a runtime that offers it, whatever the
/// folders are called.
pub proof fn law_a_fixed_catalog_is_not_the_hub(b: BrowserView)
    requires
        b.runtimes.chosen() is Some,
        !b.runtimes.chosen()->0.browse_spec(),
    ensures
        !online_shown(b),
{
}

/// The line below a stored model says what is known of it: its size, its quantization,
/// its architecture, its context, whether it has a template, and its companions.
pub proof fn law_the_line_says_what_is_known(m: ModelView, date: Option<Seq<char>>)
    ensures
        stored_lines(m, date).primary == m.path,
        ({
            let line = stored_lines(m, date).secondary;
            &&& text::has(line, size_text(m.size_bytes as nat))
            &&& m.quantization is Some ==> text::has(line, m.quantization->0)
            &&& m.architecture is Some ==> text::has(line, m.architecture->0)
            &&& m.context_length is Some ==> text::has(
                line,
                "ctx "@ + number::decimal(m.context_length->0 as nat),
            )
            &&& m.has_chat_template ==> text::has(line, "chat-template"@)
            &&& m.mtp_path is Some ==> text::has(line, with_name("MTP "@, m.mtp_path->0))
            &&& m.mtp_path is None && m.has_mtp ==> text::has(line, "MTP integrated"@)
            &&& m.projector_path is Some ==> text::has(
                line,
                with_name("projector "@, m.projector_path->0),
            )
            &&& date is Some ==> text::has(line, date->0)
        }),
{
    let a = seq![size_text(m.size_bytes as nat)];
    let b = a + maybe(m.quantization);
    let c = b + maybe(m.architecture);
    let d = c + maybe(
        match m.context_length {
            Some(n) => Some("ctx "@ + number::decimal(n as nat)),
            None => None,
        },
    );
    let e = d + when(m.has_chat_template, "chat-template"@);
    let f = e + head_part(
        match m.mtp_path {
            Some(p) => Some(with_name("MTP "@, p)),
            None => None,
        },
        m.has_mtp,
    );
    let g = f + maybe(
        match m.projector_path {
            Some(p) => Some(with_name("projector "@, p)),
            None => None,
        },
    );
    let all = g + maybe(date);
    assert(stored_lines(m, date).secondary == text::join(all, DOT@));
    assert(all[0] == a[0]);
    text::law_joined_parts_are_there(all, DOT@, 0);
    if m.quantization is Some {
        assert(all[a.len() as int] == m.quantization->0);
        text::law_joined_parts_are_there(all, DOT@, a.len() as int);
    }
    if m.architecture is Some {
        assert(all[b.len() as int] == m.architecture->0);
        text::law_joined_parts_are_there(all, DOT@, b.len() as int);
    }
    if m.context_length is Some {
        assert(all[c.len() as int] == "ctx "@ + number::decimal(m.context_length->0 as nat));
        text::law_joined_parts_are_there(all, DOT@, c.len() as int);
    }
    if m.has_chat_template {
        assert(all[d.len() as int] == "chat-template"@);
        text::law_joined_parts_are_there(all, DOT@, d.len() as int);
    }
    if m.mtp_path is Some || m.has_mtp {
        assert(all[e.len() as int] == f[e.len() as int]);
        text::law_joined_parts_are_there(all, DOT@, e.len() as int);
    }
    if m.projector_path is Some {
        assert(all[f.len() as int] == g[f.len() as int]);
        text::law_joined_parts_are_there(all, DOT@, f.len() as int);
    }
    if date is Some {
        assert(all[g.len() as int] == date->0);
        text::law_joined_parts_are_there(all, DOT@, g.len() as int);
    }
}

/// The line for an entry of the Hub names its repository and its file, and says its
/// counts, whether it is gated and whether it is on disk.
pub proof fn law_the_line_names_the_repository(m: ModelView, r: RemoteView)
    ensures
        r.file is Some ==> remote_lines(m, r).primary == "hf://"@ + r.repo + "/"@ + r.file->0,
        r.file is None ==> remote_lines(m, r).primary == "hf://"@ + r.repo,
        ({
            let line = remote_lines(m, r).secondary;
            &&& text::has(line, number::decimal(r.downloads as nat) + " downloads"@)
            &&& text::has(line, number::decimal(r.likes as nat) + " likes"@)
            &&& r.gated ==> text::has(line, "gated"@)
            &&& r.file is Some && m.path.len() == 0 ==> text::has(line, "remote"@)
            &&& r.file is Some && m.path.len() > 0 ==> text::has(line, "cached"@)
            &&& r.file is Some ==> text::has(line, size_text(m.size_bytes as nat))
        }),
{
    let a = seq![
        number::decimal(r.downloads as nat) + " downloads"@,
        number::decimal(r.likes as nat) + " likes"@,
    ];
    let b = a + when(r.gated, "gated"@);
    let all = b + (if r.file is Some {
        artifact_parts(m, r)
    } else {
        Seq::<Seq<char>>::empty()
    });
    assert(remote_lines(m, r).secondary == text::join(all, DOT@));
    assert(all[0] == a[0] && all[1] == a[1]);
    text::law_joined_parts_are_there(all, DOT@, 0);
    text::law_joined_parts_are_there(all, DOT@, 1);
    if r.gated {
        assert(all[2] == "gated"@);
        text::law_joined_parts_are_there(all, DOT@, 2);
    }
    if r.file is Some {
        let k = b.len() as int;
        assert(all[k] == artifact_parts(m, r)[0] && all[k + 1] == artifact_parts(m, r)[1]);
        text::law_joined_parts_are_there(all, DOT@, k);
        text::law_joined_parts_are_there(all, DOT@, k + 1);
    }
}

/// The line for a runtime names its binary and says why it cannot be used, where it
/// cannot.
pub proof fn law_the_line_says_why_a_runtime_is_missing(b: Backend)
    ensures
        b.descriptor_view().binary_path is Some ==> runtime_lines(b).primary
            == b.descriptor_view().binary_path->0,
        b.descriptor_view().binary_path is None ==> runtime_lines(b).primary
            == "(binary not found)"@,
        b.descriptor_view().version is Some ==> text::has(
            runtime_lines(b).secondary,
            b.descriptor_view().version->0,
        ),
        b.unavailable_spec() is Some ==> text::has(
            runtime_lines(b).secondary,
            b.unavailable_spec()->0,
        ),
{
    let d = b.descriptor_view();
    let front = maybe(d.version) + seq![text::join(d.formats, ", "@)] + when(
        d.devices.len() > 0,
        text::join(d.devices, ", "@),
    );
    let all = front + maybe(b.unavailable_spec());
    assert(runtime_lines(b).secondary == text::join(all, DOT@));
    if d.version is Some {
        assert(all[0] == d.version->0);
        text::law_joined_parts_are_there(all, DOT@, 0);
    }
    if b.unavailable_spec() is Some {
        assert(all[front.len() as int] == b.unavailable_spec()->0);
        text::law_joined_parts_are_there(all, DOT@, front.len() as int);
    }
}

/// The way on the screen is the runtime, the folders, the entry, the profile and the
/// option, as far as the focus goes.
pub proof fn law_the_way_leads_to_the_focus(b: BrowserView, runtime: Backend, m: ModelView, p: ProfileView, o: OptionItemView)
    requires
        b.runtimes.chosen() == Some(runtime),
        b.models.chosen() == Some(m),
        m.catalog_path.len() > 0,
        b.profiles.chosen() == Some(p),
        b.options.chosen() == Some(o),
    ensures
        ({
            let top = seq![runtime.descriptor_view().name];
            let entry = top + b.prefix + seq![m.catalog_path.last()];
            &&& b.focus == Pane::Runtime ==> crumbs(b) == top
            &&& b.focus == Pane::Model ==> crumbs(b) == entry
            &&& b.focus == Pane::Profile ==> crumbs(b) == entry.push(p.name)
            &&& b.focus == Pane::Options ==> crumbs(b) == entry.push(p.name).push(o.key)
        }),
{
    let top = seq![runtime.descriptor_view().name];
    let entry = top + b.prefix + seq![m.catalog_path.last()];
    if b.focus == Pane::Runtime {
        assert(crumbs(b) =~= top);
    } else if b.focus == Pane::Model {
        assert(crumbs(b) =~= entry);
    } else if b.focus == Pane::Profile {
        assert(crumbs(b) =~= entry.push(p.name));
    } else {
        assert(crumbs(b) =~= entry.push(p.name).push(o.key));
    }
}

/// What is not there yet can be downloaded: a tag that is not installed, a file of the
/// Hub that is not on disk; and nothing that is there.
pub proof fn law_what_lacks_can_be_downloaded(m: ModelView)
    ensures
        m.flm is Some ==> downloadable(m) == !m.flm->0.installed,
        m.flm is None && m.path.len() > 0 ==> !downloadable(m),
        m.flm is None && m.path.len() == 0 ==> downloadable(m) == (m.remote_file() is Some),
{
}

/// A catalog with several arrangements is titled by the one that is shown, in turn.
pub proof fn law_arrangements_are_named(b: BrowserView, llama: LlamaCppBackend, flm: FlmBackend, prefix: Seq<Seq<char>>, sort: Sort)
    ensures
        b.runtimes.chosen() == Some(Backend::Flm(flm)) ==> {
            &&& catalog_title_of(b, prefix, 0, sort) == "Categories"@
            &&& catalog_title_of(b, prefix, 1, sort) == "Flat"@
            &&& catalog_title_of(b, prefix, 2, sort) == "Categories"@
        },
        b.runtimes.chosen() == Some(Backend::LlamaCpp(llama)) ==> catalog_title_of(
            b,
            prefix,
            0,
            sort,
        ) == folder_title(prefix, sort),
{
}

/// Each kind of entry has its own line: a folder its path, a file of the Hub its
/// address, a stored model its path on disk.
pub proof fn law_entries_have_their_lines(m: ModelView, r: RemoteView, pending: bool, date: Option<Seq<char>>)
    ensures
        m.remote == Some(r) ==> model_lines(m, pending, date) == remote_lines(m, r),
        m.remote is None && m.is_catalog_dir() ==> model_lines(m, pending, date).primary
            == text::join(m.catalog_path, " / "@),
        m.remote is None && !m.is_catalog_dir() ==> model_lines(m, pending, date).primary == m.path,
{
}

/// An option's line says its value, its default and its flag; a profile's says whether it
/// is built in and a favorite.
pub proof fn law_options_and_profiles_have_their_lines(o: OptionItemView, p: ProfileView)
    ensures
        option_lines(o).primary == o.key,
        option_lines(o).secondary == "current "@ + o.value + " · default "@ + o.default + " · "@
            + o.cli,
        profile_lines(p).primary == p.name,
        p.builtin ==> "built-in template"@.is_prefix_of(profile_lines(p).secondary),
        !p.builtin ==> "custom profile"@.is_prefix_of(profile_lines(p).secondary),
        p.favorite ==> " · ★"@.is_suffix_of(profile_lines(p).secondary),
{
    let s = profile_lines(p).secondary;
    let word = if p.builtin {
        "built-in template"@
    } else {
        "custom profile"@
    };
    assert(s.take(word.len() as int) =~= word);
    if p.favorite {
        assert(s.skip(word.len() as int) =~= " · ★"@);
    }
}

} // verus!
