//! The FastFlowLM backend: `flm` on an AMD NPU.
//!
//! Its catalog is a fixed list, installed or not, and a model is a tag such as
//! `qwen3:4b`: the tag is what is served, pulled and removed.

use vstd::prelude::*;
use crate::chars;
use crate::config::Defaults;
use crate::discovery::hf::TreeEntry;
use crate::discovery::online::cache::{bytes_there, BlobSizes};
use crate::discovery::online::{bare_entry, bare_model};
use crate::domain::options::{lits, KindView, OptionKind, OptionSpec, SpecView};
use crate::domain::{
    option_views, views, FlmModel, FlmView, Model, ModelView, OptionItem, OptionItemView, Runtime,
    RuntimeView,
};
use crate::number;
use crate::path;
use crate::profiles::registry::{Dialect, OptionSchema, DEFAULT};
use crate::profiles::templates::{Template, TemplateView};
use crate::runtime::command::{args_of, Command};
use crate::runtime::deletion::{Deletion, DeletionView};
use crate::runtime::llama_cpp::{cap, capped, context_bound, fit_context, fitted};
use crate::runtime::storage::{total_of, tree_bytes};
use crate::runtime::{
    flm_options, ContextView, LaunchContext, ModelTransfer, RuntimeBackend, RuntimeId,
    TransferView,
};
use crate::table::TextMap;
use crate::text;
use crate::text::{opt, strs};

verus! {

/// The runtime's name.
pub const NAME: &'static str = "FastFlowLM";

/// The group of what is installed.
pub const LOCAL_GROUP: &'static str = "local";

/// The group of what can be had.
pub const ONLINE_GROUP: &'static str = "online";

/// The group of models without labels.
pub const CHAT_GROUP: &'static str = "chat";

/// The directory of the managed catalog that holds the models' profiles.
pub const CATALOG_ROOT: &'static str = "fastflowlm";

// --- what flm prints ---------------------------------------------------------

/// The text from its first opening brace on; nothing where it has none.
pub open spec fn from_brace(s: Seq<char>) -> Seq<char> {
    match text::find_from(s, "{"@, 0) {
        Some(i) => s.skip(i),
        None => ""@,
    }
}

/// An output without the line that `flm` prints before its JSON.
pub fn strip_preamble(output: &str) -> (r: String)
    ensures
        r@ == from_brace(output@),
{
    proof {
        text::lemma_find_from(output@, "{"@, 0);
    }
    match text::find(output, "{") {
        Some(i) => {
            let n = output.unicode_len();
            let rest = text::piece(output, i, n);
            assert(rest@ =~= output@.skip(i as int));
            rest
        },
        None => text::copy(""),
    }
}

/// The JSON of a closing chunk in a server's log: what follows its marker.
pub open spec fn chunk_in(line: Seq<char>) -> Option<Seq<char>> {
    match text::find_from(line, "ChatCompletionChunk:"@, 0) {
        Some(i) => Some(chars::trimmed(line.skip(i + "ChatCompletionChunk:"@.len()))),
        None => None,
    }
}

/// The JSON of a chunk in a server's log.
pub fn chunk_payload(line: &str) -> (r: Option<String>)
    ensures
        opt(r) == chunk_in(line@),
{
    proof {
        text::lemma_find_from(line@, "ChatCompletionChunk:"@, 0);
    }
    match text::find(line, "ChatCompletionChunk:") {
        Some(i) => {
            let n = line.unicode_len();
            let k = "ChatCompletionChunk:".unicode_len();
            let rest = text::piece(line, i + k, n);
            assert(rest@ =~= line@.skip(i + k));
            Some(chars::trim(rest.as_str()))
        },
        None => None,
    }
}

/// A device of the NPU stack.
#[derive(Debug)]
pub struct Device {
    pub device: String,
    pub fw_major: u32,
    pub fw_minor: u32,
    pub fw_patch: u32,
}

impl Device {
    /// The device's name with its firmware, such as `accel0 (fw 1.1.2)`.
    pub fn label(&self) -> (r: String)
        ensures
            r@ == (match path::base_name(self.device@) {
                Some(n) => n,
                None => self.device@,
            }) + " (fw "@ + number::decimal(self.fw_major as nat) + "."@ + number::decimal(
                self.fw_minor as nat,
            ) + "."@ + number::decimal(self.fw_patch as nat) + ")"@,
    {
        let mut out = match path::file_name(self.device.as_str()) {
            Some(n) => n,
            None => self.device.clone(),
        };
        out.append(" (fw ");
        out.append(number::nat_text(self.fw_major as u64).as_str());
        out.append(".");
        out.append(number::nat_text(self.fw_minor as u64).as_str());
        out.append(".");
        out.append(number::nat_text(self.fw_patch as u64).as_str());
        out.append(")");
        out
    }
}

/// What `flm validate` says of the NPU stack.
#[derive(Debug)]
pub struct Validation {
    pub ready: bool,
    pub devices: Vec<Device>,
    pub amd_device_found: bool,
    pub kernel_ok: bool,
    pub memlock_ok: bool,
    pub all_fw_ok: bool,
}

/// The first thing that is not as it must be.
pub open spec fn problem_of(v: Validation) -> Option<Seq<char>> {
    if v.ready {
        None
    } else if !v.amd_device_found {
        Some("no AMD XDNA2 NPU found"@)
    } else if !v.kernel_ok {
        Some("the kernel or amdxdna driver is too old"@)
    } else if !v.all_fw_ok {
        Some("the NPU firmware is out of date"@)
    } else if !v.memlock_ok {
        Some("the memlock limit is too low (see /etc/security/limits.conf)"@)
    } else {
        Some("run `flm validate` for details"@)
    }
}

impl Validation {
    /// The first thing that is not as it must be.
    pub fn problem(&self) -> (r: Option<String>)
        ensures
            opt(r) == problem_of(*self),
    {
        if self.ready {
            return None;
        }
        Some(
            text::copy(
                if !self.amd_device_found {
                    "no AMD XDNA2 NPU found"
                } else if !self.kernel_ok {
                    "the kernel or amdxdna driver is too old"
                } else if !self.all_fw_ok {
                    "the NPU firmware is out of date"
                } else if !self.memlock_ok {
                    "the memlock limit is too low (see /etc/security/limits.conf)"
                } else {
                    "run `flm validate` for details"
                },
            ),
        )
    }
}

// --- catalog entries ---------------------------------------------------------

/// An entry of the catalog that `flm list` prints.
#[derive(Debug)]
pub struct Entry {
    pub name: String,
    pub installed: bool,
    pub default_context_length: Option<u64>,
    pub max_prefill_len: Option<u64>,
    /// The size on disk.
    pub size_bytes: u64,
    pub label: Vec<String>,
    pub vlm: bool,
    pub asr: bool,
    pub url: String,
    /// The files that the model's directory needs.
    pub files: Vec<String>,
    pub family: Option<String>,
    pub quantization_level: Option<String>,
}

/// The positions of an entry in the browser: below what is installed or what can
/// be had, and there, unless the arrangement is flat, below each of its labels.
pub open spec fn groups_of(e: Entry, flat: bool) -> Seq<Seq<Seq<char>>> {
    let top = if e.installed {
        LOCAL_GROUP@
    } else {
        ONLINE_GROUP@
    };
    if flat {
        seq![seq![top]]
    } else if e.label@.len() == 0 {
        seq![seq![top, CHAT_GROUP@]]
    } else {
        Seq::new(e.label@.len(), |i: int| seq![top, e.label@[i]@])
    }
}

/// The views of a list of positions.
pub open spec fn group_views(v: Seq<Vec<String>>) -> Seq<Seq<Seq<char>>> {
    v.map_values(|g: Vec<String>| strs(g@))
}

/// What stands before the first occurrence of a text, or everything.
pub open spec fn before(s: Seq<char>, p: Seq<char>) -> Seq<char> {
    match text::find_from(s, p, 0) {
        Some(i) => s.take(i),
        None => s,
    }
}

/// What stands behind the first occurrence of a text.
pub open spec fn behind(s: Seq<char>, p: Seq<char>) -> Option<Seq<char>> {
    match text::find_from(s, p, 0) {
        Some(i) => Some(s.skip(i + p.len())),
        None => None,
    }
}

fn text_before(s: &str, p: &str) -> (r: String)
    ensures
        r@ == before(s@, p@),
{
    proof {
        text::lemma_find_from(s@, p@, 0);
    }
    match text::find(s, p) {
        Some(i) => text::piece(s, 0, i),
        None => text::copy(s),
    }
}

fn text_behind(s: &str, p: &str) -> (r: Option<String>)
    ensures
        opt(r) == behind(s@, p@),
{
    proof {
        text::lemma_find_from(s@, p@, 0);
    }
    match text::find(s, p) {
        Some(i) => {
            let n = s.unicode_len();
            let k = p.unicode_len();
            let rest = text::piece(s, i + k, n);
            assert(rest@ =~= s@.skip(i + k));
            Some(rest)
        },
        None => None,
    }
}

/// The repository of an entry: what follows the Hub's host in its URL, up to the
/// revision, without surrounding slashes.
pub open spec fn repo_of(url: Seq<char>) -> Seq<char> {
    let base = before(url, "/resolve/"@);
    let id = match behind(base, "huggingface.co/"@) {
        Some(s) => s,
        None => base,
    };
    chars::trim_end_of(chars::trim_start_of(id, '/'), '/')
}

/// The revision of an entry: what its URL is pinned to, else `main`.
pub open spec fn revision_of(url: Seq<char>) -> Seq<char> {
    match behind(url, "/resolve/"@) {
        Some(s) => if chars::trim_end_of(s, '/').len() > 0 {
            chars::trim_end_of(s, '/')
        } else {
            "main"@
        },
        None => "main"@,
    }
}

/// The directory that `flm` keeps a repository in: the last segment of its id,
/// where that names one.
pub open spec fn dir_name(repo: Seq<char>) -> Option<Seq<char>> {
    let name = path::tail(repo);
    if name.len() == 0 || name == "."@ || name == ".."@ {
        None
    } else {
        Some(name)
    }
}

/// The directory that `flm` keeps a repository in.
pub fn repo_dir_name(repo: &str) -> (r: Option<String>)
    ensures
        opt(r) == dir_name(repo@),
{
    let name = path::last_piece(repo);
    if name.as_str().is_empty() || text::same(name.as_str(), ".") || text::same(
        name.as_str(),
        "..",
    ) {
        None
    } else {
        Some(name)
    }
}

/// Whether a character may stand in a file name made of a tag.
pub open spec fn tag_plain(c: char) -> bool {
    chars::is_ascii_alnum(c) || c == '.' || c == '-'
}

/// A tag as one path segment.
pub open spec fn tag_segment(tag: Seq<char>) -> Seq<char> {
    tag.map_values(
        |c: char|
            if tag_plain(c) {
                c
            } else {
                '_'
            },
    )
}

/// A tag as one path segment, such as `qwen3_4b`.
pub fn sanitize(tag: &str) -> (r: String)
    ensures
        r@ == tag_segment(tag@),
{
    let cs = text::chars(tag);
    let mut out = String::new();
    let mut i: usize = 0;
    while i < cs.len()
        invariant
            cs@ == tag@,
            i <= cs.len(),
            out@ == tag_segment(tag@).take(i as int),
        decreases cs.len() - i,
    {
        let c = cs[i];
        out.push(
            if chars::ascii_alnum(c) || c == '.' || c == '-' {
                c
            } else {
                '_'
            },
        );
        assert(out@ =~= tag_segment(tag@).take(i + 1));
        i += 1;
    }
    assert(tag_segment(tag@).take(i as int) =~= tag_segment(tag@));
    out
}

/// The managed directory of a tag's profiles: one per tag, wherever the browser
/// shows the model.
pub open spec fn profile_home(models_dir: Seq<char>, tag: Seq<char>) -> Seq<char> {
    path::joined(path::joined(models_dir, CATALOG_ROOT@), tag_segment(tag))
}

/// The managed directory of a tag's profiles.
pub fn profile_dir(models_dir: &str, tag: &str) -> (r: String)
    ensures
        r@ == profile_home(models_dir@, tag@),
{
    path::join(path::join(models_dir, CATALOG_ROOT).as_str(), sanitize(tag).as_str())
}

/// The model of an entry at one of its positions.
pub open spec fn model_at(e: Entry, group: Seq<Seq<char>>, root: Seq<char>, models_dir: Seq<char>) -> ModelView {
    let repo = repo_of(e.url@);
    ModelView {
        path: match dir_name(repo) {
            Some(name) => if e.installed {
                path::joined(root, name)
            } else {
                ""@
            },
            None => ""@,
        },
        catalog_dir: profile_home(models_dir, e.name@),
        size_bytes: e.size_bytes,
        quantization: opt(e.quantization_level),
        architecture: opt(e.family),
        context_length: e.default_context_length,
        has_chat_template: true,
        flm: Some(
            FlmView {
                tag: e.name@,
                installed: e.installed,
                repo,
                revision: revision_of(e.url@),
                files: strs(e.files@),
                labels: strs(e.label@),
                vlm: e.vlm,
                asr: e.asr,
                max_prefill_len: e.max_prefill_len,
            },
        ),
        ..bare_entry("flm:"@ + e.name@, e.name@, group.push(e.name@), NAME@)
    }
}

impl Entry {
    /// The positions of the entry in the browser.
    pub fn groups(&self, flat: bool) -> (r: Vec<Vec<String>>)
        ensures
            group_views(r@) == groups_of(*self, flat),
    {
        let top = if self.installed {
            LOCAL_GROUP
        } else {
            ONLINE_GROUP
        };
        let mut out: Vec<Vec<String>> = Vec::new();
        if flat {
            let mut g: Vec<String> = Vec::new();
            g.push(text::copy(top));
            assert(strs(g@) =~= seq![top@]);
            out.push(g);
            assert(group_views(out@) =~= seq![seq![top@]]);
            return out;
        }
        if self.label.len() == 0 {
            let mut g: Vec<String> = Vec::new();
            g.push(text::copy(top));
            g.push(text::copy(CHAT_GROUP));
            assert(strs(g@) =~= seq![top@, CHAT_GROUP@]);
            out.push(g);
            assert(group_views(out@) =~= seq![seq![top@, CHAT_GROUP@]]);
            return out;
        }
        let mut i: usize = 0;
        while i < self.label.len()
            invariant
                i <= self.label.len(),
                out.len() == i,
                forall|j: int|
                    0 <= j < i ==> strs((#[trigger] out@[j])@) == seq![top@, self.label@[j]@],
            decreases self.label.len() - i,
        {
            let mut g: Vec<String> = Vec::new();
            g.push(text::copy(top));
            g.push(self.label[i].clone());
            assert(strs(g@) =~= seq![top@, self.label@[i as int]@]);
            out.push(g);
            i += 1;
        }
        assert(group_views(out@) =~= groups_of(*self, flat));
        out
    }

    /// The repository of the entry, with its owner.
    pub fn repo(&self) -> (r: String)
        ensures
            r@ == repo_of(self.url@),
    {
        let base = text_before(self.url.as_str(), "/resolve/");
        let id = match text_behind(base.as_str(), "huggingface.co/") {
            Some(s) => s,
            None => base,
        };
        let front = chars::trim_start_char(id.as_str(), '/');
        chars::trim_end_char(front.as_str(), '/')
    }

    /// The revision to download from.
    pub fn revision(&self) -> (r: String)
        ensures
            r@ == revision_of(self.url@),
    {
        match text_behind(self.url.as_str(), "/resolve/") {
            Some(s) => {
                let pinned = chars::trim_end_char(s.as_str(), '/');
                if pinned.as_str().is_empty() {
                    text::copy("main")
                } else {
                    pinned
                }
            },
            None => text::copy("main"),
        }
    }

    /// The model of the entry at one of its positions.
    pub fn to_model(&self, group: &Vec<String>, root: &str, models_dir: &str) -> (r: Model)
        ensures
            r@ == model_at(*self, strs(group@), root@, models_dir@),
    {
        let repo = self.repo();
        let mut place = text::copy_all(group);
        let ghost at = strs(place@);
        place.push(self.name.clone());
        assert(strs(place@) =~= at.push(self.name@));
        let mut model = bare_model(
            text::cat("flm:", self.name.as_str()),
            self.name.clone(),
            place,
            text::copy(NAME),
        );
        if let Some(name) = repo_dir_name(repo.as_str()) {
            if self.installed {
                model.path = path::join(root, name.as_str());
            }
        }
        model.catalog_dir = profile_dir(models_dir, self.name.as_str());
        model.size_bytes = self.size_bytes;
        model.quantization = text::copy_opt(&self.quantization_level);
        model.architecture = text::copy_opt(&self.family);
        model.context_length = self.default_context_length;
        model.has_chat_template = true;
        model.flm = Some(
            FlmModel {
                tag: self.name.clone(),
                installed: self.installed,
                repo,
                revision: self.revision(),
                files: text::copy_all(&self.files),
                labels: text::copy_all(&self.label),
                vlm: self.vlm,
                asr: self.asr,
                max_prefill_len: self.max_prefill_len,
            },
        );
        model
    }
}

/// The models of an entry at the first `n` of its positions.
pub open spec fn at_groups(e: Entry, groups: Seq<Seq<Seq<char>>>, root: Seq<char>, models_dir: Seq<char>) -> Seq<ModelView> {
    groups.map_values(|g: Seq<Seq<char>>| model_at(e, g, root, models_dir))
}

/// The models of the first `n` entries, one for each position.
pub open spec fn arranged(entries: Seq<Entry>, flat: bool, root: Seq<char>, models_dir: Seq<char>, n: nat) -> Seq<ModelView>
    decreases n,
{
    if n == 0 {
        Seq::<ModelView>::empty()
    } else {
        arranged(entries, flat, root, models_dir, (n - 1) as nat) + at_groups(
            entries[n - 1],
            groups_of(entries[n - 1], flat),
            root,
            models_dir,
        )
    }
}

/// The catalog in one of its arrangements: by label, or flat.
pub fn arrange(entries: &Vec<Entry>, view: usize, root: &str, models_dir: &str) -> (r: Vec<Model>)
    ensures
        views(r@) == arranged(entries@, view == 1, root@, models_dir@, entries@.len()),
{
    let flat = view == 1;
    let mut out: Vec<Model> = Vec::new();
    let mut i: usize = 0;
    assert(views(out@) =~= arranged(entries@, flat, root@, models_dir@, 0));
    while i < entries.len()
        invariant
            i <= entries.len(),
            views(out@) == arranged(entries@, flat, root@, models_dir@, i as nat),
        decreases entries.len() - i,
    {
        let ghost start = views(out@);
        let groups = entries[i].groups(flat);
        let ghost wanted = groups_of(entries@[i as int], flat);
        assert(group_views(groups@).len() == groups@.len());
        let ghost models = at_groups(entries@[i as int], wanted, root@, models_dir@);
        let mut k: usize = 0;
        assert(views(out@) =~= start + models.take(0));
        while k < groups.len()
            invariant
                i < entries.len(),
                k <= groups.len(),
                wanted == group_views(groups@),
                models == at_groups(entries@[i as int], wanted, root@, models_dir@),
                views(out@) == start + models.take(k as int),
            decreases groups.len() - k,
        {
            assert(wanted[k as int] == strs(groups@[k as int]@));
            let ghost had = views(out@);
            out.push(entries[i].to_model(&groups[k], root, models_dir));
            assert(views(out@) =~= had.push(models[k as int]));
            assert(views(out@) =~= start + models.take(k + 1));
            k += 1;
        }
        assert(models.take(k as int) =~= models);
        i += 1;
    }
    out
}

/// Wherever an entry's model is shown, its profiles are the same: one identity,
/// one directory.
pub proof fn law_positions_share_profiles(e: Entry, a: Seq<Seq<char>>, b: Seq<Seq<char>>, root: Seq<char>, models_dir: Seq<char>)
    ensures
        model_at(e, a, root, models_dir).profile_key() == model_at(e, b, root, models_dir).profile_key(),
        model_at(e, a, root, models_dir).catalog_dir == model_at(e, b, root, models_dir).catalog_dir,
        model_at(e, a, root, models_dir).is_model(),
{
}

/// The flat arrangement shows each entry once, at its own tag.
pub proof fn law_flat_shows_each_once(entries: Seq<Entry>, root: Seq<char>, models_dir: Seq<char>, n: nat)
    requires
        n <= entries.len(),
    ensures
        arranged(entries, true, root, models_dir, n).len() == n,
        forall|i: int|
            0 <= i < n ==> (#[trigger] arranged(entries, true, root, models_dir, n)[i]).name
                == entries[i].name@,
    decreases n,
{
    if n > 0 {
        law_flat_shows_each_once(entries, root, models_dir, (n - 1) as nat);
        let rest = arranged(entries, true, root, models_dir, (n - 1) as nat);
        let all = arranged(entries, true, root, models_dir, n);
        assert forall|i: int| 0 <= i < n implies (#[trigger] all[i]).name == entries[i].name@ by {
            if i < n - 1 {
                assert(all[i] == rest[i]);
            }
        }
    }
}

// --- on disk -----------------------------------------------------------------

/// The directory of a model below the model root, where the root is absolute and
/// the repository names one. A root that is not absolute locates nothing, and the
/// root itself is never a model's directory.
pub open spec fn directory_of(root: Seq<char>, model: ModelView) -> Option<Seq<char>> {
    match model.flm {
        None => None,
        Some(f) => match dir_name(f.repo) {
            None => None,
            Some(name) => {
                let dir = path::joined(root, name);
                let up = path::parent_of(dir);
                if path::absolute(root) && up is Some && path::components(up->0)
                    == path::components(root) {
                    Some(dir)
                } else {
                    None
                }
            },
        },
    }
}

/// The directory of a model below a model root.
pub fn model_dir_in(root: &str, model: &Model) -> (r: Option<String>)
    ensures
        opt(r) == directory_of(root@, model@),
{
    let f = match &model.flm {
        None => return None,
        Some(f) => f,
    };
    let name = match repo_dir_name(f.repo.as_str()) {
        None => return None,
        Some(n) => n,
    };
    if !path::is_absolute(root) {
        return None;
    }
    let dir = path::join(root, name.as_str());
    match path::parent(dir.as_str()) {
        Some(up) => if path::same(up.as_str(), root) {
            Some(dir)
        } else {
            None
        },
        None => None,
    }
}

/// A model's directory is exactly one component below the model root: never the
/// root itself, and never outside it.
pub proof fn law_model_directory_is_below_root(root: Seq<char>, model: ModelView)
    requires
        directory_of(root, model) is Some,
    ensures
        path::components(directory_of(root, model)->0).len() == path::components(root).len() + 1,
        path::components(root).is_prefix_of(path::components(directory_of(root, model)->0)),
{
    let repo = model.flm->0.repo;
    let name = path::tail(repo);
    path::lemma_tail_has_no_separator(repo);
    reveal_strlit(".");
    assert("."@ =~= seq!['.']);
    path::law_join_adds_one_component(root, name);
    let all = path::components(root).push(name);
    assert(path::components(root) =~= all.subrange(0, path::components(root).len() as int));
}

/// The model root: what the environment names, else below the user's home.
pub open spec fn root_in(named: Option<String>, home: Option<String>) -> Seq<char> {
    match (named, home) {
        (Some(p), _) => p@,
        (None, Some(h)) => path::joined(h@, ".config/flm/models"@),
        (None, None) => ""@,
    }
}

/// The model root of the environment.
pub fn model_root(named: &Option<String>, home: &Option<String>) -> (r: String)
    ensures
        r@ == root_in(*named, *home),
{
    match named {
        Some(p) => p.clone(),
        None => match home {
            Some(h) => path::join(h.as_str(), ".config/flm/models"),
            None => text::copy(""),
        },
    }
}

/// The directory of a model below the model root of the environment.
pub fn model_dir(named: &Option<String>, home: &Option<String>, model: &Model) -> (r: Option<String>)
    ensures
        opt(r) == directory_of(root_in(*named, *home), model@),
{
    model_dir_in(model_root(named, home).as_str(), model)
}

/// Whether another installed tag is stored in the directory.
pub open spec fn shares_directory(root: Seq<char>, model: ModelView, other: ModelView, dir: Seq<char>) -> bool {
    other.flm is Some && other.flm->0.installed && (model.flm is Some ==> other.flm->0.tag
        != model.flm->0.tag) && directory_of(root, other) is Some && path::components(
        directory_of(root, other)->0,
    ) == path::components(dir)
}

/// Whether any entry of the catalog shares the directory.
pub open spec fn is_shared(root: Seq<char>, model: ModelView, catalog: Seq<ModelView>, dir: Seq<char>) -> bool {
    exists|i: int| 0 <= i < catalog.len() && shares_directory(root, model, #[trigger] catalog[i], dir)
}

/// The directory tree that removing a model deletes: its own, where it exists and
/// no other installed model is stored there.
pub fn deletion_tree(root: &str, model: &Model, catalog: &Vec<Model>, exists_on_disk: bool) -> (r: Option<String>)
    ensures
        opt(r) == match directory_of(root@, model@) {
            Some(dir) => if exists_on_disk && !is_shared(root@, model@, views(catalog@), dir) {
                Some(dir)
            } else {
                None
            },
            None => None,
        },
{
    let dir = match model_dir_in(root, model) {
        Some(d) => d,
        None => return None,
    };
    if !exists_on_disk {
        return None;
    }
    let ghost all = views(catalog@);
    let mut i: usize = 0;
    while i < catalog.len()
        invariant
            i <= catalog.len(),
            all == views(catalog@),
            directory_of(root@, model@) == Some(dir@),
            exists_on_disk,
            forall|j: int|
                0 <= j < i ==> !shares_directory(root@, model@, #[trigger] all[j], dir@),
        decreases catalog.len() - i,
    {
        assert(all[i as int] == catalog@[i as int]@);
        if let Some(f) = &catalog[i].flm {
            let own = match &model.flm {
                Some(m) => text::same(f.tag.as_str(), m.tag.as_str()),
                None => false,
            };
            if f.installed && !own {
                if let Some(other) = model_dir_in(root, &catalog[i]) {
                    if path::same(other.as_str(), dir.as_str()) {
                        assert(shares_directory(root@, model@, all[i as int], dir@));
                        return None;
                    }
                }
            }
        }
        i += 1;
    }
    Some(dir)
}

// --- downloading -------------------------------------------------------------

/// The name of a file while it is downloaded.
pub fn partial_path(dir: &str, file: &str) -> (r: String)
    ensures
        r@ == path::joined(dir@, file@ + ".llmctl-part"@),
{
    path::join(dir, text::cat(file, ".llmctl-part").as_str())
}

/// The size of a file in a repository's tree.
pub open spec fn tree_size(tree: Seq<TreeEntry>, file: Seq<char>, from: int) -> Option<u64>
    decreases tree.len() - from,
{
    if from < 0 || from >= tree.len() {
        None
    } else if tree[from].path@ == file {
        Some(tree[from].size)
    } else {
        tree_size(tree, file, from + 1)
    }
}

/// The first of the files from `from` on that the tree does not hold.
pub open spec fn missing_file(tree: Seq<TreeEntry>, files: Seq<Seq<char>>, from: int) -> Option<Seq<char>>
    decreases files.len() - from,
{
    if from < 0 || from >= files.len() {
        None
    } else if tree_size(tree, files[from], 0) is None {
        Some(files[from])
    } else {
        missing_file(tree, files, from + 1)
    }
}

fn find_size(tree: &Vec<TreeEntry>, file: &str) -> (r: Option<u64>)
    ensures
        r == tree_size(tree@, file@, 0),
{
    let mut i: usize = 0;
    while i < tree.len()
        invariant
            i <= tree.len(),
            tree_size(tree@, file@, 0) == tree_size(tree@, file@, i as int),
        decreases tree.len() - i,
    {
        if text::same(tree[i].path.as_str(), file) {
            return Some(tree[i].size);
        }
        i += 1;
    }
    None
}

/// The files of a model with their sizes, or which of them the repository lacks.
pub fn file_sizes(repo: &str, revision: &str, files: &Vec<String>, tree: &Vec<TreeEntry>) -> (r: Result<Vec<(String, u64)>, String>)
    ensures
        match r {
            Ok(v) => missing_file(tree@, strs(files@), 0) is None && v@.len() == files@.len()
                && forall|i: int|
                0 <= i < v@.len() ==> (#[trigger] v@[i]).0@ == files@[i]@ && tree_size(
                    tree@,
                    files@[i]@,
                    0,
                ) == Some(v@[i].1),
            Err(e) => missing_file(tree@, strs(files@), 0) is Some && e@ == "hf://"@ + repo@ + "@"@
                + revision@ + " has no file named "@ + missing_file(tree@, strs(files@), 0)->0,
        },
{
    let ghost all = strs(files@);
    let mut out: Vec<(String, u64)> = Vec::new();
    let mut i: usize = 0;
    while i < files.len()
        invariant
            i <= files.len(),
            all == strs(files@),
            missing_file(tree@, all, 0) == missing_file(tree@, all, i as int),
            out@.len() == i,
            forall|j: int|
                0 <= j < i ==> (#[trigger] out@[j]).0@ == files@[j]@ && tree_size(
                    tree@,
                    files@[j]@,
                    0,
                ) == Some(out@[j].1),
        decreases files.len() - i,
    {
        assert(all[i as int] == files@[i as int]@);
        match find_size(tree, files[i].as_str()) {
            Some(n) => out.push((files[i].clone(), n)),
            None => {
                let mut e = text::cat3("hf://", repo, "@");
                e.append(revision);
                e.append(" has no file named ");
                e.append(files[i].as_str());
                return Err(e);
            },
        }
        i += 1;
    }
    Ok(out)
}

/// Where each file of a model goes, with its size.
pub fn expected_files(dir: &str, sizes: &Vec<(String, u64)>) -> (r: Vec<(String, u64)>)
    ensures
        r@.len() == sizes@.len(),
        forall|i: int|
            0 <= i < r@.len() ==> (#[trigger] r@[i]).0@ == path::joined(dir@, sizes@[i].0@)
                && r@[i].1 == sizes@[i].1,
{
    let mut out: Vec<(String, u64)> = Vec::new();
    let mut i: usize = 0;
    while i < sizes.len()
        invariant
            i <= sizes.len(),
            out@.len() == i,
            forall|j: int|
                0 <= j < i ==> (#[trigger] out@[j]).0@ == path::joined(dir@, sizes@[j].0@)
                    && out@[j].1 == sizes@[j].1,
        decreases sizes.len() - i,
    {
        out.push((path::join(dir, sizes[i].0.as_str()), sizes[i].1));
        i += 1;
    }
    out
}

/// The sizes of the first `n` files together.
pub open spec fn sizes_upto(sizes: Seq<(String, u64)>, n: nat) -> nat
    decreases n,
{
    if n == 0 {
        0
    } else {
        sizes_upto(sizes, (n - 1) as nat) + sizes[n - 1].1 as nat
    }
}

/// How much of the first `n` files is on disk.
pub open spec fn stored_upto(sizes: Seq<(String, u64)>, disk: Seq<BlobSizes>, n: nat) -> nat
    decreases n,
{
    if n == 0 {
        0
    } else {
        stored_upto(sizes, disk, (n - 1) as nat) + bytes_there(sizes[n - 1].1, disk[n - 1]) as nat
    }
}

proof fn lemma_sizes_monotone(sizes: Seq<(String, u64)>, i: nat, n: nat)
    requires
        i <= n,
    ensures
        sizes_upto(sizes, i) <= sizes_upto(sizes, n),
    decreases n,
{
    if i < n {
        lemma_sizes_monotone(sizes, i, (n - 1) as nat);
    }
}

/// No more of a model is on disk than the model has.
pub proof fn law_stored_is_bounded(sizes: Seq<(String, u64)>, disk: Seq<BlobSizes>, n: nat)
    ensures
        stored_upto(sizes, disk, n) <= sizes_upto(sizes, n),
    decreases n,
{
    if n > 0 {
        law_stored_is_bounded(sizes, disk, (n - 1) as nat);
    }
}

/// The size of a model's download, or why there is nothing to download. Sizes that
/// cannot be added up are refused.
pub fn download_total(repo: &str, sizes: &Vec<(String, u64)>) -> (r: Result<u64, String>)
    ensures
        match r {
            Ok(n) => n == sizes_upto(sizes@, sizes@.len()) && n > 0,
            Err(e) => if sizes_upto(sizes@, sizes@.len()) == 0 {
                e@ == "hf://"@ + repo@ + " reports no downloadable files"@
            } else {
                sizes_upto(sizes@, sizes@.len()) > u64::MAX && e@ == "hf://"@ + repo@
                    + " reports impossible file sizes"@
            },
        },
{
    let mut total: u64 = 0;
    let mut i: usize = 0;
    while i < sizes.len()
        invariant
            i <= sizes.len(),
            total == sizes_upto(sizes@, i as nat),
        decreases sizes.len() - i,
    {
        if sizes[i].1 > u64::MAX - total {
            proof {
                lemma_sizes_monotone(sizes@, (i + 1) as nat, sizes@.len());
            }
            return Err(text::cat3("hf://", repo, " reports impossible file sizes"));
        }
        total = total + sizes[i].1;
        i += 1;
    }
    if total == 0 {
        return Err(text::cat3("hf://", repo, " reports no downloadable files"));
    }
    Ok(total)
}

/// How much of a model is on disk, from what is there of each file: all of a
/// complete file, else what its scratch file holds.
pub fn stored_bytes(sizes: &Vec<(String, u64)>, disk: &Vec<BlobSizes>) -> (r: u64)
    requires
        disk@.len() == sizes@.len(),
        sizes_upto(sizes@, sizes@.len()) <= u64::MAX,
    ensures
        r == stored_upto(sizes@, disk@, sizes@.len()),
{
    let mut total: u64 = 0;
    let mut i: usize = 0;
    while i < sizes.len()
        invariant
            i <= sizes.len(),
            disk@.len() == sizes@.len(),
            sizes_upto(sizes@, sizes@.len()) <= u64::MAX,
            total == stored_upto(sizes@, disk@, i as nat),
        decreases sizes.len() - i,
    {
        proof {
            lemma_sizes_monotone(sizes@, (i + 1) as nat, sizes@.len());
            law_stored_is_bounded(sizes@, disk@, (i + 1) as nat);
        }
        let complete = match disk[i].complete {
            Some(n) => n == sizes[i].1,
            None => false,
        };
        let there: u64 = if complete {
            sizes[i].1
        } else {
            match disk[i].incomplete {
                Some(n) => if n < sizes[i].1 {
                    n
                } else {
                    sizes[i].1
                },
                None => 0,
            }
        };
        total = total + there;
        i += 1;
    }
    total
}

/// What to do with a file of a download.
#[derive(Debug, Clone, Copy, PartialEq, Eq, Structural)]
pub enum FileStep {
    /// The user cancelled.
    Stop,
    /// It is there, byte for byte.
    Skip,
    Fetch,
}

/// What to do with a file of a download, given what is on disk under its name.
pub fn next_file(cancelled: bool, size: u64, on_disk: Option<u64>) -> (r: FileStep)
    ensures
        r == (if cancelled {
            FileStep::Stop
        } else if on_disk == Some(size) {
            FileStep::Skip
        } else {
            FileStep::Fetch
        }),
{
    if cancelled {
        return FileStep::Stop;
    }
    match on_disk {
        Some(n) => if n == size {
            FileStep::Skip
        } else {
            FileStep::Fetch
        },
        None => FileStep::Fetch,
    }
}

/// How a download ended.
#[derive(Debug)]
pub enum DownloadOutcome {
    Downloaded(String),
    Cancelled,
}

/// The progress to report while a file arrives: what the other files have, and
/// the bytes of this one, up to the whole.
pub fn overall_progress(carried: u64, bytes: u64, total: u64) -> (r: u64)
    ensures
        r == if carried + bytes < total {
            (carried + bytes) as u64
        } else {
            total
        },
{
    let sum: u64 = carried.saturating_add(bytes);
    if sum < total {
        sum
    } else {
        total
    }
}

// --- the backend -------------------------------------------------------------

/// FastFlowLM as it was found, with the state of the NPU stack.
#[derive(Debug)]
pub struct FlmBackend {
    pub runtime: Runtime,
    /// The driver, the firmware and the limits are as they must be.
    pub npu_ready: bool,
    /// Why not, where they are not.
    pub npu_problem: Option<String>,
}

/// What asking the system for FastFlowLM gave.
#[derive(Debug)]
pub struct FlmProbe {
    pub binary_path: Option<String>,
    pub version: Option<String>,
    pub validation: Option<Validation>,
}

/// The label of a device.
pub open spec fn device_label_of(d: Device) -> Seq<char> {
    (match path::base_name(d.device@) {
        Some(n) => n,
        None => d.device@,
    }) + " (fw "@ + number::decimal(d.fw_major as nat) + "."@ + number::decimal(d.fw_minor as nat)
        + "."@ + number::decimal(d.fw_patch as nat) + ")"@
}

impl FlmBackend {
    /// FastFlowLM from what asking the system gave. The benchmark tool is the
    /// binary itself.
    pub fn discover(probe: FlmProbe) -> (r: FlmBackend)
        ensures
            r.runtime@ == (RuntimeView {
                name: NAME@,
                description: "AMD NPU inference via flm"@,
                version: match probe.version {
                    Some(v) => Some("flm "@ + v@),
                    None => None,
                },
                binary_path: opt(probe.binary_path),
                bench_path: opt(probe.binary_path),
                formats: seq!["NPU"@],
                devices: match probe.validation {
                    Some(v) => v.devices@.map_values(|d: Device| device_label_of(d)),
                    None => Seq::<Seq<char>>::empty(),
                },
            }),
            r.npu_ready == (probe.validation is Some && probe.validation->0.ready),
            opt(r.npu_problem) == match probe.validation {
                Some(v) => problem_of(v),
                None => None,
            },
    {
        let mut devices: Vec<String> = Vec::new();
        let mut npu_ready = false;
        let mut npu_problem: Option<String> = None;
        if let Some(v) = &probe.validation {
            let mut i: usize = 0;
            while i < v.devices.len()
                invariant
                    i <= v.devices.len(),
                    devices.len() == i,
                    forall|j: int|
                        0 <= j < i ==> (#[trigger] devices@[j])@ == device_label_of(v.devices@[j]),
                decreases v.devices.len() - i,
            {
                devices.push(v.devices[i].label());
                i += 1;
            }
            assert(strs(devices@) =~= v.devices@.map_values(|d: Device| device_label_of(d)));
            npu_ready = v.ready;
            npu_problem = v.problem();
        } else {
            assert(strs(devices@) =~= Seq::<Seq<char>>::empty());
        }
        let mut formats: Vec<String> = Vec::new();
        formats.push(text::copy("NPU"));
        assert(strs(formats@) =~= seq!["NPU"@]);
        let version = match &probe.version {
            Some(v) => Some(text::cat("flm ", v.as_str())),
            None => None,
        };
        FlmBackend {
            runtime: Runtime {
                name: text::copy(NAME),
                description: text::copy("AMD NPU inference via flm"),
                version,
                bench_path: text::copy_opt(&probe.binary_path),
                binary_path: probe.binary_path,
                formats,
                devices,
            },
            npu_ready,
            npu_problem,
        }
    }

    /// On what a launch runs: always the NPU.
    pub fn device_label(&self) -> (r: Option<String>)
        ensures
            opt(r) == Some("NPU"@),
    {
        Some(text::copy("NPU"))
    }

    /// Whether a model can be downloaded: it is one of the catalog and not
    /// installed.
    pub fn download_available(&self, model: &Model) -> (r: bool)
        ensures
            r == (model@.flm is Some && !model@.flm->0.installed),
    {
        match &model.flm {
            Some(f) => !f.installed,
            None => false,
        }
    }

    /// The transfer that fetches a model which is not installed into its directory
    /// below the model root of the environment.
    pub fn model_transfer(&self, model: &Model, named: &Option<String>, home: &Option<String>) -> (r: Option<ModelTransfer>)
        ensures
            match r {
                Some(t) => model@.flm is Some && !model@.flm->0.installed && t@ == (TransferView {
                    runtime: self.descriptor_view().name,
                    model: model@,
                    targets: match directory_of(root_in(*named, *home), model@) {
                        Some(dir) => seq![dir],
                        None => Seq::<Seq<char>>::empty(),
                    },
                }),
                None => model@.flm is None || model@.flm->0.installed,
            },
    {
        if !self.download_available(model) {
            return None;
        }
        let mut targets: Vec<String> = Vec::new();
        if let Some(dir) = model_dir(named, home, model) {
            targets.push(dir);
        }
        assert(strs(targets@) =~= match directory_of(root_in(*named, *home), model@) {
            Some(dir) => seq![dir],
            None => Seq::<Seq<char>>::empty(),
        });
        Some(ModelTransfer { runtime: self.id(), model: model.clone(), targets })
    }
}

/// The tag to serve; the name where the entry has none.
pub open spec fn served_tag(model: ModelView) -> Seq<char> {
    match model.flm {
        Some(f) => f.tag,
        None => model.name,
    }
}

fn tag(model: &Model) -> (r: String)
    ensures
        r@ == served_tag(model@),
{
    match &model.flm {
        Some(f) => f.tag.clone(),
        None => model.name.clone(),
    }
}

/// Whether an option is for a client, and not for a server alone.
pub open spec fn client_key(key: Seq<char>) -> bool {
    key != "host"@ && key != "port"@ && key != "q-len"@ && key != "socket"@ && key != "cors"@
}

/// The options that a client takes, or of a benchmark the power mode alone.
pub open spec fn client_options(options: Seq<OptionItemView>, bench: bool) -> Seq<OptionItemView>
    decreases options.len(),
{
    if options.len() == 0 {
        options
    } else {
        let rest = client_options(options.drop_last(), bench);
        let o = options.last();
        let keep = if bench {
            o.key == "pmode"@
        } else {
            client_key(o.key)
        };
        if keep {
            rest.push(o)
        } else {
            rest
        }
    }
}

fn keep_client_options(options: &Vec<OptionItem>, bench: bool) -> (r: Vec<OptionItem>)
    ensures
        option_views(r@) == client_options(option_views(options@), bench),
{
    let ghost all = option_views(options@);
    let mut out: Vec<OptionItem> = Vec::new();
    let mut i: usize = 0;
    assert(option_views(out@) =~= client_options(all.take(0), bench));
    while i < options.len()
        invariant
            i <= options.len(),
            all == option_views(options@),
            option_views(out@) == client_options(all.take(i as int), bench),
        decreases options.len() - i,
    {
        proof {
            assert(all.take(i + 1).drop_last() =~= all.take(i as int));
            assert(all.take(i + 1).last() == options@[i as int]@);
        }
        let key = options[i].key.as_str();
        let keep = if bench {
            text::same(key, "pmode")
        } else {
            !text::same(key, "host") && !text::same(key, "port") && !text::same(key, "q-len")
                && !text::same(key, "socket") && !text::same(key, "cors")
        };
        if keep {
            let ghost had = option_views(out@);
            out.push(options[i].clone());
            assert(option_views(out@) =~= had.push(all[i as int]));
        }
        i += 1;
    }
    assert(all.take(i as int) =~= all);
    out
}

/// What an option starts at: what the catalog says of the model, the configured
/// host, else the value at which the option is left off.
pub open spec fn catalog_default(spec: SpecView, model: ModelView, host: Seq<char>) -> Seq<char> {
    if spec.key == "ctx-len"@ {
        match model.context_length {
            Some(c) => number::decimal(c as nat),
            None => spec.default,
        }
    } else if spec.key == "prefill-chunk-len"@ {
        match model.flm {
            Some(f) => match f.max_prefill_len {
                Some(n) => number::decimal(n as nat),
                None => DEFAULT@,
            },
            None => DEFAULT@,
        }
    } else if spec.key == "host"@ {
        host
    } else {
        match flm_options::omitted_at(spec.key) {
            Some(t) => t,
            None => spec.default,
        }
    }
}

/// What values an option takes for a model: the context is bounded by what the
/// model was trained for.
pub open spec fn model_kind(spec: SpecView, model: ModelView) -> KindView {
    match model.context_length {
        Some(c) => if spec.key == "ctx-len"@ {
            KindView::Int(Some(0), Some(context_bound(c)))
        } else {
            spec.kind
        },
        None => spec.kind,
    }
}

/// Why the runtime cannot launch: no binary, or an NPU stack that is not ready.
pub open spec fn obstacle(b: FlmBackend) -> Option<Seq<char>> {
    if b.runtime.binary_path is None {
        Some("flm binary not found on PATH"@)
    } else if !b.npu_ready {
        Some(
            "the AMD NPU stack is not ready: "@ + match b.npu_problem {
                Some(p) => p@,
                None => "run `flm validate`"@,
            },
        )
    } else {
        None
    }
}

impl FlmBackend {
    /// What removing a model deletes: the directory of its own, with everything in
    /// it. `files` are the lengths of the files there, where it exists.
    pub fn deletion(&self, root: &str, model: &Model, catalog: &Vec<Model>, files: &Option<Vec<u64>>) -> (r: Option<Deletion>)
        requires
            files is Some ==> total_of(files->0@, files->0@.len()) <= u64::MAX,
        ensures
            match (directory_of(root@, model@), files) {
                (Some(dir), Some(lengths)) => if is_shared(root@, model@, views(catalog@), dir) {
                    r is None
                } else {
                    r is Some && r->0@ == (DeletionView {
                        files: Seq::<Seq<char>>::empty(),
                        trees: seq![dir],
                        prune: Seq::<Seq<char>>::empty(),
                        husk: None,
                        bytes: total_of(lengths@, lengths@.len()) as u64,
                    })
                },
                _ => r is None,
            },
    {
        match (deletion_tree(root, model, catalog, files.is_some()), files) {
            (Some(dir), Some(lengths)) => {
                let bytes = tree_bytes(lengths);
                let mut trees: Vec<String> = Vec::new();
                let ghost tree = dir@;
                trees.push(dir);
                let plan = Deletion {
                    files: Vec::new(),
                    trees,
                    prune: Vec::new(),
                    husk: None,
                    bytes,
                };
                assert(plan@.files =~= Seq::<Seq<char>>::empty());
                assert(plan@.prune =~= Seq::<Seq<char>>::empty());
                assert(plan@.trees =~= seq![tree]);
                Some(plan)
            },
            _ => None,
        }
    }
}

/// The longest prefill of a model, where it is known.
pub open spec fn prefill_limit(model: ModelView) -> Option<u64> {
    match model.flm {
        Some(f) => f.max_prefill_len,
        None => None,
    }
}

/// A value within what a model supports: its trained context and its longest
/// prefill.
pub open spec fn supported(key: Seq<char>, value: Seq<char>, model: ModelView) -> Seq<char> {
    if key == "prefill-chunk-len"@ {
        capped(value, prefill_limit(model))
    } else {
        fitted(key, value, model, "ctx-len"@)
    }
}

impl RuntimeBackend for FlmBackend {
    open spec fn descriptor_view(&self) -> RuntimeView {
        self.runtime@
    }

    open spec fn dialect(&self) -> Dialect {
        Dialect::Flm
    }

    open spec fn template_table(&self) -> Seq<TemplateView> {
        flm_options::template_table()
    }

    open spec fn kind_for(&self, spec: SpecView, model: ModelView) -> KindView {
        model_kind(spec, model)
    }

    open spec fn default_for(&self, spec: SpecView, model: ModelView, host: Seq<char>, port: u16) -> Seq<char> {
        catalog_default(spec, model, host)
    }

    open spec fn normalized(&self, key: Seq<char>, value: Seq<char>) -> Seq<char> {
        value
    }

    open spec fn recovered(&self, key: Seq<char>, stored: Map<Seq<char>, Seq<char>>) -> Option<Seq<char>> {
        None
    }

    open spec fn clamped(&self, key: Seq<char>, value: Seq<char>, model: ModelView) -> Seq<char> {
        supported(key, value, model)
    }

    open spec fn launch_argv(&self, ctx: ContextView) -> Seq<Seq<char>> {
        seq![ctx.binary, "serve"@, served_tag(ctx.model), "--quiet"@] + args_of(
            Dialect::Flm,
            ctx.options,
        )
    }

    open spec fn chat_spec(&self, ctx: ContextView) -> Option<Seq<Seq<char>>> {
        Some(
            seq![ctx.binary, "run"@, served_tag(ctx.model)] + args_of(
                Dialect::Flm,
                client_options(ctx.options, false),
            ),
        )
    }

    open spec fn bench_spec(&self, ctx: ContextView) -> Option<Seq<Seq<char>>> {
        Some(
            seq![ctx.binary, "bench"@, served_tag(ctx.model)] + args_of(
                Dialect::Flm,
                client_options(ctx.options, true),
            ),
        )
    }

    open spec fn health_spec(&self) -> Seq<char> {
        "/v1/models"@
    }

    open spec fn token_spec(&self, ctx: ContextView) -> Seq<char> {
        served_tag(ctx.model)
    }

    open spec fn blocker_spec(&self, ctx: ContextView) -> Option<Seq<char>> {
        None
    }

    open spec fn unavailable_spec(&self) -> Option<Seq<char>> {
        obstacle(*self)
    }

    open spec fn single_spec(&self) -> bool {
        true
    }

    open spec fn views_spec(&self) -> Seq<Seq<char>> {
        seq!["Categories"@, "Flat"@]
    }

    open spec fn browse_spec(&self) -> bool {
        false
    }

    fn id(&self) -> (r: RuntimeId) {
        RuntimeId(self.runtime.name.clone())
    }

    fn descriptor(&self) -> (r: &Runtime) {
        &self.runtime
    }

    fn schema(&self) -> (r: OptionSchema) {
        OptionSchema::of(Dialect::Flm)
    }

    fn templates(&self) -> (r: Vec<Template>) {
        flm_options::templates()
    }

    fn effective_kind(&self, spec: &OptionSpec, model: &Model) -> (r: OptionKind) {
        match model.context_length {
            Some(c) => if text::same(spec.key, "ctx-len") {
                let max: i64 = if c > i64::MAX as u64 {
                    i64::MAX
                } else {
                    c as i64
                };
                OptionKind::Int { min: Some(0), max: Some(max) }
            } else {
                spec.kind.clone()
            },
            None => spec.kind.clone(),
        }
    }

    fn spec_default(&self, spec: &OptionSpec, model: &Model, defaults: &Defaults) -> (r: String) {
        if text::same(spec.key, "ctx-len") {
            return match model.context_length {
                Some(c) => number::nat_text(c),
                None => text::copy(spec.default),
            };
        }
        if text::same(spec.key, "prefill-chunk-len") {
            return match &model.flm {
                Some(f) => match f.max_prefill_len {
                    Some(n) => number::nat_text(n),
                    None => text::copy(DEFAULT),
                },
                None => text::copy(DEFAULT),
            };
        }
        if text::same(spec.key, "host") {
            return defaults.host.clone();
        }
        match flm_options::omit_token(spec.key) {
            Some(t) => text::copy(t),
            None => text::copy(spec.default),
        }
    }

    fn normalize_legacy(&self, key: &str, value: String) -> (r: String) {
        value
    }

    fn legacy_value(&self, key: &str, stored: &TextMap) -> (r: Option<String>) {
        None
    }

    fn clamp_to_model(&self, key: &str, value: String, model: &Model) -> (r: String) {
        if text::same(key, "prefill-chunk-len") {
            let limit = match &model.flm {
                Some(f) => f.max_prefill_len,
                None => None,
            };
            return cap(value, limit);
        }
        fit_context(key, value, model, "ctx-len")
    }

    fn build_command(&self, ctx: &LaunchContext) -> (r: Command) {
        let mut argv: Vec<String> = Vec::new();
        argv.push(text::copy(ctx.binary));
        argv.push(text::copy("serve"));
        argv.push(tag(ctx.model));
        argv.push(text::copy("--quiet"));
        assert(strs(argv@) =~= seq![ctx.binary@, "serve"@, served_tag(ctx.model@), "--quiet"@]);
        Command::append_options(&mut argv, &self.schema(), ctx.options);
        Command { argv }
    }

    fn chat_argv(&self, ctx: &LaunchContext) -> (r: Option<Vec<String>>) {
        let mut argv: Vec<String> = Vec::new();
        argv.push(text::copy(ctx.binary));
        argv.push(text::copy("run"));
        argv.push(tag(ctx.model));
        assert(strs(argv@) =~= seq![ctx.binary@, "run"@, served_tag(ctx.model@)]);
        let options = keep_client_options(ctx.options, false);
        Command::append_options(&mut argv, &self.schema(), &options);
        Some(argv)
    }

    fn bench_argv(&self, ctx: &LaunchContext) -> (r: Option<Vec<String>>) {
        let mut argv: Vec<String> = Vec::new();
        argv.push(text::copy(ctx.binary));
        argv.push(text::copy("bench"));
        argv.push(tag(ctx.model));
        assert(strs(argv@) =~= seq![ctx.binary@, "bench"@, served_tag(ctx.model@)]);
        let options = keep_client_options(ctx.options, true);
        Command::append_options(&mut argv, &self.schema(), &options);
        Some(argv)
    }

    fn health_path(&self) -> (r: &'static str) {
        "/v1/models"
    }

    fn process_token(&self, ctx: &LaunchContext) -> (r: String) {
        tag(ctx.model)
    }

    fn launch_blocker(&self, ctx: &LaunchContext) -> (r: Option<String>) {
        None
    }

    fn unavailable_reason(&self) -> (r: Option<String>) {
        if self.runtime.binary_path.is_none() {
            return Some(text::copy("flm binary not found on PATH"));
        }
        if !self.npu_ready {
            let detail = match &self.npu_problem {
                Some(p) => p.clone(),
                None => text::copy("run `flm validate`"),
            };
            return Some(text::cat("the AMD NPU stack is not ready: ", detail.as_str()));
        }
        None
    }

    fn single_session(&self) -> (r: bool) {
        true
    }

    fn catalog_views(&self) -> (r: Vec<&'static str>) {
        let all: Vec<&'static str> = vec!["Categories", "Flat"];
        assert(lits(all@) =~= seq!["Categories"@, "Flat"@]);
        all
    }

    fn supports_online_browse(&self) -> (r: bool) {
        false
    }
}

// --- what the catalog says ---------------------------------------------------

proof fn lemma_trim(s: Seq<char>, c: char)
    requires
        s.len() > 0,
    ensures
        s.last() != c ==> chars::trim_end_of(s, c) == s,
        s[0] != c ==> chars::trim_start_of(s, c) == s,
{
}

/// The address of a model's files names the repository that they are in, with its owner,
/// and the revision that they are pinned to.
#[verifier::rlimit(40)]
pub proof fn law_addresses_name_the_repository(owner: Seq<char>, name: Seq<char>, revision: Seq<char>)
    requires
        owner.len() > 0,
        name.len() > 0,
        revision.len() > 0,
        !owner.contains('/'),
        !name.contains('/'),
        owner != "resolve"@,
        name != "resolve"@,
        revision.last() != '/',
    ensures
        repo_of("https://huggingface.co/"@ + (owner + "/"@ + name) + "/resolve/"@ + revision)
            == owner + "/"@ + name,
        revision_of("https://huggingface.co/"@ + (owner + "/"@ + name) + "/resolve/"@ + revision)
            == revision,
{
    let host = "https://huggingface.co/"@;
    let mark = "/resolve/"@;
    let hub = "huggingface.co/"@;
    let id = owner + "/"@ + name;
    reveal_strlit("https://huggingface.co/");
    reveal_strlit("huggingface.co/");
    reveal_strlit("/resolve/");
    reveal_strlit("resolve");
    reveal_strlit("/");
    let base = host + id;
    let url = host + id + mark + revision;
    let n = owner.len() as int;
    let b = base.len() as int;
    assert(host.len() == 23 && mark.len() == 9 && hub.len() == 15);
    assert(mark[0] == '/' && mark[1] == 'r' && mark[8] == '/');
    assert(url.subrange(b, b + 9) =~= mark);
    assert forall|k: int| 0 <= k < b implies (url[k] == '/' <==> k == 6 || k == 7 || k == 22 || k
        == 23 + n) by {
        if 23 <= k < 23 + n {
            assert(url[k] == owner[k - 23]);
            assert(owner.contains(url[k]));
        } else if k > 23 + n {
            assert(url[k] == name[k - 24 - n]);
            assert(name.contains(url[k]));
        } else if k == 23 + n {
            assert(url[k] == "/"@[0]);
        } else {
            assert(url[k] == host[k]);
        }
    }
    assert forall|j: int| 0 <= j < b implies !text::occurs_at(url, mark, j) by {
        if text::occurs_at(url, mark, j) {
            let at = url.subrange(j, j + 9);
            assert(at == mark);
            assert(at[0] == url[j] && at[1] == url[j + 1] && at[8] == url[j + 8]);
            if j == 6 || j == 7 {
                assert(url[7] == '/' && url[8] == host[8]);
            } else {
                let word = "resolve"@;
                assert(word.len() == 7);
                assert forall|i: int| 1 <= i < 8 implies #[trigger] at[i] == word[i - 1] by {}
                if j == 22 {
                    assert(url[30] == '/');
                    assert forall|i: int| 23 <= i < 30 implies #[trigger] url[i] != '/' by {
                        assert(url[i] == at[i - 22]);
                    }
                    if n < 7 {
                        assert(url[23 + n] == '/');
                    }
                    if n > 7 {
                        assert(url[30] == owner[7]);
                        assert(owner.contains(url[30]));
                    }
                    assert forall|i: int| 0 <= i < 7 implies owner[i] == word[i] by {
                        assert(url[23 + i] == owner[i]);
                        assert(at[i + 1] == url[23 + i]);
                    }
                    assert(owner =~= word);
                } else {
                    assert(j == 23 + n);
                    let m = name.len() as int;
                    assert(b == 24 + n + m);
                    assert(url[j + 8] == '/');
                    if m > 7 {
                        assert(url[j + 8] == name[7]);
                        assert(name.contains(url[j + 8]));
                    }
                    if m < 7 {
                        assert(url[b] == '/');
                        assert(at[m + 1] == url[b]);
                    }
                    assert forall|i: int| 0 <= i < 7 implies name[i] == word[i] by {
                        assert(url[24 + n + i] == name[i]);
                        assert(at[i + 1] == url[24 + n + i]);
                    }
                    assert(name =~= word);
                }
            }
        }
    }
    text::law_the_first_place_is_found(url, mark, b);
    assert(url.take(b) =~= base);
    assert(url.skip(b + 9) =~= revision);
    assert(base.subrange(8, 23) =~= hub);
    assert(hub[14] == '/');
    assert forall|j: int| 0 <= j < 8 implies !text::occurs_at(base, hub, j) by {
        if text::occurs_at(base, hub, j) {
            assert(base.subrange(j, j + 15)[14] == base[j + 14]);
            assert(base[j + 14] == url[j + 14]);
        }
    }
    text::law_the_first_place_is_found(base, hub, 8);
    assert(base.skip(23) =~= id);
    assert(id[0] == owner[0] && owner.contains(owner[0]));
    assert(id.last() == name.last() && name.contains(name.last()));
    lemma_trim(id, '/');
    lemma_trim(revision, '/');
}

/// An installed model is shown below what is local and any other below what can be had;
/// there, by category, below each of its labels, or with the chat models where it has
/// none.
pub proof fn law_positions_go_by_label(e: Entry, i: int)
    ensures
        ({
            let top = if e.installed {
                "local"@
            } else {
                "online"@
            };
            &&& groups_of(e, true) == seq![seq![top]]
            &&& e.label@.len() == 0 ==> groups_of(e, false) == seq![seq![top, "chat"@]]
            &&& e.label@.len() > 0 ==> groups_of(e, false).len() == e.label@.len()
            &&& 0 <= i < e.label@.len() ==> groups_of(e, false)[i] == seq![top, e.label@[i]@]
        }),
{
}

/// Each entry of the catalog is shown at each of its positions, under its tag.
pub proof fn law_every_position_is_shown(entries: Seq<Entry>, flat: bool, root: Seq<char>, models_dir: Seq<char>, n: nat, i: int, k: int)
    requires
        n <= entries.len(),
        0 <= i < n,
        0 <= k < groups_of(entries[i], flat).len(),
    ensures
        exists|j: int|
            0 <= j < arranged(entries, flat, root, models_dir, n).len() && (#[trigger] arranged(
                entries,
                flat,
                root,
                models_dir,
                n,
            )[j]).catalog_path == groups_of(entries[i], flat)[k].push(entries[i].name@) && arranged(
                entries,
                flat,
                root,
                models_dir,
                n,
            )[j].name == entries[i].name@,
    decreases n,
{
    let m = (n - 1) as nat;
    let rest = arranged(entries, flat, root, models_dir, m);
    let all = arranged(entries, flat, root, models_dir, n);
    if i == m {
        let j = rest.len() + k;
        assert(all[j] == model_at(entries[i], groups_of(entries[i], flat)[k], root, models_dir));
    } else {
        law_every_position_is_shown(entries, flat, root, models_dir, m, i, k);
        let path = groups_of(entries[i], flat)[k].push(entries[i].name@);
        let j = choose|j: int|
            0 <= j < rest.len() && (#[trigger] rest[j]).catalog_path == path && rest[j].name
                == entries[i].name@;
        assert(all[j] == rest[j]);
    }
}

/// A model of the catalog is what its entry says: its tag, its size, its context and its
/// longest prefill; an installed one lies in the directory of its repository's name, and
/// one that is not has no path.
pub proof fn law_catalog_models_are_what_their_entries_say(e: Entry, group: Seq<Seq<char>>, root: Seq<char>, models_dir: Seq<char>, owner: Seq<char>, name: Seq<char>)
    requires
        repo_of(e.url@) == owner + "/"@ + name,
        name.len() > 0,
        !name.contains('/'),
        name != "."@,
        name != ".."@,
    ensures
        ({
            let m = model_at(e, group, root, models_dir);
            &&& m.path == (if e.installed {
                path::joined(root, name)
            } else {
                Seq::<char>::empty()
            })
            &&& m.flm is Some && m.flm->0.tag == e.name@ && m.flm->0.installed == e.installed
            &&& m.flm->0.repo == owner + "/"@ + name && m.flm->0.files == strs(e.files@)
            &&& m.flm->0.max_prefill_len == e.max_prefill_len
            &&& m.context_length == e.default_context_length
            &&& m.size_bytes == e.size_bytes && m.name == e.name@
            &&& m.quantization == opt(e.quantization_level) && m.architecture == opt(e.family)
        }),
{
    reveal_strlit("/");
    reveal_strlit("");
    assert(""@ =~= Seq::<char>::empty());
    path::law_the_tail_is_behind_the_last_separator(owner, name);
    assert(owner + "/"@ + name =~= owner.push('/') + name);
}

/// The directory of a model lies below the root under the last part of its repository's
/// name.
pub proof fn law_models_lie_below_the_root(root: Seq<char>, m: ModelView, owner: Seq<char>, name: Seq<char>)
    requires
        m.flm is Some,
        m.flm->0.repo == owner + "/"@ + name,
        name.len() > 0,
        !name.contains('/'),
        name != "."@,
        name != ".."@,
        directory_of(root, m) is Some,
    ensures
        directory_of(root, m) == Some(path::joined(root, name)),
{
    reveal_strlit("/");
    path::law_the_tail_is_behind_the_last_separator(owner, name);
    assert(owner + "/"@ + name =~= owner.push('/') + name);
}

proof fn lemma_tree_size(tree: Seq<TreeEntry>, file: Seq<char>, from: int)
    requires
        0 <= from <= tree.len(),
    ensures
        match tree_size(tree, file, from) {
            Some(n) => exists|k: int|
                from <= k < tree.len() && (#[trigger] tree[k]).path@ == file && tree[k].size == n,
            None => forall|k: int| from <= k < tree.len() ==> (#[trigger] tree[k]).path@ != file,
        },
    decreases tree.len() - from,
{
    if from < tree.len() {
        lemma_tree_size(tree, file, from + 1);
    }
}

proof fn lemma_missing(tree: Seq<TreeEntry>, files: Seq<Seq<char>>, from: int)
    requires
        0 <= from <= files.len(),
    ensures
        match missing_file(tree, files, from) {
            Some(f) => exists|i: int|
                from <= i < files.len() && #[trigger] files[i] == f && tree_size(tree, f, 0) is None,
            None => forall|i: int|
                from <= i < files.len() ==> tree_size(tree, #[trigger] files[i], 0) is Some,
        },
    decreases files.len() - from,
{
    if from < files.len() {
        lemma_missing(tree, files, from + 1);
    }
}

/// A model can be downloaded where its repository has all of its files: only a file that
/// is in no entry of the tree is missed, and a file has a size that the tree gives it.
pub proof fn law_only_absent_files_are_missed(tree: Seq<TreeEntry>, files: Seq<Seq<char>>)
    ensures
        match missing_file(tree, files, 0) {
            Some(f) => files.contains(f) && forall|k: int|
                0 <= k < tree.len() ==> (#[trigger] tree[k]).path@ != f,
            None => forall|i: int|
                0 <= i < files.len() ==> in_tree_with_size(tree, #[trigger] files[i]),
        },
{
    lemma_missing(tree, files, 0);
    if let Some(f) = missing_file(tree, files, 0) {
        lemma_tree_size(tree, f, 0);
    } else {
        assert forall|i: int| 0 <= i < files.len() implies in_tree_with_size(
            tree,
            #[trigger] files[i],
        ) by {
            lemma_tree_size(tree, files[i], 0);
        }
    }
}

/// Whether a tree has a file, with the size that is taken for it.
pub open spec fn in_tree_with_size(tree: Seq<TreeEntry>, file: Seq<char>) -> bool {
    exists|k: int|
        0 <= k < tree.len() && (#[trigger] tree[k]).path@ == file && tree_size(tree, file, 0)
            == Some(tree[k].size)
}

/// A download whose files are all complete is there as a whole, one of which nothing is
/// on disk has nothing, and what a scratch file holds counts.
pub proof fn law_downloads_count_what_is_on_disk(sizes: Seq<(String, u64)>, disk: Seq<BlobSizes>, n: nat)
    requires
        n <= sizes.len(),
        n <= disk.len(),
    ensures
        (forall|i: int| 0 <= i < n ==> (#[trigger] disk[i]).complete == Some(sizes[i].1))
            ==> stored_upto(sizes, disk, n) == sizes_upto(sizes, n),
        (forall|i: int|
            0 <= i < n ==> (#[trigger] disk[i]).complete is None && disk[i].incomplete is None)
            ==> stored_upto(sizes, disk, n) == 0,
        n > 0 && disk[n - 1].complete is None && disk[n - 1].incomplete is Some
            && disk[n - 1].incomplete->0 <= sizes[n - 1].1 ==> stored_upto(sizes, disk, n)
            == stored_upto(sizes, disk, (n - 1) as nat) + disk[n - 1].incomplete->0,
        n > 0 ==> sizes_upto(sizes, n) == sizes_upto(sizes, (n - 1) as nat) + sizes[n - 1].1,
    decreases n,
{
    if n > 0 {
        law_downloads_count_what_is_on_disk(sizes, disk, (n - 1) as nat);
    }
}

/// FastFlowLM can be used where its binary is there and the NPU is ready, and only there.
pub proof fn law_the_npu_must_be_ready(b: FlmBackend)
    ensures
        obstacle(b) is None <==> b.runtime.binary_path is Some && b.npu_ready,
        b.runtime.binary_path is Some && !b.npu_ready && b.npu_problem is Some ==> obstacle(b)
            == Some("the AMD NPU stack is not ready: "@ + b.npu_problem->0@),
{
}

/// The stack of the NPU has a problem exactly where it is not ready, and the first check
/// that failed is named.
pub proof fn law_the_first_failed_check_is_named(v: Validation)
    ensures
        problem_of(v) is None <==> v.ready,
        !v.ready && !v.amd_device_found ==> problem_of(v) == Some("no AMD XDNA2 NPU found"@),
        !v.ready && v.amd_device_found && v.kernel_ok && v.all_fw_ok && !v.memlock_ok
            ==> problem_of(v) == Some(
            "the memlock limit is too low (see /etc/security/limits.conf)"@,
        ),
        !v.ready && v.amd_device_found && v.kernel_ok && !v.all_fw_ok ==> problem_of(v) == Some(
            "the NPU firmware is out of date"@,
        ),
        !v.ready && v.amd_device_found && !v.kernel_ok ==> problem_of(v) == Some(
            "the kernel or amdxdna driver is too old"@,
        ),
{
}

/// The JSON of an output is what stands from its first brace on.
pub proof fn law_the_preamble_is_left_out(preamble: Seq<char>, rest: Seq<char>)
    requires
        !preamble.contains('{'),
    ensures
        from_brace(preamble + seq!['{'] + rest) == seq!['{'] + rest,
{
    reveal_strlit("{");
    let s = preamble + seq!['{'] + rest;
    let n = preamble.len() as int;
    assert("{"@ =~= seq!['{']);
    assert(s.subrange(n, n + 1) =~= "{"@);
    assert forall|j: int| 0 <= j < n implies !text::occurs_at(s, "{"@, j) by {
        if text::occurs_at(s, "{"@, j) {
            assert(s.subrange(j, j + 1)[0] == s[j]);
            assert(preamble.contains(preamble[j]));
        }
    }
    text::law_the_first_place_is_found(s, "{"@, n);
    assert(s.skip(n) =~= seq!['{'] + rest);
}

/// A tag of plain characters is its own directory; any other character becomes an
/// underscore in the same place.
pub proof fn law_tags_become_directories(tag: Seq<char>, i: int)
    requires
        0 <= i < tag.len(),
    ensures
        tag_segment(tag).len() == tag.len(),
        chars::is_ascii_alnum(tag[i]) || tag[i] == '.' || tag[i] == '-' ==> tag_segment(tag)[i]
            == tag[i],
        tag[i] == ':' || tag[i] == '/' || tag[i] == ' ' ==> tag_segment(tag)[i] == '_',
{
}

/// A directory is shared where another installed tag has it, and then it is not removed;
/// the tag itself, and what is not installed, does not count.
pub proof fn law_shared_directories_are_told(root: Seq<char>, m: ModelView, other: ModelView, dir: Seq<char>, catalog: Seq<ModelView>, i: int)
    requires
        m.flm is Some,
        directory_of(root, m) == Some(dir),
    ensures
        0 <= i < catalog.len() && catalog[i].flm is Some && catalog[i].flm->0.installed
            && catalog[i].flm->0.tag != m.flm->0.tag && directory_of(root, catalog[i]) == Some(dir)
            ==> is_shared(root, m, catalog, dir),
        (forall|k: int|
            0 <= k < catalog.len() ==> (#[trigger] catalog[k]).flm is None
                || !catalog[k].flm->0.installed || catalog[k].flm->0.tag == m.flm->0.tag)
            ==> !is_shared(root, m, catalog, dir),
{
    if 0 <= i < catalog.len() && catalog[i].flm is Some && catalog[i].flm->0.installed
        && catalog[i].flm->0.tag != m.flm->0.tag && directory_of(root, catalog[i]) == Some(dir) {
        assert(shares_directory(root, m, catalog[i], dir));
    }
    if is_shared(root, m, catalog, dir) {
        let k = choose|k: int|
            0 <= k < catalog.len() && shares_directory(root, m, #[trigger] catalog[k], dir);
        assert(catalog[k].flm is Some);
    }
}

/// The models lie where the environment says, else in the user's configuration.
pub proof fn law_the_root_is_named_or_usual(named: String, home: String)
    ensures
        root_in(Some(named), Some(home)) == named@,
        root_in(Some(named), None) == named@,
        root_in(None, Some(home)) == path::joined(home@, ".config/flm/models"@),
        root_in(None, None).len() == 0,
{
    reveal_strlit("");
}

/// A closing chunk is what follows its marker, without the blanks around it.
pub proof fn law_chunks_follow_their_marker(front: Seq<char>, rest: Seq<char>)
    requires
        !front.contains('C'),
    ensures
        chunk_in(front + "ChatCompletionChunk:"@ + rest) == Some(chars::trimmed(rest)),
{
    reveal_strlit("ChatCompletionChunk:");
    let mark = "ChatCompletionChunk:"@;
    let s = front + mark + rest;
    let n = front.len() as int;
    assert(mark[0] == 'C');
    assert(s.subrange(n, n + mark.len()) =~= mark);
    assert forall|j: int| 0 <= j < n implies !text::occurs_at(s, mark, j) by {
        if text::occurs_at(s, mark, j) {
            assert(s.subrange(j, j + mark.len())[0] == s[j]);
            assert(front.contains(front[j]));
        }
    }
    text::law_the_first_place_is_found(s, mark, n);
    assert(s.skip(n + mark.len()) =~= rest);
}

/// What a client takes leaves out what is for a server, and a measurement takes the
/// power mode alone; the rest is there in its order.
pub proof fn law_clients_take_their_own_options(options: Seq<OptionItemView>)
    ensures
        client_options(options, false) == options.filter(
            |o: OptionItemView|
                o.key != "host"@ && o.key != "port"@ && o.key != "q-len"@ && o.key != "socket"@
                    && o.key != "cors"@,
        ),
        client_options(options, true) == options.filter(|o: OptionItemView| o.key == "pmode"@),
    decreases options.len(),
{
    reveal(Seq::filter);
    if options.len() > 0 {
        law_clients_take_their_own_options(options.drop_last());
    }
}

} // verus!
