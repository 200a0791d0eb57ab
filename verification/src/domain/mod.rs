//! The types that the rest of the library shares: runtimes, models, profiles and
//! option values. Plain data; paths are text.

pub mod format;
pub mod options;
pub mod wire;

pub use self::format::{format_unix_date, human_size};

use vstd::prelude::*;
use crate::text;
use crate::text::{opt, strs};

verus! {

/// An inference runtime as it was found on the system.
#[derive(Debug)]
pub struct Runtime {
    pub name: String,
    pub description: String,
    pub version: Option<String>,
    /// Absolute path of the resolved binary, if it was found.
    pub binary_path: Option<String>,
    /// Absolute path of the benchmark tool, if there is one.
    pub bench_path: Option<String>,
    /// Supported artifact formats, such as `GGUF`.
    pub formats: Vec<String>,
    /// Offload devices that the runtime reported.
    pub devices: Vec<String>,
}

pub struct RuntimeView {
    pub name: Seq<char>,
    pub description: Seq<char>,
    pub version: Option<Seq<char>>,
    pub binary_path: Option<Seq<char>>,
    pub bench_path: Option<Seq<char>>,
    pub formats: Seq<Seq<char>>,
    pub devices: Seq<Seq<char>>,
}

impl View for Runtime {
    type V = RuntimeView;

    open spec fn view(&self) -> RuntimeView {
        RuntimeView {
            name: self.name@,
            description: self.description@,
            version: opt(self.version),
            binary_path: opt(self.binary_path),
            bench_path: opt(self.bench_path),
            formats: strs(self.formats@),
            devices: strs(self.devices@),
        }
    }
}

impl Clone for Runtime {
    fn clone(&self) -> (r: Self)
        ensures
            r@ == self@,
    {
        Runtime {
            name: self.name.clone(),
            description: self.description.clone(),
            version: text::copy_opt(&self.version),
            binary_path: text::copy_opt(&self.binary_path),
            bench_path: text::copy_opt(&self.bench_path),
            formats: text::copy_all(&self.formats),
            devices: text::copy_all(&self.devices),
        }
    }
}

impl Runtime {
    /// The supported formats, for display.
    pub fn formats_label(&self) -> (r: String)
        ensures
            r@ == text::join(self@.formats, ", "@),
    {
        text::join_all(&self.formats, ", ")
    }
}

/// One physical file of an artifact in a Hugging Face repository.
#[derive(Debug)]
pub struct RemoteBlob {
    /// The object id that names the blob in the Hub cache.
    pub oid: String,
    pub size_bytes: u64,
    /// Repository-relative file name.
    pub file: String,
}

pub struct BlobView {
    pub oid: Seq<char>,
    pub size_bytes: u64,
    pub file: Seq<char>,
}

impl View for RemoteBlob {
    type V = BlobView;

    open spec fn view(&self) -> BlobView {
        BlobView { oid: self.oid@, size_bytes: self.size_bytes, file: self.file@ }
    }
}

impl Clone for RemoteBlob {
    fn clone(&self) -> (r: Self)
        ensures
            r@ == self@,
    {
        RemoteBlob { oid: self.oid.clone(), size_bytes: self.size_bytes, file: self.file.clone() }
    }
}

/// The views of a list of blobs.
pub open spec fn blobs_view(v: Seq<RemoteBlob>) -> Seq<BlobView> {
    v.map_values(|b: RemoteBlob| b@)
}

/// A copy of a list of blobs.
pub fn copy_blobs(v: &Vec<RemoteBlob>) -> (r: Vec<RemoteBlob>)
    ensures
        blobs_view(r@) == blobs_view(v@),
{
    let mut out: Vec<RemoteBlob> = Vec::new();
    let mut i: usize = 0;
    while i < v.len()
        invariant
            i <= v.len(),
            out.len() == i,
            forall|j: int| 0 <= j < i ==> (#[trigger] out@[j])@ == v@[j]@,
        decreases v.len() - i,
    {
        out.push(v[i].clone());
        i += 1;
    }
    assert(blobs_view(out@) =~= blobs_view(v@));
    out
}

/// The Hugging Face identity of a catalog entry. Without a `file` it stands for
/// the repository itself.
#[derive(Debug)]
pub struct RemoteModel {
    pub repo: String,
    pub revision: Option<String>,
    pub file: Option<String>,
    pub blobs: Vec<RemoteBlob>,
    pub mtp_file: Option<String>,
    pub dflash_file: Option<String>,
    pub projector_file: Option<String>,
    pub downloads: u64,
    pub likes: u64,
    pub gated: bool,
}

pub struct RemoteView {
    pub repo: Seq<char>,
    pub revision: Option<Seq<char>>,
    pub file: Option<Seq<char>>,
    pub blobs: Seq<BlobView>,
    pub mtp_file: Option<Seq<char>>,
    pub dflash_file: Option<Seq<char>>,
    pub projector_file: Option<Seq<char>>,
    pub downloads: u64,
    pub likes: u64,
    pub gated: bool,
}

impl View for RemoteModel {
    type V = RemoteView;

    open spec fn view(&self) -> RemoteView {
        RemoteView {
            repo: self.repo@,
            revision: opt(self.revision),
            file: opt(self.file),
            blobs: blobs_view(self.blobs@),
            mtp_file: opt(self.mtp_file),
            dflash_file: opt(self.dflash_file),
            projector_file: opt(self.projector_file),
            downloads: self.downloads,
            likes: self.likes,
            gated: self.gated,
        }
    }
}

impl Clone for RemoteModel {
    fn clone(&self) -> (r: Self)
        ensures
            r@ == self@,
    {
        RemoteModel {
            repo: self.repo.clone(),
            revision: text::copy_opt(&self.revision),
            file: text::copy_opt(&self.file),
            blobs: copy_blobs(&self.blobs),
            mtp_file: text::copy_opt(&self.mtp_file),
            dflash_file: text::copy_opt(&self.dflash_file),
            projector_file: text::copy_opt(&self.projector_file),
            downloads: self.downloads,
            likes: self.likes,
            gated: self.gated,
        }
    }
}

/// The FastFlowLM identity of a catalog entry.
#[derive(Debug)]
pub struct FlmModel {
    /// The `name:size` tag by which `flm` serves, pulls and removes the model.
    pub tag: String,
    pub installed: bool,
    pub repo: String,
    pub revision: String,
    pub files: Vec<String>,
    pub labels: Vec<String>,
    pub vlm: bool,
    pub asr: bool,
    pub max_prefill_len: Option<u64>,
}

pub struct FlmView {
    pub tag: Seq<char>,
    pub installed: bool,
    pub repo: Seq<char>,
    pub revision: Seq<char>,
    pub files: Seq<Seq<char>>,
    pub labels: Seq<Seq<char>>,
    pub vlm: bool,
    pub asr: bool,
    pub max_prefill_len: Option<u64>,
}

impl View for FlmModel {
    type V = FlmView;

    open spec fn view(&self) -> FlmView {
        FlmView {
            tag: self.tag@,
            installed: self.installed,
            repo: self.repo@,
            revision: self.revision@,
            files: strs(self.files@),
            labels: strs(self.labels@),
            vlm: self.vlm,
            asr: self.asr,
            max_prefill_len: self.max_prefill_len,
        }
    }
}

impl Clone for FlmModel {
    fn clone(&self) -> (r: Self)
        ensures
            r@ == self@,
    {
        FlmModel {
            tag: self.tag.clone(),
            installed: self.installed,
            repo: self.repo.clone(),
            revision: self.revision.clone(),
            files: text::copy_all(&self.files),
            labels: text::copy_all(&self.labels),
            vlm: self.vlm,
            asr: self.asr,
            max_prefill_len: self.max_prefill_len,
        }
    }
}

/// What a node of the live Hub tree stands for.
#[derive(Debug, Clone, Copy, PartialEq, Eq, Structural)]
pub enum RemoteKind {
    Repo,
    File,
}

/// A model, or a directory of models, in the browser's catalog.
#[derive(Debug)]
pub struct Model {
    /// Stable catalog identity, distinct from the display name.
    pub id: String,
    pub name: String,
    /// Absolute path on disk; empty for a directory and for what is not stored.
    pub path: String,
    /// All physical shards; one for a model that is not split.
    pub shard_paths: Vec<String>,
    /// The multi-token-prediction sidecar paired with the model.
    pub mtp_path: Option<String>,
    /// The block-drafting sidecar paired with the model.
    pub dflash_path: Option<String>,
    /// The most tokens that the block drafter emits in one pass.
    pub dflash_block_size: Option<u64>,
    /// The multimodal projector paired with the model.
    pub projector_path: Option<String>,
    /// Whether the model itself holds multi-token-prediction heads.
    pub has_mtp: bool,
    /// Where the browser shows the entry, component by component.
    pub catalog_path: Vec<String>,
    /// The managed leaf that holds the entry's profiles.
    pub catalog_dir: String,
    pub size_bytes: u64,
    pub quantization: Option<String>,
    pub architecture: Option<String>,
    pub context_length: Option<u64>,
    /// Seconds since the Unix epoch.
    pub modified: Option<u64>,
    pub has_chat_template: bool,
    pub remote: Option<RemoteModel>,
    pub flm: Option<FlmModel>,
    /// Set on the nodes of the live Hub tree.
    pub hub: Option<RemoteKind>,
    /// Whether the entry was stored as a folder, and so is one whatever else
    /// becomes known of it.
    pub folder: bool,
    /// The runtime that owns the model.
    pub runtime: String,
}

pub struct ModelView {
    pub id: Seq<char>,
    pub name: Seq<char>,
    pub path: Seq<char>,
    pub shard_paths: Seq<Seq<char>>,
    pub mtp_path: Option<Seq<char>>,
    pub dflash_path: Option<Seq<char>>,
    pub dflash_block_size: Option<u64>,
    pub projector_path: Option<Seq<char>>,
    pub has_mtp: bool,
    pub catalog_path: Seq<Seq<char>>,
    pub catalog_dir: Seq<char>,
    pub size_bytes: u64,
    pub quantization: Option<Seq<char>>,
    pub architecture: Option<Seq<char>>,
    pub context_length: Option<u64>,
    pub modified: Option<u64>,
    pub has_chat_template: bool,
    pub remote: Option<RemoteView>,
    pub flm: Option<FlmView>,
    pub hub: Option<RemoteKind>,
    /// Whether the entry was stored as a folder, and so is one whatever else
    /// becomes known of it.
    pub folder: bool,
    pub runtime: Seq<char>,
}

/// The view of an optional remote identity.
pub open spec fn remote_view(o: Option<RemoteModel>) -> Option<RemoteView> {
    match o {
        Some(r) => Some(r@),
        None => None,
    }
}

/// The view of an optional FastFlowLM identity.
pub open spec fn flm_view(o: Option<FlmModel>) -> Option<FlmView> {
    match o {
        Some(f) => Some(f@),
        None => None,
    }
}

impl View for Model {
    type V = ModelView;

    open spec fn view(&self) -> ModelView {
        ModelView {
            id: self.id@,
            name: self.name@,
            path: self.path@,
            shard_paths: strs(self.shard_paths@),
            mtp_path: opt(self.mtp_path),
            dflash_path: opt(self.dflash_path),
            dflash_block_size: self.dflash_block_size,
            projector_path: opt(self.projector_path),
            has_mtp: self.has_mtp,
            catalog_path: strs(self.catalog_path@),
            catalog_dir: self.catalog_dir@,
            size_bytes: self.size_bytes,
            quantization: opt(self.quantization),
            architecture: opt(self.architecture),
            context_length: self.context_length,
            modified: self.modified,
            has_chat_template: self.has_chat_template,
            remote: remote_view(self.remote),
            flm: flm_view(self.flm),
            hub: self.hub,
            folder: self.folder,
            runtime: self.runtime@,
        }
    }
}

impl Clone for Model {
    fn clone(&self) -> (r: Self)
        ensures
            r@ == self@,
    {
        Model {
            id: self.id.clone(),
            name: self.name.clone(),
            path: self.path.clone(),
            shard_paths: text::copy_all(&self.shard_paths),
            mtp_path: text::copy_opt(&self.mtp_path),
            dflash_path: text::copy_opt(&self.dflash_path),
            dflash_block_size: self.dflash_block_size,
            projector_path: text::copy_opt(&self.projector_path),
            has_mtp: self.has_mtp,
            catalog_path: text::copy_all(&self.catalog_path),
            catalog_dir: self.catalog_dir.clone(),
            size_bytes: self.size_bytes,
            quantization: text::copy_opt(&self.quantization),
            architecture: text::copy_opt(&self.architecture),
            context_length: self.context_length,
            modified: self.modified,
            has_chat_template: self.has_chat_template,
            remote: match &self.remote {
                Some(r) => Some(r.clone()),
                None => None,
            },
            flm: match &self.flm {
                Some(f) => Some(f.clone()),
                None => None,
            },
            hub: self.hub,
            folder: self.folder,
            runtime: self.runtime.clone(),
        }
    }
}

/// The views of a list of models.
pub open spec fn views(v: Seq<Model>) -> Seq<ModelView> {
    v.map_values(|m: Model| m@)
}

/// A copy of a list of models.
pub fn copy_models(v: &Vec<Model>) -> (r: Vec<Model>)
    ensures
        views(r@) == views(v@),
{
    let mut out: Vec<Model> = Vec::new();
    let mut i: usize = 0;
    while i < v.len()
        invariant
            i <= v.len(),
            out.len() == i,
            forall|j: int| 0 <= j < i ==> (#[trigger] out@[j])@ == v@[j]@,
        decreases v.len() - i,
    {
        out.push(v[i].clone());
        i += 1;
    }
    assert(views(out@) =~= views(v@));
    out
}

impl RemoteView {
    /// Whether the identity names a file and not the repository alone.
    pub open spec fn names_file(self) -> bool {
        self.file is Some
    }
}

impl ModelView {
    /// Whether the entry has the remote identity of one file.
    pub open spec fn remote_file(self) -> Option<Seq<char>> {
        match self.remote {
            Some(r) => r.file,
            None => None,
        }
    }

    /// A file node of the live Hub tree: downloadable, not launchable.
    pub open spec fn is_remote_file(self) -> bool {
        self.hub == Some(RemoteKind::File)
    }

    /// A directory: stored as a folder, or with nothing stored, no file and no
    /// FastFlowLM identity.
    pub open spec fn is_catalog_dir(self) -> bool {
        self.folder || (self.path.len() == 0 && self.remote_file() is None && self.flm is None
            && !self.is_remote_file())
    }

    /// A model that can be selected, profiled and launched.
    pub open spec fn is_model(self) -> bool {
        !self.is_catalog_dir() && !self.is_remote_file()
    }

    /// The identity under which the model's profiles are kept.
    pub open spec fn profile_key(self) -> Seq<char> {
        match (self.flm, self.remote) {
            (Some(flm), _) => "flm:"@ + flm.tag,
            (None, Some(remote)) => match remote.file {
                Some(file) => "hf:"@ + remote.repo + "/"@ + file,
                None => "hf:"@ + remote.repo,
            },
            (None, None) => self.path,
        }
    }

    /// The last component of the catalog path, or the name where it has none.
    pub open spec fn display_label(self) -> Seq<char> {
        if self.catalog_path.len() > 0 {
            self.catalog_path.last()
        } else {
            self.name
        }
    }

    /// Whether a multi-token-prediction head is built in or paired.
    pub open spec fn supports_mtp(self) -> bool {
        self.has_mtp || self.mtp_path is Some || (self.remote is Some
            && self.remote->0.mtp_file is Some)
    }

    /// Whether a block drafter is paired.
    pub open spec fn supports_dflash(self) -> bool {
        self.dflash_path is Some || (self.remote is Some && self.remote->0.dflash_file is Some)
    }

    /// Whether a multimodal projector is paired.
    pub open spec fn supports_multimodal(self) -> bool {
        self.projector_path is Some || (self.remote is Some
            && self.remote->0.projector_file is Some)
    }
}

impl Model {
    /// Whether this is a file node of the live Hub tree.
    pub fn is_remote_file(&self) -> (r: bool)
        ensures
            r == self@.is_remote_file(),
    {
        match self.hub {
            Some(RemoteKind::File) => true,
            _ => false,
        }
    }

    /// Whether the entry has the remote identity of one file.
    pub fn has_remote_file(&self) -> (r: bool)
        ensures
            r == (self@.remote_file() is Some),
    {
        match &self.remote {
            Some(remote) => remote.file.is_some(),
            None => false,
        }
    }

    /// Whether this is a directory of the catalog.
    pub fn is_catalog_dir(&self) -> (r: bool)
        ensures
            r == self@.is_catalog_dir(),
    {
        self.folder || (self.path.as_str().is_empty() && !self.has_remote_file()
            && self.flm.is_none() && !self.is_remote_file())
    }

    /// Whether this is a model that can be launched.
    pub fn is_model(&self) -> (r: bool)
        ensures
            r == self@.is_model(),
    {
        !self.is_catalog_dir() && !self.is_remote_file()
    }

    /// The identity under which the model's profiles are kept. It is the same
    /// wherever the browser shows the model.
    pub fn profile_key(&self) -> (r: String)
        ensures
            r@ == self@.profile_key(),
    {
        if let Some(flm) = &self.flm {
            return text::cat("flm:", flm.tag.as_str());
        }
        match &self.remote {
            Some(remote) => {
                let mut key = text::cat("hf:", remote.repo.as_str());
                if let Some(file) = &remote.file {
                    key.append("/");
                    key.append(file.as_str());
                }
                key
            },
            None => self.path.clone(),
        }
    }

    /// The label of the entry in its pane.
    pub fn display_label(&self) -> (r: &str)
        ensures
            r@ == self@.display_label(),
    {
        if self.catalog_path.len() > 0 {
            self.catalog_path[self.catalog_path.len() - 1].as_str()
        } else {
            self.name.as_str()
        }
    }

    /// Whether a multi-token-prediction head is built in or paired.
    pub fn supports_mtp(&self) -> (r: bool)
        ensures
            r == self@.supports_mtp(),
    {
        self.has_mtp || self.mtp_path.is_some() || match &self.remote {
            Some(remote) => remote.mtp_file.is_some(),
            None => false,
        }
    }

    /// Whether a block drafter is paired.
    pub fn supports_dflash(&self) -> (r: bool)
        ensures
            r == self@.supports_dflash(),
    {
        self.dflash_path.is_some() || match &self.remote {
            Some(remote) => remote.dflash_file.is_some(),
            None => false,
        }
    }

    /// Whether a multimodal projector is paired.
    pub fn supports_multimodal(&self) -> (r: bool)
        ensures
            r == self@.supports_multimodal(),
    {
        self.projector_path.is_some() || match &self.remote {
            Some(remote) => remote.projector_file.is_some(),
            None => false,
        }
    }
}

/// A named set of option values for one model.
#[derive(Debug)]
pub struct Profile {
    pub name: String,
    pub builtin: bool,
    pub favorite: bool,
}

pub struct ProfileView {
    pub name: Seq<char>,
    pub builtin: bool,
    pub favorite: bool,
}

impl View for Profile {
    type V = ProfileView;

    open spec fn view(&self) -> ProfileView {
        ProfileView { name: self.name@, builtin: self.builtin, favorite: self.favorite }
    }
}

impl Clone for Profile {
    fn clone(&self) -> (r: Self)
        ensures
            r@ == self@,
    {
        Profile { name: self.name.clone(), builtin: self.builtin, favorite: self.favorite }
    }
}

/// The views of a list of profiles.
pub open spec fn profile_views(v: Seq<Profile>) -> Seq<ProfileView> {
    v.map_values(|p: Profile| p@)
}

/// One option with its value for a profile.
#[derive(Debug)]
pub struct OptionItem {
    pub key: String,
    pub value: String,
    /// The value that the option has where nothing sets it.
    pub default: String,
    /// The allowed range, for display.
    pub range: Option<String>,
    /// The command-line flag.
    pub cli: String,
    pub description: String,
}

pub struct OptionItemView {
    pub key: Seq<char>,
    pub value: Seq<char>,
    pub default: Seq<char>,
    pub range: Option<Seq<char>>,
    pub cli: Seq<char>,
    pub description: Seq<char>,
}

impl View for OptionItem {
    type V = OptionItemView;

    open spec fn view(&self) -> OptionItemView {
        OptionItemView {
            key: self.key@,
            value: self.value@,
            default: self.default@,
            range: opt(self.range),
            cli: self.cli@,
            description: self.description@,
        }
    }
}

impl Clone for OptionItem {
    fn clone(&self) -> (r: Self)
        ensures
            r@ == self@,
    {
        OptionItem {
            key: self.key.clone(),
            value: self.value.clone(),
            default: self.default.clone(),
            range: text::copy_opt(&self.range),
            cli: self.cli.clone(),
            description: self.description.clone(),
        }
    }
}

/// The views of a list of options.
pub open spec fn option_views(v: Seq<OptionItem>) -> Seq<OptionItemView> {
    v.map_values(|o: OptionItem| o@)
}

/// The value of the first option with the key.
pub open spec fn value_of(options: Seq<OptionItemView>, key: Seq<char>) -> Option<Seq<char>>
    decreases options.len(),
{
    if options.len() == 0 {
        None
    } else if options[0].key == key {
        Some(options[0].value)
    } else {
        value_of(options.skip(1), key)
    }
}

/// The value of the first option with the key.
pub fn option_value(options: &Vec<OptionItem>, key: &str) -> (r: Option<String>)
    ensures
        opt(r) == value_of(option_views(options@), key@),
{
    let ghost all = option_views(options@);
    let mut i: usize = 0;
    assert(all.skip(0) =~= all);
    while i < options.len()
        invariant
            all == option_views(options@),
            i <= options.len(),
            value_of(all, key@) == value_of(all.skip(i as int), key@),
        decreases options.len() - i,
    {
        assert(all.skip(i as int)[0] == options@[i as int]@);
        if text::same(options[i].key.as_str(), key) {
            return Some(options[i].value.clone());
        }
        assert(all.skip(i as int).skip(1) =~= all.skip(i + 1));
        i += 1;
    }
    None
}

/// An entry is a folder, a file of the Hub or a model, and never two of these.
pub proof fn law_entries_are_of_one_kind(m: ModelView)
    ensures
        m.is_model() ==> !m.is_catalog_dir() && !m.is_remote_file(),
        m.is_model() || m.is_catalog_dir() || m.is_remote_file(),
        !m.folder && !m.is_remote_file() && (m.path.len() > 0 || m.flm is Some || (m.remote is Some
            && m.remote->0.file is Some)) ==> m.is_model(),
        m.folder ==> m.is_catalog_dir(),
        m.path.len() == 0 && m.remote is None && m.flm is None && m.hub is None
            ==> m.is_catalog_dir(),
{
}

/// The profiles of a model are kept by what names it for good: its tag, its file in a
/// repository, or its path.
pub proof fn law_profiles_are_kept_by_identity(m: ModelView)
    ensures
        m.flm is Some ==> m.profile_key() == "flm:"@ + m.flm->0.tag,
        m.flm is None && m.remote is Some && m.remote->0.file is Some ==> m.profile_key() == "hf:"@
            + m.remote->0.repo + "/"@ + m.remote->0.file->0,
        m.flm is None && m.remote is None ==> m.profile_key() == m.path,
{
}

/// Companions count wherever they are: on disk, in the repository or in the model.
pub proof fn law_companions_count(m: ModelView)
    ensures
        m.has_mtp || m.mtp_path is Some ==> m.supports_mtp(),
        m.dflash_path is Some ==> m.supports_dflash(),
        m.projector_path is Some ==> m.supports_multimodal(),
        m.remote is Some && m.remote->0.mtp_file is Some ==> m.supports_mtp(),
        m.remote is Some && m.remote->0.dflash_file is Some ==> m.supports_dflash(),
        m.remote is Some && m.remote->0.projector_file is Some ==> m.supports_multimodal(),
        m.remote is None && m.mtp_path is None && !m.has_mtp ==> !m.supports_mtp(),
        m.remote is None && m.dflash_path is None ==> !m.supports_dflash(),
        m.remote is None && m.projector_path is None ==> !m.supports_multimodal(),
{
}

/// The value of an option is that of the first one with its key.
pub proof fn law_the_first_option_counts(options: Seq<OptionItemView>, key: Seq<char>, i: int)
    ensures
        0 <= i < options.len() && options[i].key == key && (forall|k: int|
            0 <= k < i ==> (#[trigger] options[k]).key != key) ==> value_of(options, key) == Some(
            options[i].value,
        ),
        (forall|k: int| 0 <= k < options.len() ==> (#[trigger] options[k]).key != key) ==> value_of(
            options,
            key,
        ) is None,
    decreases options.len(),
{
    if options.len() > 0 && options[0].key != key {
        let rest = options.skip(1);
        assert forall|k: int| 0 <= k < rest.len() implies #[trigger] rest[k] == options[k + 1] by {}
        law_the_first_option_counts(rest, key, i - 1);
        if 0 < i < options.len() {
            assert(rest[i - 1] == options[i]);
        }
    }
}

} // verus!
