//! What a stored model stands for. The stored form is flat: which of its fields
//! are set decides whether it is a directory, a GGUF model or one of FastFlowLM.

use vstd::prelude::*;
use crate::domain::{
    flm_view, remote_view, FlmModel, FlmView, Model, ModelView, RemoteModel, RemoteView,
};
use crate::text;
use crate::text::{opt, strs};

verus! {

/// Where a model comes from.
#[derive(Debug)]
pub enum ModelSource {
    Gguf { remote: Option<RemoteModel> },
    FastFlowLm(FlmModel),
}

/// What a catalog entry stands for.
#[derive(Debug)]
pub enum CatalogEntry {
    Directory { repository: Option<RemoteModel> },
    Model(ModelSource),
}

pub enum EntryView {
    Directory(Option<RemoteView>),
    Gguf(Option<RemoteView>),
    FastFlowLm(FlmView),
}

impl View for CatalogEntry {
    type V = EntryView;

    open spec fn view(&self) -> EntryView {
        match self {
            CatalogEntry::Directory { repository } => EntryView::Directory(
                remote_view(*repository),
            ),
            CatalogEntry::Model(ModelSource::Gguf { remote }) => EntryView::Gguf(
                remote_view(*remote),
            ),
            CatalogEntry::Model(ModelSource::FastFlowLm(f)) => EntryView::FastFlowLm(f@),
        }
    }
}

/// What a stored model stands for; nothing can be of two runtimes.
pub open spec fn entry_of(path: Seq<char>, remote: Option<RemoteView>, flm: Option<FlmView>) -> Result<EntryView, Seq<char>> {
    match (flm, remote) {
        (Some(_), Some(_)) => Err("a model cannot have both FastFlowLM and GGUF identities"@),
        (Some(f), None) => Ok(EntryView::FastFlowLm(f)),
        (None, r) => if path.len() == 0 && (r is None || r->0.file is None) {
            Ok(EntryView::Directory(r))
        } else {
            Ok(EntryView::Gguf(r))
        },
    }
}

/// The stored identities of an entry.
pub open spec fn identities(e: EntryView) -> (Option<RemoteView>, Option<FlmView>) {
    match e {
        EntryView::Directory(r) => (r, None),
        EntryView::Gguf(r) => (r, None),
        EntryView::FastFlowLm(f) => (None, Some(f)),
    }
}

/// What a stored model stands for.
pub fn read_entry(path: &str, remote: Option<RemoteModel>, flm: Option<FlmModel>) -> (r: Result<CatalogEntry, String>)
    ensures
        match (entry_of(path@, remote_view(remote), flm_view(flm)), r) {
            (Ok(v), Ok(e)) => e@ == v,
            (Err(v), Err(e)) => e@ == v,
            _ => false,
        },
{
    match (flm, remote) {
        (Some(_), Some(_)) => Err(
            text::copy("a model cannot have both FastFlowLM and GGUF identities"),
        ),
        (Some(f), None) => Ok(CatalogEntry::Model(ModelSource::FastFlowLm(f))),
        (None, r) => {
            let names_file = match &r {
                Some(m) => m.file.is_some(),
                None => false,
            };
            if path.is_empty() && !names_file {
                Ok(CatalogEntry::Directory { repository: r })
            } else {
                Ok(CatalogEntry::Model(ModelSource::Gguf { remote: r }))
            }
        },
    }
}

/// The stored identities of an entry.
pub fn write_entry(e: CatalogEntry) -> (r: (Option<RemoteModel>, Option<FlmModel>))
    ensures
        (remote_view(r.0), flm_view(r.1)) == identities(e@),
{
    match e {
        CatalogEntry::Directory { repository } => (repository, None),
        CatalogEntry::Model(ModelSource::Gguf { remote }) => (remote, None),
        CatalogEntry::Model(ModelSource::FastFlowLm(f)) => (None, Some(f)),
    }
}

/// Storing an entry that was read and reading it again gives the same entry.
pub proof fn law_entries_round_trip(path: Seq<char>, remote: Option<RemoteView>, flm: Option<FlmView>)
    requires
        entry_of(path, remote, flm) is Ok,
    ensures
        identities(entry_of(path, remote, flm)->Ok_0) == (remote, flm),
        entry_of(
            path,
            identities(entry_of(path, remote, flm)->Ok_0).0,
            identities(entry_of(path, remote, flm)->Ok_0).1,
        ) == entry_of(path, remote, flm),
{
}

/// An entry reads as a directory exactly where the browser takes it for one.
pub proof fn law_directories_agree(m: ModelView)
    requires
        m.hub is None,
        !m.folder,
        entry_of(m.path, m.remote, m.flm) is Ok,
    ensures
        entry_of(m.path, m.remote, m.flm)->Ok_0 is Directory == m.is_catalog_dir(),
{
}

// --- the stored form ---------------------------------------------------------

/// A model as it is stored: flat, with nothing that says outright what it stands
/// for.
#[derive(Debug)]
pub struct ModelFile {
    pub id: String,
    pub name: String,
    pub path: String,
    pub shard_paths: Vec<String>,
    pub mtp_path: Option<String>,
    pub dflash_path: Option<String>,
    pub dflash_block_size: Option<u64>,
    pub projector_path: Option<String>,
    pub has_mtp: bool,
    pub catalog_path: Vec<String>,
    pub catalog_dir: String,
    pub size_bytes: u64,
    pub quantization: Option<String>,
    pub architecture: Option<String>,
    pub context_length: Option<u64>,
    pub modified: Option<u64>,
    pub has_chat_template: bool,
    pub remote: Option<RemoteModel>,
    pub flm: Option<FlmModel>,
    pub runtime: String,
}

/// The model that a stored form describes, apart from whether it is a folder.
pub open spec fn described(f: ModelFile) -> ModelView {
    ModelView {
        id: f.id@,
        name: f.name@,
        path: f.path@,
        shard_paths: strs(f.shard_paths@),
        mtp_path: opt(f.mtp_path),
        dflash_path: opt(f.dflash_path),
        dflash_block_size: f.dflash_block_size,
        projector_path: opt(f.projector_path),
        has_mtp: f.has_mtp,
        catalog_path: strs(f.catalog_path@),
        catalog_dir: f.catalog_dir@,
        size_bytes: f.size_bytes,
        quantization: opt(f.quantization),
        architecture: opt(f.architecture),
        context_length: f.context_length,
        modified: f.modified,
        has_chat_template: f.has_chat_template,
        remote: remote_view(f.remote),
        flm: flm_view(f.flm),
        hub: None,
        folder: false,
        runtime: f.runtime@,
    }
}

/// The model that a stored form stands for; nothing can be of two runtimes.
pub open spec fn stored_model(f: ModelView) -> Result<ModelView, Seq<char>> {
    match entry_of(f.path, f.remote, f.flm) {
        Ok(e) => Ok(ModelView { folder: e is Directory, hub: None, ..f }),
        Err(e) => Err(e),
    }
}

impl Model {
    /// The model that a stored form stands for.
    pub fn try_from(file: ModelFile) -> (r: Result<Model, String>)
        ensures
            match (stored_model(described(file)), r) {
                (Ok(v), Ok(m)) => m@ == v,
                (Err(e), Err(s)) => s@ == e,
                _ => false,
            },
    {
        let entry = match read_entry(file.path.as_str(), file.remote, file.flm) {
            Ok(e) => e,
            Err(e) => return Err(e),
        };
        let folder = match &entry {
            CatalogEntry::Directory { repository: _ } => true,
            CatalogEntry::Model(_) => false,
        };
        let (remote, flm) = write_entry(entry);
        Ok(
            Model {
                id: file.id,
                name: file.name,
                path: file.path,
                shard_paths: file.shard_paths,
                mtp_path: file.mtp_path,
                dflash_path: file.dflash_path,
                dflash_block_size: file.dflash_block_size,
                projector_path: file.projector_path,
                has_mtp: file.has_mtp,
                catalog_path: file.catalog_path,
                catalog_dir: file.catalog_dir,
                size_bytes: file.size_bytes,
                quantization: file.quantization,
                architecture: file.architecture,
                context_length: file.context_length,
                modified: file.modified,
                has_chat_template: file.has_chat_template,
                remote,
                flm,
                hub: None,
                folder,
                runtime: file.runtime,
            },
        )
    }
}

impl ModelFile {
    /// The stored form of a model.
    pub fn from(model: Model) -> (r: ModelFile)
        ensures
            described(r) == (ModelView { hub: None, folder: false, ..model@ }),
    {
        ModelFile {
            id: model.id,
            name: model.name,
            path: model.path,
            shard_paths: model.shard_paths,
            mtp_path: model.mtp_path,
            dflash_path: model.dflash_path,
            dflash_block_size: model.dflash_block_size,
            projector_path: model.projector_path,
            has_mtp: model.has_mtp,
            catalog_path: model.catalog_path,
            catalog_dir: model.catalog_dir,
            size_bytes: model.size_bytes,
            quantization: model.quantization,
            architecture: model.architecture,
            context_length: model.context_length,
            modified: model.modified,
            has_chat_template: model.has_chat_template,
            remote: model.remote,
            flm: model.flm,
            runtime: model.runtime,
        }
    }
}

/// Storing a model that was read and reading it again gives the same model.
pub proof fn law_models_round_trip(f: ModelView)
    requires
        stored_model(f) is Ok,
    ensures
        ({
            let m = stored_model(f)->Ok_0;
            stored_model(ModelView { hub: None, folder: false, ..m }) == stored_model(f)
        }),
{
}

/// A model keeps the identity of its profiles when its file arrives on disk.
pub proof fn law_downloading_keeps_the_identity(m: ModelView, path: Seq<char>)
    requires
        m.flm is Some || m.remote is Some,
    ensures
        (ModelView { path, ..m }).profile_key() == m.profile_key(),
{
}

/// An entry that was stored as a folder stays one, whatever else becomes known of
/// it, and cannot be launched.
pub proof fn law_folders_stay_folders(m: ModelView, path: Seq<char>)
    requires
        m.folder,
    ensures
        (ModelView { path, ..m }).is_catalog_dir(),
        !(ModelView { path, ..m }).is_model(),
{
}

} // verus!
