//! The online catalog: repositories of the Hugging Face Hub, their artifacts,
//! and what the local cache holds of them.

pub mod artifacts;
pub mod cache;
pub mod catalog;
pub mod companions;
pub mod deletion;
pub mod transfer;

use vstd::prelude::*;
use crate::domain::{Model, ModelView, RemoteModel, RemoteView};
use crate::names;
use crate::path;
use crate::text;
use crate::text::{opt, strs};

verus! {

/// The virtual folder that holds online sources.
pub const ONLINE: &'static str = "online";

/// The Hugging Face folder below it.
pub const HUGGINGFACE: &'static str = "huggingface";

/// The runtime that launches what the online catalog offers.
pub const RUNTIME: &'static str = "llama.cpp";

/// A repository as the Hub lists it.
#[derive(Debug)]
pub struct Repository {
    pub id: String,
    pub downloads: u64,
    pub likes: u64,
    pub sha: Option<String>,
    pub gated: bool,
}

pub struct RepositoryView {
    pub id: Seq<char>,
    pub downloads: u64,
    pub likes: u64,
    pub sha: Option<Seq<char>>,
    pub gated: bool,
}

impl View for Repository {
    type V = RepositoryView;

    open spec fn view(&self) -> RepositoryView {
        RepositoryView {
            id: self.id@,
            downloads: self.downloads,
            likes: self.likes,
            sha: opt(self.sha),
            gated: self.gated,
        }
    }
}

impl Clone for Repository {
    fn clone(&self) -> (r: Self)
        ensures
            r@ == self@,
    {
        Repository {
            id: self.id.clone(),
            downloads: self.downloads,
            likes: self.likes,
            sha: text::copy_opt(&self.sha),
            gated: self.gated,
        }
    }
}

/// Where the managed catalog keeps the online tree.
pub open spec fn online_root(root: Seq<char>) -> Seq<char> {
    path::joined(path::joined(root, ONLINE@), HUGGINGFACE@)
}

/// The parts of a repository id, each as one path component.
pub open spec fn id_components(id: Seq<char>) -> Seq<Seq<char>> {
    text::split(id, '/').map_values(|p: Seq<char>| names::component(p, false))
}

/// Where the managed catalog keeps a repository.
pub open spec fn repository_path(root: Seq<char>, id: Seq<char>) -> Seq<char> {
    path::joined_all(online_root(root), id_components(id))
}

/// Where the managed catalog keeps the online tree.
pub fn online_dir(root: &str) -> (r: String)
    ensures
        r@ == online_root(root@),
{
    path::join(path::join(root, ONLINE).as_str(), HUGGINGFACE)
}

/// Where the managed catalog keeps a repository.
pub fn repository_dir(root: &str, repo: &str) -> (r: String)
    ensures
        r@ == repository_path(root@, repo@),
{
    let pieces = text::split_char(repo, '/');
    let mut parts: Vec<String> = Vec::new();
    let mut i: usize = 0;
    while i < pieces.len()
        invariant
            i <= pieces.len(),
            parts.len() == i,
            forall|j: int|
                0 <= j < i ==> (#[trigger] parts@[j])@ == names::component(pieces@[j]@, false),
        decreases pieces.len() - i,
    {
        parts.push(names::safe_component(pieces[i].as_str(), false));
        i += 1;
    }
    assert(strs(parts@) =~= id_components(repo@)) by {
        assert(strs(pieces@) == text::split(repo@, '/'));
        assert forall|j: int| 0 <= j < parts@.len() implies strs(parts@)[j] == id_components(
            repo@,
        )[j] by {
            assert(strs(pieces@)[j] == pieces@[j]@);
        }
    }
    path::join_all(online_dir(root).as_str(), &parts)
}

/// Where the managed catalog keeps the list of repositories.
pub fn repository_list_path(root: &str) -> (r: String)
    ensures
        r@ == path::joined(online_root(root@), ".repositories.json"@),
{
    path::join(online_dir(root).as_str(), ".repositories.json")
}

/// Where the managed catalog keeps what the Hub said of a repository.
pub fn repository_detail_path(root: &str, repo: &str) -> (r: String)
    ensures
        r@ == path::joined(repository_path(root@, repo@), ".repository.json"@),
{
    path::join(repository_dir(root, repo).as_str(), ".repository.json")
}

/// An entry with nothing but its place in the catalog.
pub open spec fn bare_entry(id: Seq<char>, name: Seq<char>, catalog_path: Seq<Seq<char>>, runtime: Seq<char>) -> ModelView {
    ModelView {
        id,
        name,
        path: ""@,
        shard_paths: Seq::<Seq<char>>::empty(),
        mtp_path: None,
        dflash_path: None,
        dflash_block_size: None,
        projector_path: None,
        has_mtp: false,
        catalog_path,
        catalog_dir: ""@,
        size_bytes: 0,
        quantization: None,
        architecture: None,
        context_length: None,
        modified: None,
        has_chat_template: false,
        remote: None,
        flm: None,
        hub: None,
        folder: false,
        runtime,
    }
}

/// An entry with nothing but its place in the catalog.
pub fn bare_model(id: String, name: String, catalog_path: Vec<String>, runtime: String) -> (r: Model)
    ensures
        r@ == bare_entry(id@, name@, strs(catalog_path@), runtime@),
{
    let m = Model {
        id,
        name,
        path: text::copy(""),
        shard_paths: Vec::new(),
        mtp_path: None,
        dflash_path: None,
        dflash_block_size: None,
        projector_path: None,
        has_mtp: false,
        catalog_path,
        catalog_dir: text::copy(""),
        size_bytes: 0,
        quantization: None,
        architecture: None,
        context_length: None,
        modified: None,
        has_chat_template: false,
        remote: None,
        flm: None,
        hub: None,
        folder: false,
        runtime,
    };
    assert(m@.shard_paths =~= Seq::<Seq<char>>::empty());
    m
}

/// The remote identity of a repository itself.
pub open spec fn repository_identity(repository: RepositoryView) -> RemoteView {
    RemoteView {
        repo: repository.id,
        revision: repository.sha,
        file: None,
        blobs: Seq::<crate::domain::BlobView>::empty(),
        mtp_file: None,
        dflash_file: None,
        projector_file: None,
        downloads: repository.downloads,
        likes: repository.likes,
        gated: repository.gated,
    }
}

/// The directory that stands for a repository.
pub open spec fn repository_entry(root: Seq<char>, repository: RepositoryView) -> ModelView {
    ModelView {
        catalog_dir: repository_path(root, repository.id),
        remote: Some(repository_identity(repository)),
        ..bare_entry(
            "hf:"@ + repository.id,
            repository.id,
            seq![ONLINE@, HUGGINGFACE@, repository.id],
            RUNTIME@,
        )
    }
}

/// The directory that stands for a repository.
pub fn repository_directory(root: &str, repository: &Repository) -> (r: Model)
    ensures
        r@ == repository_entry(root@, repository@),
{
    let mut place: Vec<String> = Vec::new();
    place.push(text::copy(ONLINE));
    place.push(text::copy(HUGGINGFACE));
    place.push(repository.id.clone());
    assert(strs(place@) =~= seq![ONLINE@, HUGGINGFACE@, repository@.id]);
    let mut entry = bare_model(
        text::cat("hf:", repository.id.as_str()),
        repository.id.clone(),
        place,
        text::copy(RUNTIME),
    );
    entry.catalog_dir = repository_dir(root, repository.id.as_str());
    let identity = RemoteModel {
        repo: repository.id.clone(),
        revision: text::copy_opt(&repository.sha),
        file: None,
        blobs: Vec::new(),
        mtp_file: None,
        dflash_file: None,
        projector_file: None,
        downloads: repository.downloads,
        likes: repository.likes,
        gated: repository.gated,
    };
    assert(identity@.blobs =~= Seq::<crate::domain::BlobView>::empty());
    entry.remote = Some(identity);
    entry
}

/// The directory that stands for a place in the online tree.
pub open spec fn directory_entry(place: Seq<Seq<char>>) -> ModelView {
    bare_entry(
        ""@,
        if place.len() > 0 {
            place.last()
        } else {
            ""@
        },
        place,
        RUNTIME@,
    )
}

/// The directory that stands for a place in the online tree.
pub fn directory(place: &Vec<String>) -> (r: Model)
    ensures
        r@ == directory_entry(strs(place@)),
{
    let name = if place.len() > 0 {
        place[place.len() - 1].clone()
    } else {
        text::copy("")
    };
    bare_model(text::copy(""), name, text::copy_all(place), text::copy(RUNTIME))
}

/// A repository stands in the online tree under its whole name, with what the Hub says
/// of it, and is a folder.
pub proof fn law_repositories_stand_in_the_tree(root: Seq<char>, r: RepositoryView)
    ensures
        ({
            let m = repository_entry(root, r);
            &&& m.catalog_path == seq!["online"@, "huggingface"@, r.id]
            &&& m.name == r.id && m.is_catalog_dir()
            &&& m.remote is Some && m.remote->0.repo == r.id && m.remote->0.file is None
            &&& m.remote->0.downloads == r.downloads && m.remote->0.likes == r.likes
            &&& m.remote->0.gated == r.gated && m.remote->0.revision == r.sha
        }),
{
    reveal_strlit("");
}

} // verus!
