//! Removing a downloaded artifact: which files of the cache are its own, and
//! which stay for the other artifacts of the repository.

use vstd::prelude::*;
use crate::discovery::online::cache;
use crate::domain::{
    blobs_view, views, BlobView, Model, ModelView, RemoteBlob, RemoteModel, RemoteView,
};
use crate::order;
use crate::path;
use crate::runtime::deletion::{Deletion, DeletionView, Husk, HuskView};
use crate::runtime::storage::{
    freed_bytes, freed_if_fits, freed_upto, link_views, LinkFact, LinkView,
};
use crate::text;
use crate::text::{opt, strs};

verus! {

/// An existing file of the cache.
#[derive(Debug)]
pub struct FileFact {
    /// The path that it was asked for by.
    pub path: String,
    pub symlink: bool,
    /// What it points at with every link resolved, where it is a link.
    pub target: Option<String>,
    /// The path with every link resolved.
    pub canonical: String,
    /// Its size; nothing for a link.
    pub bytes: u64,
    /// Where it is stored, and how many names it has there.
    pub device: u64,
    pub inode: u64,
    pub links: u64,
}

pub struct FactView {
    pub path: Seq<char>,
    pub symlink: bool,
    pub target: Option<Seq<char>>,
    pub canonical: Seq<char>,
    pub bytes: u64,
    pub device: u64,
    pub inode: u64,
    pub links: u64,
}

impl View for FileFact {
    type V = FactView;

    open spec fn view(&self) -> FactView {
        FactView {
            path: self.path@,
            symlink: self.symlink,
            target: opt(self.target),
            canonical: self.canonical@,
            bytes: self.bytes,
            device: self.device,
            inode: self.inode,
            links: self.links,
        }
    }
}

impl FactView {
    /// The file itself, whatever it was asked for by; a link is its own file.
    pub open spec fn identity(self) -> Seq<char> {
        if self.symlink {
            self.path
        } else {
            self.canonical
        }
    }

    /// The file as what it gives back is counted by.
    pub open spec fn link(self) -> LinkView {
        LinkView {
            symlink: self.symlink,
            canonical: self.canonical,
            device: self.device,
            inode: self.inode,
            length: self.bytes,
            links: self.links,
        }
    }
}

/// What is on disk of a repository in the cache.
#[derive(Debug)]
pub struct DiskFacts {
    /// Whether the repository's directory exists.
    pub present: bool,
    /// What the repository's main reference says.
    pub main_ref: Option<String>,
    /// The files that exist, of those that may belong to the artifact.
    pub files: Vec<FileFact>,
}

pub struct DiskView {
    pub present: bool,
    pub main_ref: Option<Seq<char>>,
    pub files: Seq<FactView>,
}

/// The views of a list of files.
pub open spec fn fact_views(v: Seq<FileFact>) -> Seq<FactView> {
    v.map_values(|f: FileFact| f@)
}

impl View for DiskFacts {
    type V = DiskView;

    open spec fn view(&self) -> DiskView {
        DiskView {
            present: self.present,
            main_ref: opt(self.main_ref),
            files: fact_views(self.files@),
        }
    }
}

/// Which of the files was asked for by a path.
pub open spec fn index_of(files: Seq<FactView>, p: Seq<char>, from: int) -> Option<int>
    decreases files.len() - from,
{
    if from < 0 || from >= files.len() {
        None
    } else if path::components(files[from].path) == path::components(p) {
        Some(from)
    } else {
        index_of(files, p, from + 1)
    }
}

/// The file at a path, if it exists.
pub open spec fn fact_at(files: Seq<FactView>, p: Seq<char>) -> Option<FactView> {
    match index_of(files, p, 0) {
        Some(i) => Some(files[i]),
        None => None,
    }
}

// --- the plan ----------------------------------------------------------------

/// Whether another entry of the catalog is a stored artifact of the repository.
pub open spec fn is_neighbour(other: ModelView, model: ModelView, repo: Seq<char>) -> bool {
    other.id != model.id && other.path.len() > 0 && other.remote is Some && other.remote->0.repo
        == repo
}

/// Whether a neighbour needs the file.
pub open spec fn spoken_for(catalog: Seq<ModelView>, model: ModelView, repo: Seq<char>, file: Seq<char>) -> bool {
    exists|i: int, j: int|
        0 <= i < catalog.len() && is_neighbour(catalog[i], model, repo) && 0 <= j
            < catalog[i].remote->0.blobs.len() && #[trigger] catalog[i].remote->0.blobs[j].file
            == file
}

/// Whether the repository has any stored artifact besides the model.
pub open spec fn has_neighbour(catalog: Seq<ModelView>, model: ModelView, repo: Seq<char>) -> bool {
    exists|i: int| 0 <= i < catalog.len() && is_neighbour(#[trigger] catalog[i], model, repo)
}

/// A plan being made: the files so far, their identities, and the directories that
/// may become empty.
pub struct Draft {
    pub files: Seq<Seq<char>>,
    pub seen: Seq<Seq<char>>,
    pub prune: Seq<Seq<char>>,
}

/// The draft with the file at a path, unless it does not exist or is there
/// already under any spelling.
pub open spec fn with_file(d: Draft, disk: Seq<FactView>, p: Seq<char>) -> Draft {
    match fact_at(disk, p) {
        Some(f) => if has_path(d.seen, f.identity()) {
            d
        } else {
            Draft {
                files: d.files.push(p),
                seen: d.seen.push(f.identity()),
                prune: d.prune,
            }
        },
        None => d,
    }
}

/// The draft with the files at the first `n` paths.
pub open spec fn with_files(d: Draft, disk: Seq<FactView>, paths: Seq<Seq<char>>, n: nat) -> Draft
    decreases n,
{
    if n == 0 {
        d
    } else {
        with_file(with_files(d, disk, paths, (n - 1) as nat), disk, paths[n - 1])
    }
}

/// What the snapshot's link for a file points at.
pub open spec fn linked_blob(disk: Seq<FactView>, link: Seq<char>) -> Option<Seq<char>> {
    match fact_at(disk, link) {
        Some(f) => f.target,
        None => None,
    }
}

/// The paths at which a blob may be stored: its partial file; the blob that the
/// snapshot's link points at, or where nothing links it the one that its object
/// id names; and the link.
pub open spec fn blob_candidates(hub: Seq<char>, repo: Seq<char>, link: Seq<char>, blob: BlobView, linked: Option<Seq<char>>) -> Seq<Seq<char>> {
    let by_id = match cache::blob_places(hub, repo, blob.oid) {
        Some(p) => if linked is None {
            seq![p.0, p.1]
        } else {
            seq![p.0]
        },
        None => Seq::<Seq<char>>::empty(),
    };
    let by_link = match linked {
        Some(t) => seq![t],
        None => Seq::<Seq<char>>::empty(),
    };
    by_id + by_link + seq![link]
}

/// Whether a list holds a path, compared by components.
pub open spec fn has_path(paths: Seq<Seq<char>>, p: Seq<char>) -> bool {
    exists|i: int|
        0 <= i < paths.len() && path::components(#[trigger] paths[i]) == path::components(p)
}

/// The directories to prune with that of a link, where it is not the snapshot
/// itself and not there already.
pub open spec fn with_parent(prune: Seq<Seq<char>>, snapshot: Seq<char>, link: Seq<char>) -> Seq<Seq<char>> {
    match path::parent_of(link) {
        Some(p) => if path::components(p) == path::components(snapshot) || has_path(prune, p) {
            prune
        } else {
            prune.push(p)
        },
        None => prune,
    }
}

/// The draft with one blob of the artifact.
pub open spec fn with_blob(d: Draft, hub: Seq<char>, repo: Seq<char>, snapshot: Seq<char>, disk: Seq<FactView>, blob: BlobView) -> Draft {
    let link = path::joined(snapshot, blob.file);
    let paths = blob_candidates(hub, repo, link, blob, linked_blob(disk, link));
    let filled = with_files(d, disk, paths, paths.len());
    Draft { prune: with_parent(filled.prune, snapshot, link), ..filled }
}

/// The draft with the first `n` blobs of the artifact, without those that a
/// neighbour needs.
pub open spec fn draft_upto(hub: Seq<char>, model: ModelView, catalog: Seq<ModelView>, snapshot: Seq<char>, disk: Seq<FactView>, n: nat) -> Draft
    decreases n,
{
    let remote = model.remote->0;
    if n == 0 {
        Draft {
            files: Seq::<Seq<char>>::empty(),
            seen: Seq::<Seq<char>>::empty(),
            prune: Seq::<Seq<char>>::empty(),
        }
    } else {
        let d = draft_upto(hub, model, catalog, snapshot, disk, (n - 1) as nat);
        if spoken_for(catalog, model, remote.repo, remote.blobs[n - 1].file) {
            d
        } else {
            with_blob(d, hub, remote.repo, snapshot, disk, remote.blobs[n - 1])
        }
    }
}

/// Which of two directories is deeper, by their indices.
pub open spec fn deeper(paths: Seq<Seq<char>>) -> spec_fn(int, int) -> bool {
    |i: int, j: int| path::components(paths[i]).len() > path::components(paths[j]).len()
}

/// The directories with the deepest ones first; those of the same depth keep their
/// order.
pub open spec fn deepest_first(paths: Seq<Seq<char>>) -> Seq<Seq<char>> {
    order::pick(paths, order::stable_order(paths.len(), deeper(paths)))
}

/// The revision whose files the plan is about: the one on disk, else the one
/// that the catalog knows.
pub open spec fn planned_revision(remote: RemoteView, main_ref: Option<Seq<char>>) -> Seq<char> {
    match cache::held_revision(main_ref) {
        Some(r) => r,
        None => cache::revision_of(remote),
    }
}

/// What is known of the files at some paths.
pub open spec fn links_at(disk: Seq<FactView>, paths: Seq<Seq<char>>) -> Seq<Option<LinkView>> {
    paths.map_values(
        |p: Seq<char>|
            match fact_at(disk, p) {
                Some(f) => Some(f.link()),
                None => None,
            },
    )
}

/// The space that a plan gives back: a file with several names counts only where the
/// plan takes all of them.
pub open spec fn planned_bytes(hub: Seq<char>, model: ModelView, catalog: Seq<ModelView>, disk: DiskView) -> nat {
    if model.remote_file() is None || !disk.present {
        0
    } else {
        let remote = model.remote->0;
        let snapshot = cache::snapshot_place(
            cache::repo_place(hub, remote.repo),
            planned_revision(remote, disk.main_ref),
        );
        let files = draft_upto(
            hub,
            model,
            catalog,
            snapshot,
            disk.files,
            remote.blobs.len(),
        ).files;
        freed_upto(links_at(disk.files, files), files.len())
    }
}

/// What removing a downloaded artifact would delete; nothing where it is no
/// artifact or nothing of it is stored.
pub open spec fn deletion_plan(hub: Seq<char>, model: ModelView, catalog: Seq<ModelView>, disk: DiskView) -> Option<DeletionView> {
    if model.remote_file() is None || !disk.present {
        None
    } else {
        let remote = model.remote->0;
        let repo_dir = cache::repo_place(hub, remote.repo);
        let snapshot = cache::snapshot_place(
            repo_dir,
            planned_revision(remote, disk.main_ref),
        );
        let d = draft_upto(hub, model, catalog, snapshot, disk.files, remote.blobs.len());
        let leaf = path::joined(model.catalog_dir, "model.gguf"@);
        let leaf_fact = fact_at(disk.files, leaf);
        let snapshots = path::joined(repo_dir, "snapshots"@);
        let blobs = path::joined(repo_dir, "blobs"@);
        if d.files.len() == 0 {
            None
        } else {
            Some(
                DeletionView {
                    files: if leaf_fact is Some && leaf_fact->0.symlink {
                        d.files.push(leaf)
                    } else {
                        d.files
                    },
                    trees: Seq::<Seq<char>>::empty(),
                    prune: deepest_first(d.prune.push(snapshot).push(snapshots).push(blobs)),
                    husk: if has_neighbour(catalog, model, remote.repo) {
                        None
                    } else {
                        Some(HuskView { dir: repo_dir, empty_first: seq![blobs, snapshots] })
                    },
                    bytes: planned_bytes(hub, model, catalog, disk) as u64,
                },
            )
        }
    }
}

// --- the same, computed ------------------------------------------------------

/// A plan being made.
struct Work {
    files: Vec<String>,
    seen: Vec<String>,
    prune: Vec<String>,
}

impl Work {
    spec fn draft(self) -> Draft {
        Draft {
            files: strs(self.files@),
            seen: strs(self.seen@),
            prune: strs(self.prune@),
        }
    }
}

/// Which of the files was asked for by a path.
fn find_fact(files: &Vec<FileFact>, p: &str) -> (r: Option<usize>)
    ensures
        match r {
            Some(i) => i < files.len() && index_of(fact_views(files@), p@, 0) == Some(i as int),
            None => index_of(fact_views(files@), p@, 0) is None,
        },
{
    let ghost all = fact_views(files@);
    let mut i: usize = 0;
    while i < files.len()
        invariant
            i <= files.len(),
            all == fact_views(files@),
            index_of(all, p@, 0) == index_of(all, p@, i as int),
        decreases files.len() - i,
    {
        assert(all[i as int] == files@[i as int]@);
        if path::same(files[i].path.as_str(), p) {
            return Some(i);
        }
        i += 1;
    }
    None
}

/// Adds the file at a path, unless it does not exist or is there already.
fn add_file(w: &mut Work, disk: &Vec<FileFact>, p: &str)
    ensures
        final(w).draft() == with_file(old(w).draft(), fact_views(disk@), p@),
{
    let ghost all = fact_views(disk@);
    if let Some(i) = find_fact(disk, p) {
        assert(all[i as int] == disk@[i as int]@);
        let identity = if disk[i].symlink {
            text::copy(disk[i].path.as_str())
        } else {
            text::copy(disk[i].canonical.as_str())
        };
        if !contains_path(&w.seen, identity.as_str()) {
            let ghost d = w.draft();
            w.files.push(text::copy(p));
            w.seen.push(identity);
            assert(strs(w.files@) =~= d.files.push(p@));
            assert(strs(w.seen@) =~= d.seen.push(identity@));
        }
    }
}

/// Whether a list holds a path, compared by components.
fn contains_path(paths: &Vec<String>, p: &str) -> (r: bool)
    ensures
        r == has_path(strs(paths@), p@),
{
    let mut i: usize = 0;
    while i < paths.len()
        invariant
            i <= paths.len(),
            forall|j: int|
                0 <= j < i ==> path::components(#[trigger] strs(paths@)[j]) != path::components(
                    p@,
                ),
        decreases paths.len() - i,
    {
        assert(strs(paths@)[i as int] == paths@[i as int]@);
        if path::same(paths[i].as_str(), p) {
            return true;
        }
        i += 1;
    }
    false
}

/// The paths at which a blob may be stored.
fn candidates(hub: &str, repo: &str, link: &str, blob: &RemoteBlob, linked: &Option<String>) -> (r: Vec<String>)
    ensures
        strs(r@) == blob_candidates(hub@, repo@, link@, blob@, opt(*linked)),
{
    let mut out: Vec<String> = Vec::new();
    if let Some((incomplete, complete)) = cache::cache_blob_paths_in(hub, repo, blob.oid.as_str()) {
        out.push(incomplete);
        if linked.is_none() {
            out.push(complete);
        }
    }
    if let Some(t) = linked {
        out.push(t.clone());
    }
    out.push(text::copy(link));
    assert(strs(out@) =~= blob_candidates(hub@, repo@, link@, blob@, opt(*linked)));
    out
}

/// Adds one blob of the artifact.
fn add_blob(w: &mut Work, hub: &str, repo: &str, snapshot: &str, disk: &Vec<FileFact>, blob: &RemoteBlob)
    ensures
        final(w).draft() == with_blob(
            old(w).draft(),
            hub@,
            repo@,
            snapshot@,
            fact_views(disk@),
            blob@,
        ),
{
    let ghost all = fact_views(disk@);
    let ghost start = w.draft();
    let link = path::join(snapshot, blob.file.as_str());
    let linked: Option<String> = match find_fact(disk, link.as_str()) {
        Some(i) => {
            assert(all[i as int] == disk@[i as int]@);
            text::copy_opt(&disk[i].target)
        },
        None => None,
    };
    let paths = candidates(hub, repo, link.as_str(), blob, &linked);
    let mut k: usize = 0;
    while k < paths.len()
        invariant
            k <= paths.len(),
            all == fact_views(disk@),
            w.draft() == with_files(start, all, strs(paths@), k as nat),
        decreases paths.len() - k,
    {
        assert(strs(paths@)[k as int] == paths@[k as int]@);
        add_file(w, disk, paths[k].as_str());
        k += 1;
    }
    if let Some(dir) = path::parent(link.as_str()) {
        if !path::same(dir.as_str(), snapshot) && !contains_path(&w.prune, dir.as_str()) {
            let ghost d = w.draft();
            let ghost view = dir@;
            w.prune.push(dir);
            assert(strs(w.prune@) =~= d.prune.push(view));
        }
    }
}

fn neighbour(other: &Model, model: &Model, repo: &str) -> (r: bool)
    ensures
        r == is_neighbour(other@, model@, repo@),
{
    if text::same(other.id.as_str(), model.id.as_str()) || other.path.as_str().is_empty() {
        return false;
    }
    match &other.remote {
        Some(remote) => text::same(remote.repo.as_str(), repo),
        None => false,
    }
}

/// Whether a neighbour needs the file.
fn needed(catalog: &Vec<Model>, model: &Model, repo: &str, file: &str) -> (r: bool)
    ensures
        r == spoken_for(views(catalog@), model@, repo@, file@),
{
    let ghost all = views(catalog@);
    let mut i: usize = 0;
    while i < catalog.len()
        invariant
            i <= catalog.len(),
            all == views(catalog@),
            forall|a: int, b: int|
                0 <= a < i && is_neighbour(all[a], model@, repo@) && 0 <= b
                    < all[a].remote->0.blobs.len() ==> #[trigger] all[a].remote->0.blobs[b].file
                    != file@,
        decreases catalog.len() - i,
    {
        assert(all[i as int] == catalog@[i as int]@);
        if neighbour(&catalog[i], model, repo) {
            if let Some(remote) = &catalog[i].remote {
                let blobs = &remote.blobs;
                assert(all[i as int].remote->0.blobs == blobs_view(blobs@));
                let mut k: usize = 0;
                while k < blobs.len()
                    invariant
                        i < catalog.len(),
                        k <= blobs.len(),
                        all == views(catalog@),
                        is_neighbour(all[i as int], model@, repo@),
                        all[i as int].remote->0.blobs == blobs_view(blobs@),
                        forall|b: int|
                            0 <= b < k ==> #[trigger] all[i as int].remote->0.blobs[b].file
                                != file@,
                    decreases blobs.len() - k,
                {
                    assert(all[i as int].remote->0.blobs[k as int] == blobs@[k as int]@);
                    if text::same(blobs[k].file.as_str(), file) {
                        assert(all[i as int].remote->0.blobs[k as int].file == file@);
                        return true;
                    }
                    k += 1;
                }
            }
        }
        i += 1;
    }
    false
}

/// Whether the repository has any stored artifact besides the model.
fn shared(catalog: &Vec<Model>, model: &Model, repo: &str) -> (r: bool)
    ensures
        r == has_neighbour(views(catalog@), model@, repo@),
{
    let ghost all = views(catalog@);
    let mut i: usize = 0;
    while i < catalog.len()
        invariant
            i <= catalog.len(),
            all == views(catalog@),
            forall|a: int| 0 <= a < i ==> !is_neighbour(#[trigger] all[a], model@, repo@),
        decreases catalog.len() - i,
    {
        assert(all[i as int] == catalog@[i as int]@);
        if neighbour(&catalog[i], model, repo) {
            return true;
        }
        i += 1;
    }
    false
}

/// The plan for the blobs of an artifact.
fn make_draft(hub: &str, model: &Model, remote: &RemoteModel, catalog: &Vec<Model>, snapshot: &str, disk: &DiskFacts) -> (w: Work)
    requires
        model@.remote == Some(remote@),
    ensures
        w.draft() == draft_upto(
            hub@,
            model@,
            views(catalog@),
            snapshot@,
            disk@.files,
            remote@.blobs.len(),
        ),
{
    let ghost all = disk@.files;
    let ghost listed = views(catalog@);
    let repo = remote.repo.as_str();
    let mut w = Work {
        files: Vec::new(),
        seen: Vec::new(),
        prune: Vec::new(),
    };
    let mut i: usize = 0;
    proof {
        let d = draft_upto(hub@, model@, listed, snapshot@, all, 0);
        assert(w.draft().files =~= d.files);
        assert(w.draft().seen =~= d.seen);
        assert(w.draft().prune =~= d.prune);
    }
    while i < remote.blobs.len()
        invariant
            i <= remote.blobs.len(),
            listed == views(catalog@),
            all == fact_views(disk.files@),
            model@.remote == Some(remote@),
            repo@ == remote@.repo,
            w.draft() == draft_upto(hub@, model@, listed, snapshot@, all, i as nat),
        decreases remote.blobs.len() - i,
    {
        assert(remote@.blobs[i as int] == remote.blobs@[i as int]@);
        if !needed(catalog, model, repo, remote.blobs[i].file.as_str()) {
            add_blob(&mut w, hub, repo, snapshot, &disk.files, &remote.blobs[i]);
        }
        i += 1;
    }
    w
}

fn planned_snapshot(hub: &str, remote: &RemoteModel, main_ref: &Option<String>) -> (r: String)
    ensures
        r@ == cache::snapshot_place(
            cache::repo_place(hub@, remote@.repo),
            planned_revision(remote@, opt(*main_ref)),
        ),
{
    let repo_dir = cache::repo_cache_dir(hub, remote.repo.as_str());
    let revision = match cache::cached_revision(main_ref) {
        Some(v) => v,
        None => cache::remote_revision(remote),
    };
    path::join(path::join(repo_dir.as_str(), "snapshots").as_str(), revision.as_str())
}

/// What is known of the files at some paths.
fn link_facts(disk: &Vec<FileFact>, paths: &Vec<String>) -> (r: Vec<Option<LinkFact>>)
    ensures
        link_views(r@) == links_at(fact_views(disk@), strs(paths@)),
        r@.len() == paths@.len(),
{
    let ghost all = fact_views(disk@);
    let ghost want = links_at(all, strs(paths@));
    let mut out: Vec<Option<LinkFact>> = Vec::new();
    let mut i: usize = 0;
    while i < paths.len()
        invariant
            i <= paths.len(),
            out.len() == i,
            all == fact_views(disk@),
            want == links_at(all, strs(paths@)),
            forall|j: int| 0 <= j < i ==> link_views(out@)[j] == #[trigger] want[j],
        decreases paths.len() - i,
    {
        assert(strs(paths@)[i as int] == paths@[i as int]@);
        let ghost had = link_views(out@);
        let fact = match find_fact(disk, paths[i].as_str()) {
            Some(k) => {
                assert(all[k as int] == disk@[k as int]@);
                let f = &disk[k];
                Some(
                    LinkFact {
                        symlink: f.symlink,
                        canonical: f.canonical.clone(),
                        device: f.device,
                        inode: f.inode,
                        length: f.bytes,
                        links: f.links,
                    },
                )
            },
            None => None,
        };
        out.push(fact);
        assert(link_views(out@).drop_last() =~= had);
        i += 1;
    }
    assert(link_views(out@) =~= want);
    out
}

/// Whether the size of what would be deleted from a cache fits in 64 bits.
pub fn deletion_fits_in(hub: &str, model: &Model, catalog: &Vec<Model>, disk: &DiskFacts) -> (r: bool)
    ensures
        r == (planned_bytes(hub@, model@, views(catalog@), disk@) <= u64::MAX),
{
    let remote = match &model.remote {
        Some(r) => r,
        None => return true,
    };
    if remote.file.is_none() || !disk.present {
        return true;
    }
    let snapshot = planned_snapshot(hub, remote, &disk.main_ref);
    let w = make_draft(hub, model, remote, catalog, snapshot.as_str(), disk);
    freed_if_fits(&link_facts(&disk.files, &w.files)).is_some()
}

/// Directories with the deepest ones first.
fn put_deepest_first(paths: &Vec<String>) -> (r: Vec<String>)
    ensures
        strs(r@) == deepest_first(strs(paths@)),
{
    let ghost all = strs(paths@);
    let n = paths.len();
    let mut depths: Vec<usize> = Vec::new();
    let mut i: usize = 0;
    while i < n
        invariant
            i <= n,
            n == paths.len(),
            depths.len() == i,
            all == strs(paths@),
            forall|j: int| 0 <= j < i ==> #[trigger] depths@[j] == path::components(all[j]).len(),
        decreases n - i,
    {
        assert(all[i as int] == paths@[i as int]@);
        let parts = path::split_components(paths[i].as_str());
        assert(strs(parts@).len() == parts@.len());
        depths.push(parts.len());
        i += 1;
    }
    let before = |a: usize, b: usize| -> (r: bool)
        requires
            a < n,
            b < n,
            n == depths.len(),
        ensures
            r == (depths@[a as int] > depths@[b as int]),
        { depths[a] > depths[b] };
    let picked = order::sorted_indices(n, before, Ghost(deeper(all)));
    let mut out: Vec<String> = Vec::new();
    let mut k: usize = 0;
    while k < picked.len()
        invariant
            k <= picked.len(),
            n == paths.len(),
            all == strs(paths@),
            out.len() == k,
            forall|j: int| 0 <= j < picked@.len() ==> #[trigger] picked@[j] < n,
            forall|j: int| 0 <= j < k ==> (#[trigger] out@[j])@ == all[picked@[j] as int],
        decreases picked.len() - k,
    {
        out.push(paths[picked[k]].clone());
        k += 1;
    }
    assert(strs(out@) =~= order::pick(all, order::ints(picked@)));
    out
}

/// What removing a downloaded artifact from a cache would delete.
pub fn deletion_in(hub: &str, model: &Model, catalog: &Vec<Model>, disk: &DiskFacts) -> (r: Option<Deletion>)
    requires
        planned_bytes(hub@, model@, views(catalog@), disk@) <= u64::MAX,
    ensures
        match r {
            Some(d) => deletion_plan(hub@, model@, views(catalog@), disk@) == Some(d@),
            None => deletion_plan(hub@, model@, views(catalog@), disk@) is None,
        },
{
    let ghost all = disk@.files;
    let remote = match &model.remote {
        Some(r) => r,
        None => return None,
    };
    if remote.file.is_none() || !disk.present {
        return None;
    }
    let repo = remote.repo.as_str();
    let repo_dir = cache::repo_cache_dir(hub, repo);
    let snapshots = path::join(repo_dir.as_str(), "snapshots");
    let blobs = path::join(repo_dir.as_str(), "blobs");
    let snapshot = planned_snapshot(hub, remote, &disk.main_ref);
    let w = make_draft(hub, model, remote, catalog, snapshot.as_str(), disk);
    let ghost d = w.draft();
    let Work { mut files, seen: _, mut prune } = w;
    let facts = link_facts(&disk.files, &files);
    let bytes = freed_bytes(&facts);
    if files.len() == 0 {
        assert(d.files.len() == 0);
        return None;
    }
    let leaf = path::join(model.catalog_dir.as_str(), "model.gguf");
    if let Some(k) = find_fact(&disk.files, leaf.as_str()) {
        assert(all[k as int] == disk.files@[k as int]@);
        if disk.files[k].symlink {
            files.push(leaf);
            assert(strs(files@) =~= d.files.push(leaf@));
        }
    }
    prune.push(snapshot);
    prune.push(snapshots.clone());
    prune.push(blobs.clone());
    assert(strs(prune@) =~= d.prune.push(snapshot@).push(snapshots@).push(blobs@));
    let prune = put_deepest_first(&prune);
    let husk = if shared(catalog, model, repo) {
        None
    } else {
        let mut empty_first: Vec<String> = Vec::new();
        empty_first.push(blobs);
        empty_first.push(snapshots);
        assert(strs(empty_first@) =~= seq![blobs@, snapshots@]);
        Some(Husk { dir: repo_dir, empty_first })
    };
    let trees: Vec<String> = Vec::new();
    assert(strs(trees@) =~= Seq::<Seq<char>>::empty());
    Some(Deletion { files, trees, prune, husk, bytes })
}

/// Whether the size of what would be deleted fits in 64 bits.
pub fn deletion_fits(env: &cache::CacheEnv, model: &Model, catalog: &Vec<Model>, disk: &DiskFacts) -> (r: bool)
    ensures
        r == match cache::cache_place(*env) {
            Some(hub) => planned_bytes(hub, model@, views(catalog@), disk@) <= u64::MAX,
            None => true,
        },
{
    match cache::hugging_face_cache(env) {
        Some(hub) => deletion_fits_in(hub.as_str(), model, catalog, disk),
        None => true,
    }
}

/// What removing a downloaded artifact would delete; nothing where there is no
/// cache.
pub fn deletion(env: &cache::CacheEnv, model: &Model, catalog: &Vec<Model>, disk: &DiskFacts) -> (r: Option<Deletion>)
    requires
        match cache::cache_place(*env) {
            Some(hub) => planned_bytes(hub, model@, views(catalog@), disk@) <= u64::MAX,
            None => true,
        },
    ensures
        match (cache::cache_place(*env), r) {
            (Some(hub), Some(d)) => deletion_plan(hub, model@, views(catalog@), disk@) == Some(d@),
            (Some(hub), None) => deletion_plan(hub, model@, views(catalog@), disk@) is None,
            (None, _) => r is None,
        },
{
    match cache::hugging_face_cache(env) {
        Some(hub) => deletion_in(hub.as_str(), model, catalog, disk),
        None => None,
    }
}

/// A plan prunes the deepest directories first, so that one that holds another comes
/// behind it.
pub proof fn law_pruning_goes_upwards(hub: Seq<char>, model: ModelView, catalog: Seq<ModelView>, disk: DiskView, i: int, j: int)
    requires
        deletion_plan(hub, model, catalog, disk) is Some,
        0 <= i < j < deletion_plan(hub, model, catalog, disk)->0.prune.len(),
    ensures
        ({
            let prune = deletion_plan(hub, model, catalog, disk)->0.prune;
            path::components(prune[i]).len() >= path::components(prune[j]).len()
        }),
{
    let remote = model.remote->0;
    let repo_dir = cache::repo_place(hub, remote.repo);
    let snapshot = cache::snapshot_place(repo_dir, planned_revision(remote, disk.main_ref));
    let d = draft_upto(hub, model, catalog, snapshot, disk.files, remote.blobs.len());
    let paths = d.prune.push(snapshot).push(path::joined(repo_dir, "snapshots"@)).push(
        path::joined(repo_dir, "blobs"@),
    );
    let lt = deeper(paths);
    assert(order::weak_order(lt));
    order::law_stable_order_is_ascending(paths.len(), lt);
    order::law_stable_order_is_a_permutation(paths.len(), lt);
    let o = order::stable_order(paths.len(), lt);
    assert(!lt(o[j], o[i]));
}

// --- what the plan never does ------------------------------------------------

/// Whether every file of a draft belongs to a blob that no neighbour needs.
pub open spec fn only_own(d: Draft, hub: Seq<char>, model: ModelView, catalog: Seq<ModelView>, snapshot: Seq<char>, disk: Seq<FactView>) -> bool {
    forall|k: int| 0 <= k < d.files.len() ==> is_own(#[trigger] d.files[k], hub, model, catalog, snapshot, disk)
}

/// Whether a path is one at which a blob of the artifact may be stored, of a
/// file that no neighbour needs.
pub open spec fn is_own(p: Seq<char>, hub: Seq<char>, model: ModelView, catalog: Seq<ModelView>, snapshot: Seq<char>, disk: Seq<FactView>) -> bool {
    exists|b: int| #[trigger] is_own_blob(b, p, hub, model, catalog, snapshot, disk)
}

/// Whether a path is one at which blob `b` of the artifact may be stored, and no
/// neighbour needs its file.
pub open spec fn is_own_blob(b: int, p: Seq<char>, hub: Seq<char>, model: ModelView, catalog: Seq<ModelView>, snapshot: Seq<char>, disk: Seq<FactView>) -> bool {
    let remote = model.remote->0;
    let link = path::joined(snapshot, remote.blobs[b].file);
    0 <= b < remote.blobs.len() && !spoken_for(catalog, model, remote.repo, remote.blobs[b].file)
        && blob_candidates(hub, remote.repo, link, remote.blobs[b], linked_blob(disk, link)).contains(p)
}

proof fn lemma_with_files_adds(d: Draft, disk: Seq<FactView>, paths: Seq<Seq<char>>, n: nat)
    requires
        n <= paths.len(),
    ensures
        d.files.is_prefix_of(with_files(d, disk, paths, n).files),
        forall|k: int|
            d.files.len() <= k < with_files(d, disk, paths, n).files.len() ==> paths.contains(
                #[trigger] with_files(d, disk, paths, n).files[k],
            ),
    decreases n,
{
    if n > 0 {
        lemma_with_files_adds(d, disk, paths, (n - 1) as nat);
        let before = with_files(d, disk, paths, (n - 1) as nat);
        let after = with_files(d, disk, paths, n);
        assert(paths[n - 1] == paths[n - 1]);
        assert(d.files =~= after.files.subrange(0, d.files.len() as int)) by {
            assert(d.files == before.files.subrange(0, d.files.len() as int));
        }
        assert forall|k: int| d.files.len() <= k < after.files.len() implies paths.contains(
            #[trigger] after.files[k],
        ) by {
            if k < before.files.len() {
                assert(after.files[k] == before.files[k]);
            } else {
                assert(after.files[k] == paths[n - 1]);
            }
        }
    }
}

/// A plan never unlinks a file that another stored artifact of the repository
/// needs: each file that it removes belongs to a blob that no such artifact
/// lists, apart from the entry's own link in the managed catalog.
pub proof fn law_plan_leaves_neighbours_alone(hub: Seq<char>, model: ModelView, catalog: Seq<ModelView>, snapshot: Seq<char>, disk: Seq<FactView>, n: nat)
    requires
        model.remote is Some,
        n <= model.remote->0.blobs.len(),
    ensures
        only_own(draft_upto(hub, model, catalog, snapshot, disk, n), hub, model, catalog, snapshot, disk),
    decreases n,
{
    if n > 0 {
        law_plan_leaves_neighbours_alone(hub, model, catalog, snapshot, disk, (n - 1) as nat);
        let remote = model.remote->0;
        let blob = remote.blobs[n - 1];
        let before = draft_upto(hub, model, catalog, snapshot, disk, (n - 1) as nat);
        if !spoken_for(catalog, model, remote.repo, blob.file) {
            let link = path::joined(snapshot, blob.file);
            let paths = blob_candidates(hub, remote.repo, link, blob, linked_blob(disk, link));
            lemma_with_files_adds(before, disk, paths, paths.len());
            let after = draft_upto(hub, model, catalog, snapshot, disk, n);
            assert forall|k: int| 0 <= k < after.files.len() implies is_own(
                #[trigger] after.files[k],
                hub,
                model,
                catalog,
                snapshot,
                disk,
            ) by {
                if k < before.files.len() {
                    assert(before.files == after.files.subrange(0, before.files.len() as int));
                    assert(after.files[k] == before.files[k]);
                } else {
                    assert(is_own_blob(n - 1, after.files[k], hub, model, catalog, snapshot, disk));
                }
            }
        }
    }
}

// --- everything goes ---------------------------------------------------------

/// Whether what a draft has seen are the files that it holds.
spec fn matched(d: Draft, disk: Seq<FactView>) -> bool {
    d.seen.len() == d.files.len() && forall|k: int|
        0 <= k < d.files.len() ==> fact_at(disk, #[trigger] d.files[k]) is Some && fact_at(
            disk,
            d.files[k],
        )->0.identity() == d.seen[k]
}

proof fn lemma_with_file(d: Draft, disk: Seq<FactView>, p: Seq<char>)
    requires
        matched(d, disk),
    ensures
        matched(with_file(d, disk, p), disk),
        d.seen.is_prefix_of(with_file(d, disk, p).seen),
        fact_at(disk, p) is Some ==> has_path(
            with_file(d, disk, p).seen,
            fact_at(disk, p)->0.identity(),
        ),
{
    let out = with_file(d, disk, p);
    if let Some(f) = fact_at(disk, p) {
        if !has_path(d.seen, f.identity()) {
            assert(out.seen.take(d.seen.len() as int) =~= d.seen);
            assert(out.seen[d.seen.len() as int] == f.identity());
            assert(matched(out, disk)) by {
                assert forall|k: int| 0 <= k < out.files.len() implies fact_at(
                    disk,
                    #[trigger] out.files[k],
                ) is Some && fact_at(disk, out.files[k])->0.identity() == out.seen[k] by {
                    if k < d.files.len() {
                        assert(out.files[k] == d.files[k]);
                        assert(out.seen[k] == d.seen[k]);
                    }
                }
            }
        }
    }
}

proof fn lemma_seen_grows(a: Seq<Seq<char>>, b: Seq<Seq<char>>, p: Seq<char>)
    requires
        a.is_prefix_of(b),
        has_path(a, p),
    ensures
        has_path(b, p),
{
    let i = choose|i: int|
        0 <= i < a.len() && path::components(#[trigger] a[i]) == path::components(p);
    assert(b[i] == a[i]);
}

proof fn lemma_with_files(d: Draft, disk: Seq<FactView>, paths: Seq<Seq<char>>, n: nat)
    requires
        matched(d, disk),
        n <= paths.len(),
    ensures
        matched(with_files(d, disk, paths, n), disk),
        d.seen.is_prefix_of(with_files(d, disk, paths, n).seen),
        forall|k: int|
            0 <= k < n && fact_at(disk, #[trigger] paths[k]) is Some ==> has_path(
                with_files(d, disk, paths, n).seen,
                fact_at(disk, paths[k])->0.identity(),
            ),
    decreases n,
{
    if n > 0 {
        let m = (n - 1) as nat;
        lemma_with_files(d, disk, paths, m);
        let before = with_files(d, disk, paths, m);
        let after = with_files(d, disk, paths, n);
        lemma_with_file(before, disk, paths[n - 1]);
        assert forall|k: int| 0 <= k < n && fact_at(disk, #[trigger] paths[k]) is Some implies has_path(
            after.seen,
            fact_at(disk, paths[k])->0.identity(),
        ) by {
            if k < m {
                lemma_seen_grows(before.seen, after.seen, fact_at(disk, paths[k])->0.identity());
            }
        }
    } else {
        assert(d.seen.take(d.seen.len() as int) =~= d.seen);
    }
}

proof fn lemma_draft_holds(hub: Seq<char>, model: ModelView, catalog: Seq<ModelView>, snapshot: Seq<char>, disk: Seq<FactView>, n: nat, b: int, p: Seq<char>)
    requires
        n <= model.remote->0.blobs.len(),
    ensures
        matched(draft_upto(hub, model, catalog, snapshot, disk, n), disk),
        0 <= b < n && is_own_blob(b, p, hub, model, catalog, snapshot, disk) && fact_at(disk, p) is Some
            ==> has_path(
            draft_upto(hub, model, catalog, snapshot, disk, n).seen,
            fact_at(disk, p)->0.identity(),
        ),
    decreases n,
{
    if n > 0 {
        let m = (n - 1) as nat;
        lemma_draft_holds(hub, model, catalog, snapshot, disk, m, b, p);
        let before = draft_upto(hub, model, catalog, snapshot, disk, m);
        let after = draft_upto(hub, model, catalog, snapshot, disk, n);
        let remote = model.remote->0;
        if !spoken_for(catalog, model, remote.repo, remote.blobs[n - 1].file) {
            let link = path::joined(snapshot, remote.blobs[n - 1].file);
            let paths = blob_candidates(
                hub,
                remote.repo,
                link,
                remote.blobs[n - 1],
                linked_blob(disk, link),
            );
            lemma_with_files(before, disk, paths, paths.len());
            if 0 <= b < n && is_own_blob(b, p, hub, model, catalog, snapshot, disk) && fact_at(
                disk,
                p,
            ) is Some {
                if b == m {
                    let k = choose|k: int| 0 <= k < paths.len() && paths[k] == p;
                    assert(fact_at(disk, paths[k]) is Some);
                } else {
                    lemma_seen_grows(before.seen, after.seen, fact_at(disk, p)->0.identity());
                }
            }
        }
    }
}

/// Whether a plan unlinks a file of the disk, by whatever path.
pub open spec fn unlinks(plan: DeletionView, disk: Seq<FactView>, f: FactView) -> bool {
    exists|k: int|
        0 <= k < plan.files.len() && fact_at(disk, #[trigger] plan.files[k]) is Some
            && path::components(fact_at(disk, plan.files[k])->0.identity()) == path::components(
            f.identity(),
        )
}

/// Everything that is stored of an artifact goes with it, unless a neighbour needs it:
/// for each of its blobs the link in the snapshot, the blob that it leads to, and the
/// partial file.
pub proof fn law_everything_stored_goes(hub: Seq<char>, model: ModelView, catalog: Seq<ModelView>, disk: DiskView, b: int, p: Seq<char>)
    requires
        model.remote_file() is Some,
        disk.present,
        0 <= b < model.remote->0.blobs.len(),
        !spoken_for(
            catalog,
            model,
            model.remote->0.repo,
            model.remote->0.blobs[b].file,
        ),
        ({
            let remote = model.remote->0;
            let snapshot = path::joined(
                path::joined(cache::repo_place(hub, remote.repo), "snapshots"@),
                planned_revision(remote, disk.main_ref),
            );
            let link = path::joined(snapshot, remote.blobs[b].file);
            let linked = fact_at(disk.files, link);
            let places = cache::blob_places(hub, remote.repo, remote.blobs[b].oid);
            ||| p == link
            ||| linked is Some && linked->0.target == Some(p)
            ||| places is Some && (places == Some((p, (places->0).1)))
            ||| linked is None && places is Some && (places == Some(((places->0).0, p)))
        }),
        fact_at(disk.files, p) is Some,
    ensures
        deletion_plan(hub, model, catalog, disk) is Some,
        unlinks(
            deletion_plan(hub, model, catalog, disk)->0,
            disk.files,
            fact_at(disk.files, p)->0,
        ),
{
    let remote = model.remote->0;
    let snapshot = cache::snapshot_place(
        cache::repo_place(hub, remote.repo),
        planned_revision(remote, disk.main_ref),
    );
    let link = path::joined(snapshot, remote.blobs[b].file);
    let linked = linked_blob(disk.files, link);
    let paths = blob_candidates(hub, remote.repo, link, remote.blobs[b], linked);
    let n = remote.blobs.len();
    assert(paths[paths.len() - 1] == link);
    if p != link {
        if linked == Some(p) {
            assert(paths[paths.len() - 2] == p);
        } else {
            let places = cache::blob_places(hub, remote.repo, remote.blobs[b].oid)->0;
            assert(paths[0] == places.0);
            if p != places.0 {
                assert(linked is None);
                assert(paths[1] == places.1);
            }
        }
    }
    assert(paths.contains(p));
    assert(is_own_blob(b, p, hub, model, catalog, snapshot, disk.files));
    lemma_draft_holds(hub, model, catalog, snapshot, disk.files, n, b, p);
    let d = draft_upto(hub, model, catalog, snapshot, disk.files, n);
    let f = fact_at(disk.files, p)->0;
    let k = choose|k: int|
        0 <= k < d.seen.len() && path::components(#[trigger] d.seen[k]) == path::components(
            f.identity(),
        );
    let plan = deletion_plan(hub, model, catalog, disk)->0;
    assert(plan.files[k] == d.files[k]);
    assert(fact_at(disk.files, d.files[k]) is Some);
}

/// The directory of a repository goes with its last artifact, and stays while another
/// one of it is stored.
pub proof fn law_the_last_artifact_takes_the_repository(hub: Seq<char>, model: ModelView, catalog: Seq<ModelView>, disk: DiskView)
    requires
        deletion_plan(hub, model, catalog, disk) is Some,
    ensures
        ({
            let husk = deletion_plan(hub, model, catalog, disk)->0.husk;
            let repo = model.remote->0.repo;
            let other = exists|i: int|
                0 <= i < catalog.len() && (#[trigger] catalog[i]).id != model.id
                    && catalog[i].path.len() > 0 && catalog[i].remote is Some
                    && catalog[i].remote->0.repo == repo;
            &&& other ==> husk is None
            &&& !other ==> husk is Some && husk->0.dir == cache::repo_place(hub, repo)
            &&& deletion_plan(hub, model, catalog, disk)->0.trees.len() == 0
        }),
{
    let repo = model.remote->0.repo;
    if exists|i: int|
        0 <= i < catalog.len() && (#[trigger] catalog[i]).id != model.id && catalog[i].path.len()
            > 0 && catalog[i].remote is Some && catalog[i].remote->0.repo == repo {
        let i = choose|i: int|
            0 <= i < catalog.len() && (#[trigger] catalog[i]).id != model.id
                && catalog[i].path.len() > 0 && catalog[i].remote is Some
                && catalog[i].remote->0.repo == repo;
        assert(is_neighbour(catalog[i], model, repo));
    }
}

} // verus!
