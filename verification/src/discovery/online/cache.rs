//! The Hugging Face cache: where it is, and how it lays out repositories.

use vstd::prelude::*;
use crate::chars;
use crate::domain::{RemoteBlob, RemoteModel, RemoteView};
use crate::names;
use crate::number;
use crate::order;
use crate::path;
use crate::text;
use crate::text::opt;

verus! {

/// What the environment says of the cache's place.
#[derive(Debug)]
pub struct CacheEnv {
    pub hf_hub_cache: Option<String>,
    pub huggingface_hub_cache: Option<String>,
    pub hf_home: Option<String>,
    pub home: Option<String>,
}

/// The cache's place: named outright by either variable, else below the Hugging
/// Face home, else below the user's home.
pub open spec fn cache_place(env: CacheEnv) -> Option<Seq<char>> {
    match (env.hf_hub_cache, env.huggingface_hub_cache, env.hf_home, env.home) {
        (Some(p), _, _, _) => Some(p@),
        (None, Some(p), _, _) => Some(p@),
        (None, None, Some(h), _) => Some(path::joined(h@, "hub"@)),
        (None, None, None, Some(h)) => Some(path::joined(h@, ".cache/huggingface/hub"@)),
        (None, None, None, None) => None,
    }
}

/// The cache's place.
pub fn hugging_face_cache(env: &CacheEnv) -> (r: Option<String>)
    ensures
        opt(r) == cache_place(*env),
{
    match &env.hf_hub_cache {
        Some(p) => Some(p.clone()),
        None => match &env.huggingface_hub_cache {
            Some(p) => Some(p.clone()),
            None => match &env.hf_home {
                Some(h) => Some(path::join(h.as_str(), "hub")),
                None => match &env.home {
                    Some(h) => Some(path::join(h.as_str(), ".cache/huggingface/hub")),
                    None => None,
                },
            },
        },
    }
}

/// Where the cache keeps a repository.
pub open spec fn repo_place(hub: Seq<char>, repo: Seq<char>) -> Seq<char> {
    path::joined(hub, names::cache_name(repo))
}

/// Where the cache keeps a repository.
pub fn repo_cache_dir(hub: &str, repo: &str) -> (r: String)
    ensures
        r@ == repo_place(hub@, repo@),
{
    path::join(hub, names::cache_dir_name(repo).as_str())
}

/// The object id without its algorithm.
pub open spec fn plain_oid(oid: Seq<char>) -> Seq<char> {
    if "sha256:"@.is_prefix_of(oid) {
        oid.skip("sha256:"@.len() as int)
    } else {
        oid
    }
}

/// Whether a text is one or more hexadecimal digits.
pub open spec fn all_hex(s: Seq<char>) -> bool {
    s.len() > 0 && forall|i: int| 0 <= i < s.len() ==> chars::is_hex_digit(#[trigger] s[i])
}

/// Where the cache keeps a blob while it is transferred and once it is complete.
/// Only a hexadecimal object id names a blob.
pub open spec fn blob_places(hub: Seq<char>, repo: Seq<char>, oid: Seq<char>) -> Option<
    (Seq<char>, Seq<char>),
> {
    let id = plain_oid(oid);
    let blobs = path::joined(repo_place(hub, repo), "blobs"@);
    if all_hex(id) {
        Some((path::joined(blobs, id + ".downloadInProgress"@), path::joined(blobs, id)))
    } else {
        None
    }
}

/// The view of an optional pair of paths.
pub open spec fn opt_pair(o: Option<(String, String)>) -> Option<(Seq<char>, Seq<char>)> {
    match o {
        Some(p) => Some((p.0@, p.1@)),
        None => None,
    }
}

fn is_all_hex(s: &str) -> (r: bool)
    ensures
        r == all_hex(s@),
{
    let cs = text::chars(s);
    if cs.len() == 0 {
        return false;
    }
    let mut i: usize = 0;
    while i < cs.len()
        invariant
            cs@ == s@,
            i <= cs.len(),
            forall|j: int| 0 <= j < i ==> chars::is_hex_digit(#[trigger] s@[j]),
        decreases cs.len() - i,
    {
        if !chars::hex_digit(cs[i]) {
            return false;
        }
        i += 1;
    }
    true
}

/// Where a cache keeps a blob while it is transferred and once it is complete.
pub fn cache_blob_paths_in(hub: &str, repo: &str, oid: &str) -> (r: Option<(String, String)>)
    ensures
        opt_pair(r) == blob_places(hub@, repo@, oid@),
{
    let n = oid.unicode_len();
    proof {
        reveal_strlit("sha256:");
    }
    let id = if text::starts_with(oid, "sha256:") {
        let rest = text::piece(oid, 7, n);
        assert(rest@ =~= oid@.skip(7));
        rest
    } else {
        text::copy(oid)
    };
    if !is_all_hex(id.as_str()) {
        return None;
    }
    let blobs = path::join(repo_cache_dir(hub, repo).as_str(), "blobs");
    let scratch = text::cat(id.as_str(), ".downloadInProgress");
    Some((path::join(blobs.as_str(), scratch.as_str()), path::join(blobs.as_str(), id.as_str())))
}

/// Where the cache keeps a blob; nowhere where there is no cache.
pub fn cache_blob_paths(env: &CacheEnv, repo: &str, oid: &str) -> (r: Option<(String, String)>)
    ensures
        opt_pair(r) == match cache_place(*env) {
            Some(hub) => blob_places(hub, repo@, oid@),
            None => None,
        },
{
    match hugging_face_cache(env) {
        Some(hub) => cache_blob_paths_in(hub.as_str(), repo, oid),
        None => None,
    }
}

/// The revision that the cache holds, from what the repository's main reference
/// says: its text without surrounding white space, unless that is empty.
pub open spec fn held_revision(main_ref: Option<Seq<char>>) -> Option<Seq<char>> {
    match main_ref {
        Some(t) => if chars::trimmed(t).len() > 0 {
            Some(chars::trimmed(t))
        } else {
            None
        },
        None => None,
    }
}

/// The revision that the cache holds.
pub fn cached_revision(main_ref: &Option<String>) -> (r: Option<String>)
    ensures
        opt(r) == held_revision(opt(*main_ref)),
{
    match main_ref {
        Some(t) => {
            let revision = chars::trim(t.as_str());
            if revision.as_str().is_empty() {
                None
            } else {
                Some(revision)
            }
        },
        None => None,
    }
}

/// Where the cache keeps the files of a revision.
pub open spec fn snapshot_place(repo_dir: Seq<char>, revision: Seq<char>) -> Seq<char> {
    path::joined(path::joined(repo_dir, "snapshots"@), revision)
}

/// Where the cache keeps a file of the revision that the main reference names.
pub fn cached_file_in(hub: &str, repo: &str, main_ref: &str, file: &str) -> (r: String)
    ensures
        r@ == path::joined(
            snapshot_place(repo_place(hub@, repo@), chars::trimmed(main_ref@)),
            file@,
        ),
{
    let snapshots = path::join(repo_cache_dir(hub, repo).as_str(), "snapshots");
    let revision = path::join(snapshots.as_str(), chars::trim(main_ref).as_str());
    path::join(revision.as_str(), file)
}

/// The revision to fetch an artifact from.
pub open spec fn revision_of(remote: RemoteView) -> Seq<char> {
    match remote.revision {
        Some(r) => r,
        None => "main"@,
    }
}

/// The revision to fetch an artifact from.
pub fn remote_revision(remote: &RemoteModel) -> (r: String)
    ensures
        r@ == revision_of(remote@),
{
    match &remote.revision {
        Some(v) => v.clone(),
        None => text::copy("main"),
    }
}

// --- records of downloads ----------------------------------------------------

/// Where the managed catalog keeps the records of downloads.
pub open spec fn records_place(root: Seq<char>) -> Seq<char> {
    path::joined(crate::discovery::online::online_root(root), ".downloads"@)
}

/// Where the managed catalog keeps the records of downloads.
pub fn download_records_dir(root: &str) -> (r: String)
    ensures
        r@ == records_place(root@),
{
    path::join(crate::discovery::online::online_dir(root).as_str(), ".downloads")
}

/// Where the managed catalog keeps the record of a model's download: a name made
/// of the hash of the model's id.
pub fn download_record_path(root: &str, model_id: &str) -> (r: String)
    ensures
        r@ == path::joined(
            records_place(root@),
            number::hex(names::text_hash(model_id@) as nat, 16) + ".json"@,
        ),
{
    let file = text::cat(number::hex_text(names::hash_text(model_id), 16).as_str(), ".json");
    path::join(download_records_dir(root).as_str(), file.as_str())
}

// --- how much of a download is there -----------------------------------------

/// The sizes of the two files of a blob that the cache holds, if it holds them.
#[derive(Debug, Clone, Copy, PartialEq, Eq, Structural)]
pub struct BlobSizes {
    pub incomplete: Option<u64>,
    pub complete: Option<u64>,
}

/// The bytes of a blob that are there: all of it where the complete file has the
/// expected size, else what the partial file holds, up to the expected size.
pub open spec fn bytes_there(expected: u64, sizes: BlobSizes) -> u64 {
    if sizes.complete == Some(expected) {
        expected
    } else {
        match sizes.incomplete {
            Some(n) => if n < expected {
                n
            } else {
                expected
            },
            None => 0,
        }
    }
}

/// The bytes of the first `n` blobs that are there.
pub open spec fn downloaded_upto(blobs: Seq<RemoteBlob>, sizes: Seq<BlobSizes>, n: nat) -> nat
    decreases n,
{
    if n == 0 {
        0
    } else {
        downloaded_upto(blobs, sizes, (n - 1) as nat) + bytes_there(
            blobs[n - 1].size_bytes,
            sizes[n - 1],
        ) as nat
    }
}

/// The expected sizes of the first `n` blobs together.
pub open spec fn expected_upto(blobs: Seq<RemoteBlob>, n: nat) -> nat
    decreases n,
{
    if n == 0 {
        0
    } else {
        expected_upto(blobs, (n - 1) as nat) + blobs[n - 1].size_bytes as nat
    }
}

/// What is there of a download is never more than what is expected.
pub proof fn law_downloaded_is_bounded(blobs: Seq<RemoteBlob>, sizes: Seq<BlobSizes>, n: nat)
    requires
        n <= blobs.len(),
        n <= sizes.len(),
    ensures
        downloaded_upto(blobs, sizes, n) <= expected_upto(blobs, n),
    decreases n,
{
    if n > 0 {
        law_downloaded_is_bounded(blobs, sizes, (n - 1) as nat);
    }
}

proof fn lemma_expected_monotone(blobs: Seq<RemoteBlob>, i: nat, n: nat)
    requires
        i <= n <= blobs.len(),
    ensures
        expected_upto(blobs, i) <= expected_upto(blobs, n),
    decreases n - i,
{
    if i < n {
        lemma_expected_monotone(blobs, i, (n - 1) as nat);
    }
}

/// The expected size of a download, where it fits in 64 bits.
pub fn expected_bytes(blobs: &Vec<RemoteBlob>) -> (r: Option<u64>)
    ensures
        match r {
            Some(n) => expected_upto(blobs@, blobs@.len()) == n,
            None => expected_upto(blobs@, blobs@.len()) > u64::MAX,
        },
{
    let mut total: u64 = 0;
    let mut i: usize = 0;
    while i < blobs.len()
        invariant
            i <= blobs.len(),
            total == expected_upto(blobs@, i as nat),
        decreases blobs.len() - i,
    {
        proof {
            lemma_expected_monotone(blobs@, (i + 1) as nat, blobs@.len());
        }
        if blobs[i].size_bytes > u64::MAX - total {
            return None;
        }
        total = total + blobs[i].size_bytes;
        i += 1;
    }
    Some(total)
}

/// The bytes of a download that are there. `sizes` says of each blob what the
/// cache holds; a blob without a place in the cache has neither size.
pub fn cached_downloaded_bytes(blobs: &Vec<RemoteBlob>, sizes: &Vec<BlobSizes>) -> (r: u64)
    requires
        sizes.len() == blobs.len(),
        expected_upto(blobs@, blobs@.len()) <= u64::MAX,
    ensures
        r == downloaded_upto(blobs@, sizes@, blobs@.len()),
{
    let mut total: u64 = 0;
    let mut i: usize = 0;
    while i < blobs.len()
        invariant
            i <= blobs.len(),
            sizes.len() == blobs.len(),
            expected_upto(blobs@, blobs@.len()) <= u64::MAX,
            total == downloaded_upto(blobs@, sizes@, i as nat),
        decreases blobs.len() - i,
    {
        let expected = blobs[i].size_bytes;
        let there: u64 = match sizes[i].complete {
            Some(n) if n == expected => expected,
            _ => match sizes[i].incomplete {
                Some(n) => if n < expected {
                    n
                } else {
                    expected
                },
                None => 0,
            },
        };
        proof {
            lemma_expected_monotone(blobs@, (i + 1) as nat, blobs@.len());
            law_downloaded_is_bounded(blobs@, sizes@, (i + 1) as nat);
        }
        total = total + there;
        i += 1;
    }
    total
}

// --- repositories by their place ---------------------------------------------

/// Whether a directory is called as the cache calls a repository.
pub open spec fn names_repository(dir: Seq<char>) -> bool {
    path::base_name(dir) is Some && "models--"@.is_prefix_of(path::base_name(dir)->0)
}

/// The first `n` paths that are called as the cache calls a repository.
pub open spec fn repositories_upto(dirs: Seq<Seq<char>>, n: nat) -> Seq<Seq<char>>
    decreases n,
{
    if n == 0 {
        Seq::<Seq<char>>::empty()
    } else {
        let rest = repositories_upto(dirs, (n - 1) as nat);
        if names_repository(dirs[n - 1]) {
            rest.push(dirs[n - 1])
        } else {
            rest
        }
    }
}

/// The directories above a path that are called as the cache calls a repository,
/// the nearest first.
pub open spec fn repositories_above(p: Seq<char>) -> Seq<Seq<char>> {
    repositories_upto(path::upwards(p), path::upwards(p).len())
}

/// The directories above a path that may be repositories of the cache, the nearest
/// first.
pub fn repository_candidates(p: &str) -> (r: Vec<String>)
    ensures
        text::strs(r@) == repositories_above(p@),
{
    let dirs = path::ancestors(p);
    let ghost all = path::upwards(p@);
    let mut out: Vec<String> = Vec::new();
    let mut i: usize = 0;
    assert(text::strs(out@) =~= repositories_upto(all, 0));
    while i < dirs.len()
        invariant
            i <= dirs.len(),
            all == text::strs(dirs@),
            text::strs(out@) == repositories_upto(all, i as nat),
        decreases dirs.len() - i,
    {
        assert(all[i as int] == dirs@[i as int]@);
        let named = match path::file_name(dirs[i].as_str()) {
            Some(n) => text::starts_with(n.as_str(), "models--"),
            None => false,
        };
        if named {
            let ghost before = text::strs(out@);
            out.push(dirs[i].clone());
            assert(text::strs(out@) =~= before.push(all[i as int]));
        }
        i += 1;
    }
    assert(all.len() == dirs@.len());
    out
}

/// The first of some directories that is laid out as a repository, from `from` on.
pub open spec fn first_laid_out(dirs: Seq<Seq<char>>, laid_out: Seq<bool>, from: int) -> Option<Seq<char>>
    decreases dirs.len() - from,
{
    if from < 0 || from >= dirs.len() {
        None
    } else if from < laid_out.len() && laid_out[from] {
        Some(dirs[from])
    } else {
        first_laid_out(dirs, laid_out, from + 1)
    }
}

/// The repository of the cache that a path lies in, by its shape alone: the
/// nearest directory above it that is called like one and is laid out like one.
/// `laid_out` says of each candidate whether it holds both blobs and snapshots.
pub fn hub_repo_dir(p: &str, laid_out: &Vec<bool>) -> (r: Option<String>)
    ensures
        opt(r) == first_laid_out(repositories_above(p@), laid_out@, 0),
{
    let dirs = repository_candidates(p);
    let ghost all = repositories_above(p@);
    let mut i: usize = 0;
    while i < dirs.len()
        invariant
            i <= dirs.len(),
            all == text::strs(dirs@),
            all == repositories_above(p@),
            first_laid_out(all, laid_out@, 0) == first_laid_out(all, laid_out@, i as int),
        decreases dirs.len() - i,
    {
        assert(all[i as int] == dirs@[i as int]@);
        if i < laid_out.len() && laid_out[i] {
            return Some(dirs[i].clone());
        }
        i += 1;
    }
    assert(all.len() == dirs@.len());
    None
}

// --- making a downloaded file visible ----------------------------------------

/// What makes a downloaded file visible in the cache: the reference that names the
/// revision, and the place of the file in the snapshot.
#[derive(Debug)]
pub struct SnapshotPlan {
    pub reference: String,
    pub revision: String,
    pub snapshot: String,
}

/// The revision of an artifact: the one that the catalog names, else `main`.
pub open spec fn revision_or_main(remote: RemoteView) -> Seq<char> {
    match remote.revision {
        Some(r) => r,
        None => "main"@,
    }
}

/// What makes a downloaded file visible in the cache.
pub fn materialize_snapshot_file(hub: &str, remote: &RemoteModel, file: &str) -> (r: SnapshotPlan)
    ensures
        ({
            let repo = repo_place(hub@, remote@.repo);
            let revision = revision_or_main(remote@);
            &&& r.reference@ == path::joined(repo, "refs/main"@)
            &&& r.revision@ == revision
            &&& r.snapshot@ == path::joined(
                path::joined(path::joined(repo, "snapshots"@), revision),
                file@,
            )
        }),
{
    let repo = repo_cache_dir(hub, remote.repo.as_str());
    let revision = match &remote.revision {
        Some(r) => r.clone(),
        None => text::copy("main"),
    };
    let snapshots = path::join(repo.as_str(), "snapshots");
    let held = path::join(snapshots.as_str(), revision.as_str());
    SnapshotPlan {
        reference: path::join(repo.as_str(), "refs/main"),
        snapshot: path::join(held.as_str(), file),
        revision,
    }
}

// --- download records --------------------------------------------------------

/// Whether a file of the record directory is a record, by its name.
pub open spec fn is_record(p: Seq<char>) -> bool {
    path::base_name(p) is Some && path::extension_of(path::base_name(p)->0) == Some("json"@)
}

/// The first `n` paths that are records.
pub open spec fn records_upto(paths: Seq<Seq<char>>, n: nat) -> Seq<Seq<char>>
    decreases n,
{
    if n == 0 {
        Seq::<Seq<char>>::empty()
    } else {
        let rest = records_upto(paths, (n - 1) as nat);
        if is_record(paths[n - 1]) {
            rest.push(paths[n - 1])
        } else {
            rest
        }
    }
}

/// The records among the files of a directory, in order.
pub fn record_files(paths: &Vec<String>) -> (r: Vec<String>)
    ensures
        text::strs(r@) == order::sorted_texts(records_upto(text::strs(paths@), paths@.len())),
{
    let ghost all = text::strs(paths@);
    let mut out: Vec<String> = Vec::new();
    let mut i: usize = 0;
    assert(text::strs(out@) =~= records_upto(all, 0));
    while i < paths.len()
        invariant
            i <= paths.len(),
            all == text::strs(paths@),
            text::strs(out@) == records_upto(all, i as nat),
        decreases paths.len() - i,
    {
        assert(all[i as int] == paths@[i as int]@);
        let record = match path::file_name(paths[i].as_str()) {
            Some(n) => match path::extension(n.as_str()) {
                Some(e) => text::same(e.as_str(), "json"),
                None => false,
            },
            None => false,
        };
        if record {
            let ghost before = text::strs(out@);
            out.push(paths[i].clone());
            assert(text::strs(out@) =~= before.push(all[i as int]));
        }
        i += 1;
    }
    order::sort_texts(&out)
}

// --- laws --------------------------------------------------------------------

/// A blob lies in the directory for blobs of its repository under its hexadecimal id,
/// with or without the algorithm before it; while it is transferred, its name says so.
pub proof fn law_blobs_lie_under_their_ids(hub: Seq<char>, owner: Seq<char>, name: Seq<char>, id: Seq<char>)
    requires
        !owner.contains('/'),
        !name.contains('/'),
        all_hex(id),
    ensures
        ({
            let blobs = path::joined(
                path::joined(hub, "models--"@ + owner + "--"@ + name),
                "blobs"@,
            );
            let places = blob_places(hub, owner + "/"@ + name, id);
            &&& places == Some(
                (path::joined(blobs, id + ".downloadInProgress"@), path::joined(blobs, id)),
            )
            &&& blob_places(hub, owner + "/"@ + name, "sha256:"@ + id) == places
        }),
{
    names::law_the_cache_goes_by_owner_and_name(owner, name);
    reveal_strlit("sha256:");
    let long = "sha256:"@ + id;
    assert(long.take(7) =~= "sha256:"@);
    assert(long.skip(7) =~= id);
    if "sha256:"@.is_prefix_of(id) {
        assert("sha256:"@[0] == 's');
        assert(id[0] == "sha256:"@[0]);
        assert(chars::is_hex_digit(id[0]));
    }
}

/// An id that is not hexadecimal names no blob, so that it leads nowhere else.
pub proof fn law_only_ids_name_blobs(hub: Seq<char>, repo: Seq<char>, oid: Seq<char>, i: int)
    requires
        0 <= i < oid.len(),
        !chars::is_hex_digit(oid[i]),
        !"sha256:"@.is_prefix_of(oid),
    ensures
        blob_places(hub, repo, oid) is None,
{
}

/// The variables name the cache in this order: the first of the two that name it
/// outright, the other, the home of Hugging Face, and the user's home.
pub proof fn law_the_cache_is_named(env: CacheEnv)
    ensures
        env.hf_hub_cache is Some ==> cache_place(env) == Some(env.hf_hub_cache->0@),
        env.hf_hub_cache is None && env.huggingface_hub_cache is Some ==> cache_place(env) == Some(
            env.huggingface_hub_cache->0@,
        ),
        env.hf_hub_cache is None && env.huggingface_hub_cache is None && env.hf_home is Some
            ==> cache_place(env) == Some(path::joined(env.hf_home->0@, "hub"@)),
        env.hf_hub_cache is None && env.huggingface_hub_cache is None && env.hf_home is None
            && env.home is Some ==> cache_place(env) == Some(
            path::joined(env.home->0@, ".cache/huggingface/hub"@),
        ),
{
}

/// Of a download there is what its blobs have there: all of each complete one, and of
/// the others what their partial files hold.
pub proof fn law_progress_is_what_is_there(blobs: Seq<RemoteBlob>, sizes: Seq<BlobSizes>, n: nat)
    requires
        n <= blobs.len(),
        n <= sizes.len(),
    ensures
        (forall|i: int|
            0 <= i < n ==> (#[trigger] sizes[i]).complete == Some(blobs[i].size_bytes))
            ==> downloaded_upto(blobs, sizes, n) == expected_upto(blobs, n),
        (forall|i: int|
            0 <= i < n ==> (#[trigger] sizes[i]).complete is None && sizes[i].incomplete is None)
            ==> downloaded_upto(blobs, sizes, n) == 0,
        n > 0 && sizes[n - 1].complete is None && sizes[n - 1].incomplete is Some && sizes[n
            - 1].incomplete->0 <= blobs[n - 1].size_bytes ==> downloaded_upto(blobs, sizes, n)
            == downloaded_upto(blobs, sizes, (n - 1) as nat) + sizes[n - 1].incomplete->0,
    decreases n,
{
    if n > 0 {
        law_progress_is_what_is_there(blobs, sizes, (n - 1) as nat);
        let last = sizes[n - 1];
    }
}

/// A directory of the cache that is named for a repository is told by its name.
pub proof fn law_repositories_are_told_by_their_directories(hub: Seq<char>, rest: Seq<char>, other: Seq<char>)
    requires
        hub.len() > 0,
        hub.last() != '/',
        !rest.contains('/'),
        other.len() > 0,
        !other.contains('/'),
        other != seq!['.'],
        other != seq!['.', '.'],
        other.len() < 8,
    ensures
        names_repository(path::joined(hub, "models--"@ + rest)),
        !names_repository(path::joined(hub, other)),
{
    reveal_strlit("models--");
    let name = "models--"@ + rest;
    assert("models--"@.len() == 8);
    assert forall|i: int| 0 <= i < name.len() implies name[i] != '/' by {
        if i < 8 {
            assert(name[i] == "models--"@[i]);
        } else {
            assert(name[i] == rest[i - 8]);
            assert(rest.contains(name[i]));
        }
    }
    assert(name[0] == 'm');
    path::law_joined_files_have_their_names(hub, name);
    assert(name.take(8) =~= "models--"@);
    path::law_joined_files_have_their_names(hub, other);
}

proof fn lemma_repositories(dirs: Seq<Seq<char>>, n: nat)
    requires
        n <= dirs.len(),
    ensures
        repositories_upto(dirs, n) == dirs.take(n as int).filter(
            |d: Seq<char>| names_repository(d),
        ),
    decreases n,
{
    reveal(Seq::filter);
    let some = dirs.take(n as int);
    if n > 0 {
        lemma_repositories(dirs, (n - 1) as nat);
        assert(some.drop_last() =~= dirs.take(n - 1));
    }
}

/// The repositories that a file may belong to are all directories above it that are
/// named for one, from the file upwards.
pub proof fn law_files_belong_to_what_is_above(p: Seq<char>)
    ensures
        repositories_above(p) == path::upwards(p).filter(|d: Seq<char>| names_repository(d)),
{
    lemma_repositories(path::upwards(p), path::upwards(p).len());
    assert(path::upwards(p).take(path::upwards(p).len() as int) =~= path::upwards(p));
}

/// Of those the first that is laid out as a repository is taken.
pub proof fn law_the_first_laid_out_is_taken(dirs: Seq<Seq<char>>, laid_out: Seq<bool>, from: int, i: int)
    requires
        laid_out.len() == dirs.len(),
        0 <= from <= dirs.len(),
    ensures
        from <= i < dirs.len() && laid_out[i] && (forall|k: int|
            from <= k < i ==> !#[trigger] laid_out[k]) ==> first_laid_out(dirs, laid_out, from)
            == Some(dirs[i]),
        (forall|k: int| from <= k < dirs.len() ==> !#[trigger] laid_out[k]) ==> first_laid_out(
            dirs,
            laid_out,
            from,
        ) is None,
    decreases dirs.len() - from,
{
    if from < dirs.len() {
        law_the_first_laid_out_is_taken(dirs, laid_out, from + 1, i);
    }
}

/// A repository is fetched at the revision that is known of it, else at its main one.
pub proof fn law_the_main_revision_is_the_last_resort(r: RemoteView)
    ensures
        r.revision is Some ==> revision_or_main(r) == r.revision->0,
        r.revision is None ==> revision_or_main(r) == "main"@,
{
}

/// The records of downloads are the files with the extension for it, and all of them.
pub proof fn law_records_are_told_by_their_extension(paths: Seq<Seq<char>>, n: nat)
    requires
        n <= paths.len(),
    ensures
        records_upto(paths, n) == paths.take(n as int).filter(
            |p: Seq<char>|
                path::base_name(p) is Some && path::extension_of(path::base_name(p)->0) == Some(
                    "json"@,
                ),
        ),
    decreases n,
{
    reveal(Seq::filter);
    let pred = |p: Seq<char>|
        path::base_name(p) is Some && path::extension_of(path::base_name(p)->0) == Some("json"@);
    let some = paths.take(n as int);
    if n > 0 {
        law_records_are_told_by_their_extension(paths, (n - 1) as nat);
        assert(some.drop_last() =~= paths.take(n - 1));
        assert(pred(some.last()) == is_record(paths[n - 1]));
    }
}

/// A cached file lies in the snapshot of its revision, below its repository.
pub proof fn law_cached_files_lie_in_their_snapshot(hub: Seq<char>, owner: Seq<char>, name: Seq<char>, revision: Seq<char>)
    requires
        !owner.contains('/'),
        !name.contains('/'),
    ensures
        snapshot_place(repo_place(hub, owner + "/"@ + name), revision) == path::joined(
            path::joined(path::joined(hub, "models--"@ + owner + "--"@ + name), "snapshots"@),
            revision,
        ),
{
    names::law_the_cache_goes_by_owner_and_name(owner, name);
}

} // verus!
