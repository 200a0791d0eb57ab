//! The artifacts of a repository: its model files, split ones put together, each
//! with its companions and with what the cache holds of it.

use vstd::prelude::*;
use crate::chars;
use crate::discovery::online::{
    bare_entry, bare_model, companions, repository_dir, repository_path, Repository,
    RepositoryView, HUGGINGFACE, ONLINE, RUNTIME,
};
use crate::discovery::shards;
use crate::discovery::shards::Shard;
use crate::domain::{
    blobs_view, views, BlobView, Model, ModelView, RemoteBlob, RemoteModel, RemoteView,
};
use crate::names;
use crate::order::ints;
use crate::path;
use crate::text;
use crate::text::{opt, opts, strs};

verus! {

// --- what the Hub says of a repository ---------------------------------------

/// Large-file metadata of a file.
#[derive(Debug)]
pub struct Lfs {
    pub oid: Option<String>,
    pub size: Option<u64>,
}

/// One file of a repository.
#[derive(Debug)]
pub struct Sibling {
    pub rfilename: String,
    pub size: Option<u64>,
    pub lfs: Option<Lfs>,
}

pub struct LfsView {
    pub oid: Option<Seq<char>>,
    pub size: Option<u64>,
}

pub struct SiblingView {
    pub rfilename: Seq<char>,
    pub size: Option<u64>,
    pub lfs: Option<LfsView>,
}

impl View for Sibling {
    type V = SiblingView;

    open spec fn view(&self) -> SiblingView {
        SiblingView {
            rfilename: self.rfilename@,
            size: self.size,
            lfs: match self.lfs {
                Some(l) => Some(LfsView { oid: opt(l.oid), size: l.size }),
                None => None,
            },
        }
    }
}

/// What the Hub read from the repository's model headers.
#[derive(Debug)]
pub struct HeaderInfo {
    pub architecture: Option<String>,
    pub context_length: Option<u64>,
    pub chat_template: Option<String>,
}

/// A repository with its files.
#[derive(Debug)]
pub struct RepositoryDetail {
    pub fetched_at: u64,
    pub repository: Repository,
    pub siblings: Vec<Sibling>,
    pub gguf: Option<HeaderInfo>,
}

pub struct DetailView {
    pub fetched_at: u64,
    pub repository: RepositoryView,
    pub siblings: Seq<SiblingView>,
    pub architecture: Option<Seq<char>>,
    pub context_length: Option<u64>,
    pub has_chat_template: bool,
}

/// The views of a list of files.
pub open spec fn sibling_views(v: Seq<Sibling>) -> Seq<SiblingView> {
    v.map_values(|s: Sibling| s@)
}

impl View for RepositoryDetail {
    type V = DetailView;

    open spec fn view(&self) -> DetailView {
        DetailView {
            fetched_at: self.fetched_at,
            repository: self.repository@,
            siblings: sibling_views(self.siblings@),
            architecture: match self.gguf {
                Some(g) => opt(g.architecture),
                None => None,
            },
            context_length: match self.gguf {
                Some(g) => g.context_length,
                None => None,
            },
            has_chat_template: match self.gguf {
                Some(g) => g.chat_template is Some,
                None => false,
            },
        }
    }
}

impl SiblingView {
    /// The size that the Hub reports: the file's own, else the large-file one.
    pub open spec fn bytes(self) -> u64 {
        match (self.size, self.lfs) {
            (Some(n), _) => n,
            (None, Some(l)) => match l.size {
                Some(n) => n,
                None => 0,
            },
            (None, None) => 0,
        }
    }

    /// The blob behind the file, where the Hub names its object.
    pub open spec fn blob(self) -> Option<BlobView> {
        match self.lfs {
            Some(l) => match l.oid {
                Some(oid) => Some(
                    BlobView { oid, size_bytes: self.bytes(), file: self.rfilename },
                ),
                None => None,
            },
            None => None,
        }
    }
}

impl Sibling {
    /// The size that the Hub reports.
    pub fn bytes(&self) -> (r: u64)
        ensures
            r == self@.bytes(),
    {
        match self.size {
            Some(n) => n,
            None => match &self.lfs {
                Some(l) => match l.size {
                    Some(n) => n,
                    None => 0,
                },
                None => 0,
            },
        }
    }
}

/// The blob behind a file.
pub fn remote_blob(file: &Sibling) -> (r: Option<RemoteBlob>)
    ensures
        match r {
            Some(b) => file@.blob() == Some(b@),
            None => file@.blob() is None,
        },
{
    match &file.lfs {
        Some(l) => match &l.oid {
            Some(oid) => Some(
                RemoteBlob {
                    oid: oid.clone(),
                    size_bytes: file.bytes(),
                    file: file.rfilename.clone(),
                },
            ),
            None => None,
        },
        None => None,
    }
}

/// The file names of a repository.
pub open spec fn file_names(files: Seq<SiblingView>) -> Seq<Seq<char>> {
    files.map_values(|s: SiblingView| s.rfilename)
}

// --- one artifact ------------------------------------------------------------

/// What is known of the files of a repository besides what the Hub says: the
/// shards and quantization labels that their names spell, the companions chosen
/// among them, where the cache holds them, and the block size in the header of
/// the cached drafter. One entry per file.
#[derive(Debug)]
pub struct Facts {
    pub shards: Vec<Option<Shard>>,
    pub quants: Vec<Option<String>>,
    pub mtp: Vec<Option<usize>>,
    pub dflash: Option<usize>,
    pub projector: Option<usize>,
    pub cached: Vec<Option<String>>,
    pub block_size: Option<u64>,
}

pub struct FactsView {
    pub shards: Seq<Option<Shard>>,
    pub quants: Seq<Option<Seq<char>>>,
    pub mtp: Seq<Option<usize>>,
    pub dflash: Option<usize>,
    pub projector: Option<usize>,
    pub cached: Seq<Option<Seq<char>>>,
    pub block_size: Option<u64>,
}

impl View for Facts {
    type V = FactsView;

    open spec fn view(&self) -> FactsView {
        FactsView {
            shards: self.shards@,
            quants: opts(self.quants@),
            mtp: self.mtp@,
            dflash: self.dflash,
            projector: self.projector,
            cached: opts(self.cached@),
            block_size: self.block_size,
        }
    }
}

/// Whether an optional index names one of `n` entries.
pub open spec fn index_below(i: Option<usize>, n: nat) -> bool {
    i is Some ==> i->0 < n
}

impl FactsView {
    /// Whether the facts are about these files.
    pub open spec fn about(self, files: Seq<Seq<char>>) -> bool {
        &&& self.shards.len() == files.len()
        &&& self.quants.len() == files.len()
        &&& self.mtp.len() == files.len()
        &&& self.cached.len() == files.len()
        &&& index_below(self.dflash, files.len())
        &&& index_below(self.projector, files.len())
        &&& forall|i: int|
            0 <= i < files.len() ==> index_below(#[trigger] self.mtp[i], files.len())
        &&& forall|i: int|
            0 <= i < files.len() && #[trigger] self.shards[i] is Some ==> self.shards[i]->0.fits(
                files[i],
            )
    }
}

/// The indices below `n` of the names that begin and end as given.
pub open spec fn alike(names: Seq<Seq<char>>, head: Seq<char>, tail: Seq<char>, n: nat) -> Seq<int>
    decreases n,
{
    if n == 0 {
        Seq::<int>::empty()
    } else {
        let rest = alike(names, head, tail, (n - 1) as nat);
        if head.is_prefix_of(names[n - 1]) && tail.is_suffix_of(names[n - 1]) {
            rest.push(n - 1)
        } else {
            rest
        }
    }
}

/// The files that make up the artifact that file `i` stands for: the file alone,
/// or all whose names differ from it in the part's number.
pub open spec fn members(names: Seq<Seq<char>>, shards: Seq<Option<Shard>>, i: int) -> Seq<int> {
    match shards[i] {
        Some(s) => alike(
            names,
            names[i].take(s.index.start as int),
            names[i].skip(s.index.end as int),
            names.len(),
        ),
        None => seq![i],
    }
}

/// The sizes of the given files together.
pub open spec fn bytes_of(files: Seq<SiblingView>, picks: Seq<int>) -> nat
    decreases picks.len(),
{
    if picks.len() == 0 {
        0
    } else {
        bytes_of(files, picks.drop_last()) + files[picks.last()].bytes() as nat
    }
}

/// The blobs of the given files, where the Hub names them.
pub open spec fn blobs_of(files: Seq<SiblingView>, picks: Seq<int>) -> Seq<BlobView>
    decreases picks.len(),
{
    if picks.len() == 0 {
        Seq::<BlobView>::empty()
    } else {
        let rest = blobs_of(files, picks.drop_last());
        match files[picks.last()].blob() {
            Some(b) => rest.push(b),
            None => rest,
        }
    }
}

/// Whether one of the blobs is of the file.
pub open spec fn has_blob_of(blobs: Seq<BlobView>, file: Seq<char>) -> bool {
    exists|i: int| 0 <= i < blobs.len() && #[trigger] blobs[i].file == file
}

/// The blobs with that of a companion, unless it is among them.
pub open spec fn with_companion(blobs: Seq<BlobView>, files: Seq<SiblingView>, pick: Option<usize>) -> Seq<BlobView> {
    match pick {
        Some(i) => match files[i as int].blob() {
            Some(b) => if has_blob_of(blobs, b.file) {
                blobs
            } else {
                blobs.push(b)
            },
            None => blobs,
        },
        None => blobs,
    }
}

/// Where the cache holds the given files, if it holds all of them.
pub open spec fn all_cached(cached: Seq<Option<Seq<char>>>, picks: Seq<int>) -> Option<
    Seq<Seq<char>>,
>
    decreases picks.len(),
{
    if picks.len() == 0 {
        Some(Seq::<Seq<char>>::empty())
    } else {
        match (all_cached(cached, picks.drop_last()), cached[picks.last()]) {
            (Some(rest), Some(p)) => Some(rest.push(p)),
            _ => None,
        }
    }
}

/// Where the cache holds a companion.
pub open spec fn companion_path(cached: Seq<Option<Seq<char>>>, pick: Option<usize>) -> Option<
    Seq<char>,
> {
    match pick {
        Some(i) => cached[i as int],
        None => None,
    }
}

/// The name of a companion.
pub open spec fn companion_file(files: Seq<SiblingView>, pick: Option<usize>) -> Option<Seq<char>> {
    match pick {
        Some(i) => Some(files[i as int].rfilename),
        None => None,
    }
}

/// Whether a file stands for an artifact, given the shard that its name names: a
/// model file that is no companion and, where the model is split, its first part.
pub open spec fn stands_for_artifact(name: Seq<char>, shard: Option<Shard>) -> bool {
    companions::ends_fold(name, ".gguf"@) && !companions::accompanies(name) && shards::first_shard(
        name,
        shard,
    )
}

/// Whether file `i` stands for an artifact.
pub open spec fn is_artifact(files: Seq<SiblingView>, facts: FactsView, i: int) -> bool {
    stands_for_artifact(files[i].rfilename, facts.shards[i])
}

/// Whether the size of each artifact fits in 64 bits.
pub open spec fn artifacts_fit(files: Seq<SiblingView>, shards: Seq<Option<Shard>>) -> bool {
    forall|i: int|
        0 <= i < files.len() && stands_for_artifact(files[i].rfilename, shards[i]) ==> bytes_of(
            files,
            #[trigger] members(file_names(files), shards, i),
        ) <= u64::MAX
}

/// The artifact that file `i` stands for.
pub open spec fn artifact(root: Seq<char>, detail: DetailView, facts: FactsView, i: int) -> ModelView {
    let files = detail.siblings;
    let repo = detail.repository.id;
    let file = files[i].rfilename;
    let display = shards::logical_name(file, facts.shards[i], ".gguf"@);
    let leaf = names::component(display, false);
    let parts = members(file_names(files), facts.shards, i);
    let held = all_cached(facts.cached, parts);
    let local = held is Some && held->0.len() > 0 && held->0[0].len() > 0;
    let dflash_path = companion_path(facts.cached, facts.dflash);
    ModelView {
        path: if local {
            held->0[0]
        } else {
            ""@
        },
        shard_paths: if local {
            held->0
        } else {
            Seq::<Seq<char>>::empty()
        },
        mtp_path: companion_path(facts.cached, facts.mtp[i]),
        dflash_path,
        dflash_block_size: if dflash_path is Some {
            facts.block_size
        } else {
            None
        },
        projector_path: companion_path(facts.cached, facts.projector),
        catalog_dir: path::joined(repository_path(root, repo), leaf),
        size_bytes: bytes_of(files, parts) as u64,
        quantization: facts.quants[i],
        architecture: detail.architecture,
        context_length: detail.context_length,
        modified: Some(detail.fetched_at),
        has_chat_template: detail.has_chat_template,
        remote: Some(
            RemoteView {
                repo,
                revision: detail.repository.sha,
                file: Some(file),
                blobs: with_companion(
                    with_companion(
                        with_companion(blobs_of(files, parts), files, facts.mtp[i]),
                        files,
                        facts.dflash,
                    ),
                    files,
                    facts.projector,
                ),
                mtp_file: companion_file(files, facts.mtp[i]),
                dflash_file: companion_file(files, facts.dflash),
                projector_file: companion_file(files, facts.projector),
                downloads: detail.repository.downloads,
                likes: detail.repository.likes,
                gated: detail.repository.gated,
            },
        ),
        ..bare_entry(
            "hf:"@ + repo + "/"@ + file,
            display,
            seq![ONLINE@, HUGGINGFACE@, repo, leaf],
            RUNTIME@,
        )
    }
}

/// The artifacts that the first `n` files stand for, in their order.
pub open spec fn artifacts_upto(root: Seq<char>, detail: DetailView, facts: FactsView, n: nat) -> Seq<ModelView>
    decreases n,
{
    if n == 0 {
        Seq::<ModelView>::empty()
    } else {
        let rest = artifacts_upto(root, detail, facts, (n - 1) as nat);
        if is_artifact(detail.siblings, facts, n - 1) {
            rest.push(artifact(root, detail, facts, n - 1))
        } else {
            rest
        }
    }
}

// --- the same, computed ------------------------------------------------------

/// The files that make up an artifact, as indices.
fn member_files(files: &Vec<Sibling>, shards: &Vec<Option<Shard>>, i: usize) -> (r: Vec<usize>)
    requires
        i < files.len(),
        shards.len() == files.len(),
        shards@[i as int] is Some ==> shards@[i as int]->0.fits(files@[i as int]@.rfilename),
    ensures
        ints(r@) == members(file_names(sibling_views(files@)), shards@, i as int),
        forall|k: int| 0 <= k < r@.len() ==> #[trigger] r@[k] < files.len(),
{
    let ghost all = file_names(sibling_views(files@));
    let mut out: Vec<usize> = Vec::new();
    match shards[i] {
        None => {
            out.push(i);
            assert(ints(out@) =~= seq![i as int]);
        },
        Some(s) => {
            let name = files[i].rfilename.as_str();
            let n = name.unicode_len();
            let head = text::piece(name, 0, s.index.start);
            let tail = text::piece(name, s.index.end, n);
            assert(all[i as int] == name@);
            assert(head@ =~= name@.take(s.index.start as int));
            assert(tail@ =~= name@.skip(s.index.end as int));
            let mut k: usize = 0;
            assert(ints(out@) =~= alike(all, head@, tail@, 0));
            while k < files.len()
                invariant
                    k <= files.len(),
                    all == file_names(sibling_views(files@)),
                    ints(out@) == alike(all, head@, tail@, k as nat),
                    forall|j: int| 0 <= j < out@.len() ==> #[trigger] out@[j] < files.len(),
                decreases files.len() - k,
            {
                let other = files[k].rfilename.as_str();
                assert(all[k as int] == other@);
                if text::starts_with(other, head.as_str()) && text::ends_with(
                    other,
                    tail.as_str(),
                ) {
                    let ghost before = ints(out@);
                    out.push(k);
                    assert(ints(out@) =~= before.push(k as int));
                }
                k += 1;
            }
        },
    }
    out
}

/// The sizes of the given files together, where they fit in 64 bits.
fn total_bytes(files: &Vec<Sibling>, picks: &Vec<usize>) -> (r: Option<u64>)
    requires
        forall|k: int| 0 <= k < picks@.len() ==> #[trigger] picks@[k] < files.len(),
    ensures
        match r {
            Some(n) => bytes_of(sibling_views(files@), ints(picks@)) == n,
            None => bytes_of(sibling_views(files@), ints(picks@)) > u64::MAX,
        },
{
    let ghost all = sibling_views(files@);
    let ghost order = ints(picks@);
    let mut total: u64 = 0;
    let mut k: usize = 0;
    while k < picks.len()
        invariant
            k <= picks.len(),
            all == sibling_views(files@),
            order == ints(picks@),
            forall|k: int| 0 <= k < picks@.len() ==> #[trigger] picks@[k] < files.len(),
            total == bytes_of(all, order.take(k as int)),
        decreases picks.len() - k,
    {
        proof {
            assert(order.take(k + 1).drop_last() =~= order.take(k as int));
            assert(order.take(k + 1).last() == picks@[k as int]);
            assert(all[picks@[k as int] as int] == files@[picks@[k as int] as int]@);
            lemma_bytes_prefix(all, order, k + 1);
        }
        let more = files[picks[k]].bytes();
        if more > u64::MAX - total {
            return None;
        }
        total = total + more;
        k += 1;
    }
    assert(order.take(k as int) =~= order);
    Some(total)
}

proof fn lemma_bytes_prefix(files: Seq<SiblingView>, picks: Seq<int>, k: int)
    requires
        0 <= k <= picks.len(),
    ensures
        bytes_of(files, picks.take(k)) <= bytes_of(files, picks),
    decreases picks.len() - k,
{
    if k < picks.len() {
        lemma_bytes_prefix(files, picks, k + 1);
        assert(picks.take(k + 1).drop_last() =~= picks.take(k));
    } else {
        assert(picks.take(k) =~= picks);
    }
}

/// The blobs of the given files.
fn collect_blobs(files: &Vec<Sibling>, picks: &Vec<usize>) -> (r: Vec<RemoteBlob>)
    requires
        forall|k: int| 0 <= k < picks@.len() ==> #[trigger] picks@[k] < files.len(),
    ensures
        blobs_view(r@) == blobs_of(sibling_views(files@), ints(picks@)),
{
    let ghost all = sibling_views(files@);
    let ghost order = ints(picks@);
    let mut out: Vec<RemoteBlob> = Vec::new();
    let mut k: usize = 0;
    assert(blobs_view(out@) =~= blobs_of(all, order.take(0)));
    while k < picks.len()
        invariant
            k <= picks.len(),
            all == sibling_views(files@),
            order == ints(picks@),
            forall|k: int| 0 <= k < picks@.len() ==> #[trigger] picks@[k] < files.len(),
            blobs_view(out@) == blobs_of(all, order.take(k as int)),
        decreases picks.len() - k,
    {
        proof {
            assert(order.take(k + 1).drop_last() =~= order.take(k as int));
            assert(order.take(k + 1).last() == picks@[k as int]);
            assert(all[picks@[k as int] as int] == files@[picks@[k as int] as int]@);
        }
        if let Some(b) = remote_blob(&files[picks[k]]) {
            let ghost before = blobs_view(out@);
            let ghost view = b@;
            out.push(b);
            assert(blobs_view(out@) =~= before.push(view));
        }
        k += 1;
    }
    assert(order.take(k as int) =~= order);
    out
}

/// Adds the blob of a companion, unless it is there.
fn add_companion(blobs: &mut Vec<RemoteBlob>, files: &Vec<Sibling>, pick: Option<usize>)
    requires
        index_below(pick, files@.len()),
    ensures
        blobs_view(final(blobs)@) == with_companion(
            blobs_view(old(blobs)@),
            sibling_views(files@),
            pick,
        ),
{
    if let Some(i) = pick {
        assert(sibling_views(files@)[i as int] == files@[i as int]@);
        if let Some(b) = remote_blob(&files[i]) {
            let ghost had = blobs_view(blobs@);
            let mut k: usize = 0;
            while k < blobs.len()
                invariant
                    k <= blobs.len(),
                    had == blobs_view(blobs@),
                    *blobs == *old(blobs),
                    pick == Some(i),
                    i < files.len(),
                    sibling_views(files@)[i as int].blob() == Some(b@),
                    forall|j: int| 0 <= j < k ==> #[trigger] had[j].file != b@.file,
                decreases blobs.len() - k,
            {
                assert(had[k as int] == blobs@[k as int]@);
                if text::same(blobs[k].file.as_str(), b.file.as_str()) {
                    assert(had[k as int].file == b@.file);
                    return;
                }
                k += 1;
            }
            assert(!has_blob_of(had, b@.file));
            let ghost view = b@;
            blobs.push(b);
            assert(blobs_view(blobs@) =~= had.push(view));
        }
    }
}

/// Where the cache holds the given files, if it holds all of them.
fn cached_paths(cached: &Vec<Option<String>>, picks: &Vec<usize>) -> (r: Option<Vec<String>>)
    requires
        forall|k: int| 0 <= k < picks@.len() ==> #[trigger] picks@[k] < cached.len(),
    ensures
        match r {
            Some(v) => all_cached(opts(cached@), ints(picks@)) == Some(strs(v@)),
            None => all_cached(opts(cached@), ints(picks@)) is None,
        },
{
    let ghost all = opts(cached@);
    let ghost order = ints(picks@);
    let mut out: Vec<String> = Vec::new();
    let mut missing: bool = false;
    let mut k: usize = 0;
    assert(strs(out@) =~= Seq::<Seq<char>>::empty());
    while k < picks.len()
        invariant
            k <= picks.len(),
            all == opts(cached@),
            order == ints(picks@),
            forall|k: int| 0 <= k < picks@.len() ==> #[trigger] picks@[k] < cached.len(),
            missing ==> all_cached(all, order.take(k as int)) is None,
            !missing ==> all_cached(all, order.take(k as int)) == Some(strs(out@)),
        decreases picks.len() - k,
    {
        proof {
            assert(order.take(k + 1).drop_last() =~= order.take(k as int));
            assert(order.take(k + 1).last() == picks@[k as int]);
            assert(all[picks@[k as int] as int] == opt(cached@[picks@[k as int] as int]));
        }
        match &cached[picks[k]] {
            Some(p) => {
                let ghost before = strs(out@);
                out.push(p.clone());
                assert(strs(out@) =~= before.push(p@));
            },
            None => {
                missing = true;
            },
        }
        k += 1;
    }
    assert(order.take(k as int) =~= order);
    if missing {
        None
    } else {
        Some(out)
    }
}

/// Where the cache holds a companion.
fn cached_companion(cached: &Vec<Option<String>>, pick: Option<usize>) -> (r: Option<String>)
    requires
        index_below(pick, cached@.len()),
    ensures
        opt(r) == companion_path(opts(cached@), pick),
{
    match pick {
        Some(i) => {
            assert(opts(cached@)[i as int] == opt(cached@[i as int]));
            text::copy_opt(&cached[i])
        },
        None => None,
    }
}

/// The name of a companion.
fn companion_name(files: &Vec<Sibling>, pick: Option<usize>) -> (r: Option<String>)
    requires
        index_below(pick, files@.len()),
    ensures
        opt(r) == companion_file(sibling_views(files@), pick),
{
    match pick {
        Some(i) => {
            assert(sibling_views(files@)[i as int] == files@[i as int]@);
            Some(files[i].rfilename.clone())
        },
        None => None,
    }
}

/// The artifact that a file stands for.
fn build_artifact(root: &str, detail: &RepositoryDetail, facts: &Facts, i: usize) -> (r: Model)
    requires
        i < detail.siblings.len(),
        facts@.about(file_names(detail@.siblings)),
        artifacts_fit(detail@.siblings, facts@.shards),
        is_artifact(detail@.siblings, facts@, i as int),
    ensures
        r@ == artifact(root@, detail@, facts@, i as int),
{
    let files = &detail.siblings;
    let ghost all = detail@.siblings;
    proof {
        assert(file_names(all)[i as int] == files@[i as int]@.rfilename);
        assert(opts(facts.quants@)[i as int] == opt(facts.quants@[i as int]));
        assert(index_below(facts@.mtp[i as int], all.len()));
    }
    let file = files[i].rfilename.as_str();
    let repo = detail.repository.id.as_str();
    let display = shards::whole_name(file, facts.shards[i], ".gguf");
    let leaf = names::safe_component(display.as_str(), false);
    let parts = member_files(files, &facts.shards, i);
    let bytes = match total_bytes(files, &parts) {
        Some(n) => n,
        None => 0,
    };
    assert(bytes == bytes_of(all, members(file_names(all), facts@.shards, i as int)));
    let mut blobs = collect_blobs(files, &parts);
    add_companion(&mut blobs, files, facts.mtp[i]);
    add_companion(&mut blobs, files, facts.dflash);
    add_companion(&mut blobs, files, facts.projector);
    let held = cached_paths(&facts.cached, &parts);
    let mut local_path = text::copy("");
    let mut shard_paths: Vec<String> = Vec::new();
    assert(strs(shard_paths@) =~= Seq::<Seq<char>>::empty());
    proof {
        reveal_strlit("");
    }
    if let Some(paths) = held {
        if paths.len() > 0 {
            assert(strs(paths@)[0] == paths@[0]@);
            if !paths[0].as_str().is_empty() {
                local_path = paths[0].clone();
                shard_paths = paths;
            }
        }
    }
    let mut place: Vec<String> = Vec::new();
    place.push(text::copy(ONLINE));
    place.push(text::copy(HUGGINGFACE));
    place.push(text::copy(repo));
    place.push(leaf.clone());
    assert(strs(place@) =~= seq![ONLINE@, HUGGINGFACE@, repo@, leaf@]);
    let mut id = text::cat3("hf:", repo, "/");
    id.append(file);
    let mut model = bare_model(id, display, place, text::copy(RUNTIME));
    model.path = local_path;
    model.shard_paths = shard_paths;
    model.mtp_path = cached_companion(&facts.cached, facts.mtp[i]);
    model.dflash_path = cached_companion(&facts.cached, facts.dflash);
    model.dflash_block_size = if model.dflash_path.is_some() {
        facts.block_size
    } else {
        None
    };
    model.projector_path = cached_companion(&facts.cached, facts.projector);
    model.catalog_dir = path::join(repository_dir(root, repo).as_str(), leaf.as_str());
    model.size_bytes = bytes;
    model.quantization = text::copy_opt(&facts.quants[i]);
    match &detail.gguf {
        Some(g) => {
            model.architecture = text::copy_opt(&g.architecture);
            model.context_length = g.context_length;
            model.has_chat_template = g.chat_template.is_some();
        },
        None => {},
    }
    model.modified = Some(detail.fetched_at);
    model.remote = Some(
        RemoteModel {
            repo: text::copy(repo),
            revision: text::copy_opt(&detail.repository.sha),
            file: Some(text::copy(file)),
            blobs,
            mtp_file: companion_name(files, facts.mtp[i]),
            dflash_file: companion_name(files, facts.dflash),
            projector_file: companion_name(files, facts.projector),
            downloads: detail.repository.downloads,
            likes: detail.repository.likes,
            gated: detail.repository.gated,
        },
    );
    model
}

/// Whether a file stands for an artifact, given the shard that its name names.
fn artifact_file(file: &str, shard: Option<Shard>) -> (r: bool)
    requires
        shard is Some ==> shard->0.fits(file@),
    ensures
        r == stands_for_artifact(file@, shard),
{
    let lower = chars::to_ascii_lower(file);
    text::ends_with(lower.as_str(), ".gguf") && !companions::is_companion(file)
        && shards::stands_for_model(file, shard)
}

/// The artifacts of a repository, given what is known of its files.
pub fn assemble(root: &str, detail: &RepositoryDetail, facts: &Facts) -> (r: Vec<Model>)
    requires
        facts@.about(file_names(detail@.siblings)),
        artifacts_fit(detail@.siblings, facts@.shards),
    ensures
        views(r@) == artifacts_upto(root@, detail@, facts@, detail@.siblings.len()),
{
    let mut out: Vec<Model> = Vec::new();
    let mut i: usize = 0;
    assert(views(out@) =~= artifacts_upto(root@, detail@, facts@, 0));
    while i < detail.siblings.len()
        invariant
            i <= detail.siblings.len(),
            facts@.about(file_names(detail@.siblings)),
            artifacts_fit(detail@.siblings, facts@.shards),
            views(out@) == artifacts_upto(root@, detail@, facts@, i as nat),
        decreases detail.siblings.len() - i,
    {
        let file = detail.siblings[i].rfilename.as_str();
        assert(file_names(detail@.siblings)[i as int] == file@);
        if artifact_file(file, facts.shards[i]) {
            let ghost before = views(out@);
            let model = build_artifact(root, detail, facts, i);
            let ghost view = model@;
            out.push(model);
            assert(views(out@) =~= before.push(view));
        }
        i += 1;
    }
    out
}

// --- from the files alone ----------------------------------------------------

/// An index as the machine holds it.
pub open spec fn machine_index(i: Option<int>) -> Option<usize> {
    match i {
        Some(k) => Some(k as usize),
        None => None,
    }
}

/// The shards that the names of the files name.
pub open spec fn named_shards(files: Seq<Seq<char>>) -> Seq<Option<Shard>> {
    files.map_values(|f: Seq<char>| shards::shard_name(shards::ASCII_SHARD@, f))
}

/// Whether the size of each artifact of a repository fits in 64 bits.
pub fn artifact_sizes_fit(detail: &RepositoryDetail) -> (r: bool)
    ensures
        r == artifacts_fit(detail@.siblings, named_shards(file_names(detail@.siblings))),
{
    let files = &detail.siblings;
    let ghost all = detail@.siblings;
    let ghost want = named_shards(file_names(all));
    let mut found: Vec<Option<Shard>> = Vec::new();
    let mut k: usize = 0;
    while k < files.len()
        invariant
            k <= files.len(),
            found.len() == k,
            files == &detail.siblings,
            all == detail@.siblings,
            want == named_shards(file_names(all)),
            forall|j: int|
                0 <= j < k ==> #[trigger] found@[j] == want[j] && (found@[j] is Some
                    ==> found@[j]->0.fits(all[j].rfilename)),
        decreases files.len() - k,
    {
        assert(all[k as int] == files@[k as int]@);
        found.push(shards::shard_of(shards::ASCII_SHARD, files[k].rfilename.as_str()));
        k += 1;
    }
    assert(found@ =~= want);
    let mut i: usize = 0;
    while i < files.len()
        invariant
            i <= files.len(),
            files == &detail.siblings,
            all == detail@.siblings,
            found@ == want,
            found.len() == files.len(),
            want == named_shards(file_names(all)),
            forall|j: int|
                0 <= j < found@.len() && #[trigger] found@[j] is Some ==> found@[j]->0.fits(
                    all[j].rfilename,
                ),
            forall|j: int|
                0 <= j < i && stands_for_artifact(all[j].rfilename, want[j]) ==> bytes_of(
                    all,
                    #[trigger] members(file_names(all), want, j),
                ) <= u64::MAX,
        decreases files.len() - i,
    {
        assert(all[i as int] == files@[i as int]@);
        if artifact_file(files[i].rfilename.as_str(), found[i]) {
            let parts = member_files(files, &found, i);
            if total_bytes(files, &parts).is_none() {
                let ghost m = members(file_names(all), want, i as int);
                assert(bytes_of(all, m) > u64::MAX);
                return false;
            }
        }
        i += 1;
    }
    true
}

/// What the names of the files tell, with what the cache holds.
pub open spec fn facts_of(files: Seq<Seq<char>>, cached: Seq<Option<Seq<char>>>, block_size: Option<u64>) -> FactsView {
    FactsView {
        shards: named_shards(files),
        quants: files.map_values(|f: Seq<char>| shards::quant_label(f)),
        mtp: files.map_values(
            |f: Seq<char>|
                machine_index(
                    companions::best(files, companions::mtp_ranks(f, files), files.len()),
                ),
        ),
        dflash: machine_index(
            companions::best(files, companions::dflash_ranks(files), files.len()),
        ),
        projector: machine_index(
            companions::best(files, companions::projector_ranks(files), files.len()),
        ),
        cached,
        block_size,
    }
}

/// The artifacts of a repository. `cached` says of each file where the cache
/// holds it; `block_size` is what the header of the cached drafter says.
pub fn artifacts_with_cache(
    root: &str,
    detail: &RepositoryDetail,
    cached: Vec<Option<String>>,
    block_size: Option<u64>,
) -> (r: Vec<Model>)
    requires
        cached.len() == detail.siblings.len(),
        artifacts_fit(detail@.siblings, named_shards(file_names(detail@.siblings))),
    ensures
        views(r@) == artifacts_upto(
            root@,
            detail@,
            facts_of(file_names(detail@.siblings), opts(cached@), block_size),
            detail@.siblings.len(),
        ),
{
    let ghost all = file_names(detail@.siblings);
    let mut files: Vec<String> = Vec::new();
    let mut i: usize = 0;
    while i < detail.siblings.len()
        invariant
            i <= detail.siblings.len(),
            files.len() == i,
            forall|j: int| 0 <= j < i ==> (#[trigger] files@[j])@ == detail.siblings@[j].rfilename@,
        decreases detail.siblings.len() - i,
    {
        files.push(detail.siblings[i].rfilename.clone());
        i += 1;
    }
    assert(strs(files@) =~= all);
    let mut found: Vec<Option<Shard>> = Vec::new();
    let mut quants: Vec<Option<String>> = Vec::new();
    let mut mtp: Vec<Option<usize>> = Vec::new();
    let mut k: usize = 0;
    while k < files.len()
        invariant
            k <= files.len(),
            found.len() == k,
            quants.len() == k,
            mtp.len() == k,
            strs(files@) == all,
            forall|j: int|
                0 <= j < k ==> #[trigger] found@[j] == shards::shard_name(
                    shards::ASCII_SHARD@,
                    all[j],
                ) && (found@[j] is Some
                    ==> found@[j]->0.fits(all[j])),
            forall|j: int| 0 <= j < k ==> opt(#[trigger] quants@[j]) == shards::quant_label(all[j]),
            forall|j: int|
                0 <= j < k ==> #[trigger] mtp@[j] == machine_index(
                    companions::best(all, companions::mtp_ranks(all[j], all), all.len()),
                ) && index_below(mtp@[j], all.len()),
        decreases files.len() - k,
    {
        assert(all[k as int] == files@[k as int]@);
        found.push(shards::shard_of(shards::ASCII_SHARD, files[k].as_str()));
        quants.push(shards::quant_from_filename(files[k].as_str()));
        mtp.push(companions::matching_mtp_companion(files[k].as_str(), &files));
        k += 1;
    }
    let dflash = companions::matching_dflash_companion(&files);
    let projector = companions::matching_projector_companion(&files);
    let facts = Facts { shards: found, quants, mtp, dflash, projector, cached, block_size };
    proof {
        let want = facts_of(all, opts(cached@), block_size);
        assert(facts@.shards =~= want.shards);
        assert(facts@.quants =~= want.quants);
        assert(facts@.mtp =~= want.mtp);
    }
    assemble(root, detail, &facts)
}

// --- laws --------------------------------------------------------------------

/// Companions are no entries of their own: whatever is listed stands for a model
/// file that is no companion, by which it is known.
pub proof fn law_companions_are_hidden(root: Seq<char>, detail: DetailView, facts: FactsView, n: nat, k: int)
    requires
        n <= detail.siblings.len(),
        0 <= k < artifacts_upto(root, detail, facts, n).len(),
    ensures
        ({
            let m = artifacts_upto(root, detail, facts, n)[k];
            m.remote is Some && m.remote->0.file is Some && !companions::accompanies(
                m.remote->0.file->0,
            )
        }),
    decreases n,
{
    if n > 0 {
        let rest = artifacts_upto(root, detail, facts, (n - 1) as nat);
        if k < rest.len() {
            law_companions_are_hidden(root, detail, facts, (n - 1) as nat, k);
        }
    }
}

proof fn lemma_all_cached(cached: Seq<Option<Seq<char>>>, picks: Seq<int>)
    requires
        all_cached(cached, picks) is Some,
    ensures
        all_cached(cached, picks)->0.len() == picks.len(),
        forall|k: int|
            0 <= k < picks.len() ==> cached[#[trigger] picks[k]] == Some(
                all_cached(cached, picks)->0[k],
            ),
    decreases picks.len(),
{
    if picks.len() > 0 {
        lemma_all_cached(cached, picks.drop_last());
        let held = all_cached(cached, picks)->0;
        assert forall|k: int| 0 <= k < picks.len() implies cached[#[trigger] picks[k]] == Some(
            held[k],
        ) by {
            if k < picks.len() - 1 {
                assert(picks.drop_last()[k] == picks[k]);
            }
        }
    }
}

/// An artifact has a place on disk only once the cache holds every part of it, and
/// then it has all of them.
pub proof fn law_split_artifacts_are_cached_whole(root: Seq<char>, detail: DetailView, facts: FactsView, i: int)
    requires
        artifact(root, detail, facts, i).path.len() > 0,
    ensures
        ({
            let parts = members(file_names(detail.siblings), facts.shards, i);
            let m = artifact(root, detail, facts, i);
            m.shard_paths.len() == parts.len() && forall|k: int|
                0 <= k < parts.len() ==> facts.cached[#[trigger] parts[k]] == Some(m.shard_paths[k])
        }),
{
    reveal_strlit("");
    let parts = members(file_names(detail.siblings), facts.shards, i);
    lemma_all_cached(facts.cached, parts);
}

// --- what an artifact is -----------------------------------------------------

proof fn lemma_companion_is_there(blobs: Seq<BlobView>, files: Seq<SiblingView>, pick: Option<usize>)
    requires
        index_below(pick, files.len()),
    ensures
        pick is Some && files[pick->0 as int].blob() is Some ==> has_blob_of(
            with_companion(blobs, files, pick),
            files[pick->0 as int].rfilename,
        ),
        forall|file: Seq<char>| #[trigger]
            has_blob_of(blobs, file) ==> has_blob_of(with_companion(blobs, files, pick), file),
        blobs.is_prefix_of(with_companion(blobs, files, pick)),
{
    let out = with_companion(blobs, files, pick);
    if pick is Some && files[pick->0 as int].blob() is Some {
        let b = files[pick->0 as int].blob()->0;
        assert(b.file == files[pick->0 as int].rfilename);
        if !has_blob_of(blobs, b.file) {
            assert(out == blobs.push(b));
            assert(out[blobs.len() as int].file == b.file);
            assert(out.take(blobs.len() as int) =~= blobs);
        }
    }
    assert forall|file: Seq<char>| #[trigger] has_blob_of(blobs, file) implies has_blob_of(
        out,
        file,
    ) by {
        let i = choose|i: int| 0 <= i < blobs.len() && #[trigger] blobs[i].file == file;
        assert(out[i].file == file);
    }
}

/// An artifact of one file is that file of its repository: by it the Hub knows it, its
/// size is what the Hub reports, and where the cache holds it, it is on disk. What has
/// to be fetched for it is its own blob and those of its companions.
pub proof fn law_artifacts_are_files_of_their_repository(root: Seq<char>, detail: DetailView, facts: FactsView, i: int)
    requires
        0 <= i < detail.siblings.len(),
        facts.about(file_names(detail.siblings)),
        facts.shards[i] is None,
    ensures
        ({
            let m = artifact(root, detail, facts, i);
            let f = detail.siblings[i];
            let head = facts.mtp[i];
            &&& m.remote is Some
            &&& m.remote->0.repo == detail.repository.id
            &&& m.remote->0.revision == detail.repository.sha
            &&& m.remote->0.file == Some(f.rfilename)
            &&& m.size_bytes == f.bytes()
            &&& facts.cached[i] is Some && facts.cached[i]->0.len() > 0 ==> m.path
                == facts.cached[i]->0 && m.shard_paths == seq![facts.cached[i]->0]
            &&& facts.cached[i] is None ==> m.path.len() == 0
            &&& f.blob() is Some ==> has_blob_of(m.remote->0.blobs, f.rfilename)
                && m.remote->0.blobs[0] == f.blob()->0
            &&& head is Some ==> m.remote->0.mtp_file == Some(
                detail.siblings[head->0 as int].rfilename,
            ) && m.mtp_path == facts.cached[head->0 as int]
            &&& head is Some && detail.siblings[head->0 as int].blob() is Some ==> has_blob_of(
                m.remote->0.blobs,
                detail.siblings[head->0 as int].rfilename,
            )
            &&& facts.projector is Some ==> m.remote->0.projector_file == Some(
                detail.siblings[facts.projector->0 as int].rfilename,
            ) && m.projector_path == facts.cached[facts.projector->0 as int]
            &&& facts.projector is Some && detail.siblings[facts.projector->0 as int].blob() is Some
                ==> has_blob_of(
                m.remote->0.blobs,
                detail.siblings[facts.projector->0 as int].rfilename,
            )
            &&& facts.dflash is Some ==> m.remote->0.dflash_file == Some(
                detail.siblings[facts.dflash->0 as int].rfilename,
            ) && m.dflash_path == facts.cached[facts.dflash->0 as int]
            &&& m.context_length == detail.context_length && m.architecture == detail.architecture
        }),
{
    let files = detail.siblings;
    let parts = members(file_names(files), facts.shards, i);
    reveal_strlit("");
    assert(file_names(files).len() == files.len());
    assert(parts =~= seq![i]);
    assert(parts.drop_last() =~= Seq::<int>::empty());
    let own = blobs_of(files, parts);
    assert(bytes_of(files, parts.drop_last()) == 0);
    assert(bytes_of(files, parts) == files[i].bytes());
    assert(blobs_of(files, parts.drop_last()) =~= Seq::<BlobView>::empty());
    assert(all_cached(facts.cached, parts.drop_last()) == Some(Seq::<Seq<char>>::empty()));
    if facts.cached[i] is Some {
        assert(all_cached(facts.cached, parts)->0 =~= seq![facts.cached[i]->0]);
    }
    let one = with_companion(own, files, facts.mtp[i]);
    let two = with_companion(one, files, facts.dflash);
    lemma_companion_is_there(own, files, facts.mtp[i]);
    lemma_companion_is_there(one, files, facts.dflash);
    lemma_companion_is_there(two, files, facts.projector);
    if files[i].blob() is Some {
        assert(own =~= seq![files[i].blob()->0]);
        assert(own[0].file == files[i].rfilename);
        assert(has_blob_of(own, files[i].rfilename));
        let all = with_companion(two, files, facts.projector);
        assert(one[0] == own[0]);
        assert(two[0] == one[0]);
        assert(all[0] == two[0]);
    }
}

proof fn lemma_alike(names: Seq<Seq<char>>, head: Seq<char>, tail: Seq<char>, n: nat)
    requires
        n <= names.len(),
    ensures
        forall|j: int|
            0 <= j < n ==> alike(names, head, tail, n).contains(j) == (head.is_prefix_of(
                #[trigger] names[j],
            ) && tail.is_suffix_of(names[j])),
        forall|k: int|
            0 <= k < alike(names, head, tail, n).len() ==> 0 <= #[trigger] alike(
                names,
                head,
                tail,
                n,
            )[k] < n,
        alike(names, head, tail, n).no_duplicates(),
    decreases n,
{
    if n > 0 {
        let m = (n - 1) as nat;
        let rest = alike(names, head, tail, m);
        let all = alike(names, head, tail, n);
        lemma_alike(names, head, tail, m);
        assert forall|j: int| 0 <= j < n implies all.contains(j) == (head.is_prefix_of(
            #[trigger] names[j],
        ) && tail.is_suffix_of(names[j])) by {
            if j < m {
                if rest.contains(j) {
                    let k = choose|k: int| 0 <= k < rest.len() && rest[k] == j;
                    assert(all[k] == j);
                }
                if all.contains(j) {
                    let k = choose|k: int| 0 <= k < all.len() && all[k] == j;
                    assert(k < rest.len());
                    assert(rest[k] == j);
                }
            } else {
                if head.is_prefix_of(names[j]) && tail.is_suffix_of(names[j]) {
                    assert(all[all.len() - 1] == j);
                } else if all.contains(j) {
                    let k = choose|k: int| 0 <= k < all.len() && all[k] == j;
                    assert(rest[k] == j);
                }
            }
        }
    }
}

/// A split artifact is made of all files whose names differ from its own in the number
/// of the part alone, each of them once.
pub proof fn law_parts_belong_together(names: Seq<Seq<char>>, shards: Seq<Option<Shard>>, i: int, j: int)
    requires
        0 <= i < names.len(),
        0 <= j < names.len(),
        names.len() == shards.len(),
        shards[i] is Some,
        shards[i]->0.fits(names[i]),
    ensures
        members(names, shards, i).no_duplicates(),
        members(names, shards, i).contains(j) == (names[i].take(
            shards[i]->0.index.start as int,
        ).is_prefix_of(names[j]) && names[i].skip(shards[i]->0.index.end as int).is_suffix_of(
            names[j],
        )),
        members(names, shards, i).contains(i),
{
    let s = shards[i]->0;
    let head = names[i].take(s.index.start as int);
    let tail = names[i].skip(s.index.end as int);
    lemma_alike(names, head, tail, names.len());
    assert(names[i].take(head.len() as int) =~= head);
    assert(names[i].skip(names[i].len() - tail.len()) =~= tail);
    assert(head.is_prefix_of(names[i]));
    assert(tail.is_suffix_of(names[i]));
    assert(names[j] == names[j]);
}

/// One more file adds its size to an artifact, and its blob to what has to be fetched.
pub proof fn law_each_file_counts(files: Seq<SiblingView>, picks: Seq<int>, more: int)
    requires
        0 <= more < files.len(),
    ensures
        bytes_of(files, picks.push(more)) == bytes_of(files, picks) + files[more].bytes(),
        files[more].blob() is Some ==> blobs_of(files, picks.push(more)) == blobs_of(
            files,
            picks,
        ).push(files[more].blob()->0),
        files[more].blob() is None ==> blobs_of(files, picks.push(more)) == blobs_of(files, picks),
        bytes_of(files, Seq::<int>::empty()) == 0,
{
    assert(picks.push(more).drop_last() =~= picks);
}

/// Every model file of a repository is listed as an artifact, unless it accompanies
/// others or is a later part of a split one.
pub proof fn law_model_files_are_listed(root: Seq<char>, detail: DetailView, facts: FactsView, n: nat, i: int)
    requires
        0 <= i < n <= detail.siblings.len(),
        companions::ends_fold(detail.siblings[i].rfilename, ".gguf"@),
        !companions::accompanies(detail.siblings[i].rfilename),
        facts.shards[i] is None,
    ensures
        exists|k: int|
            0 <= k < artifacts_upto(root, detail, facts, n).len() && stands_for(
                #[trigger] artifacts_upto(root, detail, facts, n)[k],
                detail.siblings[i].rfilename,
            ),
    decreases n,
{
    let rest = artifacts_upto(root, detail, facts, (n - 1) as nat);
    let all = artifacts_upto(root, detail, facts, n);
    if i == n - 1 {
        assert(is_artifact(detail.siblings, facts, i));
        assert(stands_for(all[all.len() - 1], detail.siblings[i].rfilename));
    } else {
        law_model_files_are_listed(root, detail, facts, (n - 1) as nat, i);
        let k = choose|k: int|
            0 <= k < rest.len() && stands_for(#[trigger] rest[k], detail.siblings[i].rfilename);
        assert(all[k] == rest[k]);
    }
}

/// Whether an entry stands for a file of its repository.
pub open spec fn stands_for(m: ModelView, file: Seq<char>) -> bool {
    m.remote is Some && m.remote->0.file == Some(file)
}

} // verus!
