//! The live tree of the Hub: the folder of repositories, the files in each, and
//! the downloads of those files.

use vstd::prelude::*;
use crate::app::browser::{BrowserState, BrowserView, ListView};
use crate::app::panes::nearest;
use crate::chars;
use crate::discovery::online::{bare_entry, bare_model, HUGGINGFACE, ONLINE, RUNTIME};
use crate::domain::format::size_text;
use crate::domain::{human_size, views, Model, ModelView, RemoteKind};
use crate::hub::api::{
    file_views, model_views, part_views, FileView, HubModelView, PartView, RepoView,
};
use crate::hub::download::{is_there, Outcome};
use crate::hub::{HubEvent, HubFile, HubModel, HubRepo};
use crate::number;
use crate::path;
use crate::table;
use crate::text;
use crate::text::{opt, strs};

verus! {

// --- downloads ---------------------------------------------------------------

/// How far a download of the tree is.
#[derive(Debug)]
pub enum DownloadState {
    Running,
    Done,
    Cancelled,
    Failed(String),
}

pub enum DownloadStateView {
    Running,
    Done,
    Cancelled,
    Failed(Seq<char>),
}

impl View for DownloadState {
    type V = DownloadStateView;

    open spec fn view(&self) -> DownloadStateView {
        match self {
            DownloadState::Running => DownloadStateView::Running,
            DownloadState::Done => DownloadStateView::Done,
            DownloadState::Cancelled => DownloadStateView::Cancelled,
            DownloadState::Failed(e) => DownloadStateView::Failed(e@),
        }
    }
}

/// A download of the tree.
#[derive(Debug)]
pub struct Download {
    pub id: u64,
    pub repo: String,
    /// The name of the artifact.
    pub file: String,
    /// The expected size, zero where it is not known.
    pub total: u64,
    pub received: u64,
    /// Whether it was asked to stop.
    pub cancel: bool,
    pub state: DownloadState,
}

pub struct DownloadView {
    pub id: u64,
    pub repo: Seq<char>,
    pub file: Seq<char>,
    pub total: u64,
    pub received: u64,
    pub cancel: bool,
    pub state: DownloadStateView,
}

impl View for Download {
    type V = DownloadView;

    open spec fn view(&self) -> DownloadView {
        DownloadView {
            id: self.id,
            repo: self.repo@,
            file: self.file@,
            total: self.total,
            received: self.received,
            cancel: self.cancel,
            state: self.state@,
        }
    }
}

/// The views of a list of downloads.
pub open spec fn download_views(v: Seq<Download>) -> Seq<DownloadView> {
    v.map_values(|d: Download| d@)
}

impl DownloadView {
    /// How much is there, in per cent; a hundredfold that cannot be counted is the
    /// largest number.
    pub open spec fn percent(self) -> int {
        let hundredfold = if self.received * 100 > u64::MAX {
            u64::MAX as int
        } else {
            self.received * 100
        };
        if hundredfold / self.total as int > 100 {
            100
        } else {
            hundredfold / self.total as int
        }
    }

    /// How far the download is: sizes and per cent, or the size alone where the
    /// total is not known.
    pub open spec fn label(self) -> Seq<char> {
        if self.total == 0 {
            size_text(self.received as nat)
        } else {
            size_text(self.received as nat) + " / "@ + size_text(self.total as nat) + " ("@
                + number::decimal(self.percent() as nat) + "%)"@
        }
    }

    /// Whether the download was asked to stop and still runs.
    pub open spec fn stopping(self) -> bool {
        self.state is Running && self.cancel
    }
}

impl Download {
    /// How many bytes arrived.
    pub fn received_bytes(&self) -> (r: u64)
        ensures
            r == self@.received,
    {
        self.received
    }

    /// Whether the download was asked to stop and still runs.
    pub fn cancelling(&self) -> (r: bool)
        ensures
            r == self@.stopping(),
    {
        self.running() && self.cancel
    }

    fn running(&self) -> (r: bool)
        ensures
            r == (self@.state is Running),
    {
        match self.state {
            DownloadState::Running => true,
            _ => false,
        }
    }

    /// How far the download is, such as `1.2 GB / 4.5 GB (27%)`.
    pub fn progress_label(&self) -> (r: String)
        ensures
            r@ == self@.label(),
    {
        let received = self.received_bytes();
        if self.total == 0 {
            return human_size(received);
        }
        let hundredfold: u64 = if received > u64::MAX / 100 {
            u64::MAX
        } else {
            received * 100
        };
        let part: u64 = hundredfold / self.total;
        let percent: u64 = if part > 100 {
            100
        } else {
            part
        };
        let mut out = text::cat3(
            human_size(received).as_str(),
            " / ",
            human_size(self.total).as_str(),
        );
        out.append(" (");
        out.append(number::nat_text(percent).as_str());
        out.append("%)");
        out
    }
}

// --- the state ---------------------------------------------------------------

/// What is known of the Hub, and what is going on with it.
#[derive(Debug)]
pub struct HubState {
    /// The repositories that the folder lists.
    pub results: Vec<HubModel>,
    /// The query that they answer; empty for those that trend.
    pub query: String,
    /// What repositories hold, each once.
    pub listings: Vec<(String, HubRepo)>,
    /// What is being fetched, for display.
    pub loading: Option<String>,
    pub error: Option<String>,
    pub downloads: Vec<Download>,
    /// The number of the latest search; answers to others do not count.
    pub epoch: u64,
    /// The repositories whose contents are being fetched.
    pub pending_repos: Vec<String>,
    /// Whether a search was made at all.
    pub fetched: bool,
    pub next_download_id: u64,
}

pub struct HubStateView {
    pub results: Seq<HubModelView>,
    pub query: Seq<char>,
    pub listings: Map<Seq<char>, RepoView>,
    pub loading: Option<Seq<char>>,
    pub error: Option<Seq<char>>,
    pub downloads: Seq<DownloadView>,
    pub epoch: u64,
    pub pending: Seq<Seq<char>>,
    pub fetched: bool,
    pub next_id: u64,
}

/// The listings with their repositories as texts.
pub open spec fn listing_entries(v: Seq<(String, HubRepo)>) -> Seq<(Seq<char>, RepoView)> {
    v.map_values(|e: (String, HubRepo)| (e.0@, e.1@))
}

impl View for HubState {
    type V = HubStateView;

    open spec fn view(&self) -> HubStateView {
        HubStateView {
            results: model_views(self.results@),
            query: self.query@,
            listings: table::as_map(listing_entries(self.listings@)),
            loading: opt(self.loading),
            error: opt(self.error),
            downloads: download_views(self.downloads@),
            epoch: self.epoch,
            pending: strs(self.pending_repos@),
            fetched: self.fetched,
            next_id: self.next_download_id,
        }
    }
}

/// The first download of a file, from `from` on.
pub open spec fn download_at(downloads: Seq<DownloadView>, repo: Seq<char>, file: Seq<char>, from: int) -> Option<int>
    decreases downloads.len() - from,
{
    if from < 0 || from >= downloads.len() {
        None
    } else if downloads[from].repo == repo && downloads[from].file == file {
        Some(from)
    } else {
        download_at(downloads, repo, file, from + 1)
    }
}

impl HubStateView {
    /// The download of a file.
    pub open spec fn download(self, repo: Seq<char>, file: Seq<char>) -> Option<DownloadView> {
        match download_at(self.downloads, repo, file, 0) {
            Some(i) => Some(self.downloads[i]),
            None => None,
        }
    }
}

impl HubState {
    /// No repository is listed twice.
    pub open spec fn wf(self) -> bool {
        table::distinct_keys(listing_entries(self.listings@))
    }

    /// Nothing is known yet.
    pub fn new() -> (r: HubState)
        ensures
            r.wf(),
            r@ == (HubStateView {
                results: Seq::<HubModelView>::empty(),
                query: Seq::<char>::empty(),
                listings: Map::<Seq<char>, RepoView>::empty(),
                loading: None,
                error: None,
                downloads: Seq::<DownloadView>::empty(),
                epoch: 0,
                pending: Seq::<Seq<char>>::empty(),
                fetched: false,
                next_id: 1,
            }),
    {
        let r = HubState {
            results: Vec::new(),
            query: String::new(),
            listings: Vec::new(),
            loading: None,
            error: None,
            downloads: Vec::new(),
            epoch: 0,
            pending_repos: Vec::new(),
            fetched: false,
            next_download_id: 1,
        };
        assert(r@.results =~= Seq::<HubModelView>::empty());
        assert(r@.query =~= Seq::<char>::empty());
        assert(r@.listings =~= Map::<Seq<char>, RepoView>::empty());
        assert(r@.downloads =~= Seq::<DownloadView>::empty());
        assert(r@.pending =~= Seq::<Seq<char>>::empty());
        r
    }

    fn find_download(&self, repo: &str, file: &str) -> (r: Option<usize>)
        ensures
            match r {
                Some(i) => i < self.downloads@.len() && download_at(
                    self@.downloads,
                    repo@,
                    file@,
                    0,
                ) == Some(i as int),
                None => download_at(self@.downloads, repo@, file@, 0) is None,
            },
    {
        let ghost all = download_views(self.downloads@);
        let mut i: usize = 0;
        while i < self.downloads.len()
            invariant
                i <= self.downloads.len(),
                all == download_views(self.downloads@),
                download_at(all, repo@, file@, 0) == download_at(all, repo@, file@, i as int),
            decreases self.downloads.len() - i,
        {
            assert(all[i as int] == self.downloads@[i as int]@);
            if text::same(self.downloads[i].repo.as_str(), repo) && text::same(
                self.downloads[i].file.as_str(),
                file,
            ) {
                return Some(i);
            }
            i += 1;
        }
        None
    }

    /// The download of a file of a repository.
    pub fn download_for(&self, repo: &str, file: &str) -> (r: Option<&Download>)
        ensures
            match r {
                Some(d) => self@.download(repo@, file@) == Some(d@),
                None => self@.download(repo@, file@) is None,
            },
    {
        match self.find_download(repo, file) {
            Some(i) => {
                assert(self@.downloads[i as int] == self.downloads@[i as int]@);
                Some(&self.downloads[i])
            },
            None => None,
        }
    }

    fn find_listing(&self, repo: &str) -> (r: Option<usize>)
        requires
            self.wf(),
        ensures
            match r {
                Some(i) => i < self.listings@.len() && self.listings@[i as int].0@ == repo@
                    && self@.listings.dom().contains(repo@) && self@.listings[repo@]
                    == self.listings@[i as int].1@,
                None => !self@.listings.dom().contains(repo@) && !table::has_key(
                    listing_entries(self.listings@),
                    repo@,
                ),
            },
    {
        let ghost all = listing_entries(self.listings@);
        let mut i: usize = 0;
        while i < self.listings.len()
            invariant
                i <= self.listings.len(),
                self.wf(),
                all == listing_entries(self.listings@),
                forall|j: int| 0 <= j < i ==> (#[trigger] all[j]).0 != repo@,
            decreases self.listings.len() - i,
        {
            assert(all[i as int] == (self.listings@[i as int].0@, self.listings@[i as int].1@));
            if text::same(self.listings[i].0.as_str(), repo) {
                proof {
                    table::lemma_entry(all, i as int);
                }
                return Some(i);
            }
            i += 1;
        }
        assert(all.len() == self.listings@.len());
        None
    }

    fn drop_listing(&mut self, repo: &str)
        requires
            old(self).wf(),
        ensures
            final(self).wf(),
            final(self)@ == (HubStateView {
                listings: old(self)@.listings.remove(repo@),
                ..old(self)@
            }),
            !table::has_key(listing_entries(final(self).listings@), repo@),
    {
        let ghost all = listing_entries(self.listings@);
        match self.find_listing(repo) {
            Some(i) => {
                proof {
                    table::lemma_remove(all, i as int);
                }
                let _old = self.listings.remove(i);
                let ghost less = listing_entries(self.listings@);
                assert(less =~= all.remove(i as int));
                proof {
                    if table::has_key(less, repo@) {
                        assert(table::as_map(less).dom().contains(repo@));
                    }
                }
            },
            None => {
                assert(self@.listings.remove(repo@) =~= self@.listings);
            },
        }
    }

    fn put_listing(&mut self, repo: String, listing: HubRepo)
        requires
            old(self).wf(),
        ensures
            final(self).wf(),
            final(self)@ == (HubStateView {
                listings: old(self)@.listings.insert(repo@, listing@),
                ..old(self)@
            }),
    {
        let ghost before = self@.listings;
        self.drop_listing(repo.as_str());
        let ghost less = listing_entries(self.listings@);
        proof {
            table::lemma_push(less, repo@, listing@);
        }
        let ghost entry = (repo@, listing@);
        self.listings.push((repo, listing));
        assert(listing_entries(self.listings@) =~= less.push(entry));
        assert(self@.listings =~= before.insert(entry.0, entry.1));
    }
}

// --- the tree ----------------------------------------------------------------

/// Whether a folder lies in the tree.
pub open spec fn in_tree(prefix: Seq<Seq<char>>) -> bool {
    prefix.len() > 0 && prefix[0] == ONLINE@
}

/// Whether a folder lies in the tree.
pub fn in_hub_tree(prefix: &Vec<String>) -> (r: bool)
    ensures
        r == in_tree(strs(prefix@)),
{
    if prefix.len() == 0 {
        return false;
    }
    assert(strs(prefix@)[0] == prefix@[0]@);
    text::same(prefix[0].as_str(), ONLINE)
}

/// The repository that a folder belongs to.
pub open spec fn repo_at(prefix: Seq<Seq<char>>) -> Option<Seq<char>> {
    if prefix.len() >= 3 && prefix[1] == HUGGINGFACE@ {
        Some(prefix[2])
    } else {
        None
    }
}

/// The repository that a folder belongs to.
pub fn repo_of(prefix: &Vec<String>) -> (r: Option<&str>)
    ensures
        match r {
            Some(s) => repo_at(strs(prefix@)) == Some(s@),
            None => repo_at(strs(prefix@)) is None,
        },
{
    assert(strs(prefix@).len() == prefix@.len());
    if prefix.len() < 3 {
        return None;
    }
    assert(strs(prefix@)[1] == prefix@[1]@);
    assert(strs(prefix@)[2] == prefix@[2]@);
    if text::same(prefix[1].as_str(), HUGGINGFACE) {
        Some(prefix[2].as_str())
    } else {
        None
    }
}

/// A node of the tree with nothing but its place.
pub open spec fn node(path: Seq<Seq<char>>, kind: Option<RemoteKind>) -> ModelView {
    ModelView {
        hub: kind,
        ..bare_entry(
            "hub:"@ + text::join(path, "/"@),
            if path.len() > 0 {
                path.last()
            } else {
                Seq::<char>::empty()
            },
            path,
            RUNTIME@,
        )
    }
}

/// The node of a repository.
pub open spec fn repo_entry(id: Seq<char>) -> ModelView {
    node(seq![ONLINE@, HUGGINGFACE@, id], Some(RemoteKind::Repo))
}

/// The names of parts.
pub open spec fn part_names(parts: Seq<PartView>) -> Seq<Seq<char>> {
    parts.map_values(|p: PartView| p.rfilename)
}

/// The node of a file: its size, its quantization and its parts.
pub open spec fn file_entry(repo: Seq<char>, f: FileView) -> ModelView {
    ModelView {
        size_bytes: f.size_bytes as u64,
        quantization: f.quant,
        shard_paths: part_names(f.parts),
        ..node(seq![ONLINE@, HUGGINGFACE@, repo, f.name], Some(RemoteKind::File))
    }
}

fn dir_node(catalog_path: Vec<String>, kind: Option<RemoteKind>) -> (r: Model)
    ensures
        r@ == node(strs(catalog_path@), kind),
{
    let n = catalog_path.len();
    assert(strs(catalog_path@).len() == n);
    let name = if n > 0 {
        assert(strs(catalog_path@)[n - 1] == catalog_path@[n - 1]@);
        catalog_path[n - 1].clone()
    } else {
        let none = String::new();
        assert(none@ =~= Seq::<char>::empty());
        none
    };
    let id = text::cat("hub:", text::join_all(&catalog_path, "/").as_str());
    let mut m = bare_model(id, name, catalog_path, text::copy(RUNTIME));
    m.hub = kind;
    m
}

fn hub_folder(repo: Option<&str>, file: Option<&str>) -> (r: Vec<String>)
    ensures
        strs(r@) == seq![ONLINE@, HUGGINGFACE@] + (match repo {
            Some(s) => seq![s@],
            None => Seq::<Seq<char>>::empty(),
        }) + (match file {
            Some(s) => seq![s@],
            None => Seq::<Seq<char>>::empty(),
        }),
{
    let mut out: Vec<String> = Vec::new();
    out.push(text::copy(ONLINE));
    out.push(text::copy(HUGGINGFACE));
    if let Some(s) = repo {
        out.push(text::copy(s));
    }
    if let Some(s) = file {
        out.push(text::copy(s));
    }
    assert(strs(out@) =~= seq![ONLINE@, HUGGINGFACE@] + (match repo {
        Some(s) => seq![s@],
        None => Seq::<Seq<char>>::empty(),
    }) + (match file {
        Some(s) => seq![s@],
        None => Seq::<Seq<char>>::empty(),
    }));
    out
}

/// The folder at the top of the tree.
pub fn online_root_node() -> (r: Model)
    ensures
        r@ == node(seq![ONLINE@], None),
{
    let mut path: Vec<String> = Vec::new();
    path.push(text::copy(ONLINE));
    assert(strs(path@) =~= seq![ONLINE@]);
    dir_node(path, None)
}

/// The node of a repository.
pub fn repo_node(repo: &HubModel) -> (r: Model)
    ensures
        r@ == repo_entry(repo@.id),
{
    let path = hub_folder(Some(repo.id.as_str()), None);
    assert(strs(path@) =~= seq![ONLINE@, HUGGINGFACE@, repo@.id]);
    dir_node(path, Some(RemoteKind::Repo))
}

/// The node of a file.
pub fn file_node(repo_id: &str, file: &HubFile) -> (r: Model)
    ensures
        r@ == file_entry(repo_id@, file@),
{
    let path = hub_folder(Some(repo_id), Some(file.name.as_str()));
    assert(strs(path@) =~= seq![ONLINE@, HUGGINGFACE@, repo_id@, file@.name]);
    let mut m = dir_node(path, Some(RemoteKind::File));
    m.size_bytes = file.size_bytes;
    m.quantization = text::copy_opt(&file.quant);
    let ghost all = part_views(file.parts@);
    let mut names: Vec<String> = Vec::new();
    let mut i: usize = 0;
    while i < file.parts.len()
        invariant
            i <= file.parts.len(),
            all == part_views(file.parts@),
            names.len() == i,
            forall|j: int| 0 <= j < i ==> (#[trigger] names@[j])@ == all[j].rfilename,
        decreases file.parts.len() - i,
    {
        assert(all[i as int] == file.parts@[i as int]@);
        names.push(file.parts[i].rfilename.clone());
        i += 1;
    }
    assert(all.len() == file.parts@.len());
    assert(strs(names@) =~= part_names(all));
    m.shard_paths = names;
    m
}

/// What a folder of the tree shows: the Hub, its repositories, or the files of one.
pub open spec fn tree_children(s: HubStateView, prefix: Seq<Seq<char>>) -> Option<Seq<ModelView>> {
    if !in_tree(prefix) {
        None
    } else if prefix.len() == 1 {
        Some(seq![node(seq![ONLINE@, HUGGINGFACE@], None)])
    } else if prefix.len() == 2 {
        Some(s.results.map_values(|m: HubModelView| repo_entry(m.id)))
    } else if prefix.len() == 3 {
        Some(
            if s.listings.dom().contains(prefix[2]) {
                s.listings[prefix[2]].files.map_values(|f: FileView| file_entry(prefix[2], f))
            } else {
                Seq::<ModelView>::empty()
            },
        )
    } else {
        Some(Seq::<ModelView>::empty())
    }
}

impl HubState {
    fn repo_nodes(&self) -> (r: Vec<Model>)
        ensures
            views(r@) == self@.results.map_values(|m: HubModelView| repo_entry(m.id)),
    {
        let ghost all = model_views(self.results@);
        let mut out: Vec<Model> = Vec::new();
        let mut i: usize = 0;
        while i < self.results.len()
            invariant
                i <= self.results.len(),
                all == model_views(self.results@),
                out.len() == i,
                forall|j: int| 0 <= j < i ==> (#[trigger] out@[j])@ == repo_entry(all[j].id),
            decreases self.results.len() - i,
        {
            assert(all[i as int] == self.results@[i as int]@);
            out.push(repo_node(&self.results[i]));
            i += 1;
        }
        assert(all.len() == self.results@.len());
        assert(views(out@) =~= all.map_values(|m: HubModelView| repo_entry(m.id)));
        out
    }

    /// What a folder of the tree shows; nothing for a folder outside of it.
    pub fn hub_children(&self, prefix: &Vec<String>) -> (r: Option<Vec<Model>>)
        requires
            self.wf(),
        ensures
            match r {
                Some(v) => tree_children(self@, strs(prefix@)) == Some(views(v@)),
                None => tree_children(self@, strs(prefix@)) is None,
            },
    {
        if !in_hub_tree(prefix) {
            return None;
        }
        let n = prefix.len();
        assert(strs(prefix@).len() == n);
        if n == 1 {
            let path = hub_folder(None, None);
            assert(strs(path@) =~= seq![ONLINE@, HUGGINGFACE@]);
            let mut out: Vec<Model> = Vec::new();
            out.push(dir_node(path, None));
            assert(views(out@) =~= seq![node(seq![ONLINE@, HUGGINGFACE@], None)]);
            return Some(out);
        }
        if n == 2 {
            return Some(self.repo_nodes());
        }
        let mut out: Vec<Model> = Vec::new();
        if n == 3 {
            assert(strs(prefix@)[2] == prefix@[2]@);
            let repo = prefix[2].as_str();
            if let Some(k) = self.find_listing(repo) {
                let files = &self.listings[k].1.files;
                let ghost all = file_views(files@);
                let mut i: usize = 0;
                while i < files.len()
                    invariant
                        i <= files.len(),
                        all == file_views(files@),
                        out.len() == i,
                        forall|j: int|
                            0 <= j < i ==> (#[trigger] out@[j])@ == file_entry(repo@, all[j]),
                    decreases files.len() - i,
                {
                    assert(all[i as int] == files@[i as int]@);
                    out.push(file_node(repo, &files[i]));
                    i += 1;
                }
                assert(all.len() == files@.len());
                assert(views(out@) =~= all.map_values(|f: FileView| file_entry(repo@, f)));
                return Some(out);
            }
        }
        assert(views(out@) =~= Seq::<ModelView>::empty());
        Some(out)
    }
}

// --- asking the Hub ----------------------------------------------------------

/// What is to be asked of the Hub.
#[derive(Debug)]
pub enum HubFetch {
    Nothing,
    /// A search, with its number.
    Search { epoch: u64, query: String },
    /// The contents of a repository.
    Listing(String),
}

pub enum FetchView {
    Nothing,
    Search(u64, Seq<char>),
    Listing(Seq<char>),
}

impl View for HubFetch {
    type V = FetchView;

    open spec fn view(&self) -> FetchView {
        match self {
            HubFetch::Nothing => FetchView::Nothing,
            HubFetch::Search { epoch, query } => FetchView::Search(*epoch, query@),
            HubFetch::Listing(repo) => FetchView::Listing(repo@),
        }
    }
}

/// What is said while a search runs.
pub open spec fn search_notice(query: Seq<char>) -> Seq<char> {
    if chars::trimmed(query).len() == 0 {
        "Loading trending models…"@
    } else {
        "Searching “"@ + chars::trimmed(query) + "”…"@
    }
}

impl HubStateView {
    /// The state with a search on its way.
    pub open spec fn searching(self, query: Seq<char>) -> HubStateView {
        HubStateView {
            fetched: true,
            epoch: (self.epoch + 1) as u64,
            error: None,
            loading: Some(search_notice(query)),
            ..self
        }
    }

    /// Whether the contents of a repository are known or on their way.
    pub open spec fn covers(self, repo: Seq<char>) -> bool {
        self.listings.dom().contains(repo) || self.pending.contains(repo)
    }

    /// The state with the contents of a repository on their way.
    pub open spec fn listing(self, repo: Seq<char>) -> HubStateView {
        HubStateView {
            pending: self.pending.push(repo),
            error: None,
            loading: Some("Loading files for "@ + repo + "…"@),
            ..self
        }
    }

    /// The state after the contents of a repository are asked for, unless they are
    /// known or on their way.
    pub open spec fn with_listing(self, repo: Seq<char>) -> (HubStateView, FetchView) {
        if self.covers(repo) {
            (self, FetchView::Nothing)
        } else {
            (self.listing(repo), FetchView::Listing(repo))
        }
    }

    /// The state after a search is made.
    pub open spec fn with_search(self, query: Seq<char>) -> (HubStateView, FetchView) {
        (self.searching(query), FetchView::Search((self.epoch + 1) as u64, query))
    }

    /// What a folder of the tree still needs.
    pub open spec fn ensured(self, prefix: Seq<Seq<char>>) -> (HubStateView, FetchView) {
        if !in_tree(prefix) {
            (self, FetchView::Nothing)
        } else {
            match repo_at(prefix) {
                Some(repo) => self.with_listing(repo),
                None => if self.fetched {
                    (self, FetchView::Nothing)
                } else {
                    self.with_search(Seq::<char>::empty())
                },
            }
        }
    }

    /// What the preview of a node still needs.
    pub open spec fn previewed(self, m: ModelView) -> (HubStateView, FetchView) {
        if m.hub == Some(RemoteKind::Repo) {
            if m.catalog_path.len() > 2 {
                self.with_listing(m.catalog_path[2])
            } else {
                (self, FetchView::Nothing)
            }
        } else if m.is_catalog_dir() && in_tree(m.catalog_path) && !self.fetched {
            self.with_search(Seq::<char>::empty())
        } else {
            (self, FetchView::Nothing)
        }
    }

    /// What a folder asks for anew.
    pub open spec fn refreshed(self, prefix: Seq<Seq<char>>) -> (HubStateView, FetchView) {
        match repo_at(prefix) {
            Some(repo) => HubStateView {
                listings: self.listings.remove(repo),
                ..self
            }.with_listing(repo),
            None => self.with_search(self.query),
        }
    }
}

fn notice_for(query: &str) -> (r: String)
    ensures
        r@ == search_notice(query@),
{
    let wanted = chars::trim(query);
    if text::length(wanted.as_str()) == 0 {
        text::copy("Loading trending models…")
    } else {
        text::cat3("Searching “", wanted.as_str(), "”…")
    }
}

impl HubState {
    /// Makes a search; an empty query asks for what trends.
    pub fn hub_search(&mut self, query: String) -> (r: HubFetch)
        requires
            old(self).wf(),
            old(self).epoch < u64::MAX,
        ensures
            final(self).wf(),
            (final(self)@, r@) == old(self)@.with_search(query@),
    {
        self.fetched = true;
        self.epoch = self.epoch + 1;
        self.error = None;
        self.loading = Some(notice_for(query.as_str()));
        HubFetch::Search { epoch: self.epoch, query }
    }

    /// Asks for the contents of a repository, unless they are known or on their
    /// way.
    pub fn hub_fetch_listing(&mut self, repo: &str) -> (r: HubFetch)
        requires
            old(self).wf(),
        ensures
            final(self).wf(),
            (final(self)@, r@) == old(self)@.with_listing(repo@),
            final(self).epoch == old(self).epoch,
    {
        let known = self.find_listing(repo).is_some();
        if known || text::list_contains(&self.pending_repos, repo) {
            return HubFetch::Nothing;
        }
        let ghost before = strs(self.pending_repos@);
        self.pending_repos.push(text::copy(repo));
        assert(strs(self.pending_repos@) =~= before.push(repo@));
        self.error = None;
        self.loading = Some(text::cat3("Loading files for ", repo, "…"));
        HubFetch::Listing(text::copy(repo))
    }

    /// Asks for what a folder of the tree still needs.
    pub fn hub_ensure_loaded(&mut self, prefix: &Vec<String>) -> (r: HubFetch)
        requires
            old(self).wf(),
            old(self).epoch < u64::MAX,
        ensures
            final(self).wf(),
            (final(self)@, r@) == old(self)@.ensured(strs(prefix@)),
    {
        if !in_hub_tree(prefix) {
            return HubFetch::Nothing;
        }
        match repo_of(prefix) {
            Some(repo) => self.hub_fetch_listing(repo),
            None => {
                if self.fetched {
                    return HubFetch::Nothing;
                }
                let all = String::new();
                assert(all@ =~= Seq::<char>::empty());
                self.hub_search(all)
            },
        }
    }

    /// Asks for what the preview of a node still needs.
    pub fn hub_prefetch_on_preview(&mut self, selected: &Model) -> (r: HubFetch)
        requires
            old(self).wf(),
            old(self).epoch < u64::MAX,
        ensures
            final(self).wf(),
            (final(self)@, r@) == old(self)@.previewed(selected@),
    {
        let repository = match selected.hub {
            Some(RemoteKind::Repo) => true,
            _ => false,
        };
        assert(strs(selected.catalog_path@).len() == selected.catalog_path@.len());
        if repository {
            if selected.catalog_path.len() > 2 {
                assert(strs(selected.catalog_path@)[2] == selected.catalog_path@[2]@);
                return self.hub_fetch_listing(selected.catalog_path[2].as_str());
            }
            return HubFetch::Nothing;
        }
        if selected.is_catalog_dir() && in_hub_tree(&selected.catalog_path) && !self.fetched {
            let all = String::new();
            assert(all@ =~= Seq::<char>::empty());
            return self.hub_search(all);
        }
        HubFetch::Nothing
    }

    /// Asks anew for what a folder shows.
    pub fn hub_refresh_current(&mut self, prefix: &Vec<String>) -> (r: HubFetch)
        requires
            old(self).wf(),
            old(self).epoch < u64::MAX,
        ensures
            final(self).wf(),
            (final(self)@, r@) == old(self)@.refreshed(strs(prefix@)),
    {
        match repo_of(prefix) {
            Some(repo) => {
                self.drop_listing(repo);
                self.hub_fetch_listing(repo)
            },
            None => {
                let query = self.query.clone();
                self.hub_search(query)
            },
        }
    }
}

// --- answers -----------------------------------------------------------------

/// What an event leads to.
#[derive(Debug)]
pub enum HubChange {
    Nothing,
    /// The tree has changed.
    Tree,
    /// An open search has results.
    Found(Vec<HubModel>),
    /// A file arrived; the local models are to be scanned again.
    Arrived,
}

pub enum ChangeView {
    Nothing,
    Tree,
    Found(Seq<HubModelView>),
    Arrived,
}

impl View for HubChange {
    type V = ChangeView;

    open spec fn view(&self) -> ChangeView {
        match self {
            HubChange::Nothing => ChangeView::Nothing,
            HubChange::Tree => ChangeView::Tree,
            HubChange::Found(v) => ChangeView::Found(model_views(v@)),
            HubChange::Arrived => ChangeView::Arrived,
        }
    }
}

pub enum HubEventView {
    SearchResults(u64, Result<Seq<HubModelView>, Seq<char>>),
    RepoFiles(Seq<char>, Result<RepoView, Seq<char>>),
    DownloadDone(u64, Result<Outcome, Seq<char>>),
}

impl View for HubEvent {
    type V = HubEventView;

    open spec fn view(&self) -> HubEventView {
        match self {
            HubEvent::SearchResults { epoch, result } => HubEventView::SearchResults(
                *epoch,
                match *result {
                    Ok(v) => Ok(model_views(v@)),
                    Err(e) => Err(e@),
                },
            ),
            HubEvent::RepoFiles { repo, result } => HubEventView::RepoFiles(
                repo@,
                match *result {
                    Ok(v) => Ok(v@),
                    Err(e) => Err(e@),
                },
            ),
            HubEvent::DownloadDone { id, result } => HubEventView::DownloadDone(
                *id,
                match *result {
                    Ok(v) => Ok(v),
                    Err(e) => Err(e@),
                },
            ),
        }
    }
}

/// The first `n` texts that are not the given one.
pub open spec fn others(v: Seq<Seq<char>>, s: Seq<char>, n: nat) -> Seq<Seq<char>>
    decreases n,
{
    if n == 0 {
        Seq::<Seq<char>>::empty()
    } else {
        let rest = others(v, s, (n - 1) as nat);
        if v[n - 1] == s {
            rest
        } else {
            rest.push(v[n - 1])
        }
    }
}

/// The first download of a number, from `from` on.
pub open spec fn numbered(downloads: Seq<DownloadView>, id: u64, from: int) -> Option<int>
    decreases downloads.len() - from,
{
    if from < 0 || from >= downloads.len() {
        None
    } else if downloads[from].id == id {
        Some(from)
    } else {
        numbered(downloads, id, from + 1)
    }
}

/// How a download ended.
pub open spec fn end_state(result: Result<Outcome, Seq<char>>) -> DownloadStateView {
    match result {
        Ok(Outcome::Done) => DownloadStateView::Done,
        Ok(Outcome::Cancelled) => DownloadStateView::Cancelled,
        Err(e) => DownloadStateView::Failed(e),
    }
}

impl HubStateView {
    /// What an event leads to. The answer to a search that was followed by another
    /// does not count; results go to a search that is open, else to the folder.
    pub open spec fn after(self, event: HubEventView, search_open: bool) -> (HubStateView, ChangeView) {
        match event {
            HubEventView::SearchResults(epoch, result) => if epoch != self.epoch {
                (self, ChangeView::Nothing)
            } else {
                let s = HubStateView { loading: None, ..self };
                match result {
                    Err(e) => (HubStateView { error: Some(e), ..s }, ChangeView::Nothing),
                    Ok(found) => if search_open {
                        (s, ChangeView::Found(found))
                    } else {
                        (HubStateView { results: found, ..s }, ChangeView::Tree)
                    },
                }
            },
            HubEventView::RepoFiles(repo, result) => {
                let s = HubStateView {
                    pending: others(self.pending, repo, self.pending.len()),
                    loading: None,
                    ..self
                };
                match result {
                    Ok(listing) => (
                        HubStateView { listings: s.listings.insert(repo, listing), ..s },
                        ChangeView::Tree,
                    ),
                    Err(e) => (HubStateView { error: Some(e), ..s }, ChangeView::Nothing),
                }
            },
            HubEventView::DownloadDone(id, result) => match numbered(self.downloads, id, 0) {
                None => (self, ChangeView::Nothing),
                Some(i) => (
                    HubStateView {
                        downloads: self.downloads.update(
                            i,
                            DownloadView { state: end_state(result), ..self.downloads[i] },
                        ),
                        ..self
                    },
                    if result == Ok::<Outcome, Seq<char>>(Outcome::Done) {
                        ChangeView::Arrived
                    } else {
                        ChangeView::Nothing
                    },
                ),
            },
        }
    }
}

fn keep_others(v: &Vec<String>, s: &str) -> (r: Vec<String>)
    ensures
        strs(r@) == others(strs(v@), s@, v@.len()),
{
    let ghost all = strs(v@);
    let mut out: Vec<String> = Vec::new();
    let mut i: usize = 0;
    assert(strs(out@) =~= others(all, s@, 0));
    while i < v.len()
        invariant
            i <= v.len(),
            all == strs(v@),
            strs(out@) == others(all, s@, i as nat),
        decreases v.len() - i,
    {
        assert(all[i as int] == v@[i as int]@);
        if !text::same(v[i].as_str(), s) {
            let ghost before = strs(out@);
            out.push(v[i].clone());
            assert(strs(out@) =~= before.push(all[i as int]));
        }
        i += 1;
    }
    out
}

impl HubState {
    fn find_numbered(&self, id: u64) -> (r: Option<usize>)
        ensures
            match r {
                Some(i) => i < self.downloads@.len() && numbered(self@.downloads, id, 0) == Some(
                    i as int,
                ),
                None => numbered(self@.downloads, id, 0) is None,
            },
    {
        let ghost all = download_views(self.downloads@);
        let mut i: usize = 0;
        while i < self.downloads.len()
            invariant
                i <= self.downloads.len(),
                all == download_views(self.downloads@),
                numbered(all, id, 0) == numbered(all, id, i as int),
            decreases self.downloads.len() - i,
        {
            assert(all[i as int] == self.downloads@[i as int]@);
            if self.downloads[i].id == id {
                return Some(i);
            }
            i += 1;
        }
        None
    }

    /// Takes an event. `search_open` says whether a search of the Hub is open.
    pub fn drain_hub_event(&mut self, event: HubEvent, search_open: bool) -> (r: HubChange)
        requires
            old(self).wf(),
        ensures
            final(self).wf(),
            (final(self)@, r@) == old(self)@.after(event@, search_open),
            final(self).epoch == old(self).epoch,
    {
        match event {
            HubEvent::SearchResults { epoch, result } => {
                if epoch != self.epoch {
                    return HubChange::Nothing;
                }
                self.loading = None;
                match result {
                    Err(e) => {
                        self.error = Some(e);
                        HubChange::Nothing
                    },
                    Ok(found) => {
                        if search_open {
                            return HubChange::Found(found);
                        }
                        self.results = found;
                        HubChange::Tree
                    },
                }
            },
            HubEvent::RepoFiles { repo, result } => {
                assert(strs(self.pending_repos@).len() == self.pending_repos@.len());
                self.pending_repos = keep_others(&self.pending_repos, repo.as_str());
                self.loading = None;
                match result {
                    Ok(listing) => {
                        self.put_listing(repo, listing);
                        HubChange::Tree
                    },
                    Err(e) => {
                        self.error = Some(e);
                        HubChange::Nothing
                    },
                }
            },
            HubEvent::DownloadDone { id, result } => {
                let i = match self.find_numbered(id) {
                    Some(i) => i,
                    None => return HubChange::Nothing,
                };
                let ghost before = download_views(self.downloads@);
                assert(before[i as int] == self.downloads@[i as int]@);
                let arrived = match result {
                    Ok(Outcome::Done) => true,
                    _ => false,
                };
                let state = match result {
                    Ok(Outcome::Done) => DownloadState::Done,
                    Ok(Outcome::Cancelled) => DownloadState::Cancelled,
                    Err(e) => DownloadState::Failed(e),
                };
                let ghost view = state@;
                let d = &mut self.downloads[i];
                d.state = state;
                assert(download_views(self.downloads@) =~= before.update(
                    i as int,
                    DownloadView { state: view, ..before[i as int] },
                ));
                if arrived {
                    HubChange::Arrived
                } else {
                    HubChange::Nothing
                }
            },
        }
    }
}

// --- downloading a file ------------------------------------------------------

/// The downloads of the first `n` that are not of a file.
pub open spec fn other_downloads(v: Seq<DownloadView>, repo: Seq<char>, file: Seq<char>, n: nat) -> Seq<DownloadView>
    decreases n,
{
    if n == 0 {
        Seq::<DownloadView>::empty()
    } else {
        let rest = other_downloads(v, repo, file, (n - 1) as nat);
        if v[n - 1].repo == repo && v[n - 1].file == file {
            rest
        } else {
            rest.push(v[n - 1])
        }
    }
}

impl HubStateView {
    /// The state with a new download of a file in place of any earlier one.
    pub open spec fn downloading(self, repo: Seq<char>, file: FileView) -> HubStateView {
        HubStateView {
            downloads: other_downloads(
                self.downloads,
                repo,
                file.name,
                self.downloads.len(),
            ).push(
                DownloadView {
                    id: self.next_id,
                    repo,
                    file: file.name,
                    total: file.size_bytes as u64,
                    received: 0,
                    cancel: false,
                    state: DownloadStateView::Running,
                },
            ),
            next_id: (self.next_id + 1) as u64,
            ..self
        }
    }

    /// Whether a file is being downloaded.
    pub open spec fn is_downloading(self, repo: Seq<char>, file: Seq<char>) -> bool {
        self.download(repo, file) is Some && self.download(repo, file)->0.state is Running
    }

    /// The state after the download of a file was asked to stop.
    pub open spec fn stopping(self, repo: Seq<char>, file: Seq<char>) -> HubStateView {
        match download_at(self.downloads, repo, file, 0) {
            Some(i) => if self.downloads[i].state is Running {
                HubStateView {
                    downloads: self.downloads.update(
                        i,
                        DownloadView { cancel: true, ..self.downloads[i] },
                    ),
                    ..self
                }
            } else {
                self
            },
            None => self,
        }
    }

    /// The file of a repository under a name.
    pub open spec fn file(self, repo: Seq<char>, name: Seq<char>) -> Option<FileView> {
        if self.listings.dom().contains(repo) {
            file_named(self.listings[repo].files, name, 0)
        } else {
            None
        }
    }
}

/// The first file of a name, from `from` on.
pub open spec fn file_named(files: Seq<FileView>, name: Seq<char>, from: int) -> Option<FileView>
    decreases files.len() - from,
{
    if from < 0 || from >= files.len() {
        None
    } else if files[from].name == name {
        Some(files[from])
    } else {
        file_named(files, name, from + 1)
    }
}

/// The repository and the file that a node stands for.
pub open spec fn artifact_at(s: HubStateView, m: ModelView) -> Option<(Seq<char>, FileView)> {
    if m.is_remote_file() && m.catalog_path.len() > 2 {
        match s.file(m.catalog_path[2], m.catalog_path.last()) {
            Some(f) => Some((m.catalog_path[2], f)),
            None => None,
        }
    } else {
        None
    }
}

/// What entering a file leads to.
#[derive(Debug)]
pub enum Opening {
    /// Nothing, or it is being downloaded already.
    Nothing,
    /// The file is on disk.
    Open,
    /// The download that begins.
    Begin(u64),
}

impl HubState {
    fn find_file(&self, repo: &str, name: &str) -> (r: Option<&HubFile>)
        requires
            self.wf(),
        ensures
            match r {
                Some(f) => self@.file(repo@, name@) == Some(f@),
                None => self@.file(repo@, name@) is None,
            },
    {
        let k = match self.find_listing(repo) {
            Some(k) => k,
            None => return None,
        };
        let files = &self.listings[k].1.files;
        let ghost all = file_views(files@);
        let mut i: usize = 0;
        while i < files.len()
            invariant
                i <= files.len(),
                all == file_views(files@),
                file_named(all, name@, 0) == file_named(all, name@, i as int),
                self@.file(repo@, name@) == file_named(all, name@, 0),
            decreases files.len() - i,
        {
            assert(all[i as int] == files@[i as int]@);
            if text::same(files[i].name.as_str(), name) {
                return Some(&files[i]);
            }
            i += 1;
        }
        None
    }

    /// The repository and the file that a node stands for.
    pub fn hub_selected_artifact(&self, selected: &Model) -> (r: Option<(String, HubFile)>)
        requires
            self.wf(),
        ensures
            match r {
                Some((repo, f)) => artifact_at(self@, selected@) == Some((repo@, f@)),
                None => artifact_at(self@, selected@) is None,
            },
    {
        let path = &selected.catalog_path;
        let n = path.len();
        assert(strs(path@).len() == n);
        if !selected.is_remote_file() || n < 3 {
            return None;
        }
        assert(strs(path@)[2] == path@[2]@);
        assert(strs(path@)[n - 1] == path@[n - 1]@);
        match self.find_file(path[2].as_str(), path[n - 1].as_str()) {
            Some(f) => Some((path[2].clone(), f.clone())),
            None => None,
        }
    }

    fn drop_downloads(&mut self, repo: &str, file: &str)
        requires
            old(self).wf(),
        ensures
            final(self).wf(),
            final(self)@ == (HubStateView {
                downloads: other_downloads(
                    old(self)@.downloads,
                    repo@,
                    file@,
                    old(self)@.downloads.len(),
                ),
                ..old(self)@
            }),
    {
        let ghost all = download_views(self.downloads@);
        let ghost rest = self@;
        let mut left: Vec<Download> = Vec::new();
        let mut kept: Vec<Download> = Vec::new();
        std::mem::swap(&mut self.downloads, &mut left);
        let ghost whole = left@;
        let ghost mut n: nat = 0;
        assert(left@ =~= whole.skip(0));
        assert(download_views(kept@) =~= other_downloads(all, repo@, file@, 0));
        while left.len() > 0
            invariant
                n + left@.len() == whole.len(),
                left@ == whole.skip(n as int),
                all == download_views(whole),
                download_views(kept@) == other_downloads(all, repo@, file@, n),
            decreases left@.len(),
        {
            let d = left.remove(0);
            assert(all[n as int] == d@);
            let same = text::same(d.repo.as_str(), repo) && text::same(d.file.as_str(), file);
            if !same {
                let ghost before = download_views(kept@);
                kept.push(d);
                assert(download_views(kept@) =~= before.push(all[n as int]));
            }
            proof {
                n = n + 1;
            }
            assert(left@ =~= whole.skip(n as int));
        }
        assert(all.len() == whole.len());
        self.downloads = kept;
    }

    /// What entering a file leads to. `on_disk` says whether all of it is there. A
    /// download that ended begins anew.
    pub fn hub_download_or_open(&mut self, repo: &str, file: &HubFile, on_disk: bool) -> (r: Opening)
        requires
            old(self).wf(),
            old(self).next_download_id < u64::MAX,
        ensures
            final(self).wf(),
            ({
                let s = old(self)@;
                if on_disk {
                    r is Open && final(self)@ == s
                } else if s.is_downloading(repo@, file@.name) {
                    r is Nothing && final(self)@ == s
                } else {
                    r == Opening::Begin(s.next_id) && final(self)@ == s.downloading(repo@, file@)
                }
            }),
    {
        if on_disk {
            return Opening::Open;
        }
        if let Some(d) = self.download_for(repo, file.name.as_str()) {
            if d.running() {
                return Opening::Nothing;
            }
        }
        let id = self.next_download_id;
        self.drop_downloads(repo, file.name.as_str());
        let ghost before = download_views(self.downloads@);
        self.next_download_id = id + 1;
        let d = Download {
            id,
            repo: text::copy(repo),
            file: file.name.clone(),
            total: file.size_bytes,
            received: 0,
            cancel: false,
            state: DownloadState::Running,
        };
        let ghost view = d@;
        self.downloads.push(d);
        assert(download_views(self.downloads@) =~= before.push(view));
        Opening::Begin(id)
    }

    /// Asks the download of a file to stop, where it runs.
    pub fn hub_cancel_selected(&mut self, repo: &str, file: &str)
        requires
            old(self).wf(),
        ensures
            final(self).wf(),
            final(self)@ == old(self)@.stopping(repo@, file@),
    {
        let i = match self.find_download(repo, file) {
            Some(i) => i,
            None => return,
        };
        let ghost before = download_views(self.downloads@);
        assert(before[i as int] == self.downloads@[i as int]@);
        if self.downloads[i].running() {
            let d = &mut self.downloads[i];
            d.cancel = true;
            assert(download_views(self.downloads@) =~= before.update(
                i as int,
                DownloadView { cancel: true, ..before[i as int] },
            ));
        }
    }
}

/// Whether all parts are on disk with their sizes.
pub open spec fn all_there(parts: Seq<PartView>, sizes: Seq<Option<u64>>) -> bool {
    forall|i: int| 0 <= i < parts.len() ==> is_there((#[trigger] parts[i]).size, sizes[i])
}

/// Whether a file is on disk, given the size on disk of each of its parts.
pub fn hub_file_downloaded(file: &HubFile, sizes: &Vec<Option<u64>>) -> (r: bool)
    requires
        sizes@.len() == file.parts@.len(),
    ensures
        r == all_there(file@.parts, sizes@),
{
    let ghost all = part_views(file.parts@);
    let mut i: usize = 0;
    while i < file.parts.len()
        invariant
            i <= file.parts.len(),
            sizes@.len() == file.parts@.len(),
            all == part_views(file.parts@),
            all == file@.parts,
            forall|j: int| 0 <= j < i ==> is_there((#[trigger] all[j]).size, sizes@[j]),
        decreases file.parts.len() - i,
    {
        assert(all[i as int] == file.parts@[i as int]@);
        let there = match sizes[i] {
            Some(n) => file.parts[i].size == 0 || n == file.parts[i].size,
            None => false,
        };
        if !there {
            assert(!is_there(all[i as int].size, sizes@[i as int]));
            return false;
        }
        i += 1;
    }
    assert(all.len() == file.parts@.len());
    true
}

/// Whether one of a model's files is at a path.
pub open spec fn stored_at(m: ModelView, p: Seq<char>) -> bool {
    exists|i: int|
        0 <= i < m.shard_paths.len() && path::components(#[trigger] m.shard_paths[i])
            == path::components(p)
}

/// The first model with a file at a path, from `from` on.
pub open spec fn stored_model(models: Seq<ModelView>, p: Seq<char>, from: int) -> Option<Seq<char>>
    decreases models.len() - from,
{
    if from < 0 || from >= models.len() {
        None
    } else if stored_at(models[from], p) {
        Some(models[from].id)
    } else {
        stored_model(models, p, from + 1)
    }
}

fn has_file(m: &Model, p: &str) -> (r: bool)
    ensures
        r == stored_at(m@, p@),
{
    let ghost all = strs(m.shard_paths@);
    let mut i: usize = 0;
    while i < m.shard_paths.len()
        invariant
            i <= m.shard_paths.len(),
            all == strs(m.shard_paths@),
            all == m@.shard_paths,
            forall|j: int|
                0 <= j < i ==> path::components(#[trigger] all[j]) != path::components(p@),
        decreases m.shard_paths.len() - i,
    {
        assert(all[i as int] == m.shard_paths@[i as int]@);
        if path::same(m.shard_paths[i].as_str(), p) {
            assert(path::components(all[i as int]) == path::components(p@));
            return true;
        }
        i += 1;
    }
    assert(all.len() == m.shard_paths@.len());
    false
}

/// The identity of the stored model that has a file at a path: where a downloaded
/// file is found again among the local models.
pub fn downloaded_model(models: &Vec<Model>, p: &str) -> (r: Option<String>)
    ensures
        opt(r) == stored_model(views(models@), p@, 0),
{
    let ghost all = views(models@);
    let mut i: usize = 0;
    while i < models.len()
        invariant
            i <= models.len(),
            all == views(models@),
            stored_model(all, p@, 0) == stored_model(all, p@, i as int),
        decreases models.len() - i,
    {
        assert(all[i as int] == models@[i as int]@);
        if has_file(&models[i], p) {
            return Some(models[i].id.clone());
        }
        i += 1;
    }
    None
}

// --- what is shown -----------------------------------------------------------

/// What a file's row says of its download.
pub open spec fn marker_of(d: DownloadView) -> Seq<char> {
    match d.state {
        DownloadStateView::Running => if d.cancel {
            "cancelling…"@
        } else {
            "⇣ "@ + d.label()
        },
        DownloadStateView::Done => "✓ downloaded"@,
        DownloadStateView::Cancelled => "cancelled — Enter resumes"@,
        DownloadStateView::Failed(e) => "✗ "@ + e,
    }
}

/// What a file's row says: how its download is, or that it is on disk.
pub open spec fn marker(s: HubStateView, m: ModelView, on_disk: bool) -> Option<Seq<char>> {
    if m.catalog_path.len() <= 2 {
        None
    } else {
        let repo = m.catalog_path[2];
        let name = m.catalog_path.last();
        match s.download(repo, name) {
            Some(d) => Some(marker_of(d)),
            None => if s.file(repo, name) is Some && on_disk {
                Some("✓ downloaded"@)
            } else {
                None
            },
        }
    }
}

/// How many of the first `n` downloads run.
pub open spec fn running_upto(v: Seq<DownloadView>, n: nat) -> nat
    decreases n,
{
    if n == 0 {
        0
    } else {
        running_upto(v, (n - 1) as nat) + if v[n - 1].state is Running {
            1nat
        } else {
            0
        }
    }
}

/// The first download that runs, from `from` on.
pub open spec fn first_running(v: Seq<DownloadView>, from: int) -> Option<DownloadView>
    decreases v.len() - from,
{
    if from < 0 || from >= v.len() {
        None
    } else if v[from].state is Running {
        Some(v[from])
    } else {
        first_running(v, from + 1)
    }
}

/// What the header says of work in the background, and whether it is an error.
pub open spec fn activity(s: HubStateView) -> Option<(Seq<char>, bool)> {
    let n = running_upto(s.downloads, s.downloads.len());
    if s.error is Some {
        Some((s.error->0, true))
    } else if s.loading is Some {
        Some((s.loading->0, false))
    } else if n == 0 {
        None
    } else if n == 1 {
        match first_running(s.downloads, 0) {
            Some(d) => Some(("⇣ "@ + d.file + " "@ + d.label(), false)),
            None => None,
        }
    } else {
        Some(("⇣ "@ + number::decimal(n) + " downloads running"@, false))
    }
}

/// The first repository of a name, from `from` on.
pub open spec fn result_named(v: Seq<HubModelView>, id: Seq<char>, from: int) -> Option<HubModelView>
    decreases v.len() - from,
{
    if from < 0 || from >= v.len() {
        None
    } else if v[from].id == id {
        Some(v[from])
    } else {
        result_named(v, id, from + 1)
    }
}

impl HubState {
    /// What a file's row says. `on_disk` says whether all of the file is there.
    pub fn hub_file_marker(&self, selected: &Model, on_disk: bool) -> (r: Option<String>)
        requires
            self.wf(),
        ensures
            opt(r) == marker(self@, selected@, on_disk),
    {
        let path = &selected.catalog_path;
        let n = path.len();
        assert(strs(path@).len() == n);
        if n < 3 {
            return None;
        }
        assert(strs(path@)[2] == path@[2]@);
        assert(strs(path@)[n - 1] == path@[n - 1]@);
        let repo = path[2].as_str();
        let name = path[n - 1].as_str();
        if let Some(d) = self.download_for(repo, name) {
            return Some(
                match &d.state {
                    DownloadState::Running => if d.cancel {
                        text::copy("cancelling…")
                    } else {
                        text::cat("⇣ ", d.progress_label().as_str())
                    },
                    DownloadState::Done => text::copy("✓ downloaded"),
                    DownloadState::Cancelled => text::copy("cancelled — Enter resumes"),
                    DownloadState::Failed(e) => text::cat("✗ ", e.as_str()),
                },
            );
        }
        if self.find_file(repo, name).is_some() && on_disk {
            Some(text::copy("✓ downloaded"))
        } else {
            None
        }
    }

    /// What the header says of work in the background, and whether it is an error.
    pub fn hub_activity(&self) -> (r: Option<(String, bool)>)
        ensures
            match r {
                Some((s, e)) => activity(self@) == Some((s@, e)),
                None => activity(self@) is None,
            },
    {
        if let Some(e) = &self.error {
            return Some((e.clone(), true));
        }
        if let Some(l) = &self.loading {
            return Some((l.clone(), false));
        }
        let ghost all = download_views(self.downloads@);
        let mut count: u64 = 0;
        let mut first: Option<usize> = None;
        let mut i: usize = 0;
        while i < self.downloads.len()
            invariant
                i <= self.downloads.len(),
                all == download_views(self.downloads@),
                count == running_upto(all, i as nat),
                count <= i,
                match first {
                    Some(k) => k < i && first_running(all, 0) == Some(all[k as int]),
                    None => first_running(all, 0) == first_running(all, i as int),
                },
            decreases self.downloads.len() - i,
        {
            assert(all[i as int] == self.downloads@[i as int]@);
            if self.downloads[i].running() {
                count = count + 1;
                if first.is_none() {
                    first = Some(i);
                }
            }
            i += 1;
        }
        assert(all.len() == self.downloads@.len());
        if count == 0 {
            return None;
        }
        if count == 1 {
            return match first {
                Some(k) => {
                    let d = &self.downloads[k];
                    assert(all[k as int] == d@);
                    let mut out = text::cat3("⇣ ", d.file.as_str(), " ");
                    out.append(d.progress_label().as_str());
                    Some((out, false))
                },
                None => None,
            };
        }
        Some((text::cat3("⇣ ", number::nat_text(count).as_str(), " downloads running"), false))
    }

    /// What a search said of the repository that a node stands for.
    pub fn hub_repo_meta(&self, selected: &Model) -> (r: Option<&HubModel>)
        ensures
            match r {
                Some(m) => selected@.catalog_path.len() > 2 && result_named(
                    self@.results,
                    selected@.catalog_path[2],
                    0,
                ) == Some(m@),
                None => selected@.catalog_path.len() > 2 ==> result_named(
                    self@.results,
                    selected@.catalog_path[2],
                    0,
                ) is None,
            },
    {
        let path = &selected.catalog_path;
        assert(strs(path@).len() == path@.len());
        if path.len() < 3 {
            return None;
        }
        assert(strs(path@)[2] == path@[2]@);
        let ghost all = model_views(self.results@);
        let ghost id = path@[2]@;
        let mut i: usize = 0;
        while i < self.results.len()
            invariant
                i <= self.results.len(),
                path@.len() > 2,
                id == path@[2]@,
                id == selected@.catalog_path[2],
                selected@.catalog_path.len() > 2,
                all == self@.results,
                all == model_views(self.results@),
                result_named(all, id, 0) == result_named(all, id, i as int),
            decreases self.results.len() - i,
        {
            assert(all[i as int] == self.results@[i as int]@);
            if text::same(self.results[i].id.as_str(), path[2].as_str()) {
                return Some(&self.results[i]);
            }
            i += 1;
        }
        None
    }
}

/// The title of a folder of the tree: the files of a repository, or models.
pub fn hub_pane_title(prefix: &Vec<String>) -> (r: String)
    ensures
        r@ == (match repo_at(strs(prefix@)) {
            Some(repo) => "Files — "@ + repo,
            None => "Model"@,
        }),
{
    match repo_of(prefix) {
        Some(repo) => text::cat("Files — ", repo),
        None => text::copy("Model"),
    }
}

impl BrowserState {
    /// Whether the browser is in the tree.
    pub fn browsing_hub(&self) -> (r: bool)
        ensures
            r == in_tree(self@.prefix),
    {
        in_hub_tree(&self.catalog_prefix)
    }

    /// Fills the catalog's pane anew and keeps the position.
    pub fn hub_refresh_pane(&mut self, items: Vec<Model>)
        ensures
            final(self)@ == (BrowserView {
                models: ListView {
                    items: views(items@),
                    cursor: nearest(old(self)@.models.cursor, items@.len() as int),
                },
                ..old(self)@
            }),
    {
        let cursor = self.models.state.selected();
        self.models.items = items;
        self.models.select_near(cursor);
    }
}

// --- laws --------------------------------------------------------------------

/// The answer to a search that was followed by another changes nothing.
pub proof fn law_superseded_searches_are_dropped(s: HubStateView, query: Seq<char>, result: Result<Seq<HubModelView>, Seq<char>>, search_open: bool)
    requires
        s.epoch < u64::MAX,
    ensures
        ({
            let now = s.searching(query);
            now.after(HubEventView::SearchResults(s.epoch, result), search_open) == (
                now,
                ChangeView::Nothing,
            )
        }),
{
}

/// The contents of a repository are not asked for while they are known or on their
/// way, so asking twice asks once.
pub proof fn law_listings_are_asked_once(s: HubStateView, repo: Seq<char>)
    ensures
        ({
            let (next, _) = s.with_listing(repo);
            next.with_listing(repo) == (next, FetchView::Nothing)
        }),
{
    if !s.covers(repo) {
        let next = s.listing(repo);
        assert(next.pending.last() == repo);
        assert(next.pending.contains(repo));
    }
}

/// Repositories are folders and files are not; neither can be launched.
pub proof fn law_nodes_are_not_models(repo: Seq<char>, f: FileView)
    ensures
        repo_entry(repo).is_catalog_dir(),
        !repo_entry(repo).is_model(),
        file_entry(repo, f).is_remote_file(),
        !file_entry(repo, f).is_catalog_dir(),
        !file_entry(repo, f).is_model(),
        file_entry(repo, f).display_label() == f.name,
{
    reveal_strlit("");
    assert(file_entry(repo, f).catalog_path.last() == f.name);
}

/// A search is asked under a new number; its answer becomes what the folder of the Hub
/// shows, one folder for each repository and in the same order, or the results of the
/// search that is open. A failed one is told and leaves the folder as it was.
pub proof fn law_searches_are_answered(s: HubStateView, query: Seq<char>, found: Seq<HubModelView>, e: Seq<char>, i: int)
    requires
        s.epoch < u64::MAX,
        0 <= i < found.len(),
    ensures
        ({
            let (asked, fetch) = s.with_search(query);
            let number = (s.epoch + 1) as u64;
            let (shown, change) = asked.after(HubEventView::SearchResults(number, Ok(found)), false);
            let (open, news) = asked.after(HubEventView::SearchResults(number, Ok(found)), true);
            let (failed, nothing) = asked.after(HubEventView::SearchResults(number, Err(e)), false);
            let folder = seq!["online"@, "huggingface"@];
            let rows = tree_children(shown, folder)->0;
            &&& fetch == FetchView::Search(number, query)
            &&& asked.loading is Some && shown.loading is None && failed.loading is None
            &&& change is Tree && tree_children(shown, folder) is Some
            &&& rows.len() == found.len()
            &&& rows[i].catalog_path == folder.push(found[i].id)
            &&& rows[i].hub == Some(RemoteKind::Repo)
            &&& news == ChangeView::Found(found) && open.results == s.results
            &&& failed.error == Some(e) && failed.results == s.results && nothing is Nothing
        }),
{
    let folder = seq!["online"@, "huggingface"@];
    assert(folder[0] == "online"@ && folder.len() == 2);
    assert(folder.push(found[i].id) =~= seq!["online"@, "huggingface"@, found[i].id]);
}

proof fn lemma_others(v: Seq<Seq<char>>, s: Seq<char>, t: Seq<char>, n: nat)
    requires
        n <= v.len(),
    ensures
        !others(v, s, n).contains(s),
        t != s ==> (others(v, s, n).contains(t) <==> v.take(n as int).contains(t)),
    decreases n,
{
    if n > 0 {
        let m = (n - 1) as nat;
        lemma_others(v, s, t, m);
        let rest = others(v, s, m);
        let all = others(v, s, n);
        let some = v.take(n as int);
        assert(some =~= v.take(m as int).push(v[n - 1]));
        if t != s {
            if all.contains(t) && !rest.contains(t) {
                assert(v[n - 1] == t);
                assert(some[n - 1] == t);
            } else if rest.contains(t) {
                let k = choose|k: int| 0 <= k < rest.len() && rest[k] == t;
                assert(all[k] == t);
                let l = choose|l: int| 0 <= l < m && v.take(m as int)[l] == t;
                assert(some[l] == t);
            }
            if some.contains(t) && !v.take(m as int).contains(t) {
                let k = choose|k: int| 0 <= k < some.len() && some[k] == t;
                if k < m {
                    assert(v.take(m as int)[k] == t);
                }
                assert(all.last() == t);
            }
        }
    }
}

/// What a repository holds is asked for once; the answer becomes what its folder shows,
/// one row for each file with its name, size and quantization. A failed one is told and
/// may be asked for again. Nothing changes for another repository.
pub proof fn law_listings_are_answered(s: HubStateView, repo: Seq<char>, listing: RepoView, e: Seq<char>, i: int, other: Seq<char>)
    requires
        !s.listings.dom().contains(repo),
        !s.pending.contains(repo),
        0 <= i < listing.files.len(),
        0 <= listing.files[i].size_bytes <= u64::MAX,
        other != repo,
    ensures
        ({
            let (asked, fetch) = s.with_listing(repo);
            let (shown, change) = asked.after(HubEventView::RepoFiles(repo, Ok(listing)), false);
            let (failed, nothing) = asked.after(HubEventView::RepoFiles(repo, Err(e)), false);
            let folder = seq!["online"@, "huggingface"@, repo];
            let rows = tree_children(shown, folder)->0;
            &&& fetch == FetchView::Listing(repo)
            &&& change is Tree && tree_children(shown, folder) is Some
            &&& rows.len() == listing.files.len()
            &&& rows[i].catalog_path == folder.push(listing.files[i].name)
            &&& rows[i].size_bytes == listing.files[i].size_bytes
            &&& rows[i].quantization == listing.files[i].quant
            &&& rows[i].hub == Some(RemoteKind::File)
            &&& !shown.pending.contains(repo)
            &&& failed.error == Some(e) && nothing is Nothing
            &&& failed.with_listing(repo).1 == FetchView::Listing(repo)
            &&& shown.covers(other) == s.covers(other)
            &&& s.listings.dom().contains(other) ==> shown.listings[other] == s.listings[other]
        }),
{
    let asked = s.listing(repo);
    let (shown, change) = asked.after(HubEventView::RepoFiles(repo, Ok(listing)), false);
    lemma_others(asked.pending, repo, other, asked.pending.len());
    assert(asked.pending.take(asked.pending.len() as int) =~= asked.pending);
    let folder = seq!["online"@, "huggingface"@, repo];
    assert(folder[0] == "online"@ && folder[2] == repo && folder.len() == 3);
    let f = listing.files[i];
    assert(folder.push(f.name) =~= seq!["online"@, "huggingface"@, repo, f.name]);
    assert(shown.listings[repo] == listing);
    assert(tree_children(shown, folder)->0[i] == file_entry(repo, f));
    if s.pending.contains(other) {
        let k = choose|k: int| 0 <= k < s.pending.len() && s.pending[k] == other;
        assert(asked.pending[k] == other);
    }
    if asked.pending.contains(other) {
        let k = choose|k: int| 0 <= k < asked.pending.len() && asked.pending[k] == other;
        assert(s.pending[k] == other);
    }
}

proof fn lemma_file_named(files: Seq<FileView>, from: int, i: int)
    requires
        0 <= from <= i < files.len(),
        forall|k: int| 0 <= k < i ==> (#[trigger] files[k]).name != files[i].name,
    ensures
        file_named(files, files[i].name, from) == Some(files[i]),
    decreases i - from,
{
    if from < i {
        lemma_file_named(files, from + 1, i);
    }
}

/// Each row of a repository leads back to its file.
pub proof fn law_rows_lead_to_their_files(s: HubStateView, repo: Seq<char>, i: int)
    requires
        s.listings.dom().contains(repo),
        0 <= i < s.listings[repo].files.len(),
        forall|k: int|
            0 <= k < i ==> (#[trigger] s.listings[repo].files[k]).name
                != s.listings[repo].files[i].name,
    ensures
        tree_children(s, seq!["online"@, "huggingface"@, repo]) is Some,
        artifact_at(s, tree_children(s, seq!["online"@, "huggingface"@, repo])->0[i]) == Some(
            (repo, s.listings[repo].files[i]),
        ),
{
    let folder = seq!["online"@, "huggingface"@, repo];
    let f = s.listings[repo].files[i];
    assert(folder[0] == "online"@ && folder[2] == repo && folder.len() == 3);
    let row = tree_children(s, folder)->0[i];
    assert(row == file_entry(repo, f));
    assert(row.catalog_path =~= folder.push(f.name));
    law_nodes_are_not_models(repo, f);
    lemma_file_named(s.listings[repo].files, 0, i);
}

proof fn lemma_other_downloads(v: Seq<DownloadView>, repo: Seq<char>, file: Seq<char>, n: nat)
    requires
        n <= v.len(),
    ensures
        forall|k: int|
            0 <= k < other_downloads(v, repo, file, n).len() ==> !({
                let o = #[trigger] other_downloads(v, repo, file, n)[k];
                o.repo == repo && o.file == file
            }) && v.contains(other_downloads(v, repo, file, n)[k]),
    decreases n,
{
    if n > 0 {
        lemma_other_downloads(v, repo, file, (n - 1) as nat);
        assert(v.contains(v[n - 1]));
    }
}

proof fn lemma_download_at(v: Seq<DownloadView>, repo: Seq<char>, file: Seq<char>, from: int, i: int)
    requires
        0 <= from <= i < v.len(),
        v[i].repo == repo && v[i].file == file,
        forall|k: int| 0 <= k < i ==> !((#[trigger] v[k]).repo == repo && v[k].file == file),
    ensures
        download_at(v, repo, file, from) == Some(i),
    decreases i - from,
{
    if from < i {
        lemma_download_at(v, repo, file, from + 1, i);
    }
}

proof fn lemma_numbered(v: Seq<DownloadView>, id: u64, from: int, i: int)
    requires
        0 <= from <= i < v.len(),
        v[i].id == id,
        forall|k: int| 0 <= k < i ==> (#[trigger] v[k]).id != id,
    ensures
        numbered(v, id, from) == Some(i),
    decreases i - from,
{
    if from < i {
        lemma_numbered(v, id, from + 1, i);
    }
}

/// A download runs from nothing under its own number; it ends as its report says, and
/// only a whole file has the models scanned again.
pub proof fn law_downloads_run_and_end(s: HubStateView, repo: Seq<char>, file: FileView, e: Seq<char>)
    requires
        s.next_id < u64::MAX,
        0 <= file.size_bytes <= u64::MAX,
        forall|k: int| 0 <= k < s.downloads.len() ==> (#[trigger] s.downloads[k]).id < s.next_id,
    ensures
        ({
            let now = s.downloading(repo, file);
            let d = now.download(repo, file.name)->0;
            let (done, scan) = now.after(HubEventView::DownloadDone(s.next_id, Ok(Outcome::Done)), false);
            let (stopped, a) = now.after(
                HubEventView::DownloadDone(s.next_id, Ok(Outcome::Cancelled)),
                false,
            );
            let (failed, b) = now.after(HubEventView::DownloadDone(s.next_id, Err(e)), false);
            &&& now.download(repo, file.name) is Some
            &&& d.repo == repo && d.file == file.name && d.id == s.next_id
            &&& d.state is Running && !d.cancel && d.received == 0 && d.total == file.size_bytes
            &&& now.next_id == s.next_id + 1
            &&& done.download(repo, file.name)->0.state is Done && scan is Arrived
            &&& stopped.download(repo, file.name)->0.state is Cancelled && a is Nothing
            &&& failed.download(repo, file.name)->0.state == DownloadStateView::Failed(e)
                && b is Nothing
            &&& now.stopping(repo, file.name).download(repo, file.name)->0.cancel
        }),
{
    let now = s.downloading(repo, file);
    let rest = other_downloads(s.downloads, repo, file.name, s.downloads.len());
    let i = rest.len() as int;
    let d = now.downloads[i];
    lemma_other_downloads(s.downloads, repo, file.name, s.downloads.len());
    assert forall|k: int| 0 <= k < i implies !((#[trigger] now.downloads[k]).repo == repo
        && now.downloads[k].file == file.name) && now.downloads[k].id != s.next_id by {
        assert(now.downloads[k] == rest[k]);
        assert(s.downloads.contains(rest[k]));
        let l = choose|l: int| 0 <= l < s.downloads.len() && s.downloads[l] == rest[k];
        assert(s.downloads[l].id < s.next_id);
    }
    lemma_download_at(now.downloads, repo, file.name, 0, i);
    lemma_numbered(now.downloads, s.next_id, 0, i);
    let done = now.downloads.update(i, DownloadView { state: DownloadStateView::Done, ..d });
    let stopped = now.downloads.update(
        i,
        DownloadView { state: DownloadStateView::Cancelled, ..d },
    );
    let failed = now.downloads.update(
        i,
        DownloadView { state: DownloadStateView::Failed(e), ..d },
    );
    let asked = now.downloads.update(i, DownloadView { cancel: true, ..d });
    lemma_download_at(done, repo, file.name, 0, i);
    lemma_download_at(stopped, repo, file.name, 0, i);
    lemma_download_at(failed, repo, file.name, 0, i);
    lemma_download_at(asked, repo, file.name, 0, i);
}

/// The progress of a download is the part that is there, in per cent: nothing at the
/// start, a hundred at the end.
pub proof fn law_progress_is_in_per_cent(d: DownloadView)
    requires
        d.total > 0,
        d.received <= d.total,
        d.received * 100 <= u64::MAX,
    ensures
        d.percent() * d.total <= d.received * 100 < (d.percent() + 1) * d.total,
        d.received == 0 ==> d.percent() == 0,
        d.received == d.total ==> d.percent() == 100,
{
    let h = d.received * 100;
    let t = d.total as int;
    vstd::arithmetic::div_mod::lemma_fundamental_div_mod(h, t);
    assert(h / t <= 100) by (nonlinear_arith)
        requires
            h <= t * 100,
            t > 0,
    ;
    assert((h / t) * t <= h < (h / t + 1) * t) by (nonlinear_arith)
        requires
            h == t * (h / t) + h % t,
            0 <= h % t < t,
    ;
    if d.received == d.total {
        assert(h / t == 100) by (nonlinear_arith)
            requires
                h == t * 100,
                t > 0,
        ;
    }
}

proof fn lemma_running(v: Seq<DownloadView>, n: nat)
    requires
        n <= v.len(),
    ensures
        running_upto(v, n) == v.take(n as int).filter(|d: DownloadView| d.state is Running).len(),
    decreases n,
{
    reveal(Seq::filter);
    let some = v.take(n as int);
    if n > 0 {
        lemma_running(v, (n - 1) as nat);
        assert(some.drop_last() =~= v.take(n - 1));
    }
}

/// The header tells an error before anything else, then what is being fetched, then how
/// many downloads run.
pub proof fn law_the_header_tells_what_goes_on(s: HubStateView)
    ensures
        s.error is Some ==> activity(s) == Some((s.error->0, true)),
        s.error is None && s.loading is Some ==> activity(s) == Some((s.loading->0, false)),
        ({
            let running = s.downloads.filter(|d: DownloadView| d.state is Running).len();
            &&& s.error is None && s.loading is None && running == 0 ==> activity(s) is None
            &&& s.error is None && s.loading is None && running > 1 ==> activity(s) == Some(
                ("⇣ "@ + number::decimal(running) + " downloads running"@, false),
            )
        }),
{
    lemma_running(s.downloads, s.downloads.len());
    assert(s.downloads.take(s.downloads.len() as int) =~= s.downloads);
}

/// A row says how its file's download stands, or that the file is there.
pub proof fn law_rows_say_how_their_downloads_stand(s: HubStateView, m: ModelView, d: DownloadView)
    requires
        m.catalog_path.len() > 2,
    ensures
        s.download(m.catalog_path[2], m.catalog_path.last()) == Some(d) ==> {
            &&& d.state is Done ==> marker(s, m, false) == Some("✓ downloaded"@)
            &&& d.state is Cancelled ==> marker(s, m, false) == Some("cancelled — Enter resumes"@)
            &&& d.state is Failed ==> marker(s, m, false) == Some("✗ "@ + d.state->Failed_0)
            &&& d.state is Running && d.cancel ==> marker(s, m, false) == Some("cancelling…"@)
            &&& d.state is Running && !d.cancel && d.total > 0 ==> marker(s, m, false) == Some(
                "⇣ "@ + (size_text(d.received as nat) + " / "@ + size_text(d.total as nat) + " ("@
                    + number::decimal(d.percent() as nat) + "%)"@),
            )
        },
        s.download(m.catalog_path[2], m.catalog_path.last()) is None && s.file(
            m.catalog_path[2],
            m.catalog_path.last(),
        ) is Some ==> {
            &&& marker(s, m, true) == Some("✓ downloaded"@)
            &&& marker(s, m, false) is None
        },
{
}

/// A folder asks for what it shows: the Hub for what trends, once; a repository for its
/// files; and a refresh in any case.
pub proof fn law_folders_ask_for_what_they_show(s: HubStateView, repo: Seq<char>, rest: Seq<Seq<char>>)
    requires
        s.epoch < u64::MAX,
    ensures
        !s.fetched ==> s.ensured(seq!["online"@, "huggingface"@]).1 == FetchView::Search(
            (s.epoch + 1) as u64,
            Seq::<char>::empty(),
        ),
        s.fetched ==> s.ensured(seq!["online"@, "huggingface"@]).1 is Nothing,
        !s.covers(repo) ==> s.ensured(seq!["online"@, "huggingface"@, repo] + rest).1
            == FetchView::Listing(repo),
        !s.pending.contains(repo) ==> s.refreshed(seq!["online"@, "huggingface"@, repo] + rest).1
            == FetchView::Listing(repo),
        s.refreshed(seq!["online"@, "huggingface"@]).1 == FetchView::Search(
            (s.epoch + 1) as u64,
            s.query,
        ),
        s.ensured(seq!["local"@] + rest).1 is Nothing,
{
    let hub = seq!["online"@, "huggingface"@];
    assert(hub[0] == "online"@ && hub.len() == 2);
    let inner = seq!["online"@, "huggingface"@, repo] + rest;
    assert(inner[0] == "online"@ && inner[1] == "huggingface"@ && inner[2] == repo);
    reveal_strlit("local");
    reveal_strlit("online");
    assert("local"@.len() == 5 && "online"@.len() == 6);
    assert((seq!["local"@] + rest)[0] == "local"@);
}

proof fn lemma_stored_model(models: Seq<ModelView>, p: Seq<char>, from: int)
    requires
        0 <= from <= models.len(),
    ensures
        stored_model(models, p, from) is Some ==> exists|k: int|
            from <= k < models.len() && stored_at(#[trigger] models[k], p) && stored_model(
                models,
                p,
                from,
            ) == Some(models[k].id),
        stored_model(models, p, from) is None ==> forall|k: int|
            from <= k < models.len() ==> !stored_at(#[trigger] models[k], p),
    decreases models.len() - from,
{
    if from < models.len() {
        lemma_stored_model(models, p, from + 1);
    }
}

/// A downloaded file is found again: where a model has a file at the path, one such
/// model is given.
pub proof fn law_downloaded_files_are_found(models: Seq<ModelView>, p: Seq<char>, i: int, k: int)
    requires
        0 <= i < models.len(),
        0 <= k < models[i].shard_paths.len(),
        models[i].shard_paths[k] == p,
    ensures
        exists|j: int|
            0 <= j < models.len() && stored_at(#[trigger] models[j], p) && stored_model(
                models,
                p,
                0,
            ) == Some(models[j].id),
{
    assert(stored_at(models[i], p));
    lemma_stored_model(models, p, 0);
}

/// The preview of a repository asks for its files, and that of another folder of the
/// tree for what trends, once.
pub proof fn law_previews_ask_for_what_they_show(s: HubStateView, repo: Seq<char>, m: ModelView)
    requires
        s.epoch < u64::MAX,
    ensures
        !s.covers(repo) ==> s.previewed(repo_entry(repo)).1 == FetchView::Listing(repo),
        m.is_catalog_dir() && m.hub is None && in_tree(m.catalog_path) && !s.fetched ==> s.previewed(
            m,
        ).1 == FetchView::Search((s.epoch + 1) as u64, Seq::<char>::empty()),
        m.hub is None && s.fetched ==> s.previewed(m).1 is Nothing,
{
    assert(repo_entry(repo).catalog_path[2] == repo);
}

/// A file is being downloaded from its start on to its end.
pub proof fn law_a_download_is_under_way(s: HubStateView, repo: Seq<char>, file: FileView)
    requires
        s.next_id < u64::MAX,
        0 <= file.size_bytes <= u64::MAX,
        forall|k: int| 0 <= k < s.downloads.len() ==> (#[trigger] s.downloads[k]).id < s.next_id,
    ensures
        ({
            let now = s.downloading(repo, file);
            let done = now.after(HubEventView::DownloadDone(s.next_id, Ok(Outcome::Done)), false).0;
            now.is_downloading(repo, file.name) && !done.is_downloading(repo, file.name)
        }),
{
    law_downloads_run_and_end(s, repo, file, Seq::<char>::empty());
}

/// A split file is there where each of its parts is, with its size.
pub proof fn law_all_parts_must_be_there(parts: Seq<PartView>, sizes: Seq<Option<u64>>, i: int)
    requires
        sizes.len() == parts.len(),
        forall|k: int| 0 <= k < parts.len() ==> (#[trigger] parts[k]).size > 0,
    ensures
        (forall|k: int| 0 <= k < parts.len() ==> sizes[k] == Some((#[trigger] parts[k]).size))
            ==> all_there(parts, sizes),
        0 <= i < parts.len() && sizes[i] != Some(parts[i].size) ==> !all_there(parts, sizes),
{
    if 0 <= i < parts.len() && sizes[i] != Some(parts[i].size) {
        assert(!is_there(parts[i].size, sizes[i]));
    }
}

/// What a search said of a repository is found by its name.
pub proof fn law_repositories_are_found_by_name(v: Seq<HubModelView>, id: Seq<char>, from: int)
    requires
        0 <= from <= v.len(),
    ensures
        match result_named(v, id, from) {
            Some(m) => m.id == id && v.contains(m),
            None => forall|k: int| from <= k < v.len() ==> (#[trigger] v[k]).id != id,
        },
    decreases v.len() - from,
{
    if from < v.len() {
        law_repositories_are_found_by_name(v, id, from + 1);
    }
}

} // verus!
