//! The list of repositories: how it is asked for, kept, and shown as catalog
//! entries.

use vstd::prelude::*;
use crate::discovery::online::artifacts::{
    artifact_sizes_fit, artifacts_fit, artifacts_upto, artifacts_with_cache, facts_of, file_names,
    named_shards, RepositoryDetail,
};
use crate::discovery::online::{
    directory, directory_entry, repository_directory, repository_entry, Repository,
    RepositoryView, HUGGINGFACE, ONLINE,
};
use crate::domain::{views, Model, ModelView};
use crate::text;
use crate::text::{opt, opts, strs};

verus! {

/// How the Hub ranks repositories.
#[derive(Debug, Clone, Copy, PartialEq, Eq, Structural)]
pub enum Sort {
    Trending,
    Popular,
    Downloads,
}

impl Default for Sort {
    fn default() -> (r: Self)
        ensures
            r == Sort::Trending,
    {
        Sort::Trending
    }
}

impl Sort {
    /// The name of the ranking in pane titles.
    pub open spec fn label_spec(self) -> Seq<char> {
        match self {
            Sort::Trending => "Trending"@,
            Sort::Popular => "Most likes"@,
            Sort::Downloads => "Most downloads"@,
        }
    }

    /// The ranking after this one, round and round.
    pub open spec fn next_spec(self) -> Sort {
        match self {
            Sort::Trending => Sort::Popular,
            Sort::Popular => Sort::Downloads,
            Sort::Downloads => Sort::Trending,
        }
    }

    pub fn label(self) -> (r: &'static str)
        ensures
            r@ == self.label_spec(),
    {
        match self {
            Sort::Trending => "Trending",
            Sort::Popular => "Most likes",
            Sort::Downloads => "Most downloads",
        }
    }

    pub fn next(self) -> (r: Self)
        ensures
            r == self.next_spec(),
    {
        match self {
            Sort::Trending => Sort::Popular,
            Sort::Popular => Sort::Downloads,
            Sort::Downloads => Sort::Trending,
        }
    }

    /// The name of the ranking in requests to the Hub.
    pub open spec fn api_spec(self) -> Seq<char> {
        match self {
            Sort::Trending => "trendingScore"@,
            Sort::Popular => "likes"@,
            Sort::Downloads => "downloads"@,
        }
    }

    /// The name of the ranking in requests to the Hub.
    pub fn api_value(self) -> (r: &'static str)
        ensures
            r@ == self.api_spec(),
    {
        match self {
            Sort::Trending => "trendingScore",
            Sort::Popular => "likes",
            Sort::Downloads => "downloads",
        }
    }
}

/// Three steps through the rankings lead back to the first.
pub proof fn law_sort_cycles(s: Sort)
    ensures
        s.next_spec().next_spec().next_spec() == s,
        s.next_spec() != s,
{
}

/// What is asked of the Hub.
#[derive(Debug)]
pub enum Request {
    Repositories(Sort),
    Repository(String),
    Search { query: String, author: Option<String>, sort: Sort },
}

pub enum RequestView {
    Repositories(Sort),
    Repository(Seq<char>),
    Search(Seq<char>, Option<Seq<char>>, Sort),
}

impl View for Request {
    type V = RequestView;

    open spec fn view(&self) -> RequestView {
        match self {
            Request::Repositories(sort) => RequestView::Repositories(*sort),
            Request::Repository(repo) => RequestView::Repository(repo@),
            Request::Search { query, author, sort } => RequestView::Search(
                query@,
                opt(*author),
                *sort,
            ),
        }
    }
}

impl Clone for Request {
    fn clone(&self) -> (r: Self)
        ensures
            r@ == self@,
    {
        match self {
            Request::Repositories(sort) => Request::Repositories(*sort),
            Request::Repository(repo) => Request::Repository(repo.clone()),
            Request::Search { query, author, sort } => Request::Search {
                query: query.clone(),
                author: text::copy_opt(author),
                sort: *sort,
            },
        }
    }
}

fn same_opt(a: &Option<String>, b: &Option<String>) -> (r: bool)
    ensures
        r == (opt(*a) == opt(*b)),
{
    match (a, b) {
        (Some(x), Some(y)) => text::same(x.as_str(), y.as_str()),
        (None, None) => true,
        _ => false,
    }
}

impl Request {
    /// Whether two requests ask the same.
    pub fn same(&self, other: &Request) -> (r: bool)
        ensures
            r == (self@ == other@),
    {
        match (self, other) {
            (Request::Repositories(a), Request::Repositories(b)) => *a == *b,
            (Request::Repository(a), Request::Repository(b)) => text::same(a.as_str(), b.as_str()),
            (
                Request::Search { query: q1, author: a1, sort: s1 },
                Request::Search { query: q2, author: a2, sort: s2 },
            ) => text::same(q1.as_str(), q2.as_str()) && same_opt(a1, a2) && *s1 == *s2,
            _ => false,
        }
    }
}

/// What the Hub answered to a request.
#[derive(Debug)]
pub struct Response {
    /// The layout that was shown when the request was made.
    pub epoch: u64,
    pub request: Request,
    pub result: Result<Vec<Model>, String>,
}

// --- places in the tree ------------------------------------------------------

/// Whether a catalog path lies in the online tree.
pub open spec fn is_online(p: Seq<Seq<char>>) -> bool {
    p.len() > 0 && p[0] == ONLINE@
}

/// The repository that a catalog path leads to.
pub open spec fn repository_at(p: Seq<Seq<char>>) -> Option<Seq<char>> {
    if p.len() > 2 && p[0] == ONLINE@ && p[1] == HUGGINGFACE@ {
        Some(p[2])
    } else {
        None
    }
}

/// What to ask the Hub for when the browser is at a catalog path.
pub open spec fn request_at(p: Seq<Seq<char>>, sort: Sort) -> Option<RequestView> {
    if !is_online(p) {
        None
    } else {
        match repository_at(p) {
            Some(repo) => Some(RequestView::Repository(repo)),
            None => Some(RequestView::Repositories(sort)),
        }
    }
}

/// Whether a catalog path lies in the online tree.
pub fn is_online_path(path: &Vec<String>) -> (r: bool)
    ensures
        r == is_online(strs(path@)),
{
    if path.len() > 0 {
        assert(strs(path@)[0] == path@[0]@);
        text::same(path[0].as_str(), ONLINE)
    } else {
        false
    }
}

/// The repository that a catalog path leads to.
pub fn repository_for_path(path: &Vec<String>) -> (r: Option<String>)
    ensures
        opt(r) == repository_at(strs(path@)),
{
    if path.len() > 2 {
        assert(strs(path@)[0] == path@[0]@);
        assert(strs(path@)[1] == path@[1]@);
        assert(strs(path@)[2] == path@[2]@);
        if text::same(path[0].as_str(), ONLINE) && text::same(path[1].as_str(), HUGGINGFACE) {
            return Some(path[2].clone());
        }
    }
    None
}

/// What to ask the Hub for when the browser is at a catalog path.
pub fn request_for_path(path: &Vec<String>, sort: Sort) -> (r: Option<Request>)
    ensures
        match r {
            Some(q) => request_at(strs(path@), sort) == Some(q@),
            None => request_at(strs(path@), sort) is None,
        },
{
    if !is_online_path(path) {
        return None;
    }
    match repository_for_path(path) {
        Some(repo) => Some(Request::Repository(repo)),
        None => Some(Request::Repositories(sort)),
    }
}

// --- the kept list -----------------------------------------------------------

/// The views of a list of repositories.
pub open spec fn repository_views(v: Seq<Repository>) -> Seq<RepositoryView> {
    v.map_values(|r: Repository| r@)
}

/// Whether a list holds a repository of the id.
pub open spec fn lists(v: Seq<RepositoryView>, id: Seq<char>) -> bool {
    exists|i: int| 0 <= i < v.len() && #[trigger] v[i].id == id
}

/// The fresh repositories, then the first `n` cached ones that are not listed
/// yet.
pub open spec fn merged(fresh: Seq<RepositoryView>, cached: Seq<RepositoryView>, n: nat) -> Seq<
    RepositoryView,
>
    decreases n,
{
    if n == 0 {
        fresh
    } else {
        let rest = merged(fresh, cached, (n - 1) as nat);
        if lists(rest, cached[n - 1].id) {
            rest
        } else {
            rest.push(cached[n - 1])
        }
    }
}

/// The first place of a repository in a list.
fn find_repository(v: &Vec<Repository>, id: &str) -> (r: Option<usize>)
    ensures
        match r {
            Some(i) => i < v.len() && repository_views(v@)[i as int].id == id@ && forall|j: int|
                0 <= j < i ==> #[trigger] repository_views(v@)[j].id != id@,
            None => !lists(repository_views(v@), id@),
        },
{
    let ghost all = repository_views(v@);
    let mut i: usize = 0;
    while i < v.len()
        invariant
            i <= v.len(),
            all == repository_views(v@),
            forall|j: int| 0 <= j < i ==> #[trigger] all[j].id != id@,
        decreases v.len() - i,
    {
        assert(all[i as int] == v@[i as int]@);
        if text::same(v[i].id.as_str(), id) {
            return Some(i);
        }
        i += 1;
    }
    None
}

/// The list to keep after a request: the fresh ranking, then what was cached
/// before and is not in it.
pub fn merge_repositories(fresh: Vec<Repository>, cached: &Vec<Repository>) -> (r: Vec<Repository>)
    ensures
        repository_views(r@) == merged(
            repository_views(fresh@),
            repository_views(cached@),
            cached@.len(),
        ),
{
    let ghost first = repository_views(fresh@);
    let ghost old_list = repository_views(cached@);
    let mut out = fresh;
    let mut i: usize = 0;
    while i < cached.len()
        invariant
            i <= cached.len(),
            old_list == repository_views(cached@),
            repository_views(out@) == merged(first, old_list, i as nat),
        decreases cached.len() - i,
    {
        let ghost before = repository_views(out@);
        assert(old_list[i as int] == cached@[i as int]@);
        if find_repository(&out, cached[i].id.as_str()).is_none() {
            out.push(cached[i].clone());
            assert(repository_views(out@) =~= before.push(old_list[i as int]));
        } else {
            assert(lists(before, old_list[i as int].id));
        }
        i += 1;
    }
    out
}

/// Merging loses nothing: every repository of either list is in the result.
pub proof fn law_merge_keeps_all(fresh: Seq<RepositoryView>, cached: Seq<RepositoryView>, n: nat)
    requires
        n <= cached.len(),
    ensures
        forall|i: int|
            0 <= i < fresh.len() ==> lists(merged(fresh, cached, n), #[trigger] fresh[i].id),
        forall|i: int|
            0 <= i < n ==> lists(merged(fresh, cached, n), #[trigger] cached[i].id),
        fresh.is_prefix_of(merged(fresh, cached, n)),
    decreases n,
{
    if n == 0 {
        assert(fresh =~= fresh.subrange(0, fresh.len() as int));
    } else {
        law_merge_keeps_all(fresh, cached, (n - 1) as nat);
        let rest = merged(fresh, cached, (n - 1) as nat);
        let all = merged(fresh, cached, n);
        assert forall|id: Seq<char>| lists(rest, id) implies lists(all, id) by {
            let k = choose|k: int| 0 <= k < rest.len() && rest[k].id == id;
            assert(all[k].id == id);
        }
        assert(lists(all, cached[n - 1].id)) by {
            if !lists(rest, cached[n - 1].id) {
                assert(all[all.len() - 1].id == cached[n - 1].id);
            }
        }
        assert(fresh =~= all.subrange(0, fresh.len() as int)) by {
            assert(fresh == rest.subrange(0, fresh.len() as int));
        }
    }
}

/// The repository that a selected entry stands for.
pub open spec fn selected_repository(model: ModelView) -> Result<RepositoryView, Seq<char>> {
    match model.remote {
        None => Err("selected model is not a Hub repository"@),
        Some(remote) => if remote.file is Some {
            Err("selected model is a Hub artifact, not a repository"@)
        } else {
            Ok(
                RepositoryView {
                    id: remote.repo,
                    downloads: remote.downloads,
                    likes: remote.likes,
                    sha: remote.revision,
                    gated: remote.gated,
                },
            )
        },
    }
}

/// The repository that a selected entry stands for.
pub fn repository_of(model: &Model) -> (r: Result<Repository, String>)
    ensures
        match r {
            Ok(v) => selected_repository(model@) == Ok::<RepositoryView, Seq<char>>(v@),
            Err(e) => selected_repository(model@) == Err::<RepositoryView, Seq<char>>(e@),
        },
{
    match &model.remote {
        None => Err(text::copy("selected model is not a Hub repository")),
        Some(remote) => if remote.file.is_some() {
            Err(text::copy("selected model is a Hub artifact, not a repository"))
        } else {
            Ok(
                Repository {
                    id: remote.repo.clone(),
                    downloads: remote.downloads,
                    likes: remote.likes,
                    sha: text::copy_opt(&remote.revision),
                    gated: remote.gated,
                },
            )
        },
    }
}

/// The list with a repository in the place of the first of its id, or at its
/// end.
pub open spec fn promoted(list: Seq<RepositoryView>, selected: RepositoryView, from: int) -> Seq<
    RepositoryView,
>
    decreases list.len() - from,
{
    if from < 0 || from >= list.len() {
        list.push(selected)
    } else if list[from].id == selected.id {
        list.update(from, selected)
    } else {
        promoted(list, selected, from + 1)
    }
}

proof fn lemma_promoted(list: Seq<RepositoryView>, selected: RepositoryView, from: int, at: int)
    requires
        0 <= from <= at <= list.len(),
        forall|j: int| from <= j < at ==> #[trigger] list[j].id != selected.id,
        at < list.len() ==> list[at].id == selected.id,
    ensures
        promoted(list, selected, from) == if at < list.len() {
            list.update(at, selected)
        } else {
            list.push(selected)
        },
    decreases at - from,
{
    if from < at {
        assert(list[from].id != selected.id);
        lemma_promoted(list, selected, from + 1, at);
    }
}

/// The list to keep after a search result was picked: with the repository that
/// the picked entry stands for, fresh.
pub fn save_selected_repository(list: Vec<Repository>, model: &Model) -> (r: Result<Vec<Repository>, String>)
    ensures
        match (selected_repository(model@), r) {
            (Ok(v), Ok(l)) => repository_views(l@) == promoted(repository_views(list@), v, 0),
            (Err(e), Err(m)) => m@ == e,
            _ => false,
        },
{
    let selected = match repository_of(model) {
        Ok(v) => v,
        Err(e) => return Err(e),
    };
    let ghost all = repository_views(list@);
    let ghost view = selected@;
    let mut out = list;
    match find_repository(&out, selected.id.as_str()) {
        Some(i) => {
            proof {
                lemma_promoted(all, view, 0, i as int);
            }
            out[i] = selected;
            assert(repository_views(out@) =~= all.update(i as int, view));
        },
        None => {
            proof {
                lemma_promoted(all, view, 0, all.len() as int);
            }
            out.push(selected);
            assert(repository_views(out@) =~= all.push(view));
        },
    }
    Ok(out)
}

// --- the cached catalog ------------------------------------------------------

/// What the managed catalog holds of a repository's files, with where the cache
/// holds each and what the cached drafter's header says.
#[derive(Debug)]
pub struct CachedDetail {
    pub schema: u8,
    pub detail: RepositoryDetail,
    pub cached: Vec<Option<String>>,
    pub block_size: Option<u64>,
}

/// A repository of the kept list, with what is cached of it.
#[derive(Debug)]
pub struct Listed {
    pub repository: Repository,
    pub detail: Option<CachedDetail>,
}

impl CachedDetail {
    /// Whether the cached paths are about the files, and the size of each artifact
    /// fits in 64 bits.
    pub open spec fn fits(self) -> bool {
        self.schema >= 2 ==> self.cached@.len() == self.detail.siblings@.len() && artifacts_fit(
            self.detail@.siblings,
            named_shards(file_names(self.detail@.siblings)),
        )
    }

    /// The artifacts of the repository; none from a layout before the second.
    pub open spec fn entries(self, root: Seq<char>) -> Seq<ModelView> {
        if self.schema >= 2 {
            artifacts_upto(
                root,
                self.detail@,
                facts_of(file_names(self.detail@.siblings), opts(self.cached@), self.block_size),
                self.detail@.siblings.len(),
            )
        } else {
            Seq::<ModelView>::empty()
        }
    }
}

impl Listed {
    /// The repository's directory, then its artifacts.
    pub open spec fn entries(self, root: Seq<char>) -> Seq<ModelView> {
        seq![repository_entry(root, self.repository@)] + match self.detail {
            Some(d) => d.entries(root),
            None => Seq::<ModelView>::empty(),
        }
    }

    /// Whether what is cached fits together.
    pub open spec fn fits(self) -> bool {
        self.detail is Some ==> self.detail->0.fits()
    }
}

/// The place of the Hugging Face folder.
pub open spec fn hub_place() -> Seq<Seq<char>> {
    seq![ONLINE@, HUGGINGFACE@]
}

/// The entries of the online catalog: the folder, which is always there, then
/// each of the first `n` repositories with its artifacts.
pub open spec fn cached_entries(root: Seq<char>, list: Seq<Listed>, n: nat) -> Seq<ModelView>
    decreases n,
{
    if n == 0 {
        seq![directory_entry(hub_place())]
    } else {
        cached_entries(root, list, (n - 1) as nat) + list[n - 1].entries(root)
    }
}

/// The entries of the online catalog.
pub fn load_cached(root: &str, list: Vec<Listed>) -> (r: Vec<Model>)
    requires
        forall|i: int| 0 <= i < list@.len() ==> (#[trigger] list@[i]).fits(),
    ensures
        views(r@) == cached_entries(root@, list@, list@.len()),
{
    let ghost all = list@;
    let mut place: Vec<String> = Vec::new();
    place.push(text::copy(ONLINE));
    place.push(text::copy(HUGGINGFACE));
    assert(strs(place@) =~= hub_place());
    let mut out: Vec<Model> = Vec::new();
    out.push(directory(&place));
    assert(views(out@) =~= seq![directory_entry(hub_place())]);
    let mut rest = list;
    let mut i: usize = 0;
    let n = rest.len();
    while i < n
        invariant
            i <= n,
            n == all.len(),
            rest@ == all.skip(i as int),
            forall|i: int| 0 <= i < all.len() ==> (#[trigger] all[i]).fits(),
            views(out@) == cached_entries(root@, all, i as nat),
        decreases n - i,
    {
        let listed = rest.remove(0);
        assert(listed == all[i as int]);
        assert(rest@ =~= all.skip(i + 1));
        let ghost before = views(out@);
        out.push(repository_directory(root, &listed.repository));
        let ghost head = repository_entry(root@, listed.repository@);
        assert(views(out@) =~= before.push(head));
        let ghost mut tail = Seq::<ModelView>::empty();
        match listed.detail {
            Some(d) => {
                if d.schema >= 2 {
                    let mut found = artifacts_with_cache(root, &d.detail, d.cached, d.block_size);
                    proof {
                        tail = views(found@);
                    }
                    let ghost so_far = views(out@);
                    out.append(&mut found);
                    assert(views(out@) =~= so_far + tail);
                }
            },
            None => {},
        }
        assert(views(out@) =~= before + listed.entries(root@));
        i += 1;
    }
    out
}

/// The entries of the online catalog, where what is cached fits together.
pub fn load_fitting(root: &str, list: Vec<Listed>) -> (r: Option<Vec<Model>>)
    ensures
        match r {
            Some(v) => (forall|i: int| 0 <= i < list@.len() ==> (#[trigger] list@[i]).fits())
                && views(v@) == cached_entries(root@, list@, list@.len()),
            None => exists|i: int| 0 <= i < list@.len() && !(#[trigger] list@[i]).fits(),
        },
{
    let mut i: usize = 0;
    while i < list.len()
        invariant
            i <= list.len(),
            forall|j: int| 0 <= j < i ==> (#[trigger] list@[j]).fits(),
        decreases list.len() - i,
    {
        if let Some(d) = &list[i].detail {
            if d.schema >= 2 && (d.cached.len() != d.detail.siblings.len() || !artifact_sizes_fit(
                &d.detail,
            )) {
                assert(!list@[i as int].fits());
                return None;
            }
        }
        i += 1;
    }
    Some(load_cached(root, list))
}

// --- resetting the layout ----------------------------------------------------

/// Whether a directory is left alone when the layout is reset: the user's
/// profiles, and the records of downloads.
pub fn keeps_directory(depth: usize, name: &str) -> (r: bool)
    ensures
        r == (depth > 0 && (name@ == ".downloads"@ || name@ == "profiles"@)),
{
    depth > 0 && (text::same(name, ".downloads") || text::same(name, "profiles"))
}

/// Whether a file of the managed tree was generated, and goes when the layout is
/// reset.
pub open spec fn is_generated(name: Seq<char>, symlink: bool) -> bool {
    name == ".repositories.json"@ || name == ".repository.json"@ || name == ".llmctl-online.yml"@
        || name == ".repositories.json.tmp"@ || name == ".repository.json.tmp"@ || name
        == ".llmctl-online.yml.tmp"@ || (name == "model.gguf"@ && symlink)
}

/// Whether a file of the managed tree was generated.
pub fn generated_file(name: &str, symlink: bool) -> (r: bool)
    ensures
        r == is_generated(name@, symlink),
{
    text::same(name, ".repositories.json") || text::same(name, ".repository.json") || text::same(
        name,
        ".llmctl-online.yml",
    ) || text::same(name, ".repositories.json.tmp") || text::same(name, ".repository.json.tmp")
        || text::same(name, ".llmctl-online.yml.tmp") || (text::same(name, "model.gguf") && symlink)
}

// --- asking for repositories -------------------------------------------------

/// Where the Hub lists models.
pub const API: &'static str = "https://huggingface.co/api/models";

/// How many repositories are asked for.
pub const REPOSITORY_LIMIT: &'static str = "30";

/// The parameters of a request for repositories: GGUF models for llama.cpp, the
/// best of an order first, narrowed by a search or an author.
pub open spec fn query_for(search: Option<Seq<char>>, author: Option<Seq<char>>, sort: Sort) -> Seq<(Seq<char>, Seq<char>)> {
    seq![
        ("filter"@, "gguf"@),
        ("apps"@, "llama.cpp"@),
        ("sort"@, sort.api_spec()),
        ("direction"@, "-1"@),
        ("limit"@, REPOSITORY_LIMIT@),
    ] + (match search {
        Some(s) => seq![("search"@, s)],
        None => Seq::<(Seq<char>, Seq<char>)>::empty(),
    }) + (match author {
        Some(a) => seq![("author"@, a)],
        None => Seq::<(Seq<char>, Seq<char>)>::empty(),
    })
}

/// The views of parameters.
pub open spec fn pair_views(v: Seq<(String, String)>) -> Seq<(Seq<char>, Seq<char>)> {
    v.map_values(|p: (String, String)| (p.0@, p.1@))
}

fn add_pair(list: &mut Vec<(String, String)>, key: &str, value: &str)
    ensures
        pair_views(final(list)@) == pair_views(old(list)@).push((key@, value@)),
{
    let ghost before = pair_views(list@);
    list.push((text::copy(key), text::copy(value)));
    assert(pair_views(list@) =~= before.push((key@, value@)));
}

/// The parameters of a request for repositories.
pub fn request_repositories(search: &Option<String>, author: &Option<String>, sort: Sort) -> (r: Vec<(String, String)>)
    ensures
        pair_views(r@) == query_for(opt(*search), opt(*author), sort),
{
    let mut out: Vec<(String, String)> = Vec::new();
    assert(pair_views(out@) =~= Seq::<(Seq<char>, Seq<char>)>::empty());
    add_pair(&mut out, "filter", "gguf");
    add_pair(&mut out, "apps", "llama.cpp");
    add_pair(&mut out, "sort", sort.api_value());
    add_pair(&mut out, "direction", "-1");
    add_pair(&mut out, "limit", REPOSITORY_LIMIT);
    if let Some(s) = search {
        add_pair(&mut out, "search", s.as_str());
    }
    if let Some(a) = author {
        add_pair(&mut out, "author", a.as_str());
    }
    assert(pair_views(out@) =~= query_for(opt(*search), opt(*author), sort));
    out
}

/// Where the details of a repository are asked for.
pub fn repository_url(repo: &str) -> (r: String)
    ensures
        r@ == API@ + "/"@ + repo@,
{
    text::cat3(API, "/", repo)
}

/// What the Hub says of who may download, as it spells it.
#[derive(Debug)]
pub enum GatedValue {
    /// Nothing is said.
    Null,
    Flag(bool),
    /// Anything else, such as the name of a way to get access.
    Other,
}

/// Whether a repository is gated: unless the Hub says that it is not, or nothing.
pub fn gated_value(value: &GatedValue) -> (r: bool)
    ensures
        r == (match *value {
            GatedValue::Null => false,
            GatedValue::Flag(b) => b,
            GatedValue::Other => true,
        }),
{
    match value {
        GatedValue::Null => false,
        GatedValue::Flag(b) => *b,
        GatedValue::Other => true,
    }
}

/// The order in which the kept list of repositories was ranked; the usual one
/// where no list is kept.
pub fn cached_sort(kept: Option<Sort>) -> (r: Sort)
    ensures
        r == (match kept {
            Some(s) => s,
            None => Sort::Trending,
        }),
{
    match kept {
        Some(s) => s,
        None => Sort::Trending,
    }
}

// --- what is asked and kept --------------------------------------------------

/// Whether a parameter stands in a request with a value.
pub open spec fn asks(query: Seq<(Seq<char>, Seq<char>)>, name: Seq<char>, value: Seq<char>) -> bool {
    exists|i: int| 0 <= i < query.len() && #[trigger] query[i] == (name, value)
}

/// The Hub is asked for thirty GGUF repositories that llama.cpp can run, the highest of
/// the chosen ranking first, narrowed by what is searched for and by whom.
pub proof fn law_the_hub_is_asked_for_models(search: Option<Seq<char>>, author: Option<Seq<char>>, sort: Sort)
    ensures
        ({
            let q = query_for(search, author, sort);
            &&& asks(q, "filter"@, "gguf"@)
            &&& asks(q, "apps"@, "llama.cpp"@)
            &&& asks(q, "direction"@, "-1"@)
            &&& asks(q, "limit"@, "30"@)
            &&& sort == Sort::Trending ==> asks(q, "sort"@, "trendingScore"@)
            &&& sort == Sort::Popular ==> asks(q, "sort"@, "likes"@)
            &&& sort == Sort::Downloads ==> asks(q, "sort"@, "downloads"@)
            &&& search is Some ==> asks(q, "search"@, search->0)
            &&& author is Some ==> asks(q, "author"@, author->0)
            &&& search is None && author is None ==> q.len() == 5
        }),
{
    let q = query_for(search, author, sort);
    assert(q[0] == ("filter"@, "gguf"@));
    assert(q[1] == ("apps"@, "llama.cpp"@));
    assert(q[2] == ("sort"@, sort.api_spec()));
    assert(q[3] == ("direction"@, "-1"@));
    assert(q[4] == ("limit"@, "30"@));
    if search is Some {
        assert(q[5] == ("search"@, search->0));
    }
    if author is Some {
        assert(q[q.len() - 1] == ("author"@, author->0));
    }
}

/// At a repository the Hub is asked for that repository, elsewhere in the online tree
/// for the ranking, and outside of it for nothing.
pub proof fn law_the_place_says_what_is_asked(repo: Seq<char>, below: Seq<Seq<char>>, sort: Sort)
    ensures
        request_at(seq!["online"@, "huggingface"@, repo] + below, sort) == Some(
            RequestView::Repository(repo),
        ),
        request_at(seq!["online"@, "huggingface"@], sort) == Some(RequestView::Repositories(sort)),
        request_at(seq!["online"@], sort) == Some(RequestView::Repositories(sort)),
        below.len() > 0 && below[0] != "online"@ ==> request_at(below, sort) is None,
{
    let p = seq!["online"@, "huggingface"@, repo] + below;
    assert(p[0] == "online"@ && p[1] == "huggingface"@ && p[2] == repo);
}

/// A picked repository takes the place of what was known of it, or comes last; every
/// other repository stays where it is.
pub proof fn law_a_picked_repository_is_kept(list: Seq<RepositoryView>, selected: RepositoryView, from: int)
    requires
        0 <= from <= list.len(),
    ensures
        promoted(list, selected, from).contains(selected),
        forall|i: int|
            0 <= i < list.len() ==> (#[trigger] promoted(list, selected, from)[i]) == list[i] || (
            list[i].id == selected.id && promoted(list, selected, from)[i] == selected),
        list.len() <= promoted(list, selected, from).len() <= list.len() + 1,
        (exists|i: int| from <= i < list.len() && (#[trigger] list[i]).id == selected.id)
            ==> promoted(list, selected, from).len() == list.len(),
    decreases list.len() - from,
{
    let out = promoted(list, selected, from);
    if from >= list.len() {
        assert(out[list.len() as int] == selected);
    } else if list[from].id == selected.id {
        assert(out[from] == selected);
    } else {
        law_a_picked_repository_is_kept(list, selected, from + 1);
    }
}

/// What stands for a repository leads back to it.
pub proof fn law_entries_lead_back_to_their_repository(root: Seq<char>, repository: RepositoryView)
    ensures
        selected_repository(repository_entry(root, repository)) == Ok::<RepositoryView, Seq<char>>(
            repository,
        ),
        repository_at(repository_entry(root, repository).catalog_path) == Some(repository.id),
{
    assert(repository_entry(root, repository).catalog_path[2] == repository.id);
}

/// What the user made is no generated file: resetting the layout leaves it.
pub proof fn law_only_generated_files_go(name: Seq<char>)
    requires
        is_generated(name, false),
    ensures
        name == ".repositories.json"@ || name == ".repository.json"@ || name
            == ".llmctl-online.yml"@ || name == ".repositories.json.tmp"@ || name
            == ".repository.json.tmp"@ || name == ".llmctl-online.yml.tmp"@,
        name != "model.gguf"@,
{
    reveal_strlit("model.gguf");
    reveal_strlit(".repositories.json");
    reveal_strlit(".repository.json");
    reveal_strlit(".llmctl-online.yml");
    reveal_strlit(".repositories.json.tmp");
    reveal_strlit(".repository.json.tmp");
    reveal_strlit(".llmctl-online.yml.tmp");
    assert("model.gguf"@[0] == 'm');
    assert(name[0] == '.');
}

/// The cached tree has the folder of the Hub first, and in it each repository that is
/// listed.
pub proof fn law_listed_repositories_are_shown(root: Seq<char>, list: Seq<Listed>, n: nat, i: int)
    requires
        n <= list.len(),
    ensures
        cached_entries(root, list, n).len() > 0,
        cached_entries(root, list, n)[0].catalog_path == seq!["online"@, "huggingface"@],
        cached_entries(root, list, n)[0].is_catalog_dir(),
        0 <= i < n ==> cached_entries(root, list, n).contains(
            repository_entry(root, list[i].repository@),
        ),
    decreases n,
{
    reveal_strlit("");
    if n > 0 {
        let m = (n - 1) as nat;
        law_listed_repositories_are_shown(root, list, m, i);
        let rest = cached_entries(root, list, m);
        let all = cached_entries(root, list, n);
        assert(all[0] == rest[0]);
        if 0 <= i < n {
            let own = repository_entry(root, list[i].repository@);
            if i == m {
                assert(list[m as int].entries(root)[0] == own);
                assert(all[rest.len() as int] == own);
            } else {
                let k = choose|k: int| 0 <= k < rest.len() && rest[k] == own;
                assert(all[k] == own);
            }
        }
    }
}

} // verus!
