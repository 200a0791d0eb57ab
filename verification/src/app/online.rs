//! The online catalog as it is browsed: what is asked of the Hub, which answers
//! count, and what becomes of the list of models.

use vstd::prelude::*;
use crate::app::browser::{entry_of, find_entry};
use crate::app::editor::{Message, MessageView};
use crate::app::search::ModelSearch;
use crate::chars;
use crate::discovery::online::catalog::{
    is_online, is_online_path, request_at, request_for_path, Request, RequestView, Response, Sort,
};
use crate::domain::{views, Model, ModelView, RemoteView};
use crate::text;
use crate::text::{opt, strs};

verus! {

// --- the state ---------------------------------------------------------------

/// What is going on with the Hub.
#[derive(Debug)]
pub struct OnlineState {
    /// What is being asked.
    pub pending: Option<Request>,
    /// A query that is to be asked once typing has paused.
    pub search_due: Option<String>,
    pub sort: Sort,
    /// Which layout is shown; answers for another one do not count.
    pub epoch: u64,
    /// Whether the layout is to be read anew once the pending answer is in.
    pub reload_deferred: bool,
    /// Whether the next list of repositories brings the browser to its folder.
    pub restore_models: bool,
    /// The entries that are in the list of models only for an open search.
    pub search_results: Vec<String>,
}

pub struct OnlineView {
    pub pending: Option<RequestView>,
    pub search_due: Option<Seq<char>>,
    pub sort: Sort,
    pub epoch: u64,
    pub reload_deferred: bool,
    pub restore_models: bool,
    pub search_results: Seq<Seq<char>>,
}

/// The view of an optional request.
pub open spec fn opt_request(o: Option<Request>) -> Option<RequestView> {
    match o {
        Some(r) => Some(r@),
        None => None,
    }
}

impl View for OnlineState {
    type V = OnlineView;

    open spec fn view(&self) -> OnlineView {
        OnlineView {
            pending: opt_request(self.pending),
            search_due: opt(self.search_due),
            sort: self.sort,
            epoch: self.epoch,
            reload_deferred: self.reload_deferred,
            restore_models: self.restore_models,
            search_results: strs(self.search_results@),
        }
    }
}

/// The layout after a layout.
pub open spec fn next_epoch(epoch: u64) -> u64 {
    if epoch == u64::MAX {
        0
    } else {
        (epoch + 1) as u64
    }
}

fn advance(epoch: u64) -> (r: u64)
    ensures
        r == next_epoch(epoch),
{
    if epoch == u64::MAX {
        0
    } else {
        epoch + 1
    }
}

// --- the list of models ------------------------------------------------------

/// The first `n` models that are not in the online tree.
pub open spec fn local_upto(models: Seq<ModelView>, n: nat) -> Seq<ModelView>
    decreases n,
{
    if n == 0 {
        Seq::<ModelView>::empty()
    } else {
        let rest = local_upto(models, (n - 1) as nat);
        if is_online(models[n - 1].catalog_path) {
            rest
        } else {
            rest.push(models[n - 1])
        }
    }
}

/// The list with another online tree: the local models, then the new entries.
pub open spec fn with_online(models: Seq<ModelView>, fresh: Seq<ModelView>) -> Seq<ModelView> {
    local_upto(models, models.len()) + fresh
}

/// The first `n` models that are not among the given ones.
pub open spec fn without_upto(models: Seq<ModelView>, ids: Seq<Seq<char>>, n: nat) -> Seq<ModelView>
    decreases n,
{
    if n == 0 {
        Seq::<ModelView>::empty()
    } else {
        let rest = without_upto(models, ids, (n - 1) as nat);
        if ids.contains(models[n - 1].id) {
            rest
        } else {
            rest.push(models[n - 1])
        }
    }
}

/// Whether a list has an entry of an identity.
pub open spec fn has_id(models: Seq<ModelView>, id: Seq<char>) -> bool {
    exists|i: int| 0 <= i < models.len() && (#[trigger] models[i]).id == id
}

/// The list with the first `n` found entries added that it does not have.
pub open spec fn with_found(models: Seq<ModelView>, found: Seq<ModelView>, n: nat) -> Seq<ModelView>
    decreases n,
{
    if n == 0 {
        models
    } else {
        let rest = with_found(models, found, (n - 1) as nat);
        if has_id(rest, found[n - 1].id) {
            rest
        } else {
            rest.push(found[n - 1])
        }
    }
}

/// The identities of the first `n` found entries that were added.
pub open spec fn added_ids(models: Seq<ModelView>, found: Seq<ModelView>, n: nat) -> Seq<Seq<char>>
    decreases n,
{
    if n == 0 {
        Seq::<Seq<char>>::empty()
    } else {
        let rest = added_ids(models, found, (n - 1) as nat);
        if has_id(with_found(models, found, (n - 1) as nat), found[n - 1].id) {
            rest
        } else {
            rest.push(found[n - 1].id)
        }
    }
}

fn contains_id(models: &Vec<Model>, id: &str) -> (r: bool)
    ensures
        r == has_id(views(models@), id@),
{
    let ghost all = views(models@);
    let mut i: usize = 0;
    while i < models.len()
        invariant
            i <= models.len(),
            all == views(models@),
            forall|j: int| 0 <= j < i ==> (#[trigger] all[j]).id != id@,
        decreases models.len() - i,
    {
        assert(all[i as int] == models@[i as int]@);
        if text::same(models[i].id.as_str(), id) {
            assert(all[i as int].id == id@);
            return true;
        }
        i += 1;
    }
    assert(all.len() == models@.len());
    false
}

fn keep_local(models: &Vec<Model>) -> (r: Vec<Model>)
    ensures
        views(r@) == local_upto(views(models@), models@.len()),
{
    let ghost all = views(models@);
    let mut out: Vec<Model> = Vec::new();
    let mut i: usize = 0;
    assert(views(out@) =~= local_upto(all, 0));
    while i < models.len()
        invariant
            i <= models.len(),
            all == views(models@),
            views(out@) == local_upto(all, i as nat),
        decreases models.len() - i,
    {
        let m = &models[i];
        assert(all[i as int] == m@);
        if !is_online_path(&m.catalog_path) {
            let ghost before = views(out@);
            out.push(m.clone());
            assert(views(out@) =~= before.push(m@));
        }
        i += 1;
    }
    out
}

fn keep_others(models: &Vec<Model>, ids: &Vec<String>) -> (r: Vec<Model>)
    ensures
        views(r@) == without_upto(views(models@), strs(ids@), models@.len()),
{
    let ghost all = views(models@);
    let mut out: Vec<Model> = Vec::new();
    let mut i: usize = 0;
    assert(views(out@) =~= without_upto(all, strs(ids@), 0));
    while i < models.len()
        invariant
            i <= models.len(),
            all == views(models@),
            views(out@) == without_upto(all, strs(ids@), i as nat),
        decreases models.len() - i,
    {
        let m = &models[i];
        assert(all[i as int] == m@);
        if !text::list_contains(ids, m.id.as_str()) {
            let ghost before = views(out@);
            out.push(m.clone());
            assert(views(out@) =~= before.push(m@));
        }
        i += 1;
    }
    out
}

/// Puts other entries in place of the online tree.
pub fn replace_online_models(models: &mut Vec<Model>, fresh: &Vec<Model>)
    ensures
        views(final(models)@) == with_online(views(old(models)@), views(fresh@)),
{
    let ghost before = views(models@);
    assert(before.len() == models@.len());
    let mut out = keep_local(models);
    let ghost local = views(out@);
    let ghost more = views(fresh@);
    let mut i: usize = 0;
    assert(views(out@) =~= local + more.take(0));
    while i < fresh.len()
        invariant
            i <= fresh.len(),
            more == views(fresh@),
            views(out@) == local + more.take(i as int),
        decreases fresh.len() - i,
    {
        assert(more[i as int] == fresh@[i as int]@);
        let ghost had = views(out@);
        out.push(fresh[i].clone());
        assert(views(out@) =~= had.push(more[i as int]));
        assert(views(out@) =~= local + more.take(i + 1));
        i += 1;
    }
    assert(more.take(i as int) =~= more);
    *models = out;
}

// --- asking the Hub ----------------------------------------------------------

/// Whether a list holds a repository.
pub open spec fn lists_repository(models: Seq<ModelView>) -> bool {
    exists|i: int|
        0 <= i < models.len() && (#[trigger] models[i]).remote is Some
            && models[i].remote->0.file is None && models[i].remote->0.repo.len() > 0
}

/// Whether an entry is a file of a repository.
pub open spec fn artifact_of(m: ModelView, repo: Seq<char>) -> bool {
    m.remote is Some && m.remote->0.repo == repo && m.remote->0.file is Some
}

/// Whether the files of a repository are known: there are some, and each is either
/// cached or says what it is downloaded from.
pub open spec fn knows_repository(models: Seq<ModelView>, repo: Seq<char>) -> bool {
    &&& exists|i: int| 0 <= i < models.len() && artifact_of(#[trigger] models[i], repo)
    &&& forall|i: int|
        0 <= i < models.len() && artifact_of(#[trigger] models[i], repo) ==> models[i].path.len()
            > 0 || models[i].remote->0.blobs.len() > 0
}

/// Whether the answer to a request is in the catalog already.
pub open spec fn known(models: Seq<ModelView>, request: RequestView) -> bool {
    match request {
        RequestView::Repositories(_) => lists_repository(models),
        RequestView::Repository(repo) => knows_repository(models, repo),
        RequestView::Search(_, _, _) => true,
    }
}

/// What to ask the Hub for at the selected entry, unless it is known; `force` asks
/// in any case. A runtime without the tree of the Hub asks nothing.
pub open spec fn wanted(browses: bool, selected: Option<ModelView>, models: Seq<ModelView>, sort: Sort, force: bool) -> Option<RequestView> {
    if !browses || selected is None {
        None
    } else {
        match request_at(selected->0.catalog_path, sort) {
            Some(q) => if force || !known(models, q) {
                Some(q)
            } else {
                None
            },
            None => None,
        }
    }
}

fn any_repository(models: &Vec<Model>) -> (r: bool)
    ensures
        r == lists_repository(views(models@)),
{
    let ghost all = views(models@);
    let mut i: usize = 0;
    while i < models.len()
        invariant
            i <= models.len(),
            all == views(models@),
            forall|j: int|
                0 <= j < i ==> !((#[trigger] all[j]).remote is Some && all[j].remote->0.file is None
                    && all[j].remote->0.repo.len() > 0),
        decreases models.len() - i,
    {
        assert(all[i as int] == models@[i as int]@);
        if let Some(remote) = &models[i].remote {
            if remote.file.is_none() && !remote.repo.as_str().is_empty() {
                assert(all[i as int].remote is Some);
                return true;
            }
        }
        i += 1;
    }
    assert(all.len() == models@.len());
    false
}

fn is_artifact_of(m: &Model, repo: &str) -> (r: bool)
    ensures
        r == artifact_of(m@, repo@),
{
    match &m.remote {
        Some(remote) => text::same(remote.repo.as_str(), repo) && remote.file.is_some(),
        None => false,
    }
}

fn has_blobs(m: &Model) -> (r: bool)
    requires
        m@.remote is Some,
    ensures
        r == (m@.remote->0.blobs.len() > 0),
{
    match &m.remote {
        Some(remote) => {
            assert(remote@.blobs.len() == remote.blobs@.len());
            remote.blobs.len() > 0
        },
        None => false,
    }
}

fn repository_known(models: &Vec<Model>, repo: &str) -> (r: bool)
    ensures
        r == knows_repository(views(models@), repo@),
{
    let ghost all = views(models@);
    let mut found = false;
    let mut i: usize = 0;
    while i < models.len()
        invariant
            i <= models.len(),
            all == views(models@),
            found == (exists|j: int| 0 <= j < i && artifact_of(#[trigger] all[j], repo@)),
            forall|j: int|
                0 <= j < i && artifact_of(#[trigger] all[j], repo@) ==> all[j].path.len() > 0
                    || all[j].remote->0.blobs.len() > 0,
        decreases models.len() - i,
    {
        let m = &models[i];
        assert(all[i as int] == m@);
        if is_artifact_of(m, repo) {
            assert(artifact_of(all[i as int], repo@));
            if m.path.as_str().is_empty() && !has_blobs(m) {
                return false;
            }
            found = true;
        }
        i += 1;
    }
    assert(all.len() == models@.len());
    found
}

/// Whether the answer to a request is in the catalog already.
pub fn is_known(models: &Vec<Model>, request: &Request) -> (r: bool)
    ensures
        r == known(views(models@), request@),
{
    match request {
        Request::Repositories(_) => any_repository(models),
        Request::Repository(repo) => repository_known(models, repo.as_str()),
        Request::Search { query: _, author: _, sort: _ } => true,
    }
}

/// What to ask the Hub for at the selected entry, unless it is known.
pub fn maybe_fetch_online(browses: bool, selected: Option<&Model>, models: &Vec<Model>, sort: Sort, force: bool) -> (r: Option<Request>)
    ensures
        opt_request(r) == wanted(
            browses,
            match selected {
                Some(m) => Some(m@),
                None => None,
            },
            views(models@),
            sort,
            force,
        ),
{
    if !browses {
        return None;
    }
    match selected {
        None => None,
        Some(m) => match request_for_path(&m.catalog_path, sort) {
            Some(q) => if force || !is_known(models, &q) {
                Some(q)
            } else {
                None
            },
            None => None,
        },
    }
}

// --- answers -----------------------------------------------------------------

/// What an answer of the Hub leads to.
#[derive(Debug)]
pub enum Answer {
    /// It is for another layout.
    Dropped,
    /// It is for another layout, and the layout is now to be read anew.
    Reload,
    /// The open search has new results.
    Found,
    /// The search that it is for is no longer open.
    Ignored,
    /// The online tree is new; the browser goes to its folder, or stays.
    Refreshed { restore: bool },
    Failed(Message),
}

pub enum AnswerView {
    Dropped,
    Reload,
    Found,
    Ignored,
    Refreshed(bool),
    Failed(MessageView),
}

impl View for Answer {
    type V = AnswerView;

    open spec fn view(&self) -> AnswerView {
        match self {
            Answer::Dropped => AnswerView::Dropped,
            Answer::Reload => AnswerView::Reload,
            Answer::Found => AnswerView::Found,
            Answer::Ignored => AnswerView::Ignored,
            Answer::Refreshed { restore } => AnswerView::Refreshed(*restore),
            Answer::Failed(m) => AnswerView::Failed(m@),
        }
    }
}

/// An answer as mathematics sees it.
pub struct ResponseView {
    pub epoch: u64,
    pub request: RequestView,
    pub result: Result<Seq<ModelView>, Seq<char>>,
}

impl View for Response {
    type V = ResponseView;

    open spec fn view(&self) -> ResponseView {
        ResponseView {
            epoch: self.epoch,
            request: self.request@,
            result: match self.result {
                Ok(v) => Ok(views(v@)),
                Err(e) => Err(e@),
            },
        }
    }
}

/// The state, the list of models, and what is to be done.
pub struct Taken {
    pub state: OnlineView,
    pub models: Seq<ModelView>,
    pub answer: AnswerView,
}

/// The query of a search of the Hub that is open.
pub open spec fn open_query(search: Option<&ModelSearch>) -> Option<Seq<char>> {
    match search {
        Some(s) => if s.online {
            Some(s.query@)
        } else {
            None
        },
        None => None,
    }
}

/// The list and the state without what an earlier search added.
pub open spec fn cleared(state: OnlineView, models: Seq<ModelView>) -> (OnlineView, Seq<ModelView>) {
    (
        OnlineView { search_results: Seq::<Seq<char>>::empty(), ..state },
        without_upto(models, state.search_results, models.len()),
    )
}

/// What an answer leads to. One for another layout does not count; an answer to a
/// search counts only while that search is open; an error leaves the list alone.
pub open spec fn taken(state: OnlineView, models: Seq<ModelView>, response: ResponseView, query: Option<Seq<char>>) -> Taken {
    if response.epoch != state.epoch {
        if state.reload_deferred {
            Taken {
                state: OnlineView { pending: None, reload_deferred: false, ..state },
                models,
                answer: AnswerView::Reload,
            }
        } else {
            Taken { state, models, answer: AnswerView::Dropped }
        }
    } else {
        let settled = if state.pending == Some(response.request) {
            OnlineView { pending: None, ..state }
        } else {
            state
        };
        match response.result {
            Err(e) => Taken {
                state: OnlineView { restore_models: false, ..settled },
                models,
                answer: AnswerView::Failed(
                    MessageView {
                        title: "Hugging Face unavailable"@,
                        lines: seq![e, "Cached entries remain available."@],
                    },
                ),
            },
            Ok(found) => match response.request {
                RequestView::Search(q, _, _) => if query == Some(q) {
                    let (s, rest) = cleared(settled, models);
                    Taken {
                        state: OnlineView { search_results: added_ids(rest, found, found.len()), ..s },
                        models: with_found(rest, found, found.len()),
                        answer: AnswerView::Found,
                    }
                } else {
                    Taken { state: settled, models, answer: AnswerView::Ignored }
                },
                _ => Taken {
                    state: OnlineView { restore_models: false, ..settled },
                    models: with_online(models, found),
                    answer: AnswerView::Refreshed(state.restore_models),
                },
            },
        }
    }
}

impl OnlineState {
    /// A state in which nothing is asked.
    pub fn new(sort: Sort) -> (r: OnlineState)
        ensures
            r@ == (OnlineView {
                pending: None,
                search_due: None,
                sort,
                epoch: 0,
                reload_deferred: false,
                restore_models: false,
                search_results: Seq::<Seq<char>>::empty(),
            }),
    {
        let search_results: Vec<String> = Vec::new();
        assert(strs(search_results@) =~= Seq::<Seq<char>>::empty());
        OnlineState {
            pending: None,
            search_due: None,
            sort,
            epoch: 0,
            reload_deferred: false,
            restore_models: false,
            search_results,
        }
    }

    /// Whether a request may go out: one at a time. Where it may, it is pending.
    pub fn fetch_online(&mut self, request: &Request) -> (r: bool)
        ensures
            r == (old(self)@.pending is None),
            final(self)@ == (if r {
                OnlineView { pending: Some(request@), ..old(self)@ }
            } else {
                old(self)@
            }),
    {
        if self.pending.is_some() {
            return false;
        }
        self.pending = Some(request.clone());
        true
    }

    /// The search that is to be asked now: a query waits until typing has paused
    /// and nothing else is asked, and an empty one is dropped.
    pub fn poll_online_search(&mut self, paused: bool) -> (r: Option<Request>)
        ensures
            ({
                let s = old(self)@;
                let goes = s.search_due is Some && paused && s.pending is None;
                &&& opt_request(r) == (if goes && chars::trimmed(s.search_due->0).len() > 0 {
                    Some(RequestView::Search(s.search_due->0, None, s.sort))
                } else {
                    None
                })
                &&& final(self)@ == (if goes {
                    OnlineView { search_due: None, pending: opt_request(r), ..s }
                } else {
                    s
                })
            }),
    {
        if !paused || self.pending.is_some() {
            return None;
        }
        let query = match self.search_due.take() {
            Some(q) => q,
            None => return None,
        };
        if text::length(chars::trim(query.as_str()).as_str()) == 0 {
            return None;
        }
        let request = Request::Search { query, author: None, sort: self.sort };
        let _free = self.fetch_online(&request);
        Some(request)
    }

    /// Takes out of the list what an earlier search added.
    pub fn clear_online_search_results(&mut self, models: &mut Vec<Model>)
        ensures
            final(self)@ == cleared(old(self)@, views(old(models)@)).0,
            views(final(models)@) == cleared(old(self)@, views(old(models)@)).1,
    {
        let ghost before = self@;
        let ghost all = views(models@);
        assert(all.len() == models@.len());
        if self.search_results.len() == 0 {
            proof {
                assert(strs(self.search_results@) =~= Seq::<Seq<char>>::empty());
                lemma_without_nothing(all, Seq::<Seq<char>>::empty(), all.len());
            }
            return;
        }
        *models = keep_others(models, &self.search_results);
        self.search_results = Vec::new();
        assert(strs(self.search_results@) =~= Seq::<Seq<char>>::empty());
    }

    /// Puts the results of a search in place of those of an earlier one; entries
    /// that the list has already stay as they are.
    pub fn replace_online_search_results(&mut self, models: &mut Vec<Model>, found: &Vec<Model>)
        ensures
            ({
                let (s, rest) = cleared(old(self)@, views(old(models)@));
                &&& final(self)@ == (OnlineView {
                    search_results: added_ids(rest, views(found@), found@.len()),
                    ..s
                })
                &&& views(final(models)@) == with_found(rest, views(found@), found@.len())
            }),
    {
        self.clear_online_search_results(models);
        let ghost s = self@;
        let ghost rest = views(models@);
        let ghost more = views(found@);
        let mut i: usize = 0;
        assert(strs(self.search_results@) =~= added_ids(rest, more, 0));
        while i < found.len()
            invariant
                i <= found.len(),
                more == views(found@),
                s.search_results.len() == 0,
                self@ == (OnlineView { search_results: added_ids(rest, more, i as nat), ..s }),
                views(models@) == with_found(rest, more, i as nat),
            decreases found.len() - i,
        {
            let m = &found[i];
            assert(more[i as int] == m@);
            if !contains_id(models, m.id.as_str()) {
                let ghost ids = strs(self.search_results@);
                let ghost had = views(models@);
                self.search_results.push(m.id.clone());
                models.push(m.clone());
                assert(strs(self.search_results@) =~= ids.push(m@.id));
                assert(views(models@) =~= had.push(m@));
            }
            i += 1;
        }
    }

    /// Takes an answer of the Hub. `search` is the search that is open.
    pub fn poll_online(&mut self, response: Response, models: &mut Vec<Model>, search: Option<&ModelSearch>) -> (r: Answer)
        ensures
            ({
                let t = taken(old(self)@, views(old(models)@), response@, open_query(search));
                &&& final(self)@ == t.state
                &&& views(final(models)@) == t.models
                &&& r@ == t.answer
            }),
    {
        if response.epoch != self.epoch {
            if self.reload_deferred {
                self.pending = None;
                self.reload_deferred = false;
                return Answer::Reload;
            }
            return Answer::Dropped;
        }
        let restore = self.restore_models;
        let settled = match &self.pending {
            Some(p) => p.same(&response.request),
            None => false,
        };
        if settled {
            self.pending = None;
        }
        let Response { epoch: _, request, result } = response;
        match result {
            Err(error) => {
                self.restore_models = false;
                Answer::Failed(
                    Message::two_lines(
                        "Hugging Face unavailable",
                        error.as_str(),
                        "Cached entries remain available.",
                    ),
                )
            },
            Ok(found) => {
                assert(views(found@).len() == found@.len());
                if let Request::Search { query, author: _, sort: _ } = &request {
                    let current = match search {
                        Some(s) => s.online && text::same(s.query.as_str(), query.as_str()),
                        None => false,
                    };
                    if !current {
                        return Answer::Ignored;
                    }
                    self.replace_online_search_results(models, &found);
                    return Answer::Found;
                }
                replace_online_models(models, &found);
                self.restore_models = false;
                Answer::Refreshed { restore }
            },
        }
    }

    /// Asks for the layout to be read anew, in the current order. Where something
    /// is pending, its answer is awaited first and does not count. Gives whether
    /// the reading can begin.
    pub fn reload_online_layout(&mut self, models: &mut Vec<Model>) -> (r: bool)
        ensures
            ({
                let (s, rest) = cleared(old(self)@, views(old(models)@));
                let quiet = OnlineView { search_due: None, ..s };
                &&& r == (old(self)@.pending is None)
                &&& views(final(models)@) == rest
                &&& final(self)@ == (if r {
                    quiet
                } else {
                    OnlineView { epoch: next_epoch(quiet.epoch), reload_deferred: true, ..quiet }
                })
            }),
    {
        self.search_due = None;
        self.clear_online_search_results(models);
        if self.pending.is_some() {
            self.epoch = advance(self.epoch);
            self.reload_deferred = true;
            return false;
        }
        true
    }

    /// Begins to read the layout anew, once the old one was removed from disk:
    /// answers for the old one no longer count, the cached entries take its place,
    /// and the list of repositories is asked for. Where the old one could not be
    /// removed, nothing is asked.
    pub fn perform_online_reload(&mut self, models: &mut Vec<Model>, removed: bool, cached: &Vec<Model>) -> (r: Option<Request>)
        ensures
            ({
                let s = OnlineView {
                    epoch: next_epoch(old(self)@.epoch),
                    pending: None,
                    ..old(self)@
                };
                if removed {
                    &&& opt_request(r) == Some(RequestView::Repositories(old(self)@.sort))
                    &&& final(self)@ == (OnlineView {
                        restore_models: true,
                        pending: opt_request(r),
                        ..s
                    })
                    &&& views(final(models)@) == with_online(views(old(models)@), views(cached@))
                } else {
                    &&& r is None
                    &&& final(self)@ == s
                    &&& views(final(models)@) == views(old(models)@)
                }
            }),
    {
        self.epoch = advance(self.epoch);
        self.pending = None;
        if !removed {
            return None;
        }
        replace_online_models(models, cached);
        self.restore_models = true;
        let request = Request::Repositories(self.sort);
        let _free = self.fetch_online(&request);
        Some(request)
    }

    /// Goes to the next order of the repositories.
    pub fn cycle_online_sort(&mut self)
        ensures
            final(self)@ == (OnlineView { sort: old(self)@.sort.next_spec(), ..old(self)@ }),
    {
        self.sort = self.sort.next();
    }
}

// --- models that a session downloaded ----------------------------------------

/// Whether an entry of the Hub is not complete on disk.
pub open spec fn incomplete(m: ModelView) -> bool {
    m.remote is Some && m.remote->0.file is Some && (m.path.len() == 0 || (
    m.remote->0.mtp_file is Some && m.mtp_path is None) || (m.remote->0.projector_file is Some
        && m.projector_path is None))
}

/// Whether an entry has a part on disk that it did not have before.
pub open spec fn gained(before: ModelView, now: ModelView) -> bool {
    (before.path.len() == 0 && now.path.len() > 0) || (before.mtp_path is None
        && now.mtp_path is Some) || (before.projector_path is None && now.projector_path is Some)
}

/// Whether one of the entries of an online tree has a part on disk that it did not
/// have in the list.
pub open spec fn any_gained(models: Seq<ModelView>, fresh: Seq<ModelView>) -> bool {
    exists|i: int|
        0 <= i < fresh.len() && entry_of(models, (#[trigger] fresh[i]).id, 0) is Some && gained(
            models[entry_of(models, fresh[i].id, 0)->0],
            fresh[i],
        )
}

/// Whether an entry of the Hub in a list is not complete on disk.
pub open spec fn any_incomplete(models: Seq<ModelView>) -> bool {
    exists|i: int| 0 <= i < models.len() && incomplete(#[trigger] models[i])
}

/// Whether the cache is worth reading again: a session loads from the Hub, and an
/// entry of the Hub is not complete on disk.
pub fn may_have_gained(remote_session: bool, models: &Vec<Model>) -> (r: bool)
    ensures
        r == (remote_session && any_incomplete(views(models@))),
{
    if !remote_session {
        return false;
    }
    let ghost all = views(models@);
    let mut i: usize = 0;
    while i < models.len()
        invariant
            i <= models.len(),
            remote_session,
            all == views(models@),
            forall|j: int| 0 <= j < i ==> !incomplete(#[trigger] all[j]),
        decreases models.len() - i,
    {
        let m = &models[i];
        assert(all[i as int] == m@);
        if let Some(remote) = &m.remote {
            if remote.file.is_some() && (m.path.as_str().is_empty() || (remote.mtp_file.is_some()
                && m.mtp_path.is_none()) || (remote.projector_file.is_some()
                && m.projector_path.is_none())) {
                assert(incomplete(all[i as int]));
                return true;
            }
        }
        i += 1;
    }
    assert(all.len() == models@.len());
    false
}

/// Takes a fresh reading of the cache into the list where it shows something new
/// on disk. Gives whether it does.
pub fn reconcile_downloaded_online_models(models: &mut Vec<Model>, fresh: &Vec<Model>) -> (r: bool)
    ensures
        r == any_gained(views(old(models)@), views(fresh@)),
        views(final(models)@) == (if r {
            with_online(views(old(models)@), views(fresh@))
        } else {
            views(old(models)@)
        }),
{
    let ghost all = views(models@);
    let ghost more = views(fresh@);
    let mut i: usize = 0;
    while i < fresh.len()
        invariant
            i <= fresh.len(),
            all == views(models@),
            more == views(fresh@),
            *models == *old(models),
            forall|j: int|
                0 <= j < i ==> !(entry_of(all, (#[trigger] more[j]).id, 0) is Some && gained(
                    all[entry_of(all, more[j].id, 0)->0],
                    more[j],
                )),
        decreases fresh.len() - i,
    {
        let now = &fresh[i];
        assert(more[i as int] == now@);
        if let Some(k) = find_entry(models, now.id.as_str()) {
            let before = &models[k];
            assert(all[k as int] == before@);
            if (before.path.as_str().is_empty() && !now.path.as_str().is_empty()) || (
            before.mtp_path.is_none() && now.mtp_path.is_some()) || (before.projector_path.is_none()
                && now.projector_path.is_some()) {
                assert(gained(all[k as int], more[i as int]));
                replace_online_models(models, fresh);
                return true;
            }
        }
        i += 1;
    }
    assert(more.len() == fresh@.len());
    false
}

// --- laws --------------------------------------------------------------------

/// An answer for another layout never changes the list of models.
pub proof fn law_stale_answers_change_no_list(state: OnlineView, models: Seq<ModelView>, response: ResponseView, query: Option<Seq<char>>)
    requires
        response.epoch != state.epoch,
    ensures
        taken(state, models, response, query).models == models,
        taken(state, models, response, query).answer is Dropped || taken(
            state,
            models,
            response,
            query,
        ).answer is Reload,
{
}

/// An error leaves every entry where it is, and says so.
pub proof fn law_errors_keep_cached_entries(state: OnlineView, models: Seq<ModelView>, response: ResponseView, query: Option<Seq<char>>)
    requires
        response.epoch == state.epoch,
        response.result is Err,
    ensures
        taken(state, models, response, query).models == models,
        taken(state, models, response, query).answer is Failed,
{
}

proof fn lemma_without_nothing(models: Seq<ModelView>, ids: Seq<Seq<char>>, n: nat)
    requires
        n <= models.len(),
        ids.len() == 0,
    ensures
        without_upto(models, ids, n) == models.take(n as int),
        n == models.len() ==> without_upto(models, ids, n) == models,
    decreases n,
{
    if n == 0 {
        assert(without_upto(models, ids, n) =~= models.take(0));
    } else {
        lemma_without_nothing(models, ids, (n - 1) as nat);
        assert(models.take(n - 1).push(models[n - 1]) =~= models.take(n as int));
    }
    assert(models.take(models.len() as int) =~= models);
}

proof fn lemma_without_from(models: Seq<ModelView>, more: Seq<ModelView>, ids: Seq<Seq<char>>, n: nat)
    requires
        n <= models.len(),
        models.is_prefix_of(more),
        forall|i: int| 0 <= i < n ==> !ids.contains((#[trigger] models[i]).id),
    ensures
        without_upto(more, ids, n) == models.take(n as int),
    decreases n,
{
    if n == 0 {
        assert(without_upto(more, ids, n) =~= models.take(0));
    } else {
        lemma_without_from(models, more, ids, (n - 1) as nat);
        assert(models[n - 1] == more[n - 1]);
        assert(models.take(n - 1).push(models[n - 1]) =~= models.take(n as int));
    }
}

proof fn lemma_found(models: Seq<ModelView>, found: Seq<ModelView>, n: nat)
    requires
        n <= found.len(),
    ensures
        models.is_prefix_of(with_found(models, found, n)),
        with_found(models, found, n).len() == models.len() + added_ids(models, found, n).len(),
        forall|k: int|
            0 <= k < added_ids(models, found, n).len() ==> with_found(
                models,
                found,
                n,
            )[models.len() + k].id == #[trigger] added_ids(models, found, n)[k],
        forall|k: int|
            0 <= k < added_ids(models, found, n).len() ==> !has_id(
                models,
                #[trigger] added_ids(models, found, n)[k],
            ),
    decreases n,
{
    if n > 0 {
        let m = (n - 1) as nat;
        lemma_found(models, found, m);
        let rest = with_found(models, found, m);
        let id = found[n - 1].id;
        if !has_id(rest, id) {
            assert forall|i: int| 0 <= i < models.len() implies (#[trigger] models[i]).id != id by {
                assert(rest[i] == models[i]);
            }
        }
    }
}

/// Taking the results of a search out of the list gives back the list from before
/// the search.
pub proof fn law_clearing_undoes_a_search(models: Seq<ModelView>, found: Seq<ModelView>)
    ensures
        ({
            let more = with_found(models, found, found.len());
            without_upto(more, added_ids(models, found, found.len()), more.len()) == models
        }),
{
    let more = with_found(models, found, found.len());
    let ids = added_ids(models, found, found.len());
    lemma_found(models, found, found.len());
    assert forall|i: int| 0 <= i < models.len() implies !ids.contains((#[trigger] models[i]).id) by {
        if ids.contains(models[i].id) {
            let k = choose|k: int| 0 <= k < ids.len() && ids[k] == models[i].id;
            assert(has_id(models, ids[k]));
        }
    }
    lemma_without_from(models, more, ids, models.len());
    assert(models.take(models.len() as int) =~= models);
    assert forall|i: int| models.len() <= i < more.len() implies ids.contains(
        (#[trigger] more[i]).id,
    ) by {
        let k = i - models.len();
        assert(more[models.len() + k].id == ids[k]);
    }
    lemma_without_rest(models, more, ids, more.len());
}

proof fn lemma_without_rest(models: Seq<ModelView>, more: Seq<ModelView>, ids: Seq<Seq<char>>, n: nat)
    requires
        models.len() <= n <= more.len(),
        without_upto(more, ids, models.len()) == models,
        forall|i: int| models.len() <= i < more.len() ==> ids.contains((#[trigger] more[i]).id),
    ensures
        without_upto(more, ids, n) == models,
    decreases n,
{
    if n > models.len() {
        lemma_without_rest(models, more, ids, (n - 1) as nat);
        assert(ids.contains(more[n - 1].id));
    }
}

/// Local models are never touched by the online tree.
pub proof fn law_local_models_stay(models: Seq<ModelView>, fresh: Seq<ModelView>, i: int)
    requires
        0 <= i < models.len(),
        !is_online(models[i].catalog_path),
    ensures
        with_online(models, fresh).contains(models[i]),
{
    lemma_local_has(models, models.len(), i);
    let local = local_upto(models, models.len());
    let k = choose|k: int| 0 <= k < local.len() && local[k] == models[i];
    assert(with_online(models, fresh)[k] == models[i]);
}

proof fn lemma_local_has(models: Seq<ModelView>, n: nat, i: int)
    requires
        n <= models.len(),
        0 <= i < n,
        !is_online(models[i].catalog_path),
    ensures
        local_upto(models, n).contains(models[i]),
    decreases n,
{
    let all = local_upto(models, n);
    if i == n - 1 {
        assert(all.last() == models[i]);
    } else {
        lemma_local_has(models, (n - 1) as nat, i);
        let rest = local_upto(models, (n - 1) as nat);
        let k = choose|k: int| 0 <= k < rest.len() && rest[k] == models[i];
        assert(all[k] == models[i]);
    }
}

proof fn lemma_local_is_local(models: Seq<ModelView>, n: nat)
    requires
        n <= models.len(),
    ensures
        forall|k: int|
            0 <= k < local_upto(models, n).len() ==> !is_online(
                (#[trigger] local_upto(models, n)[k]).catalog_path,
            ),
    decreases n,
{
    if n > 0 {
        lemma_local_is_local(models, (n - 1) as nat);
    }
}

/// A new online tree takes the place of the old one: all of its entries are there, and
/// whatever is online is one of them.
pub proof fn law_the_online_tree_is_replaced(models: Seq<ModelView>, fresh: Seq<ModelView>, i: int)
    ensures
        0 <= i < fresh.len() ==> with_online(models, fresh).contains(fresh[i]),
        0 <= i < with_online(models, fresh).len() && is_online(
            with_online(models, fresh)[i].catalog_path,
        ) ==> fresh.contains(with_online(models, fresh)[i]),
{
    lemma_local_is_local(models, models.len());
    let local = local_upto(models, models.len());
    let all = with_online(models, fresh);
    if 0 <= i < fresh.len() {
        assert(all[local.len() + i] == fresh[i]);
    }
    if 0 <= i < all.len() && is_online(all[i].catalog_path) {
        if i < local.len() {
            assert(all[i] == local[i]);
        } else {
            assert(all[i] == fresh[i - local.len()]);
        }
    }
}

/// An answer in time is taken: a list of repositories or of files becomes the online
/// tree, and the results of the open search are added to the list.
pub proof fn law_answers_in_time_are_taken(state: OnlineView, models: Seq<ModelView>, found: Seq<ModelView>, request: RequestView, query: Seq<char>)
    ensures
        ({
            let response = ResponseView { epoch: state.epoch, request, result: Ok(found) };
            let t = taken(state, models, response, Some(query));
            &&& !(request is Search) ==> t.answer is Refreshed && t.models == with_online(
                models,
                found,
            )
            &&& state.pending == Some(request) ==> t.state.pending is None
            &&& request is Search && request->Search_0 == query ==> t.answer is Found
            &&& request is Search && request->Search_0 != query ==> t.answer is Ignored
                && t.models == models
        }),
{
}

proof fn lemma_with_found(models: Seq<ModelView>, found: Seq<ModelView>, n: nat)
    requires
        n <= found.len(),
    ensures
        models.is_prefix_of(with_found(models, found, n)),
        forall|i: int| 0 <= i < n ==> has_id(with_found(models, found, n), (#[trigger] found[i]).id),
    decreases n,
{
    if n > 0 {
        let m = (n - 1) as nat;
        lemma_with_found(models, found, m);
        let rest = with_found(models, found, m);
        let all = with_found(models, found, n);
        if !has_id(rest, found[n - 1].id) {
            assert(all[rest.len() as int].id == found[n - 1].id);
            assert(all.take(models.len() as int) =~= models);
        }
        assert forall|i: int| 0 <= i < n implies has_id(all, (#[trigger] found[i]).id) by {
            if i < m {
                let k = choose|k: int| 0 <= k < rest.len() && (#[trigger] rest[k]).id == found[i].id;
                assert(all[k] == rest[k]);
            }
        }
    } else {
        assert(models.take(models.len() as int) =~= models);
    }
}

/// What a search found is in the list, and what was there stays as it was.
pub proof fn law_found_entries_are_listed(models: Seq<ModelView>, found: Seq<ModelView>, i: int)
    requires
        0 <= i < found.len(),
    ensures
        has_id(with_found(models, found, found.len()), found[i].id),
        models.is_prefix_of(with_found(models, found, found.len())),
{
    lemma_with_found(models, found, found.len());
}

/// The Hub is asked for what the selected folder shows, once: not again where that is
/// known, unless it is forced, and never on a runtime without the tree.
pub proof fn law_folders_are_asked_for_once(selected: ModelView, models: Seq<ModelView>, repo: Seq<char>, sort: Sort)
    requires
        selected.catalog_path.len() > 2,
        selected.catalog_path[0] == "online"@,
        selected.catalog_path[1] == "huggingface"@,
        selected.catalog_path[2] == repo,
    ensures
        wanted(true, Some(selected), models, sort, true) == Some(RequestView::Repository(repo)),
        !knows_repository(models, repo) ==> wanted(true, Some(selected), models, sort, false)
            == Some(RequestView::Repository(repo)),
        knows_repository(models, repo) ==> wanted(true, Some(selected), models, sort, false) is None,
        wanted(false, Some(selected), models, sort, true) is None,
{
}

/// A file that came to be on disk is seen: an entry that had none before and has one now
/// has gained, and so has one whose head or projector came.
pub proof fn law_new_files_are_seen(before: ModelView, now: ModelView)
    ensures
        before.path.len() == 0 && now.path.len() > 0 ==> gained(before, now),
        before.mtp_path is None && now.mtp_path is Some ==> gained(before, now),
        before.projector_path is None && now.projector_path is Some ==> gained(before, now),
        !gained(before, before),
{
}

/// Each request has a number of its own: the next one is another.
pub proof fn law_requests_are_numbered(epoch: u64)
    ensures
        next_epoch(epoch) != epoch,
        epoch < u64::MAX ==> next_epoch(epoch) == epoch + 1,
{
}

/// A search counts as open for the Hub only where it looks there.
pub proof fn law_only_online_searches_wait(s: &ModelSearch)
    ensures
        s.online ==> open_query(Some(s)) == Some(s.query@),
        !s.online ==> open_query(Some(s)) is None,
        open_query(None) is None,
{
}

/// An entry of the Hub waits for files where its own or a companion's is not on disk.
pub proof fn law_missing_files_are_waited_for(models: Seq<ModelView>, i: int, r: RemoteView)
    requires
        0 <= i < models.len(),
        models[i].remote == Some(r),
        r.file is Some,
        models[i].path.len() == 0 || (r.mtp_file is Some && models[i].mtp_path is None) || (
        r.projector_file is Some && models[i].projector_path is None),
    ensures
        any_incomplete(models),
{
    assert(incomplete(models[i]));
}

/// Where every entry has its files, nothing is waited for.
pub proof fn law_complete_models_are_not_waited_for(models: Seq<ModelView>)
    requires
        forall|i: int|
            0 <= i < models.len() ==> (#[trigger] models[i]).path.len() > 0 && (
            models[i].remote is None || ((models[i].remote->0.mtp_file is None
                || models[i].mtp_path is Some) && (models[i].remote->0.projector_file is None
                || models[i].projector_path is Some))),
    ensures
        !any_incomplete(models),
{
    if any_incomplete(models) {
        let i = choose|i: int| 0 <= i < models.len() && incomplete(#[trigger] models[i]);
        assert(models[i].path.len() > 0);
    }
}

/// A repository is known where its files are listed and each of them is on disk or can be
/// fetched; a repository of which no file is listed is not.
pub proof fn law_repositories_are_known_by_their_files(models: Seq<ModelView>, repo: Seq<char>, i: int)
    ensures
        (forall|k: int|
            0 <= k < models.len() ==> (#[trigger] models[k]).remote is None
                || models[k].remote->0.repo != repo || models[k].remote->0.file is None)
            ==> !knows_repository(models, repo),
        0 <= i < models.len() && models[i].remote is Some && models[i].remote->0.repo == repo
            && models[i].remote->0.file is Some && (forall|k: int|
            0 <= k < models.len() ==> (#[trigger] models[k]).path.len() > 0) ==> knows_repository(
            models,
            repo,
        ),
        0 <= i < models.len() && models[i].remote is Some && models[i].remote->0.repo == repo
            && models[i].remote->0.file is Some && models[i].path.len() == 0
            && models[i].remote->0.blobs.len() == 0 ==> !knows_repository(models, repo),
{
    if 0 <= i < models.len() && models[i].remote is Some && models[i].remote->0.repo == repo
        && models[i].remote->0.file is Some {
        assert(artifact_of(models[i], repo));
    }
    if knows_repository(models, repo) {
        let k = choose|k: int| 0 <= k < models.len() && artifact_of(#[trigger] models[k], repo);
        assert(models[k].remote is Some);
    }
}

} // verus!
