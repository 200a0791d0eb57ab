//! Searching the catalog: where a search looks, and which entries come first.

use vstd::prelude::*;
use crate::app::catalog::{is_repository_folder, is_repository_prefix};
use crate::app::editor::typed;
use crate::app::keys::Key;
use crate::app::panes::Pane;
use crate::chars;
use crate::discovery::online::catalog::{hub_place, is_online, is_online_path, Sort};
use crate::discovery::online::{HUGGINGFACE, ONLINE};
use crate::domain::{views, Model, ModelView};
use crate::order;
use crate::text;
use crate::text::strs;

verus! {

// --- where a search looks ----------------------------------------------------

/// Where a search looks: below the folder that is shown. On the Hub's `online`
/// folder, or where such a folder is selected, it looks at the repositories. A
/// search from the runtimes looks everywhere.
pub open spec fn search_scope(focus: Pane, selected_dir: Option<Seq<Seq<char>>>, prefix: Seq<Seq<char>>, hub: bool) -> Seq<Seq<char>> {
    if is_online(prefix) {
        if hub && prefix == seq![ONLINE@] {
            hub_place()
        } else {
            prefix
        }
    } else if hub && selected_dir is Some && is_online(selected_dir->0) {
        hub_place()
    } else if focus == Pane::Runtime {
        Seq::<Seq<char>>::empty()
    } else {
        prefix
    }
}

/// The view of an optional path.
pub open spec fn opt_path(o: Option<&Vec<String>>) -> Option<Seq<Seq<char>>> {
    match o {
        Some(v) => Some(strs(v@)),
        None => None,
    }
}

fn hub_folder() -> (r: Vec<String>)
    ensures
        strs(r@) == hub_place(),
{
    let mut out: Vec<String> = Vec::new();
    out.push(text::copy(ONLINE));
    out.push(text::copy(HUGGINGFACE));
    assert(strs(out@) =~= hub_place());
    out
}

/// Where a search looks. `hub` says whether the runtime's `online` folder is the
/// live tree of the Hub.
pub fn normalized_search_scope(focus: Pane, selected_dir: Option<&Vec<String>>, catalog_prefix: &Vec<String>, hub: bool) -> (r: Vec<String>)
    ensures
        strs(r@) == search_scope(focus, opt_path(selected_dir), strs(catalog_prefix@), hub),
{
    let ghost prefix = strs(catalog_prefix@);
    if is_online_path(catalog_prefix) {
        proof {
            let just = seq![ONLINE@];
            assert(just.len() == 1 && just[0] == ONLINE@);
            assert(prefix.len() == catalog_prefix@.len());
            if prefix.len() == 1 {
                assert(prefix =~= just);
            }
        }
        if hub && catalog_prefix.len() == 1 {
            return hub_folder();
        }
        return text::copy_all(catalog_prefix);
    }
    if hub {
        if let Some(dir) = selected_dir {
            if is_online_path(dir) {
                return hub_folder();
            }
        }
    }
    match focus {
        Pane::Runtime => {
            let out: Vec<String> = Vec::new();
            assert(strs(out@) =~= Seq::<Seq<char>>::empty());
            out
        },
        _ => text::copy_all(catalog_prefix),
    }
}

/// Whether a search looks at an entry: below the scope, and remote exactly for a
/// search of the Hub.
pub open spec fn in_scope(path: Seq<Seq<char>>, remote: bool, scope: Seq<Seq<char>>, online: bool) -> bool {
    remote == online && scope.is_prefix_of(path) && path.len() > scope.len()
}

/// Whether a search looks at an entry.
pub fn catalog_entry_in_search_scope(catalog_path: &Vec<String>, remote: bool, scope: &Vec<String>, online: bool) -> (r: bool)
    ensures
        r == in_scope(strs(catalog_path@), remote, strs(scope@), online),
{
    assert(strs(catalog_path@).len() == catalog_path@.len());
    assert(strs(scope@).len() == scope@.len());
    remote == online && text::list_starts_with(catalog_path, scope) && catalog_path.len()
        > scope.len()
}

/// The title of a folder: in the tree of the Hub its order, except in a
/// repository.
pub open spec fn folder_title(prefix: Seq<Seq<char>>, sort: Sort) -> Seq<char> {
    if !is_repository_folder(prefix) && is_online(prefix) {
        sort.label_spec()
    } else {
        "Model"@
    }
}

/// The title of a folder of the catalog.
pub fn model_catalog_title(prefix: &Vec<String>, sort: Sort) -> (r: String)
    ensures
        r@ == folder_title(strs(prefix@), sort),
{
    if !is_repository_prefix(prefix) && is_online_path(prefix) {
        text::copy(sort.label())
    } else {
        text::copy("Model")
    }
}

// --- which entries come first ------------------------------------------------

/// A text without any of the given endings.
pub open spec fn without_endings(s: Seq<char>, ending: Seq<char>) -> Seq<char>
    decreases s.len(),
{
    if ending.len() > 0 && ending.is_suffix_of(s) {
        without_endings(s.take(s.len() - ending.len()), ending)
    } else {
        s
    }
}

fn strip_endings(s: &str, ending: &str) -> (r: String)
    ensures
        r@ == without_endings(s@, ending@),
    decreases s@.len(),
{
    let n = text::length(ending);
    if n > 0 && text::ends_with(s, ending) {
        let rest = text::piece(s, 0, text::length(s) - n);
        assert(rest@ =~= s@.take(s@.len() - ending@.len()));
        strip_endings(rest.as_str(), ending)
    } else {
        text::copy(s)
    }
}

/// What a search has of an entry, in lower case: its name, and its place as one
/// text.
pub struct Needles {
    pub query: Seq<char>,
    pub names: Seq<Seq<char>>,
    pub places: Seq<Seq<char>>,
}

/// Whether every word occurs in the name or the place.
pub open spec fn all_found(words: Seq<Seq<char>>, name: Seq<char>, place: Seq<char>) -> bool {
    forall|k: int|
        0 <= k < words.len() ==> text::has(name, #[trigger] words[k]) || text::has(
            place,
            words[k],
        )
}

/// How many of the first `n` words occur in the name.
pub open spec fn found_in(words: Seq<Seq<char>>, name: Seq<char>, n: nat) -> nat
    decreases n,
{
    if n == 0 {
        0
    } else {
        found_in(words, name, (n - 1) as nat) + if text::has(name, words[n - 1]) {
            1nat
        } else {
            0
        }
    }
}

/// How well a name fits a query: most where it is the query, then where it starts
/// with it, then by the words that occur in it.
pub open spec fn score(query: Seq<char>, name: Seq<char>) -> int {
    let words = chars::words(query);
    (if name == query || without_endings(name, ".gguf"@) == query {
        1000
    } else if query.is_prefix_of(name) {
        500int
    } else {
        0
    }) + 100 * found_in(words, name, words.len())
}

/// Whether entry `i` is found.
pub open spec fn is_match(models: Seq<ModelView>, n: Needles, scope: Seq<Seq<char>>, online: bool, i: int) -> bool {
    in_scope(models[i].catalog_path, models[i].remote is Some, scope, online) && all_found(
        chars::words(n.query),
        n.names[i],
        n.places[i],
    )
}

/// The entries that are found, in the order of the list.
pub open spec fn matches(models: Seq<ModelView>, n: Needles, scope: Seq<Seq<char>>, online: bool, upto: nat) -> Seq<int>
    decreases upto,
{
    if upto == 0 {
        Seq::<int>::empty()
    } else {
        let rest = matches(models, n, scope, online, (upto - 1) as nat);
        if is_match(models, n, scope, online, upto - 1) {
            rest.push(upto - 1)
        } else {
            rest
        }
    }
}

/// Whether one found entry comes before another: the better score, then the
/// earlier place.
pub open spec fn better(models: Seq<ModelView>, n: Needles, found: Seq<int>) -> spec_fn(int, int) -> bool {
    |a: int, b: int|
        {
            let x = score(n.query, n.names[found[a]]);
            let y = score(n.query, n.names[found[b]]);
            if x != y {
                x > y
            } else {
                order::list_lt(models[found[a]].catalog_path, models[found[b]].catalog_path)
            }
        }
}

/// The entries that a search finds, the best first.
pub open spec fn ranking(models: Seq<ModelView>, n: Needles, scope: Seq<Seq<char>>, online: bool) -> Seq<int> {
    let found = matches(models, n, scope, online, models.len());
    order::pick(found, order::stable_order(found.len(), better(models, n, found)))
}

/// What a search has of the entries of a list.
pub open spec fn needles(models: Seq<ModelView>, query: Seq<char>) -> Needles {
    Needles {
        query: chars::lowercase(query),
        names: models.map_values(|m: ModelView| chars::lowercase(m.name)),
        places: models.map_values(
            |m: ModelView| chars::lowercase(text::join(m.catalog_path, " "@)),
        ),
    }
}

fn check_words(words: &Vec<String>, name: &str, place: &str) -> (r: bool)
    ensures
        r == all_found(strs(words@), name@, place@),
{
    let ghost all = strs(words@);
    let mut i: usize = 0;
    while i < words.len()
        invariant
            i <= words.len(),
            all == strs(words@),
            forall|k: int|
                0 <= k < i ==> text::has(name@, #[trigger] all[k]) || text::has(place@, all[k]),
        decreases words.len() - i,
    {
        assert(all[i as int] == words@[i as int]@);
        let word = words[i].as_str();
        if !text::contains(name, word) && !text::contains(place, word) {
            return false;
        }
        i += 1;
    }
    true
}

fn rate(query: &str, words: &Vec<String>, name: &str) -> (r: u128)
    requires
        strs(words@) == chars::words(query@),
    ensures
        r == score(query@, name@),
{
    let ghost all = strs(words@);
    let mut found: u128 = 0;
    let mut i: usize = 0;
    while i < words.len()
        invariant
            i <= words.len(),
            all == strs(words@),
            found == found_in(all, name@, i as nat),
            found <= i,
        decreases words.len() - i,
    {
        assert(all[i as int] == words@[i as int]@);
        if text::contains(name, words[i].as_str()) {
            found += 1;
        }
        i += 1;
    }
    assert(all.len() == words@.len());
    let head: u128 = if text::same(name, query) || text::same(
        strip_endings(name, ".gguf").as_str(),
        query,
    ) {
        1000
    } else if text::starts_with(name, query) {
        500
    } else {
        0
    };
    head + 100 * found
}

/// Ranks the entries of a list by texts that are already in lower case: the query,
/// and the name and the place of each entry.
pub fn rank_lowered(models: &Vec<Model>, query: &str, names: &Vec<String>, places: &Vec<String>, scope: &Vec<String>, online_only: bool) -> (r: Vec<usize>)
    requires
        names@.len() == models@.len(),
        places@.len() == models@.len(),
    ensures
        order::ints(r@) == ranking(
            views(models@),
            (Needles { query: query@, names: strs(names@), places: strs(places@) }),
            strs(scope@),
            online_only,
        ),
        forall|k: int| 0 <= k < r@.len() ==> #[trigger] r@[k] < models@.len(),
{
    let ghost all = views(models@);
    let ghost n = Needles { query: query@, names: strs(names@), places: strs(places@) };
    let ghost where_ = strs(scope@);
    let words = chars::split_words(query);
    let mut found: Vec<usize> = Vec::new();
    let mut scores: Vec<u128> = Vec::new();
    let mut i: usize = 0;
    assert(order::ints(found@) =~= matches(all, n, where_, online_only, 0));
    while i < models.len()
        invariant
            i <= models.len(),
            names@.len() == models@.len(),
            places@.len() == models@.len(),
            all == views(models@),
            n == (Needles { query: query@, names: strs(names@), places: strs(places@) }),
            where_ == strs(scope@),
            strs(words@) == chars::words(query@),
            order::ints(found@) == matches(all, n, where_, online_only, i as nat),
            scores@.len() == found@.len(),
            forall|k: int| 0 <= k < found@.len() ==> #[trigger] found@[k] < i,
            forall|k: int|
                0 <= k < scores@.len() ==> #[trigger] scores@[k] == score(
                    n.query,
                    n.names[found@[k] as int],
                ),
        decreases models.len() - i,
    {
        let m = &models[i];
        assert(all[i as int] == m@);
        assert(n.names[i as int] == names@[i as int]@);
        assert(n.places[i as int] == places@[i as int]@);
        if catalog_entry_in_search_scope(&m.catalog_path, m.remote.is_some(), scope, online_only)
            && check_words(&words, names[i].as_str(), places[i].as_str()) {
            let ghost before = order::ints(found@);
            scores.push(rate(query, &words, names[i].as_str()));
            found.push(i);
            assert(order::ints(found@) =~= before.push(i as int));
        }
        i += 1;
    }
    assert(views(models@).len() == models@.len());
    let ghost hits = matches(all, n, where_, online_only, all.len());
    let count = found.len();
    assert(order::ints(found@).len() == found@.len());
    assert forall|k: int| 0 <= k < count implies #[trigger] found@[k] == hits[k] by {
        assert(order::ints(found@)[k] == found@[k]);
    }
    let before = |a: usize, b: usize| -> (r: bool)
        requires
            a < count,
            b < count,
            count == found.len(),
            count == scores.len(),
            forall|k: int| 0 <= k < found@.len() ==> #[trigger] found@[k] < models@.len(),
        ensures
            r == (if scores@[a as int] != scores@[b as int] {
                scores@[a as int] > scores@[b as int]
            } else {
                order::list_lt(
                    strs(models@[found@[a as int] as int].catalog_path@),
                    strs(models@[found@[b as int] as int].catalog_path@),
                )
            }),
        {
            if scores[a] != scores[b] {
                scores[a] > scores[b]
            } else {
                order::list_before(
                    &models[found[a]].catalog_path,
                    &models[found[b]].catalog_path,
                )
            }
        };
    assert forall|k: int| 0 <= k < count implies strs(
        (#[trigger] models@[found@[k] as int]).catalog_path@,
    ) == all[hits[k]].catalog_path by {
        assert(all[found@[k] as int] == models@[found@[k] as int]@);
    }
    let picked = order::sorted_indices(count, before, Ghost(better(all, n, hits)));
    let mut out: Vec<usize> = Vec::new();
    let mut k: usize = 0;
    while k < picked.len()
        invariant
            k <= picked.len(),
            count == found.len(),
            out.len() == k,
            forall|j: int| 0 <= j < picked@.len() ==> #[trigger] picked@[j] < count,
            forall|j: int| 0 <= j < found@.len() ==> #[trigger] found@[j] < models@.len(),
            forall|j: int| 0 <= j < found@.len() ==> #[trigger] found@[j] == hits[j],
            forall|j: int| 0 <= j < k ==> #[trigger] out@[j] == hits[picked@[j] as int],
            forall|j: int| 0 <= j < k ==> #[trigger] out@[j] < models@.len(),
        decreases picked.len() - k,
    {
        out.push(found[picked[k]]);
        k += 1;
    }
    assert(order::ints(out@) =~= order::pick(hits, order::ints(picked@)));
    out
}

/// The entries of a list that a search finds, the best first, by their positions
/// in that list.
pub fn rank_models(models: &Vec<Model>, raw_query: &str, scope: &Vec<String>, online_only: bool) -> (r: Vec<usize>)
    ensures
        order::ints(r@) == ranking(
            views(models@),
            needles(views(models@), raw_query@),
            strs(scope@),
            online_only,
        ),
        forall|k: int| 0 <= k < r@.len() ==> #[trigger] r@[k] < models@.len(),
{
    let ghost all = views(models@);
    let ghost n = needles(all, raw_query@);
    let query = chars::to_lowercase(raw_query);
    let mut names: Vec<String> = Vec::new();
    let mut places: Vec<String> = Vec::new();
    let mut i: usize = 0;
    while i < models.len()
        invariant
            i <= models.len(),
            all == views(models@),
            n == needles(all, raw_query@),
            names.len() == i,
            places.len() == i,
            forall|j: int| 0 <= j < i ==> (#[trigger] names@[j])@ == n.names[j],
            forall|j: int| 0 <= j < i ==> (#[trigger] places@[j])@ == n.places[j],
        decreases models.len() - i,
    {
        let m = &models[i];
        assert(all[i as int] == m@);
        names.push(chars::to_lowercase(m.name.as_str()));
        places.push(chars::to_lowercase(text::join_all(&m.catalog_path, " ").as_str()));
        i += 1;
    }
    assert(all.len() == models@.len());
    assert(strs(names@) =~= n.names);
    assert(strs(places@) =~= n.places);
    rank_lowered(models, query.as_str(), &names, &places, scope, online_only)
}

// --- an open search ----------------------------------------------------------

/// A search that is open.
#[derive(Debug)]
pub struct ModelSearch {
    pub query: String,
    pub cursor: usize,
    pub result_indices: Vec<usize>,
    pub online: bool,
    pub scope: Vec<String>,
}

/// The views of entries.
pub open spec fn ref_views(v: Seq<&Model>) -> Seq<ModelView> {
    v.map_values(|m: &Model| m@)
}

/// The entries at the first `n` positions, without those outside of the list.
pub open spec fn found_entries(models: Seq<ModelView>, at: Seq<int>, n: nat) -> Seq<ModelView>
    decreases n,
{
    if n == 0 {
        Seq::<ModelView>::empty()
    } else {
        let rest = found_entries(models, at, (n - 1) as nat);
        if 0 <= at[n - 1] < models.len() {
            rest.push(models[at[n - 1]])
        } else {
            rest
        }
    }
}

/// What an open search does on a key.
#[derive(Debug, Clone, Copy, PartialEq, Eq, Structural)]
pub enum SearchAction {
    /// The search is given up.
    Close,
    /// The selected result is taken.
    Pick,
    /// The query changed.
    Changed,
    Nothing,
}

/// What taking the selected result leads to.
#[derive(Debug)]
pub enum Pick {
    Nothing,
    /// The repository is added to the catalog, and then gone to.
    Promote(Model),
    /// The entry of this identity is gone to.
    Jump(String),
}

/// A position in a list of `len` results, brought back into it.
pub open spec fn within(cursor: int, len: int) -> int {
    if len == 0 {
        0
    } else if cursor < len {
        cursor
    } else {
        len - 1
    }
}

fn keep_within(cursor: usize, len: usize) -> (r: usize)
    ensures
        r == within(cursor as int, len as int),
{
    if len == 0 {
        0
    } else if cursor < len {
        cursor
    } else {
        len - 1
    }
}

/// The selected result of a search after a key.
pub open spec fn cursor_after(cursor: int, len: int, key: Key) -> int {
    match key {
        Key::Char(_) => 0,
        Key::Backspace => 0,
        Key::Up => if cursor > 0 {
            cursor - 1
        } else {
            0
        },
        Key::Down => within(cursor + 1, len),
        _ => cursor,
    }
}

/// What an open search does on a key.
pub open spec fn search_does(key: Key) -> SearchAction {
    match key {
        Key::Esc => SearchAction::Close,
        Key::Enter => SearchAction::Pick,
        Key::Backspace => SearchAction::Changed,
        Key::Char(_) => SearchAction::Changed,
        _ => SearchAction::Nothing,
    }
}

impl ModelSearch {
    /// A search that was just opened, with everything in its scope.
    pub fn open(models: &Vec<Model>, scope: Vec<String>, online: bool) -> (r: ModelSearch)
        ensures
            r.query@ == Seq::<char>::empty(),
            r.cursor == 0,
            r.online == online,
            r.scope == scope,
            order::ints(r.result_indices@) == ranking(
                views(models@),
                needles(views(models@), Seq::<char>::empty()),
                strs(scope@),
                online,
            ),
    {
        let query = String::new();
        assert(query@ =~= Seq::<char>::empty());
        let result_indices = rank_models(models, query.as_str(), &scope, online);
        ModelSearch { query, cursor: 0, result_indices, online, scope }
    }

    /// Takes a key.
    pub fn key(&mut self, key: Key) -> (r: SearchAction)
        ensures
            r == search_does(key),
            final(self).query@ == typed(old(self).query@, key),
            final(self).cursor == cursor_after(
                old(self).cursor as int,
                old(self).result_indices@.len() as int,
                key,
            ),
            final(self).result_indices == old(self).result_indices,
            final(self).online == old(self).online,
            final(self).scope == old(self).scope,
    {
        match key {
            Key::Esc => SearchAction::Close,
            Key::Enter => SearchAction::Pick,
            Key::Up => {
                if self.cursor > 0 {
                    self.cursor = self.cursor - 1;
                }
                SearchAction::Nothing
            },
            Key::Down => {
                let len = self.result_indices.len();
                self.cursor = if len == 0 {
                    0
                } else if self.cursor < len - 1 {
                    self.cursor + 1
                } else {
                    len - 1
                };
                SearchAction::Nothing
            },
            Key::Backspace => {
                let _last = self.query.pop();
                self.cursor = 0;
                SearchAction::Changed
            },
            Key::Char(c) => {
                self.query.push(c);
                self.cursor = 0;
                SearchAction::Changed
            },
            _ => SearchAction::Nothing,
        }
    }

    /// Ranks the entries again, and keeps the selection among them.
    pub fn refresh(&mut self, models: &Vec<Model>)
        ensures
            order::ints(final(self).result_indices@) == ranking(
                views(models@),
                needles(views(models@), old(self).query@),
                strs(old(self).scope@),
                old(self).online,
            ),
            final(self).cursor == within(
                old(self).cursor as int,
                final(self).result_indices@.len() as int,
            ),
            final(self).query == old(self).query,
            final(self).online == old(self).online,
            final(self).scope == old(self).scope,
    {
        self.result_indices = rank_models(models, self.query.as_str(), &self.scope, self.online);
        self.cursor = keep_within(self.cursor, self.result_indices.len());
    }

    /// The position of the selected result in the list that was searched.
    pub open spec fn chosen(self) -> Option<int> {
        if self.cursor < self.result_indices@.len() {
            Some(self.result_indices@[self.cursor as int] as int)
        } else {
            None
        }
    }

    /// The selected result.
    pub fn target<'a>(&self, models: &'a Vec<Model>) -> (r: Option<&'a Model>)
        ensures
            match r {
                Some(m) => self.chosen() is Some && self.chosen()->0 < models@.len() && *m
                    == models@[self.chosen()->0],
                None => self.chosen() is None || self.chosen()->0 >= models@.len(),
            },
    {
        if self.cursor < self.result_indices.len() {
            let i = self.result_indices[self.cursor];
            if i < models.len() {
                return Some(&models[i]);
            }
        }
        None
    }

    /// Whether taking a result adds its repository to the catalog: a repository
    /// that a search of the Hub found.
    pub fn promotes(&self, target: &Model) -> (r: bool)
        ensures
            r == (self.online && target@.remote is Some && target@.remote->0.file is None),
    {
        match &target.remote {
            Some(remote) => self.online && remote.file.is_none(),
            None => false,
        }
    }

    /// The results as entries of the list that was searched; positions outside of a
    /// list that has changed are left out.
    pub fn search_results<'a>(&self, models: &'a Vec<Model>) -> (r: Vec<&'a Model>)
        ensures
            ref_views(r@) == found_entries(
                views(models@),
                order::ints(self.result_indices@),
                self.result_indices@.len(),
            ),
    {
        let ghost all = views(models@);
        let ghost at = order::ints(self.result_indices@);
        let mut out: Vec<&'a Model> = Vec::new();
        let mut i: usize = 0;
        assert(ref_views(out@) =~= found_entries(all, at, 0));
        while i < self.result_indices.len()
            invariant
                i <= self.result_indices.len(),
                all == views(models@),
                at == order::ints(self.result_indices@),
                ref_views(out@) == found_entries(all, at, i as nat),
            decreases self.result_indices.len() - i,
        {
            let k = self.result_indices[i];
            assert(at[i as int] == k);
            if k < models.len() {
                let ghost before = ref_views(out@);
                assert(all[k as int] == models@[k as int]@);
                out.push(&models[k]);
                assert(ref_views(out@) =~= before.push(all[k as int]));
            }
            i += 1;
        }
        out
    }

    /// What taking the selected result leads to.
    pub fn pick(&self, models: &Vec<Model>) -> (r: Pick)
        ensures
            match self.chosen() {
                Some(i) => if i >= models@.len() {
                    r is Nothing
                } else {
                    let m = models@[i]@;
                    if self.online && m.remote is Some && m.remote->0.file is None {
                        r is Promote && r->Promote_0@ == m
                    } else {
                        r is Jump && r->Jump_0@ == m.id
                    }
                },
                None => r is Nothing,
            },
    {
        match self.target(models) {
            None => Pick::Nothing,
            Some(m) => if self.promotes(m) {
                Pick::Promote(m.clone())
            } else {
                Pick::Jump(m.id.clone())
            },
        }
    }

    /// The query to ask the Hub for after a change, unless the search is inside a
    /// repository.
    pub fn due(&self) -> (r: Option<String>)
        ensures
            text::opt(r) == (if self.online && self.scope@.len() <= 2 {
                Some(self.query@)
            } else {
                None
            }),
    {
        if self.online && self.scope.len() <= 2 {
            Some(self.query.clone())
        } else {
            None
        }
    }
}

// --- laws --------------------------------------------------------------------

/// Every result of a search addresses an entry of the list that was searched, and
/// the entry is in the scope.
pub proof fn law_results_address_the_searched_list(models: Seq<ModelView>, n: Needles, scope: Seq<Seq<char>>, online: bool, k: int)
    requires
        0 <= k < ranking(models, n, scope, online).len(),
    ensures
        0 <= ranking(models, n, scope, online)[k] < models.len(),
        is_match(models, n, scope, online, ranking(models, n, scope, online)[k]),
{
    let found = matches(models, n, scope, online, models.len());
    let lt = better(models, n, found);
    let sorted = order::stable_order(found.len(), lt);
    order::law_stable_order_is_a_permutation(found.len(), lt);
    lemma_matches_hold(models, n, scope, online, models.len(), sorted[k]);
}

proof fn lemma_matches_hold(models: Seq<ModelView>, n: Needles, scope: Seq<Seq<char>>, online: bool, upto: nat, k: int)
    requires
        0 <= k < matches(models, n, scope, online, upto).len(),
    ensures
        0 <= matches(models, n, scope, online, upto)[k] < upto,
        is_match(models, n, scope, online, matches(models, n, scope, online, upto)[k]),
    decreases upto,
{
    if upto > 0 {
        let rest = matches(models, n, scope, online, (upto - 1) as nat);
        if k < rest.len() {
            lemma_matches_hold(models, n, scope, online, (upto - 1) as nat, k);
        }
    }
}

/// A search never looks at the folder itself, at entries beside it, or at entries
/// of the other kind.
pub proof fn law_scope_excludes_siblings(path: Seq<Seq<char>>, remote: bool, scope: Seq<Seq<char>>, online: bool)
    requires
        in_scope(path, remote, scope, online),
    ensures
        path != scope,
        path.take(scope.len() as int) == scope,
        remote == online,
{
    assert(path.take(scope.len() as int) =~= scope);
}

proof fn lemma_matches(models: Seq<ModelView>, n: Needles, scope: Seq<Seq<char>>, online: bool, upto: nat, i: int)
    requires
        0 <= i < upto <= models.len(),
        is_match(models, n, scope, online, i),
    ensures
        matches(models, n, scope, online, upto).contains(i),
    decreases upto,
{
    let rest = matches(models, n, scope, online, (upto - 1) as nat);
    let all = matches(models, n, scope, online, upto);
    if i == upto - 1 {
        assert(all[all.len() - 1] == i);
    } else {
        lemma_matches(models, n, scope, online, (upto - 1) as nat, i);
        let k = choose|k: int| 0 <= k < rest.len() && rest[k] == i;
        assert(all[k] == i);
    }
}

/// A search finds every entry below its folder in whose name or place all words of the
/// query occur.
pub proof fn law_searches_find_everything(models: Seq<ModelView>, n: Needles, scope: Seq<Seq<char>>, online: bool, i: int)
    requires
        0 <= i < models.len(),
        (models[i].remote is Some) == online,
        scope.is_prefix_of(models[i].catalog_path),
        models[i].catalog_path.len() > scope.len(),
        forall|k: int|
            0 <= k < chars::words(n.query).len() ==> text::has(
                n.names[i],
                #[trigger] chars::words(n.query)[k],
            ) || text::has(n.places[i], chars::words(n.query)[k]),
    ensures
        ranking(models, n, scope, online).contains(i),
{
    broadcast use vstd::seq_lib::group_to_multiset_ensures;
    lemma_matches(models, n, scope, online, models.len(), i);
    let found = matches(models, n, scope, online, models.len());
    let a = choose|a: int| 0 <= a < found.len() && found[a] == i;
    let lt = better(models, n, found);
    let picked = order::stable_order(found.len(), lt);
    order::law_stable_order_is_a_permutation(found.len(), lt);
    let indices = Seq::new(found.len(), |k: int| k);
    assert(indices[a] == a);
    assert(indices.contains(a));
    assert(indices.to_multiset().count(a) > 0);
    assert(picked.to_multiset().count(a) > 0);
    assert(picked.contains(a));
    let k = choose|k: int| 0 <= k < picked.len() && picked[k] == a;
    assert(ranking(models, n, scope, online)[k] == found[a]);
}

proof fn lemma_better_order(models: Seq<ModelView>, n: Needles, found: Seq<int>)
    ensures
        order::weak_order(better(models, n, found)),
{
    let lt = better(models, n, found);
    assert forall|a: int, b: int| #[trigger] lt(a, b) implies !lt(b, a) by {
        order::law_list_order_is_total(
            models[found[a]].catalog_path,
            models[found[b]].catalog_path,
        );
    }
    assert forall|a: int, b: int, c: int|
        !#[trigger] lt(a, b) && !#[trigger] lt(b, c) implies !lt(a, c) by {
        let x = models[found[a]].catalog_path;
        let y = models[found[b]].catalog_path;
        let z = models[found[c]].catalog_path;
        order::law_list_order_is_total(x, y);
        order::law_list_order_is_total(y, z);
        order::law_list_order_is_total(x, z);
        if lt(a, c) && score(n.query, n.names[found[a]]) == score(n.query, n.names[found[b]])
            && score(n.query, n.names[found[b]]) == score(n.query, n.names[found[c]]) {
            if x != y {
                order::law_list_order_is_transitive(y, x, z);
            }
        }
    }
}

/// The best fit comes first: no result scores better than one before it, and of equal
/// ones the one at the earlier place comes first.
pub proof fn law_better_results_come_first(models: Seq<ModelView>, n: Needles, scope: Seq<Seq<char>>, online: bool, i: int, j: int)
    requires
        0 <= i < j < ranking(models, n, scope, online).len(),
    ensures
        ({
            let a = ranking(models, n, scope, online)[i];
            let b = ranking(models, n, scope, online)[j];
            &&& score(n.query, n.names[a]) >= score(n.query, n.names[b])
            &&& score(n.query, n.names[a]) == score(n.query, n.names[b]) ==> !order::list_lt(
                models[b].catalog_path,
                models[a].catalog_path,
            )
        }),
{
    let found = matches(models, n, scope, online, models.len());
    let lt = better(models, n, found);
    lemma_better_order(models, n, found);
    order::law_stable_order_is_a_permutation(found.len(), lt);
    order::law_stable_order_is_ascending(found.len(), lt);
    let picked = order::stable_order(found.len(), lt);
    assert(!lt(picked[j], picked[i]));
}

/// A name that is the query fits better than one that only begins with it, and that
/// better than one that does neither, with as many words found; each further word that
/// is found counts.
pub proof fn law_closer_names_fit_better(query: Seq<char>, other: Seq<char>)
    requires
        found_in(chars::words(query), other, chars::words(query).len()) == found_in(
            chars::words(query),
            query,
            chars::words(query).len(),
        ),
        other != query,
        without_endings(other, ".gguf"@) != query,
    ensures
        score(query, query) > score(query, other),
        query.is_prefix_of(other) ==> score(query, other) > 100 * found_in(
            chars::words(query),
            other,
            chars::words(query).len(),
        ),
{
}

/// A search from the folder of the Hub looks at its repositories, one from another
/// folder looks there, and one from the runtimes everywhere.
pub proof fn law_searches_look_where_they_are_opened(prefix: Seq<Seq<char>>, hub: bool)
    ensures
        search_scope(Pane::Model, None, seq!["online"@], true) == seq!["online"@, "huggingface"@],
        !is_online(prefix) ==> search_scope(Pane::Model, None, prefix, hub) == prefix,
        !is_online(prefix) ==> search_scope(Pane::Runtime, None, prefix, hub).len() == 0,
        prefix.len() >= 2 && is_online(prefix) ==> search_scope(Pane::Model, None, prefix, hub)
            == prefix,
{
    assert(seq!["online"@][0] == "online"@);
    assert(is_online(seq!["online"@]));
}

/// A folder of the online tree is titled by its order, and that of a repository, like
/// any local one, as models.
pub proof fn law_folders_are_titled(repo: Seq<char>, prefix: Seq<Seq<char>>)
    ensures
        folder_title(seq!["online"@, "huggingface"@], Sort::Trending) == "Trending"@,
        folder_title(seq!["online"@, "huggingface"@], Sort::Popular) == "Most likes"@,
        folder_title(seq!["online"@, "huggingface"@], Sort::Downloads) == "Most downloads"@,
        folder_title(seq!["online"@, "huggingface"@, repo], Sort::Trending) == "Model"@,
        !is_online(prefix) ==> folder_title(prefix, Sort::Trending) == "Model"@,
{
    let hub = seq!["online"@, "huggingface"@];
    assert(hub[0] == "online"@ && hub.len() == 2);
    let inner = seq!["online"@, "huggingface"@, repo];
    assert(inner[0] == "online"@ && inner[1] == "huggingface"@ && inner.len() == 3);
}

/// A search looks at the names and at the places of the entries, letter case aside.
pub proof fn law_letter_case_does_not_matter(models: Seq<ModelView>, query: Seq<char>, i: int)
    requires
        0 <= i < models.len(),
    ensures
        needles(models, query).query == chars::lowercase(query),
        needles(models, query).names[i] == chars::lowercase(models[i].name),
        needles(models, query).places[i] == chars::lowercase(
            text::join(models[i].catalog_path, " "@),
        ),
{
}

/// The results are the entries at the places that were found, in their order.
pub proof fn law_results_are_entries(models: Seq<ModelView>, at: Seq<int>, n: nat, i: int)
    requires
        n <= at.len(),
        0 <= i < n,
        forall|k: int| 0 <= k < n ==> 0 <= #[trigger] at[k] < models.len(),
    ensures
        found_entries(models, at, n).len() == n,
        found_entries(models, at, n)[i] == models[at[i]],
    decreases n,
{
    lemma_found_len(models, at, n);
    if i < n - 1 {
        law_results_are_entries(models, at, (n - 1) as nat, i);
        lemma_found_len(models, at, (n - 1) as nat);
    }
    assert(0 <= at[n - 1] < models.len());
    lemma_found_len(models, at, (n - 1) as nat);
}

proof fn lemma_found_len(models: Seq<ModelView>, at: Seq<int>, n: nat)
    requires
        n <= at.len(),
        forall|k: int| 0 <= k < n ==> 0 <= #[trigger] at[k] < models.len(),
    ensures
        found_entries(models, at, n).len() == n,
    decreases n,
{
    if n > 0 {
        lemma_found_len(models, at, (n - 1) as nat);
        assert(0 <= at[n - 1] < models.len());
    }
}

/// In a search the arrows move by one within the results, typing starts over, enter
/// picks and escape closes.
pub proof fn law_search_keys(cursor: int, len: int, c: char)
    requires
        0 <= cursor < len,
    ensures
        cursor_after(cursor, len, Key::Char(c)) == 0,
        cursor_after(cursor, len, Key::Backspace) == 0,
        cursor > 0 ==> cursor_after(cursor, len, Key::Up) == cursor - 1,
        cursor_after(0, len, Key::Up) == 0,
        cursor + 1 < len ==> cursor_after(cursor, len, Key::Down) == cursor + 1,
        cursor + 1 == len ==> cursor_after(cursor, len, Key::Down) == cursor,
        search_does(Key::Esc) is Close,
        search_does(Key::Enter) is Pick,
        search_does(Key::Char(c)) is Changed,
        search_does(Key::Backspace) is Changed,
        search_does(Key::Up) is Nothing,
        search_does(Key::Down) is Nothing,
{
}

} // verus!
