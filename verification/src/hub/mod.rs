//! The Hugging Face Hub: searching it, listing the files of a repository, and
//! downloading them.

pub mod api;
pub mod download;

pub use self::api::{FilePart, HubFile, HubModel, HubRepo};

use vstd::prelude::*;
use crate::hub::download::Outcome;
use crate::names;
use crate::path;
use crate::text;
use crate::text::strs;

verus! {

/// Something that was going on in the background has ended.
#[derive(Debug)]
#[allow(inconsistent_fields)]
pub enum HubEvent {
    /// What a search found; searches are numbered.
    SearchResults { epoch: u64, result: Result<Vec<HubModel>, String> },
    /// What a repository holds.
    RepoFiles { repo: String, result: Result<HubRepo, String> },
    /// How a download ended.
    DownloadDone { id: u64, result: Result<Outcome, String> },
}

/// The parts of a list that are not empty, each as a name.
pub open spec fn safe_parts(parts: Seq<Seq<char>>, n: nat) -> Seq<Seq<char>>
    decreases n,
{
    if n == 0 {
        Seq::<Seq<char>>::empty()
    } else {
        let rest = safe_parts(parts, (n - 1) as nat);
        if parts[n - 1].len() == 0 {
            rest
        } else {
            rest.push(names::component(parts[n - 1], true))
        }
    }
}

/// The names of a repository's directory and of those above it.
pub open spec fn repo_parts(repo_id: Seq<char>) -> Seq<Seq<char>> {
    let parts = text::split(repo_id, '/');
    safe_parts(parts, parts.len())
}

/// The directory that a repository downloads into: one for the owner, and below it
/// one for the repository.
pub fn repo_dir(root: &str, repo_id: &str) -> (r: String)
    ensures
        r@ == path::joined_all(root@, repo_parts(repo_id@)),
{
    let parts = text::split_char(repo_id, '/');
    let ghost all = text::split(repo_id@, '/');
    let mut out: Vec<String> = Vec::new();
    let mut i: usize = 0;
    assert(strs(out@) =~= safe_parts(all, 0));
    while i < parts.len()
        invariant
            i <= parts.len(),
            all == strs(parts@),
            strs(out@) == safe_parts(all, i as nat),
        decreases parts.len() - i,
    {
        assert(all[i as int] == parts@[i as int]@);
        if text::length(parts[i].as_str()) > 0 {
            let ghost before = strs(out@);
            out.push(names::safe_component(parts[i].as_str(), true));
            assert(strs(out@) =~= before.push(names::component(all[i as int], true)));
        }
        i += 1;
    }
    assert(all.len() == parts@.len());
    path::join_all(root, &out)
}

proof fn lemma_safe_parts(parts: Seq<Seq<char>>, n: nat, i: int)
    requires
        n <= parts.len(),
        0 <= i < safe_parts(parts, n).len(),
    ensures
        safe_parts(parts, n)[i].len() > 0,
        !safe_parts(parts, n)[i].contains('/'),
        safe_parts(parts, n)[i] != seq!['.'],
        safe_parts(parts, n)[i] != seq!['.', '.'],
    decreases n,
{
    if n > 0 {
        let rest = safe_parts(parts, (n - 1) as nat);
        if i < rest.len() {
            lemma_safe_parts(parts, (n - 1) as nat, i);
        } else {
            names::law_component_stays_in_its_directory(parts[n - 1], true);
            reveal_strlit(".");
            reveal_strlit("..");
            assert("."@ =~= seq!['.']);
            assert(".."@ =~= seq!['.', '.']);
        }
    }
}

proof fn lemma_joined_below(root: Seq<char>, parts: Seq<Seq<char>>)
    requires
        path::absolute(root),
        forall|i: int|
            0 <= i < parts.len() ==> (#[trigger] parts[i]).len() > 0 && !parts[i].contains('/')
                && parts[i] != seq!['.'],
    ensures
        path::absolute(path::joined_all(root, parts)),
        path::components(path::joined_all(root, parts)) == path::components(root) + parts,
    decreases parts.len(),
{
    if parts.len() == 0 {
        assert(path::components(root) + parts =~= path::components(root));
    } else {
        let less = parts.drop_last();
        assert forall|i: int| 0 <= i < less.len() implies (#[trigger] less[i]).len() > 0
            && !less[i].contains('/') && less[i] != seq!['.'] by {
            assert(less[i] == parts[i]);
        }
        lemma_joined_below(root, less);
        let base = path::joined_all(root, less);
        let name = parts[parts.len() - 1];
        path::law_join_adds_one_component(base, name);
        assert(path::components(root) + parts =~= (path::components(root) + less).push(name));
        assert(!path::absolute(name)) by {
            if path::absolute(name) {
                assert(name.contains('/'));
            }
        }
        assert(path::joined(base, name)[0] == base[0]);
    }
}

/// Whatever a repository is called, its directory lies below the root: no part of
/// the name leads out of it.
pub proof fn law_repo_dir_stays_below_root(root: Seq<char>, repo_id: Seq<char>)
    requires
        path::absolute(root),
    ensures
        path::components(path::joined_all(root, repo_parts(repo_id))) == path::components(root)
            + repo_parts(repo_id),
        forall|i: int|
            0 <= i < repo_parts(repo_id).len() ==> (#[trigger] repo_parts(repo_id)[i]) != seq![
                '.',
                '.',
            ],
{
    let parts = text::split(repo_id, '/');
    let names = repo_parts(repo_id);
    assert forall|i: int| 0 <= i < names.len() implies (#[trigger] names[i]).len() > 0
        && !names[i].contains('/') && names[i] != seq!['.'] && names[i] != seq!['.', '.'] by {
        lemma_safe_parts(parts, parts.len(), i);
    }
    lemma_joined_below(root, names);
}

/// A repository downloads into a directory for its owner and one below it for its name,
/// each called as they are, where the names are harmless.
pub proof fn law_repositories_have_their_directories(parts: Seq<Seq<char>>, n: nat, i: int)
    requires
        n <= parts.len(),
        0 <= i < n,
        forall|k: int| 0 <= k < n ==> (#[trigger] parts[k]).len() > 0,
    ensures
        safe_parts(parts, n).len() == n,
        safe_parts(parts, n)[i] == names::component(parts[i], true),
    decreases n,
{
    lemma_safe_parts_len(parts, n);
    lemma_safe_parts_len(parts, (n - 1) as nat);
    assert(parts[n - 1].len() > 0);
    if i < n - 1 {
        law_repositories_have_their_directories(parts, (n - 1) as nat, i);
    }
}

proof fn lemma_safe_parts_len(parts: Seq<Seq<char>>, n: nat)
    requires
        n <= parts.len(),
        forall|k: int| 0 <= k < n ==> (#[trigger] parts[k]).len() > 0,
    ensures
        safe_parts(parts, n).len() == n,
    decreases n,
{
    if n > 0 {
        lemma_safe_parts_len(parts, (n - 1) as nat);
        assert(parts[n - 1].len() > 0);
    }
}

} // verus!
