//! What removing a model would delete, worked out before anything is unlinked.

use vstd::prelude::*;
use crate::path;
use crate::text;
use crate::text::strs;

verus! {

/// A directory that is worth nothing once the directories it depends on are
/// empty, and can then be removed whole.
#[derive(Debug)]
pub struct Husk {
    pub dir: String,
    /// Removal happens only if each of these is absent or empty.
    pub empty_first: Vec<String>,
}

pub struct HuskView {
    pub dir: Seq<char>,
    pub empty_first: Seq<Seq<char>>,
}

/// What removing a model from local storage would delete.
#[derive(Debug)]
pub struct Deletion {
    /// Files and symbolic links to unlink.
    pub files: Vec<String>,
    /// Directory trees to remove whole.
    pub trees: Vec<String>,
    /// Directories to remove afterwards, in this order, where they are empty.
    pub prune: Vec<String>,
    /// A directory that becomes meaningless once the deletion is done.
    pub husk: Option<Husk>,
    /// Bytes that the deletion frees.
    pub bytes: u64,
}

pub struct DeletionView {
    pub files: Seq<Seq<char>>,
    pub trees: Seq<Seq<char>>,
    pub prune: Seq<Seq<char>>,
    pub husk: Option<HuskView>,
    pub bytes: u64,
}

impl View for Deletion {
    type V = DeletionView;

    open spec fn view(&self) -> DeletionView {
        DeletionView {
            files: strs(self.files@),
            trees: strs(self.trees@),
            prune: strs(self.prune@),
            husk: match self.husk {
                Some(h) => Some(HuskView { dir: h.dir@, empty_first: strs(h.empty_first@) }),
                None => None,
            },
            bytes: self.bytes,
        }
    }
}

impl DeletionView {
    /// A plan that removes nothing.
    pub open spec fn removes_nothing(self) -> bool {
        self.files.len() == 0 && self.trees.len() == 0
    }
}

/// What the symbolic links on the way to a path resolve it to, for the paths
/// that exist.
#[derive(Debug)]
pub struct Resolved {
    /// Each path with the path that it resolves to.
    pub pairs: Vec<(String, String)>,
}

pub open spec fn pairs_view(v: Seq<(String, String)>) -> Seq<(Seq<char>, Seq<char>)> {
    v.map_values(|p: (String, String)| (p.0@, p.1@))
}

/// The path with every link resolved, or the path itself where it does not
/// exist.
pub open spec fn canonical(pairs: Seq<(Seq<char>, Seq<char>)>, p: Seq<char>) -> Seq<char>
    decreases pairs.len(),
{
    if pairs.len() == 0 {
        p
    } else if pairs[0].0 == p {
        pairs[0].1
    } else {
        canonical(pairs.skip(1), p)
    }
}

impl View for Resolved {
    type V = Seq<(Seq<char>, Seq<char>)>;

    open spec fn view(&self) -> Seq<(Seq<char>, Seq<char>)> {
        pairs_view(self.pairs@)
    }
}

impl Resolved {
    /// The path with every link resolved, or the path itself.
    pub fn resolve(&self, p: &str) -> (r: String)
        ensures
            r@ == canonical(self@, p@),
    {
        let ghost all = self@;
        let mut i: usize = 0;
        assert(all.skip(0) =~= all);
        while i < self.pairs.len()
            invariant
                i <= self.pairs.len(),
                all == self@,
                canonical(all, p@) == canonical(all.skip(i as int), p@),
            decreases self.pairs.len() - i,
        {
            assert(all.skip(i as int)[0] == all[i as int]);
            if text::same(self.pairs[i].0.as_str(), p) {
                return self.pairs[i].1.clone();
            }
            assert(all.skip(i as int).skip(1) =~= all.skip(i + 1));
            i += 1;
        }
        p.to_owned()
    }
}

/// A path as a name: its directory resolved, its last component left alone. Two
/// links to one file are one file and two names.
pub open spec fn name_of(pairs: Seq<(Seq<char>, Seq<char>)>, p: Seq<char>) -> Seq<char> {
    match (path::parent_of(p), path::base_name(p)) {
        (Some(parent), Some(name)) => path::joined(canonical(pairs, parent), name),
        _ => p,
    }
}

impl Resolved {
    /// The path as a name.
    pub fn name_identity(&self, p: &str) -> (r: String)
        ensures
            r@ == name_of(self@, p@),
    {
        match (path::parent(p), path::file_name(p)) {
            (Some(parent), Some(name)) => path::join(
                self.resolve(parent.as_str()).as_str(),
                name.as_str(),
            ),
            _ => p.to_owned(),
        }
    }
}

/// Whether two paths name the same file once links are resolved.
pub open spec fn same_file(pairs: Seq<(Seq<char>, Seq<char>)>, a: Seq<char>, b: Seq<char>) -> bool {
    path::components(canonical(pairs, a)) == path::components(canonical(pairs, b))
}

/// Whether a path is in a directory, or is it, once links are resolved.
pub open spec fn in_tree(pairs: Seq<(Seq<char>, Seq<char>)>, p: Seq<char>, tree: Seq<char>) -> bool {
    path::below(canonical(pairs, p), canonical(pairs, tree)) is Some
}

/// Whether a deletion touches a path: a file that it unlinks, or anything inside
/// a tree that it removes.
pub open spec fn touches(plan: DeletionView, pairs: Seq<(Seq<char>, Seq<char>)>, p: Seq<char>) -> bool {
    (exists|i: int| 0 <= i < plan.files.len() && same_file(pairs, #[trigger] plan.files[i], p)) || (
    exists|i: int| 0 <= i < plan.trees.len() && in_tree(pairs, p, #[trigger] plan.trees[i]))
}

impl Deletion {
    /// Whether the plan removes nothing, that is, the model is not stored.
    pub fn is_empty(&self) -> (r: bool)
        ensures
            r == self@.removes_nothing(),
    {
        self.files.len() == 0 && self.trees.len() == 0
    }

    fn touches_path(&self, links: &Resolved, p: &str) -> (r: bool)
        ensures
            r == touches(self@, links@, p@),
    {
        let target = links.resolve(p);
        let mut i: usize = 0;
        while i < self.files.len()
            invariant
                i <= self.files.len(),
                target@ == canonical(links@, p@),
                forall|j: int|
                    0 <= j < i ==> !same_file(links@, #[trigger] self@.files[j], p@),
            decreases self.files.len() - i,
        {
            assert(self@.files[i as int] == self.files@[i as int]@);
            let file = links.resolve(self.files[i].as_str());
            if path::same(file.as_str(), target.as_str()) {
                assert(same_file(links@, self@.files[i as int], p@));
                return true;
            }
            i += 1;
        }
        let mut k: usize = 0;
        while k < self.trees.len()
            invariant
                k <= self.trees.len(),
                target@ == canonical(links@, p@),
                forall|j: int| 0 <= j < k ==> !in_tree(links@, p@, #[trigger] self@.trees[j]),
            decreases self.trees.len() - k,
        {
            assert(self@.trees[k as int] == self.trees@[k as int]@);
            let tree = links.resolve(self.trees[k].as_str());
            if path::starts_with(target.as_str(), tree.as_str()) {
                assert(in_tree(links@, p@, self@.trees[k as int]));
                return true;
            }
            k += 1;
        }
        false
    }

    /// Whether carrying out the plan touches any of the paths. Paths are
    /// compared by what they resolve to, so that two spellings of one file count
    /// as that file.
    pub fn overlaps(&self, paths: &Vec<String>, links: &Resolved) -> (r: bool)
        ensures
            r == exists|i: int|
                0 <= i < paths@.len() && touches(self@, links@, (#[trigger] paths@[i])@),
    {
        let mut i: usize = 0;
        while i < paths.len()
            invariant
                i <= paths.len(),
                forall|j: int|
                    0 <= j < i ==> !touches(self@, links@, (#[trigger] paths@[j])@),
            decreases paths.len() - i,
        {
            if self.touches_path(links, paths[i].as_str()) {
                return true;
            }
            i += 1;
        }
        false
    }
}

/// A plan that removes something overlaps its own files: whatever it unlinks, it
/// touches.
pub proof fn law_plan_touches_its_own_files(plan: DeletionView, pairs: Seq<(Seq<char>, Seq<char>)>, i: int)
    requires
        0 <= i < plan.files.len(),
    ensures
        touches(plan, pairs, plan.files[i]),
{
    assert(same_file(pairs, plan.files[i], plan.files[i]));
}

// --- carrying a plan out -----------------------------------------------------

/// One step of a deletion.
#[derive(Debug)]
pub enum Removal {
    /// Unlink a file; one that is gone already is no failure.
    File(String),
    /// Remove a directory with all that it holds; one that is gone already is no
    /// failure.
    Tree(String),
    /// Remove a directory where it is empty; whatever comes of it.
    IfEmpty(String),
    /// Remove the husk with all that it holds, where the directories that it
    /// depends on are absent or empty; whatever comes of it.
    Husk,
    Done,
}

pub enum RemovalView {
    File(Seq<char>),
    Tree(Seq<char>),
    IfEmpty(Seq<char>),
    Husk,
    Done,
}

impl View for Removal {
    type V = RemovalView;

    open spec fn view(&self) -> RemovalView {
        match self {
            Removal::File(p) => RemovalView::File(p@),
            Removal::Tree(p) => RemovalView::Tree(p@),
            Removal::IfEmpty(p) => RemovalView::IfEmpty(p@),
            Removal::Husk => RemovalView::Husk,
            Removal::Done => RemovalView::Done,
        }
    }
}

impl DeletionView {
    /// Step `k` of the deletion: the files, then the trees, then the directories
    /// that may have emptied, then the husk.
    pub open spec fn step(self, k: int) -> RemovalView {
        let t = k - self.files.len();
        let e = t - self.trees.len();
        if 0 <= k < self.files.len() {
            RemovalView::File(self.files[k])
        } else if 0 <= t < self.trees.len() {
            RemovalView::Tree(self.trees[t])
        } else if 0 <= e < self.prune.len() {
            RemovalView::IfEmpty(self.prune[e])
        } else if e == self.prune.len() && self.husk is Some {
            RemovalView::Husk
        } else {
            RemovalView::Done
        }
    }
}

impl Deletion {
    /// Step `k` of the deletion.
    pub fn execute_step(&self, k: usize) -> (r: Removal)
        ensures
            r@ == self@.step(k as int),
    {
        assert(strs(self.files@).len() == self.files@.len());
        assert(strs(self.trees@).len() == self.trees@.len());
        assert(strs(self.prune@).len() == self.prune@.len());
        if k < self.files.len() {
            assert(strs(self.files@)[k as int] == self.files@[k as int]@);
            return Removal::File(self.files[k].clone());
        }
        let t: usize = k - self.files.len();
        if t < self.trees.len() {
            assert(strs(self.trees@)[t as int] == self.trees@[t as int]@);
            return Removal::Tree(self.trees[t].clone());
        }
        let e: usize = t - self.trees.len();
        if e < self.prune.len() {
            assert(strs(self.prune@)[e as int] == self.prune@[e as int]@);
            return Removal::IfEmpty(self.prune[e].clone());
        }
        if e == self.prune.len() && self.husk.is_some() {
            Removal::Husk
        } else {
            Removal::Done
        }
    }
}

/// How a step ended.
#[derive(Debug)]
pub enum RemovalEnd {
    Removed,
    /// There was nothing to remove.
    NotFound,
    Failed(String),
}

/// Whether the deletion goes on after a step: what must go has gone, and whether
/// what may go has gone does not matter.
pub fn removal_outcome(step: &Removal, end: &RemovalEnd) -> (r: Result<(), String>)
    ensures
        match r {
            Ok(_) => !(step@ is File || step@ is Tree) || !(end is Failed),
            Err(e) => match (step@, *end) {
                (RemovalView::File(p), RemovalEnd::Failed(why)) => e@ == "removing "@ + p + ": "@
                    + why@,
                (RemovalView::Tree(p), RemovalEnd::Failed(why)) => e@ == "removing "@ + p + ": "@
                    + why@,
                _ => false,
            },
        },
{
    match (step, end) {
        (Removal::File(p), RemovalEnd::Failed(why)) => {
            let mut out = text::cat3("removing ", p.as_str(), ": ");
            out.append(why.as_str());
            Err(out)
        },
        (Removal::Tree(p), RemovalEnd::Failed(why)) => {
            let mut out = text::cat3("removing ", p.as_str(), ": ");
            out.append(why.as_str());
            Err(out)
        },
        _ => Ok(()),
    }
}

/// A deletion removes what its plan names and nothing else, in the order of the
/// plan, and comes to an end.
pub proof fn law_steps_follow_the_plan(d: DeletionView, k: int)
    requires
        0 <= k,
    ensures
        match d.step(k) {
            RemovalView::File(p) => d.files.contains(p),
            RemovalView::Tree(p) => d.trees.contains(p),
            RemovalView::IfEmpty(p) => d.prune.contains(p),
            RemovalView::Husk => d.husk is Some,
            RemovalView::Done => k >= d.files.len() + d.trees.len() + d.prune.len(),
        },
        k > d.files.len() + d.trees.len() + d.prune.len() ==> d.step(k) is Done,
{
}

/// A deletion reaches everything that its plan names: each file, each tree and each
/// directory that may have emptied has its step, and the husk comes last.
pub proof fn law_everything_planned_is_reached(d: DeletionView, i: int)
    ensures
        0 <= i < d.files.len() ==> d.step(i) == RemovalView::File(d.files[i]),
        0 <= i < d.trees.len() ==> d.step(d.files.len() + i) == RemovalView::Tree(d.trees[i]),
        0 <= i < d.prune.len() ==> d.step(d.files.len() + d.trees.len() + i)
            == RemovalView::IfEmpty(d.prune[i]),
        d.husk is Some ==> d.step((d.files.len() + d.trees.len() + d.prune.len()) as int) is Husk,
        d.husk is None ==> d.step((d.files.len() + d.trees.len() + d.prune.len()) as int) is Done,
{
}

/// A deletion touches the trees that it removes, with what lies in them.
pub proof fn law_plans_touch_their_trees(plan: DeletionView, pairs: Seq<(Seq<char>, Seq<char>)>, i: int, p: Seq<char>)
    requires
        0 <= i < plan.trees.len(),
        path::below(canonical(pairs, p), canonical(pairs, plan.trees[i])) is Some,
    ensures
        touches(plan, pairs, p),
{
    assert(in_tree(pairs, p, plan.trees[i]));
}

/// A link is seen through: a path that resolves to a planned file is touched, and one
/// that neither is a planned file nor lies in a planned tree is not.
pub proof fn law_links_are_seen_through(plan: DeletionView, pairs: Seq<(Seq<char>, Seq<char>)>, p: Seq<char>, i: int)
    ensures
        0 <= i < plan.files.len() && canonical(pairs, p) == canonical(pairs, plan.files[i])
            ==> touches(plan, pairs, p),
        plan.trees.len() == 0 && (forall|k: int|
            0 <= k < plan.files.len() ==> path::components(
                canonical(pairs, #[trigger] plan.files[k]),
            ) != path::components(canonical(pairs, p))) ==> !touches(plan, pairs, p),
{
    if 0 <= i < plan.files.len() && canonical(pairs, p) == canonical(pairs, plan.files[i]) {
        assert(same_file(pairs, plan.files[i], p));
    }
}

/// A path resolves to what the file system says of it, and to itself where it says
/// nothing.
pub proof fn law_paths_resolve_as_told(pairs: Seq<(Seq<char>, Seq<char>)>, p: Seq<char>, i: int)
    ensures
        0 <= i < pairs.len() && pairs[i].0 == p && (forall|k: int|
            0 <= k < i ==> (#[trigger] pairs[k]).0 != p) ==> canonical(pairs, p) == pairs[i].1,
        (forall|k: int| 0 <= k < pairs.len() ==> (#[trigger] pairs[k]).0 != p) ==> canonical(
            pairs,
            p,
        ) == p,
    decreases pairs.len(),
{
    if pairs.len() > 0 {
        law_paths_resolve_as_told(pairs.skip(1), p, i - 1);
        if pairs[0].0 != p {
            if 0 < i < pairs.len() {
                assert(pairs.skip(1)[i - 1] == pairs[i]);
            }
            assert forall|k: int| 0 <= k < pairs.len() - 1 implies #[trigger] pairs.skip(1)[k]
                == pairs[k + 1] by {}
        }
    }
}

} // verus!
