//! What unlinking files gives back.

use vstd::prelude::*;
use crate::path;

verus! {

/// A file that exists, as the file system describes it.
#[derive(Debug)]
pub struct LinkFact {
    pub symlink: bool,
    /// The path with every link resolved.
    pub canonical: String,
    pub device: u64,
    pub inode: u64,
    pub length: u64,
    /// How many names the file has.
    pub links: u64,
}

pub struct LinkView {
    pub symlink: bool,
    pub canonical: Seq<char>,
    pub device: u64,
    pub inode: u64,
    pub length: u64,
    pub links: u64,
}

impl View for LinkFact {
    type V = LinkView;

    open spec fn view(&self) -> LinkView {
        LinkView {
            symlink: self.symlink,
            canonical: self.canonical@,
            device: self.device,
            inode: self.inode,
            length: self.length,
            links: self.links,
        }
    }
}

/// The views of the files of a plan; one that does not exist has none.
pub open spec fn link_views(v: Seq<Option<LinkFact>>) -> Seq<Option<LinkView>> {
    v.map_values(
        |o: Option<LinkFact>|
            match o {
                Some(f) => Some(f@),
                None => None,
            },
    )
}

/// Whether file `i` of a plan counts: it exists, is no symbolic link, and was not
/// named before under another spelling.
pub open spec fn counts(files: Seq<Option<LinkView>>, i: int) -> bool {
    files[i] is Some && !files[i]->0.symlink && forall|j: int|
        0 <= j < i && (#[trigger] files[j]) is Some && !files[j]->0.symlink
            ==> path::components(files[j]->0.canonical) != path::components(
            files[i]->0.canonical,
        )
}

/// Whether two files of a plan are names of one file.
pub open spec fn same_inode(files: Seq<Option<LinkView>>, i: int, j: int) -> bool {
    files[i]->0.device == files[j]->0.device && files[i]->0.inode == files[j]->0.inode
}

/// How many of the first `n` files of a plan are names of file `i`.
pub open spec fn names_planned(files: Seq<Option<LinkView>>, i: int, n: nat) -> nat
    decreases n,
{
    if n == 0 {
        0
    } else {
        names_planned(files, i, (n - 1) as nat) + (if counts(files, n - 1) && same_inode(
            files,
            i,
            n - 1,
        ) {
            1nat
        } else {
            0
        })
    }
}

/// Whether file `i` is the first name of its file in the plan.
pub open spec fn first_name(files: Seq<Option<LinkView>>, i: int) -> bool {
    counts(files, i) && forall|j: int|
        0 <= j < i && #[trigger] counts(files, j) ==> !same_inode(files, j, i)
}

/// What the plan gives back of file `i`: its length, counted at its first name,
/// where the plan holds as many of its names as it has.
pub open spec fn freed_at(files: Seq<Option<LinkView>>, i: int) -> nat {
    if first_name(files, i) && names_planned(files, i, files.len()) >= files[i]->0.links {
        files[i]->0.length as nat
    } else {
        0
    }
}

/// What the plan gives back of its first `n` files.
pub open spec fn freed_upto(files: Seq<Option<LinkView>>, n: nat) -> nat
    decreases n,
{
    if n == 0 {
        0
    } else {
        freed_upto(files, (n - 1) as nat) + freed_at(files, n - 1)
    }
}

/// The lengths of the first `n` files together.
pub open spec fn lengths_upto(files: Seq<Option<LinkView>>, n: nat) -> nat
    decreases n,
{
    if n == 0 {
        0
    } else {
        lengths_upto(files, (n - 1) as nat) + match files[n - 1] {
            Some(f) => f.length as nat,
            None => 0,
        }
    }
}

/// A plan gives back no more than its files are long.
pub proof fn law_freed_is_bounded(files: Seq<Option<LinkView>>, n: nat)
    requires
        n <= files.len(),
    ensures
        freed_upto(files, n) <= lengths_upto(files, n),
    decreases n,
{
    if n > 0 {
        law_freed_is_bounded(files, (n - 1) as nat);
    }
}

proof fn lemma_freed_monotone(files: Seq<Option<LinkView>>, i: nat, n: nat)
    requires
        i <= n <= files.len(),
    ensures
        freed_upto(files, i) <= freed_upto(files, n),
    decreases n - i,
{
    if i < n {
        lemma_freed_monotone(files, i, (n - 1) as nat);
    }
}

fn file_counts(files: &Vec<Option<LinkFact>>, i: usize) -> (r: bool)
    requires
        i < files.len(),
    ensures
        r == counts(link_views(files@), i as int),
{
    let ghost all = link_views(files@);
    assert(all[i as int] == match files@[i as int] {
        Some(f) => Some(f@),
        None => None,
    });
    let f = match &files[i] {
        Some(f) => f,
        None => return false,
    };
    if f.symlink {
        return false;
    }
    let mut j: usize = 0;
    while j < i
        invariant
            j <= i < files.len(),
            all == link_views(files@),
            all[i as int] == Some(f@),
            forall|k: int|
                0 <= k < j && (#[trigger] all[k]) is Some && !all[k]->0.symlink
                    ==> path::components(all[k]->0.canonical) != path::components(f@.canonical),
        decreases i - j,
    {
        assert(all[j as int] == match files@[j as int] {
            Some(f) => Some(f@),
            None => None,
        });
        if let Some(g) = &files[j] {
            if !g.symlink && path::same(g.canonical.as_str(), f.canonical.as_str()) {
                return false;
            }
        }
        j += 1;
    }
    true
}

/// The space that unlinking the files of a plan gives back. A symbolic link costs
/// nothing, two spellings of one path are one file, and a file with several names
/// goes only with the last of them.
pub fn freed_bytes(files: &Vec<Option<LinkFact>>) -> (r: u64)
    requires
        freed_upto(link_views(files@), files@.len()) <= u64::MAX,
    ensures
        r == freed_upto(link_views(files@), files@.len()),
{
    match freed_if_fits(files) {
        Some(n) => n,
        None => 0,
    }
}

/// The space that unlinking the files of a plan gives back, where it fits in 64 bits.
pub fn freed_if_fits(files: &Vec<Option<LinkFact>>) -> (r: Option<u64>)
    ensures
        match r {
            Some(n) => freed_upto(link_views(files@), files@.len()) == n,
            None => freed_upto(link_views(files@), files@.len()) > u64::MAX,
        },
{
    let ghost all = link_views(files@);
    let n = files.len();
    let mut counted: Vec<bool> = Vec::new();
    let mut i: usize = 0;
    while i < n
        invariant
            n == files.len(),
            i <= n,
            all == link_views(files@),
            counted.len() == i,
            forall|j: int| 0 <= j < i ==> #[trigger] counted@[j] == counts(all, j),
        decreases n - i,
    {
        counted.push(file_counts(files, i));
        i += 1;
    }
    let mut total: u64 = 0;
    let mut k: usize = 0;
    while k < n
        invariant
            n == files.len(),
            k <= n,
            all == link_views(files@),
            all.len() == n,
            counted.len() == n,
            forall|j: int| 0 <= j < n ==> #[trigger] counted@[j] == counts(all, j),
            total == freed_upto(all, k as nat),
        decreases n - k,
    {
        assert(all[k as int] == match files@[k as int] {
            Some(f) => Some(f@),
            None => None,
        });
        proof {
            lemma_freed_monotone(all, (k + 1) as nat, n as nat);
        }
        if counted[k] {
            if let Some(f) = &files[k] {
                let mut first = true;
                let mut planned: u64 = 0;
                let mut j: usize = 0;
                while j < n
                    invariant
                        n == files.len(),
                        j <= n,
                        k < n,
                        all == link_views(files@),
                        all.len() == n,
                        counted.len() == n,
                        all[k as int] == Some(f@),
                        forall|j: int| 0 <= j < n ==> #[trigger] counted@[j] == counts(all, j),
                        planned == names_planned(all, k as int, j as nat),
                        planned <= j,
                        first == (forall|m: int|
                            0 <= m < k && m < j && #[trigger] counts(all, m) ==> !same_inode(
                                all,
                                m,
                                k as int,
                            )),
                    decreases n - j,
                {
                    assert(all[j as int] == match files@[j as int] {
                        Some(f) => Some(f@),
                        None => None,
                    });
                    if counted[j] {
                        if let Some(g) = &files[j] {
                            if g.device == f.device && g.inode == f.inode {
                                assert(same_inode(all, j as int, k as int));
                                assert(counts(all, j as int));
                                planned = planned + 1;
                                if j < k {
                                    first = false;
                                }
                            }
                        }
                    }
                    j += 1;
                }
                if first && planned >= f.links {
                    if f.length > u64::MAX - total {
                        return None;
                    }
                    total = total + f.length;
                }
            }
        }
        k += 1;
    }
    Some(total)
}

/// The first `n` lengths together.
pub open spec fn total_of(lengths: Seq<u64>, n: nat) -> nat
    decreases n,
{
    if n == 0 {
        0
    } else {
        total_of(lengths, (n - 1) as nat) + lengths[n - 1] as nat
    }
}

proof fn lemma_total_monotone(lengths: Seq<u64>, i: nat, n: nat)
    requires
        i <= n,
    ensures
        total_of(lengths, i) <= total_of(lengths, n),
    decreases n,
{
    if i < n {
        lemma_total_monotone(lengths, i, (n - 1) as nat);
    }
}

/// The size of a directory tree, from the lengths of the regular files in it.
pub fn tree_bytes(lengths: &Vec<u64>) -> (r: u64)
    requires
        total_of(lengths@, lengths@.len()) <= u64::MAX,
    ensures
        r == total_of(lengths@, lengths@.len()),
{
    let mut total: u64 = 0;
    let mut i: usize = 0;
    while i < lengths.len()
        invariant
            i <= lengths.len(),
            total == total_of(lengths@, i as nat),
            total_of(lengths@, lengths@.len()) <= u64::MAX,
        decreases lengths.len() - i,
    {
        proof {
            lemma_total_monotone(lengths@, (i + 1) as nat, lengths@.len());
        }
        total = total + lengths[i];
        i += 1;
    }
    total
}

proof fn lemma_counts_prefix(files: Seq<Option<LinkView>>, more: Option<LinkView>, i: int)
    requires
        0 <= i < files.len(),
    ensures
        counts(files.push(more), i) == counts(files, i),
{
    let all = files.push(more);
    assert(all[i] == files[i]);
    if counts(files, i) {
        assert forall|j: int|
            0 <= j < i && (#[trigger] all[j]) is Some && !all[j]->0.symlink implies path::components(
            all[j]->0.canonical,
        ) != path::components(all[i]->0.canonical) by {
            assert(all[j] == files[j]);
        }
    }
    if counts(all, i) {
        assert forall|j: int|
            0 <= j < i && (#[trigger] files[j]) is Some && !files[j]->0.symlink implies path::components(
            files[j]->0.canonical,
        ) != path::components(files[i]->0.canonical) by {
            assert(all[j] == files[j]);
        }
    }
}

proof fn lemma_names_prefix(files: Seq<Option<LinkView>>, more: Option<LinkView>, i: int, n: nat)
    requires
        0 <= i < files.len(),
        n <= files.len(),
    ensures
        names_planned(files.push(more), i, n) == names_planned(files, i, n),
    decreases n,
{
    if n > 0 {
        lemma_names_prefix(files, more, i, (n - 1) as nat);
        lemma_counts_prefix(files, more, n - 1);
        assert(files.push(more)[n - 1] == files[n - 1]);
        assert(files.push(more)[i] == files[i]);
    }
}

proof fn lemma_freed_prefix(files: Seq<Option<LinkView>>, more: LinkView, n: nat)
    requires
        n <= files.len(),
        forall|j: int|
            0 <= j < files.len() && (#[trigger] files[j]) is Some ==> files[j]->0.device
                != more.device || files[j]->0.inode != more.inode,
    ensures
        freed_upto(files.push(Some(more)), n) == freed_upto(files, n),
    decreases n,
{
    if n > 0 {
        let all = files.push(Some(more));
        let i = n - 1;
        lemma_freed_prefix(files, more, (n - 1) as nat);
        lemma_counts_prefix(files, Some(more), i);
        lemma_names_prefix(files, Some(more), i, files.len());
        assert(all[i] == files[i]);
        assert(first_name(all, i) == first_name(files, i)) by {
            assert forall|j: int| 0 <= j < i implies #[trigger] counts(all, j) == counts(files, j)
                && same_inode(all, j, i) == same_inode(files, j, i) by {
                lemma_counts_prefix(files, Some(more), j);
                assert(all[j] == files[j]);
            }
            if first_name(files, i) {
                assert forall|j: int| 0 <= j < i && #[trigger] counts(all, j) implies !same_inode(
                    all,
                    j,
                    i,
                ) by {
                    assert(counts(files, j));
                }
            }
            if first_name(all, i) {
                assert forall|j: int| 0 <= j < i && #[trigger] counts(files, j) implies !same_inode(
                    files,
                    j,
                    i,
                ) by {
                    assert(counts(all, j));
                }
            }
        }
        if counts(files, i) {
            assert(all[files.len() as int] == Some(more));
            assert(!same_inode(all, i, files.len() as int));
            assert(names_planned(all, i, all.len()) == names_planned(all, i, files.len()));
        }
    }
}

/// A file of its own, with no other name, gives back its whole length; a symbolic link
/// gives back nothing, and neither does a file that keeps a name elsewhere.
pub proof fn law_a_file_gives_back_its_length(files: Seq<Option<LinkView>>, more: LinkView)
    requires
        forall|j: int|
            0 <= j < files.len() && (#[trigger] files[j]) is Some ==> (files[j]->0.device
                != more.device || files[j]->0.inode != more.inode) && path::components(
                files[j]->0.canonical,
            ) != path::components(more.canonical),
    ensures
        freed_upto(files.push(Some(more)), files.len() + 1) == freed_upto(files, files.len()) + if
            !more.symlink && more.links <= 1 {
            more.length as nat
        } else {
            0nat
        },
{
    let all = files.push(Some(more));
    let n = files.len();
    lemma_freed_prefix(files, more, n);
    assert(all[n as int] == Some(more));
    if !more.symlink {
        assert(counts(all, n as int)) by {
            assert forall|j: int|
                0 <= j < n && (#[trigger] all[j]) is Some && !all[j]->0.symlink implies path::components(
                all[j]->0.canonical,
            ) != path::components(all[n as int]->0.canonical) by {
                assert(all[j] == files[j]);
            }
        }
        assert(first_name(all, n as int)) by {
            assert forall|j: int| 0 <= j < n && #[trigger] counts(all, j) implies !same_inode(
                all,
                j,
                n as int,
            ) by {
                assert(all[j] == files[j]);
            }
        }
        lemma_no_names(all, n as int, n);
        assert(names_planned(all, n as int, n + 1) == 1);
        assert(all.len() == n + 1);
    } else {
        assert(!counts(all, n as int));
    }
}

proof fn lemma_no_names(all: Seq<Option<LinkView>>, i: int, n: nat)
    requires
        n <= i < all.len(),
        all[i] is Some,
        forall|j: int|
            0 <= j < n && (#[trigger] all[j]) is Some ==> all[j]->0.device != all[i]->0.device
                || all[j]->0.inode != all[i]->0.inode,
    ensures
        names_planned(all, i, n) == 0,
    decreases n,
{
    if n > 0 {
        assert(all[n - 1] == all[n - 1]);
        lemma_no_names(all, i, (n - 1) as nat);
    }
}

} // verus!
