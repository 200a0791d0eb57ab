//! Companions on disk: a multi-token-prediction head, a block drafter or a projector
//! in the directory of a model belongs to it.

use vstd::prelude::*;
use crate::discovery::online::companions;
use crate::discovery::online::companions::{
    best, dflash_ranks, directory_of, is_dflash, is_mtp, is_projector, law_best_is_unbeaten,
    mtp_ranks, projector_ranks,
};
use crate::domain::{views, Model, ModelView};
use crate::path;
use crate::text;
use crate::text::{opt, strs};

verus! {

/// A companion that was found, with the block size that the header of a drafter
/// names.
#[derive(Debug)]
pub struct Companion {
    pub path: String,
    pub block_size: Option<u64>,
}

/// The paths of companions.
pub open spec fn companion_paths(v: Seq<Companion>) -> Seq<Seq<char>> {
    v.map_values(|c: Companion| c.path@)
}

/// The block size of the first companion with a path, from `from` on.
pub open spec fn block_size_of(v: Seq<Companion>, p: Seq<char>, from: int) -> Option<u64>
    decreases v.len() - from,
{
    if from < 0 || from >= v.len() {
        None
    } else if v[from].path@ == p {
        v[from].block_size
    } else {
        block_size_of(v, p, from + 1)
    }
}

/// Those of the first `n` files that are in the directory of a file, in order.
pub open spec fn beside(file: Seq<char>, files: Seq<Seq<char>>, n: nat) -> Seq<Seq<char>>
    decreases n,
{
    if n == 0 {
        Seq::<Seq<char>>::empty()
    } else {
        let rest = beside(file, files, (n - 1) as nat);
        if directory_of(files[n - 1]) == directory_of(file) {
            rest.push(files[n - 1])
        } else {
            rest
        }
    }
}

/// The names of files.
pub open spec fn tails(files: Seq<Seq<char>>) -> Seq<Seq<char>> {
    files.map_values(|f: Seq<char>| path::tail(f))
}

/// The file at an index, where there is one.
pub open spec fn chosen(files: Seq<Seq<char>>, at: Option<int>) -> Option<Seq<char>> {
    match at {
        Some(i) => Some(files[i]),
        None => None,
    }
}

/// The head that belongs to a model file, out of those beside it.
pub open spec fn head_of(file: Seq<char>, near: Seq<Seq<char>>) -> Option<Seq<char>> {
    chosen(near, best(tails(near), mtp_ranks(path::tail(file), tails(near)), near.len()))
}

/// The projector that belongs to a model file, out of those beside it.
pub open spec fn projector_of(near: Seq<Seq<char>>) -> Option<Seq<char>> {
    chosen(near, best(tails(near), projector_ranks(tails(near)), near.len()))
}

/// The block drafter that belongs to a model file, out of those beside it.
pub open spec fn drafter_of(near: Seq<Seq<char>>) -> Option<Seq<char>> {
    chosen(near, best(tails(near), dflash_ranks(tails(near)), near.len()))
}

/// A model with the companions beside its file. A model without a file has none.
pub open spec fn paired(m: ModelView, found: Seq<Companion>) -> ModelView {
    if m.path.len() == 0 {
        m
    } else {
        let files = companion_paths(found);
        let near = beside(m.path, files, files.len());
        ModelView {
            mtp_path: head_of(m.path, near),
            dflash_path: drafter_of(near),
            dflash_block_size: match drafter_of(near) {
                Some(p) => block_size_of(found, p, 0),
                None => None,
            },
            projector_path: projector_of(near),
            ..m
        }
    }
}

fn files_beside(file: &str, files: &Vec<Companion>) -> (r: Vec<String>)
    ensures
        strs(r@) == beside(file@, companion_paths(files@), files@.len()),
{
    let dir = companions::parent_path(file);
    let ghost all = companion_paths(files@);
    let mut out: Vec<String> = Vec::new();
    let mut i: usize = 0;
    assert(strs(out@) =~= Seq::<Seq<char>>::empty());
    while i < files.len()
        invariant
            i <= files.len(),
            all == companion_paths(files@),
            dir@ == directory_of(file@),
            strs(out@) == beside(file@, all, i as nat),
        decreases files.len() - i,
    {
        assert(all[i as int] == files@[i as int].path@);
        if text::same(companions::parent_path(files[i].path.as_str()).as_str(), dir.as_str()) {
            let ghost before = strs(out@);
            out.push(files[i].path.clone());
            assert(strs(out@) =~= before.push(all[i as int]));
        }
        i += 1;
    }
    out
}

fn names_of(files: &Vec<String>) -> (r: Vec<String>)
    ensures
        strs(r@) == tails(strs(files@)),
{
    let mut out: Vec<String> = Vec::new();
    let mut i: usize = 0;
    while i < files.len()
        invariant
            i <= files.len(),
            out.len() == i,
            forall|j: int| 0 <= j < i ==> (#[trigger] out@[j])@ == path::tail(files@[j]@),
        decreases files.len() - i,
    {
        out.push(path::last_piece(files[i].as_str()));
        i += 1;
    }
    assert(strs(out@) =~= tails(strs(files@)));
    out
}

fn pick(files: &Vec<String>, at: Option<usize>) -> (r: Option<String>)
    requires
        at is Some ==> at->0 < files.len(),
    ensures
        opt(r) == chosen(
            strs(files@),
            match at {
                Some(i) => Some(i as int),
                None => None,
            },
        ),
{
    match at {
        Some(i) => Some(files[i].clone()),
        None => None,
    }
}

fn find_block_size(found: &Vec<Companion>, p: &Option<String>) -> (r: Option<u64>)
    ensures
        r == match opt(*p) {
            Some(path) => block_size_of(found@, path, 0),
            None => None,
        },
{
    let file = match p {
        Some(file) => file,
        None => return None,
    };
    let mut i: usize = 0;
    while i < found.len()
        invariant
            i <= found.len(),
            opt(*p) == Some(file@),
            block_size_of(found@, file@, 0) == block_size_of(found@, file@, i as int),
        decreases found.len() - i,
    {
        if text::same(found[i].path.as_str(), file.as_str()) {
            return found[i].block_size;
        }
        i += 1;
    }
    None
}

/// Pairs models with the companions beside their files. `files` are the companions
/// that were found.
pub fn pair_companions(models: &mut Vec<Model>, files: &Vec<Companion>)
    ensures
        views(final(models)@) == views(old(models)@).map_values(
            |m: ModelView| paired(m, files@),
        ),
{
    let ghost start = views(models@);
    let ghost want = start.map_values(|m: ModelView| paired(m, files@));
    let n = models.len();
    let mut k: usize = 0;
    while k < n
        invariant
            n == models.len(),
            k <= n,
            start.len() == n,
            want == start.map_values(|m: ModelView| paired(m, files@)),
            forall|j: int| 0 <= j < k ==> (#[trigger] models@[j])@ == want[j],
            forall|j: int| k <= j < n ==> (#[trigger] models@[j])@ == start[j],
        decreases n - k,
    {
        assert(models@[k as int]@ == start[k as int]);
        if text::length(models[k].path.as_str()) > 0 {
            let mut model = models[k].clone();
            let near = files_beside(model.path.as_str(), files);
            let names = names_of(&near);
            assert(strs(near@).len() == near@.len());
            assert(strs(names@).len() == names@.len());
            let base = path::last_piece(model.path.as_str());
            let head = companions::matching_mtp_companion(base.as_str(), &names);
            let projector = companions::matching_projector_companion(&names);
            let drafter = companions::matching_dflash_companion(&names);
            model.mtp_path = pick(&near, head);
            model.dflash_path = pick(&near, drafter);
            model.dflash_block_size = find_block_size(files, &model.dflash_path);
            model.projector_path = pick(&near, projector);
            assert(companion_paths(files@).len() == files@.len());
            assert(model@ == paired(start[k as int], files@));
            models[k] = model;
        }
        k += 1;
    }
    assert(views(models@) =~= want);
}

// --- laws --------------------------------------------------------------------

proof fn lemma_beside(file: Seq<char>, files: Seq<Seq<char>>, n: nat)
    requires
        n <= files.len(),
    ensures
        forall|k: int|
            0 <= k < beside(file, files, n).len() ==> directory_of(
                #[trigger] beside(file, files, n)[k],
            ) == directory_of(file) && files.contains(beside(file, files, n)[k]),
    decreases n,
{
    if n > 0 {
        lemma_beside(file, files, (n - 1) as nat);
        let rest = beside(file, files, (n - 1) as nat);
        let all = beside(file, files, n);
        assert forall|k: int| 0 <= k < all.len() implies directory_of(#[trigger] all[k])
            == directory_of(file) && files.contains(all[k]) by {
            if k < rest.len() {
                assert(all[k] == rest[k]);
            } else {
                assert(all[k] == files[n - 1]);
            }
        }
    }
}

/// A companion of a model is one of those found, in the directory of the model's
/// file; nothing else of the model changes that tells it apart.
pub proof fn law_companions_are_beside_their_model(m: ModelView, found: Seq<Companion>)
    requires
        m.path.len() > 0,
    ensures
        ({
            let files = companion_paths(found);
            let p = paired(m, found);
            &&& p.mtp_path is Some ==> files.contains(p.mtp_path->0) && directory_of(
                p.mtp_path->0,
            ) == directory_of(m.path)
            &&& p.dflash_path is Some ==> files.contains(p.dflash_path->0) && directory_of(
                p.dflash_path->0,
            ) == directory_of(m.path)
            &&& p.projector_path is Some ==> files.contains(p.projector_path->0) && directory_of(
                p.projector_path->0,
            ) == directory_of(m.path)
            &&& p.id == m.id && p.path == m.path && p.catalog_path == m.catalog_path
        }),
{
    let files = companion_paths(found);
    let near = beside(m.path, files, files.len());
    lemma_beside(m.path, files, files.len());
    let names = tails(near);
    companions::law_best_is_unbeaten(names, mtp_ranks(path::tail(m.path), names), near.len());
    companions::law_best_is_unbeaten(names, dflash_ranks(names), near.len());
    companions::law_best_is_unbeaten(names, projector_ranks(names), near.len());
}

proof fn lemma_beside_finds(file: Seq<char>, files: Seq<Seq<char>>, n: nat, i: int)
    requires
        0 <= i < n <= files.len(),
        directory_of(files[i]) == directory_of(file),
    ensures
        beside(file, files, n).contains(files[i]),
    decreases n,
{
    let rest = beside(file, files, (n - 1) as nat);
    let all = beside(file, files, n);
    if i == n - 1 {
        assert(all[all.len() - 1] == files[i]);
    } else {
        lemma_beside_finds(file, files, (n - 1) as nat, i);
        let k = choose|k: int| 0 <= k < rest.len() && rest[k] == files[i];
        assert(all[k] == files[i]);
    }
}

proof fn lemma_tail_twice(f: Seq<char>)
    ensures
        path::tail(path::tail(f)) == path::tail(f),
{
    path::lemma_tail_has_no_separator(f);
    let t = path::tail(f);
    lemma_no_separator(t);
    assert(t.skip(0) =~= t);
}

proof fn lemma_no_separator(s: Seq<char>)
    requires
        !s.contains('/'),
    ensures
        path::last_separator(s) == -1,
    decreases s.len(),
{
    if s.len() > 0 {
        assert(s.contains(s[s.len() - 1]));
        assert forall|i: int| 0 <= i < s.drop_last().len() implies s.drop_last()[i] != '/' by {
            assert(s.contains(s[i]));
        }
        lemma_no_separator(s.drop_last());
    }
}

/// A companion is of its kind: a head is named like one, and so are a block drafter and
/// a projector.
pub proof fn law_companions_are_of_their_kind(m: ModelView, found: Seq<Companion>)
    requires
        m.path.len() > 0,
    ensures
        ({
            let p = paired(m, found);
            &&& p.mtp_path is Some ==> is_mtp(p.mtp_path->0)
            &&& p.dflash_path is Some ==> is_dflash(p.dflash_path->0)
            &&& p.projector_path is Some ==> is_projector(p.projector_path->0)
        }),
{
    let files = companion_paths(found);
    let near = beside(m.path, files, files.len());
    let names = tails(near);
    law_best_is_unbeaten(names, mtp_ranks(path::tail(m.path), names), near.len());
    law_best_is_unbeaten(names, dflash_ranks(names), near.len());
    law_best_is_unbeaten(names, projector_ranks(names), near.len());
    assert forall|i: int| 0 <= i < near.len() implies path::tail(#[trigger] names[i]) == path::tail(
        near[i],
    ) by {
        lemma_tail_twice(near[i]);
    }
}

/// A block drafter or a projector beside a model's file is paired with it, whichever it
/// is where there are several; and a head is where one beside it is for the model.
pub proof fn law_companions_are_not_left_alone(m: ModelView, found: Seq<Companion>, i: int)
    requires
        m.path.len() > 0,
        0 <= i < found.len(),
        directory_of(found[i].path@) == directory_of(m.path),
    ensures
        is_dflash(found[i].path@) ==> paired(m, found).dflash_path is Some,
        is_projector(found[i].path@) ==> paired(m, found).projector_path is Some,
        mtp_ranks(path::tail(m.path), seq![path::tail(found[i].path@)])[0] is Some ==> paired(
            m,
            found,
        ).mtp_path is Some,
{
    let files = companion_paths(found);
    assert(files[i] == found[i].path@);
    let near = beside(m.path, files, files.len());
    let names = tails(near);
    lemma_beside_finds(m.path, files, files.len(), i);
    let k = choose|k: int| 0 <= k < near.len() && near[k] == files[i];
    lemma_tail_twice(near[k]);
    law_best_is_unbeaten(names, mtp_ranks(path::tail(m.path), names), near.len());
    law_best_is_unbeaten(names, dflash_ranks(names), near.len());
    law_best_is_unbeaten(names, projector_ranks(names), near.len());
    assert(names[k] == path::tail(files[i]));
    assert(dflash_ranks(names)[k] is Some == is_dflash(files[i]));
    assert(projector_ranks(names)[k] is Some == is_projector(files[i]));
    assert(mtp_ranks(path::tail(m.path), names)[k] == mtp_ranks(
        path::tail(m.path),
        seq![path::tail(files[i])],
    )[0]);
}

proof fn lemma_block_size(v: Seq<Companion>, p: Seq<char>, from: int, i: int)
    requires
        0 <= from <= i < v.len(),
        v[i].path@ == p,
        forall|k: int| 0 <= k < i ==> (#[trigger] v[k]).path@ != p,
    ensures
        block_size_of(v, p, from) == v[i].block_size,
    decreases i - from,
{
    if from < i {
        lemma_block_size(v, p, from + 1, i);
    }
}

/// The block size of a model's drafter is the one that the drafter itself states.
pub proof fn law_block_sizes_are_those_of_the_drafter(m: ModelView, found: Seq<Companion>, i: int)
    requires
        m.path.len() > 0,
        0 <= i < found.len(),
        paired(m, found).dflash_path == Some(found[i].path@),
        forall|k: int| 0 <= k < i ==> (#[trigger] found[k]).path@ != found[i].path@,
    ensures
        paired(m, found).dflash_block_size == found[i].block_size,
{
    lemma_block_size(found, found[i].path@, 0, i);
}

/// What is not on disk is left alone, and pairing changes nothing but the companions.
pub proof fn law_pairing_changes_only_companions(m: ModelView, found: Seq<Companion>)
    ensures
        m.path.len() == 0 ==> paired(m, found) == m,
        ({
            let p = paired(m, found);
            p == (ModelView {
                mtp_path: p.mtp_path,
                dflash_path: p.dflash_path,
                dflash_block_size: p.dflash_block_size,
                projector_path: p.projector_path,
                ..m
            })
        }),
{
}

} // verus!
