//! Text: the operations on strings that the rest of the library is stated over.

use vstd::prelude::*;

verus! {

/// Two strings are equal exactly when they hold the same characters.
pub assume_specification[ <str as PartialEq>::eq ](a: &str, b: &str) -> (r: bool)
    ensures
        r == (a@ == b@),
;

/// `String::push` appends one character.
pub assume_specification[ String::push ](s: &mut String, c: char)
    ensures
        final(s)@ == old(s)@.push(c),
;

/// `String::pop` removes and returns the last character, if there is one.
pub assume_specification[ String::pop ](s: &mut String) -> (r: Option<char>)
    ensures
        old(s)@.len() == 0 ==> r is None && final(s)@ == old(s)@,
        old(s)@.len() > 0 ==> r == Some(old(s)@.last()) && final(s)@ == old(s)@.drop_last(),
;

/// The characters of a string, in order.
pub fn chars(s: &str) -> (r: Vec<char>)
    ensures
        r@ == s@,
{
    let mut out: Vec<char> = Vec::new();
    for c in it: s.chars()
        invariant
            it.seq() == s@,
            out@ == s@.take(it.index() as int),
    {
        out.push(c);
        assert(out@ =~= s@.take(it.index() + 1));
    }
    out
}

/// The string that holds exactly the given characters.
pub fn text(cs: &[char]) -> (r: String)
    ensures
        r@ == cs@,
{
    let mut out = String::new();
    let mut i: usize = 0;
    while i < cs.len()
        invariant
            i <= cs.len(),
            out@ == cs@.take(i as int),
        decreases cs.len() - i,
    {
        out.push(cs[i]);
        i += 1;
    }
    out
}

/// Whether two strings hold the same characters.
pub fn same(a: &str, b: &str) -> (r: bool)
    ensures
        r == (a@ == b@),
{
    *a == *b
}


/// The characters of each string of a list.
pub open spec fn strs(v: Seq<String>) -> Seq<Seq<char>> {
    v.map_values(|s: String| s@)
}

/// The characters of an optional string.
pub open spec fn opt(o: Option<String>) -> Option<Seq<char>> {
    match o {
        Some(s) => Some(s@),
        None => None,
    }
}

/// The characters of each optional string of a list.
pub open spec fn opts(v: Seq<Option<String>>) -> Seq<Option<Seq<char>>> {
    v.map_values(|o: Option<String>| opt(o))
}

/// A copy of a borrowed string.
pub fn copy(s: &str) -> (r: String)
    ensures
        r@ == s@,
{
    s.to_owned()
}

/// A copy of an optional string.
pub fn copy_opt(o: &Option<String>) -> (r: Option<String>)
    ensures
        opt(r) == opt(*o),
{
    match o {
        Some(s) => Some(s.clone()),
        None => None,
    }
}

/// A copy of a list of strings.
pub fn copy_all(v: &Vec<String>) -> (r: Vec<String>)
    ensures
        strs(r@) == strs(v@),
{
    let mut out: Vec<String> = Vec::new();
    let mut i: usize = 0;
    while i < v.len()
        invariant
            i <= v.len(),
            out.len() == i,
            forall|j: int| 0 <= j < i ==> out@[j]@ == v@[j]@,
        decreases v.len() - i,
    {
        out.push(v[i].clone());
        i += 1;
    }
    assert(strs(out@) =~= strs(v@));
    out
}

/// Two strings put one after the other.
pub fn cat(a: &str, b: &str) -> (r: String)
    ensures
        r@ == a@ + b@,
{
    let mut out = a.to_owned();
    out.append(b);
    out
}

/// Three strings put one after the other.
pub fn cat3(a: &str, b: &str, c: &str) -> (r: String)
    ensures
        r@ == a@ + b@ + c@,
{
    let mut out = a.to_owned();
    out.append(b);
    out.append(c);
    out
}

/// Whether two lists hold the same texts in the same order.
pub fn same_list(a: &Vec<String>, b: &Vec<String>) -> (r: bool)
    ensures
        r == (strs(a@) == strs(b@)),
{
    let ghost x = strs(a@);
    let ghost y = strs(b@);
    if a.len() != b.len() {
        assert(x.len() != y.len());
        return false;
    }
    let mut i: usize = 0;
    while i < a.len()
        invariant
            a.len() == b.len(),
            i <= a.len(),
            x == strs(a@),
            y == strs(b@),
            forall|j: int| 0 <= j < i ==> x[j] == y[j],
        decreases a.len() - i,
    {
        assert(x[i as int] == a@[i as int]@ && y[i as int] == b@[i as int]@);
        if !same(a[i].as_str(), b[i].as_str()) {
            return false;
        }
        i += 1;
    }
    assert(x =~= y);
    true
}

/// Whether a list begins with another.
pub fn list_starts_with(a: &Vec<String>, p: &Vec<String>) -> (r: bool)
    ensures
        r == strs(p@).is_prefix_of(strs(a@)),
{
    let ghost x = strs(a@);
    let ghost y = strs(p@);
    if p.len() > a.len() {
        return false;
    }
    let mut i: usize = 0;
    while i < p.len()
        invariant
            p.len() <= a.len(),
            i <= p.len(),
            x == strs(a@),
            y == strs(p@),
            forall|j: int| 0 <= j < i ==> x[j] == y[j],
        decreases p.len() - i,
    {
        assert(x[i as int] == a@[i as int]@ && y[i as int] == p@[i as int]@);
        if !same(a[i].as_str(), p[i].as_str()) {
            assert(x.subrange(0, y.len() as int)[i as int] != y[i as int]);
            return false;
        }
        i += 1;
    }
    assert(y =~= x.subrange(0, y.len() as int));
    true
}

/// Whether a list holds a text.
pub fn list_contains(v: &Vec<String>, s: &str) -> (r: bool)
    ensures
        r == strs(v@).contains(s@),
{
    let ghost x = strs(v@);
    let mut i: usize = 0;
    while i < v.len()
        invariant
            i <= v.len(),
            x == strs(v@),
            forall|j: int| 0 <= j < i ==> x[j] != s@,
        decreases v.len() - i,
    {
        assert(x[i as int] == v@[i as int]@);
        if same(v[i].as_str(), s) {
            return true;
        }
        i += 1;
    }
    false
}

// --- searching ---------------------------------------------------------------

/// Whether `p` stands in `s` at position `i`.
pub open spec fn occurs_at(s: Seq<char>, p: Seq<char>, i: int) -> bool {
    0 <= i && i + p.len() <= s.len() && s.subrange(i, i + p.len()) == p
}

/// Whether `p` stands anywhere in `s`.
pub open spec fn has(s: Seq<char>, p: Seq<char>) -> bool {
    exists|i: int| occurs_at(s, p, i)
}

/// The first position at or after `from` at which `p` stands in `s`.
pub open spec fn find_from(s: Seq<char>, p: Seq<char>, from: int) -> Option<int>
    decreases s.len() + 1 - from,
{
    if from < 0 || from + p.len() > s.len() {
        None
    } else if occurs_at(s, p, from) {
        Some(from)
    } else {
        find_from(s, p, from + 1)
    }
}

/// A first position is a position, and none comes before it.
pub proof fn lemma_find_from(s: Seq<char>, p: Seq<char>, from: int)
    requires
        0 <= from,
    ensures
        match find_from(s, p, from) {
            Some(i) => from <= i && occurs_at(s, p, i) && forall|j: int|
                from <= j < i ==> !occurs_at(s, p, j),
            None => forall|j: int| from <= j ==> !occurs_at(s, p, j),
        },
    decreases s.len() + 1 - from,
{
    if from + p.len() <= s.len() && !occurs_at(s, p, from) {
        lemma_find_from(s, p, from + 1);
    }
}

/// `p` is found exactly when it stands in `s`.
pub proof fn lemma_find_has(s: Seq<char>, p: Seq<char>)
    ensures
        find_from(s, p, 0) is Some == has(s, p),
{
    lemma_find_from(s, p, 0);
    if has(s, p) {
        let i = choose|i: int| occurs_at(s, p, i);
        assert(occurs_at(s, p, i));
    }
}

/// Whether `p` stands in `cs` at `i`.
fn stands_at(cs: &Vec<char>, p: &Vec<char>, i: usize) -> (r: bool)
    requires
        i + p.len() <= cs.len(),
    ensures
        r == occurs_at(cs@, p@, i as int),
{
    let mut k: usize = 0;
    while k < p.len()
        invariant
            k <= p.len(),
            i + p.len() <= cs.len(),
            forall|j: int| 0 <= j < k ==> cs@[i + j] == p@[j],
        decreases p.len() - k,
    {
        if cs[i + k] != p[k] {
            proof {
                let sub = cs@.subrange(i as int, i + p@.len());
                assert(sub[k as int] == cs@[i + k]);
            }
            return false;
        }
        k += 1;
    }
    assert(cs@.subrange(i as int, i + p@.len()) =~= p@);
    true
}

/// The first position of `p` in `s`, counted in characters.
pub fn find(s: &str, p: &str) -> (r: Option<usize>)
    ensures
        match r {
            Some(i) => find_from(s@, p@, 0) == Some(i as int),
            None => find_from(s@, p@, 0) is None,
        },
{
    let cs = chars(s);
    let ps = chars(p);
    if ps.len() > cs.len() {
        return None;
    }
    let mut i: usize = 0;
    while i <= cs.len() - ps.len()
        invariant
            cs@ == s@,
            ps@ == p@,
            ps.len() <= cs.len(),
            i <= cs.len() - ps.len() + 1,
            find_from(s@, p@, 0) == find_from(s@, p@, i as int),
        decreases cs.len() - ps.len() + 1 - i,
    {
        if stands_at(&cs, &ps, i) {
            return Some(i);
        }
        if i == cs.len() - ps.len() {
            assert(find_from(s@, p@, i + 1) is None);
            return None;
        }
        i += 1;
    }
    None
}

/// Whether `p` stands anywhere in `s`.
pub fn contains(s: &str, p: &str) -> (r: bool)
    ensures
        r == has(s@, p@),
{
    proof {
        lemma_find_has(s@, p@);
    }
    find(s, p).is_some()
}

/// Whether `s` begins with `p`.
pub fn starts_with(s: &str, p: &str) -> (r: bool)
    ensures
        r == p@.is_prefix_of(s@),
{
    let cs = chars(s);
    let ps = chars(p);
    if ps.len() > cs.len() {
        return false;
    }
    stands_at(&cs, &ps, 0)
}

/// Whether `s` ends with `p`.
pub fn ends_with(s: &str, p: &str) -> (r: bool)
    ensures
        r == p@.is_suffix_of(s@),
{
    let cs = chars(s);
    let ps = chars(p);
    if ps.len() > cs.len() {
        return false;
    }
    stands_at(&cs, &ps, cs.len() - ps.len())
}

/// The characters of `s` from `from` up to and without `to`.
pub fn piece(s: &str, from: usize, to: usize) -> (r: String)
    requires
        from <= to <= s@.len(),
    ensures
        r@ == s@.subrange(from as int, to as int),
{
    s.substring_char(from, to).to_owned()
}

/// The number of characters of `s`.
pub fn length(s: &str) -> (r: usize)
    ensures
        r == s@.len(),
{
    s.unicode_len()
}

/// The text with each occurrence of `p` replaced by `with`, from the front.
pub open spec fn replaced_all(s: Seq<char>, p: Seq<char>, with: Seq<char>) -> Seq<char>
    decreases s.len(),
    via replaced_all_ends
{
    match find_from(s, p, 0) {
        Some(i) => if p.len() > 0 {
            s.take(i) + with + replaced_all(s.skip(i + p.len()), p, with)
        } else {
            s
        },
        None => s,
    }
}

#[via_fn]
proof fn replaced_all_ends(s: Seq<char>, p: Seq<char>, with: Seq<char>) {
    lemma_find_from(s, p, 0);
}

/// The text with each occurrence of `p` replaced by `with`.
pub fn replace(s: &str, p: &str, with: &str) -> (r: String)
    requires
        p@.len() > 0,
    ensures
        r@ == replaced_all(s@, p@, with@),
    decreases s@.len(),
{
    proof {
        lemma_find_from(s@, p@, 0);
    }
    match find(s, p) {
        None => copy(s),
        Some(i) => {
            let n = s.unicode_len();
            let k = p.unicode_len();
            let rest = piece(s, i + k, n);
            assert(rest@ =~= s@.skip(i + k));
            let head = piece(s, 0, i);
            assert(head@ =~= s@.take(i as int));
            cat3(head.as_str(), with, replace(rest.as_str(), p, with).as_str())
        },
    }
}

// --- splitting and joining ---------------------------------------------------

/// The pieces of `s` between the occurrences of `sep`.
pub open spec fn split(s: Seq<char>, sep: char) -> Seq<Seq<char>>
    decreases s.len(),
{
    if s.len() == 0 {
        seq![Seq::<char>::empty()]
    } else {
        let rest = split(s.drop_last(), sep);
        if s.last() == sep {
            rest.push(Seq::<char>::empty())
        } else {
            rest.drop_last().push(rest.last().push(s.last()))
        }
    }
}

/// The parts put together, with `sep` between each two.
pub open spec fn join(parts: Seq<Seq<char>>, sep: Seq<char>) -> Seq<char>
    decreases parts.len(),
{
    if parts.len() == 0 {
        Seq::<char>::empty()
    } else if parts.len() == 1 {
        parts[0]
    } else {
        join(parts.drop_last(), sep) + sep + parts.last()
    }
}

/// There is always at least one piece, and no piece holds the separator.
pub proof fn lemma_split_pieces(s: Seq<char>, sep: char)
    ensures
        split(s, sep).len() >= 1,
        forall|i: int| 0 <= i < split(s, sep).len() ==> !(#[trigger] split(s, sep)[i]).contains(sep),
    decreases s.len(),
{
    if s.len() > 0 {
        lemma_split_pieces(s.drop_last(), sep);
        let rest = split(s.drop_last(), sep);
        let all = split(s, sep);
        assert forall|i: int| 0 <= i < all.len() implies !(#[trigger] all[i]).contains(sep) by {
            if i < all.len() - 1 {
                assert(all[i] == rest[i]);
            } else if s.last() != sep {
                let p = rest.last();
                assert(all[i] == p.push(s.last()));
                if all[i].contains(sep) {
                    let k = choose|k: int| 0 <= k < all[i].len() && all[i][k] == sep;
                    assert(k < p.len());
                    assert(p[k] == sep);
                    assert(rest[rest.len() - 1].contains(sep));
                }
            }
        }
    }
}

/// Joining the pieces of a string with the separator gives the string back.
pub proof fn law_join_undoes_split(s: Seq<char>, sep: char)
    ensures
        join(split(s, sep), seq![sep]) == s,
    decreases s.len(),
{
    lemma_split_pieces(s, sep);
    if s.len() == 0 {
        assert(join(split(s, sep), seq![sep]) =~= s);
    } else {
        let t = s.drop_last();
        law_join_undoes_split(t, sep);
        lemma_split_pieces(t, sep);
        let rest = split(t, sep);
        let all = split(s, sep);
        if s.last() == sep {
            assert(all.drop_last() =~= rest);
            assert(join(all, seq![sep]) =~= s);
        } else {
            assert(all.drop_last() =~= rest.drop_last());
            if rest.len() == 1 {
                assert(join(all, seq![sep]) =~= rest[0].push(s.last()));
                assert(join(rest, seq![sep]) =~= rest[0]);
            } else {
                assert(join(rest, seq![sep]) == join(rest.drop_last(), seq![sep]) + seq![sep] + rest.last());
                assert(join(all, seq![sep]) == join(rest.drop_last(), seq![sep]) + seq![sep] + all.last());
            }
            assert(join(all, seq![sep]) =~= join(rest, seq![sep]).push(s.last()));
            assert(t.push(s.last()) =~= s);
        }
    }
}

/// The pieces of `s` between the occurrences of `sep`.
pub fn split_char(s: &str, sep: char) -> (r: Vec<String>)
    ensures
        strs(r@) == split(s@, sep),
{
    let cs = chars(s);
    let mut done: Vec<String> = Vec::new();
    let mut piece = String::new();
    let mut i: usize = 0;
    assert(strs(done@).push(piece@) =~= split(s@.take(0), sep));
    while i < cs.len()
        invariant
            cs@ == s@,
            i <= cs.len(),
            strs(done@).push(piece@) == split(s@.take(i as int), sep),
        decreases cs.len() - i,
    {
        let ghost before = strs(done@).push(piece@);
        proof {
            assert(s@.take(i + 1).drop_last() =~= s@.take(i as int));
            assert(before.drop_last() =~= strs(done@));
        }
        if cs[i] == sep {
            done.push(piece);
            piece = String::new();
            assert(strs(done@).push(piece@) =~= before.push(Seq::<char>::empty()));
        } else {
            piece.push(cs[i]);
            assert(strs(done@).push(piece@) =~= before.drop_last().push(before.last().push(s@[i as int])));
        }
        i += 1;
    }
    assert(s@.take(i as int) =~= s@);
    done.push(piece);
    assert(strs(done@) =~= split(s@, sep));
    done
}

/// The parts put together, with `sep` between each two.
pub fn join_all(parts: &Vec<String>, sep: &str) -> (r: String)
    ensures
        r@ == join(strs(parts@), sep@),
{
    let mut out = String::new();
    let mut i: usize = 0;
    assert(out@ =~= join(strs(parts@).take(0), sep@));
    while i < parts.len()
        invariant
            i <= parts.len(),
            out@ == join(strs(parts@).take(i as int), sep@),
        decreases parts.len() - i,
    {
        proof {
            let all = strs(parts@);
            assert(all.take(i + 1).drop_last() =~= all.take(i as int));
            assert(all.take(i + 1).last() == parts@[i as int]@);
            if i == 0 {
                assert(out@ + parts@[0]@ =~= parts@[0]@);
            }
        }
        if i > 0 {
            out.append(sep);
        }
        out.append(parts[i].as_str());
        i += 1;
    }
    assert(strs(parts@).take(i as int) =~= strs(parts@));
    out
}

/// A text is found where it stands first.
pub proof fn law_the_first_place_is_found(s: Seq<char>, p: Seq<char>, i: int)
    requires
        occurs_at(s, p, i),
        forall|j: int| 0 <= j < i ==> !occurs_at(s, p, j),
    ensures
        find_from(s, p, 0) == Some(i),
{
    lemma_find_from(s, p, 0);
}

/// Each of the parts that are put together is there.
pub proof fn law_joined_parts_are_there(parts: Seq<Seq<char>>, sep: Seq<char>, i: int)
    requires
        0 <= i < parts.len(),
    ensures
        has(join(parts, sep), parts[i]),
    decreases parts.len(),
{
    let all = join(parts, sep);
    if parts.len() == 1 {
        assert(all.subrange(0, all.len() as int) =~= parts[0]);
        assert(occurs_at(all, parts[i], 0));
    } else {
        let head = join(parts.drop_last(), sep);
        if i == parts.len() - 1 {
            let k = (head.len() + sep.len()) as int;
            assert(all.subrange(k, k + parts[i].len()) =~= parts[i]);
            assert(occurs_at(all, parts[i], k));
        } else {
            law_joined_parts_are_there(parts.drop_last(), sep, i);
            assert(parts.drop_last()[i] == parts[i]);
            let k = choose|k: int| occurs_at(head, parts[i], k);
            assert(all.subrange(k, k + parts[i].len()) =~= head.subrange(k, k + parts[i].len()));
            assert(occurs_at(all, parts[i], k));
        }
    }
}

} // verus!
