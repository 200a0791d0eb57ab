//! Unix paths as text: joining them, taking them apart, comparing them by their
//! components.

use vstd::prelude::*;
use crate::order;
use crate::text;

verus! {

/// The pieces that name something: neither empty nor a lone dot.
pub open spec fn named(pieces: Seq<Seq<char>>) -> Seq<Seq<char>>
    decreases pieces.len(),
{
    if pieces.len() == 0 {
        Seq::<Seq<char>>::empty()
    } else {
        let rest = named(pieces.drop_last());
        if pieces.last().len() == 0 || pieces.last() == seq!['.'] {
            rest
        } else {
            rest.push(pieces.last())
        }
    }
}

/// The named pieces of a path, in order.
pub open spec fn parts(s: Seq<char>) -> Seq<Seq<char>> {
    named(text::split(s, '/'))
}

/// Whether a path starts at the root.
pub open spec fn absolute(s: Seq<char>) -> bool {
    s.len() > 0 && s[0] == '/'
}

/// Whether a path starts with a lone dot.
pub open spec fn dotted(s: Seq<char>) -> bool {
    s == seq!['.'] || (s.len() >= 2 && s[0] == '.' && s[1] == '/')
}

/// The components of a path: the root or the leading dot, then the named pieces.
pub open spec fn components(s: Seq<char>) -> Seq<Seq<char>> {
    if absolute(s) {
        seq![seq!['/']] + parts(s)
    } else if dotted(s) {
        seq![seq!['.']] + parts(s)
    } else {
        parts(s)
    }
}

/// The components of `path` below `base`, where `path` lies at or below it.
pub open spec fn below(path: Seq<char>, base: Seq<char>) -> Option<Seq<Seq<char>>> {
    if components(base).is_prefix_of(components(path)) {
        Some(components(path).skip(components(base).len() as int))
    } else {
        None
    }
}

/// `rel` taken from the directory `base`: an absolute `rel` replaces it.
pub open spec fn joined(base: Seq<char>, rel: Seq<char>) -> Seq<char> {
    if absolute(rel) || base.len() == 0 {
        rel
    } else if base.last() == '/' {
        base + rel
    } else {
        base.push('/') + rel
    }
}

/// The parts taken from the directory `base`, one below the other.
pub open spec fn joined_all(base: Seq<char>, parts: Seq<Seq<char>>) -> Seq<char>
    decreases parts.len(),
{
    if parts.len() == 0 {
        base
    } else {
        joined(joined_all(base, parts.drop_last()), parts.last())
    }
}

/// The path without the separators and lone dots at its end.
pub open spec fn strip_tail(s: Seq<char>) -> Seq<char>
    decreases s.len(),
{
    if s.len() > 1 && s.last() == '/' {
        strip_tail(s.drop_last())
    } else if s.len() > 1 && s.last() == '.' && s[s.len() - 2] == '/' {
        strip_tail(s.drop_last())
    } else {
        s
    }
}

/// The path without the separators and lone dots at its start.
pub open spec fn strip_head(s: Seq<char>) -> Seq<char>
    decreases s.len(),
{
    if s.len() > 0 && (s[0] == '/' || (s[0] == '.' && (s.len() == 1 || s[1] == '/'))) {
        strip_head(s.skip(1))
    } else {
        s
    }
}

/// Where the last separator of a text stands, or -1.
pub open spec fn last_separator(s: Seq<char>) -> int
    decreases s.len(),
{
    if s.len() == 0 {
        -1
    } else if s.last() == '/' {
        s.len() - 1
    } else {
        last_separator(s.drop_last())
    }
}

/// What follows the last separator.
pub open spec fn tail(s: Seq<char>) -> Seq<char> {
    s.skip(last_separator(s) + 1)
}

/// The last component of a path, where it names something.
pub open spec fn base_name(s: Seq<char>) -> Option<Seq<char>> {
    let name = tail(strip_tail(s));
    if name.len() == 0 || name == seq!['.'] || name == seq!['.', '.'] {
        None
    } else {
        Some(name)
    }
}

/// The path without its last component, where it has one besides the root.
pub open spec fn parent_of(s: Seq<char>) -> Option<Seq<char>> {
    let t = strip_tail(s);
    let cut = last_separator(t);
    if t.len() == 0 || t == seq!['/'] {
        None
    } else if cut < 0 {
        Some(Seq::<char>::empty())
    } else if cut == 0 {
        Some(seq!['/'])
    } else {
        Some(strip_tail(t.take(cut)))
    }
}

/// Where the last dot of a text stands, or -1.
pub open spec fn last_dot(s: Seq<char>) -> int
    decreases s.len(),
{
    if s.len() == 0 {
        -1
    } else if s.last() == '.' {
        s.len() - 1
    } else {
        last_dot(s.drop_last())
    }
}

/// What follows the last dot of a file name, where something stands before it.
pub open spec fn extension_of(name: Seq<char>) -> Option<Seq<char>> {
    if last_dot(name) > 0 {
        Some(name.skip(last_dot(name) + 1))
    } else {
        None
    }
}

proof fn lemma_last_separator(s: Seq<char>)
    ensures
        -1 <= last_separator(s) < s.len(),
        last_separator(s) >= 0 ==> s[last_separator(s)] == '/',
        forall|i: int| last_separator(s) < i < s.len() ==> #[trigger] s[i] != '/',
    decreases s.len(),
{
    if s.len() > 0 && s.last() != '/' {
        lemma_last_separator(s.drop_last());
        assert forall|i: int| last_separator(s) < i < s.len() implies #[trigger] s[i] != '/' by {
            if i < s.len() - 1 {
                assert(s.drop_last()[i] == s[i]);
            }
        }
    }
}

/// What follows the last separator holds none.
pub proof fn lemma_tail_has_no_separator(s: Seq<char>)
    ensures
        !tail(s).contains('/'),
{
    lemma_last_separator(s);
    assert forall|i: int| 0 <= i < tail(s).len() implies tail(s)[i] != '/' by {
        assert(tail(s)[i] == s[i + last_separator(s) + 1]);
    }
}

// --- the same, computed ------------------------------------------------------

/// `rel` taken from the directory `base`.
pub fn join(base: &str, rel: &str) -> (r: String)
    ensures
        r@ == joined(base@, rel@),
{
    let n = base.unicode_len();
    if is_absolute(rel) || n == 0 {
        text::copy(rel)
    } else if base.get_char(n - 1) == '/' {
        text::cat(base, rel)
    } else {
        let mut out = text::copy(base);
        out.push('/');
        out.append(rel);
        out
    }
}

/// The parts taken from the directory `base`, one below the other.
pub fn join_all(base: &str, parts: &Vec<String>) -> (r: String)
    ensures
        r@ == joined_all(base@, text::strs(parts@)),
{
    let mut out = text::copy(base);
    let mut i: usize = 0;
    assert(out@ == joined_all(base@, text::strs(parts@).take(0)));
    while i < parts.len()
        invariant
            i <= parts.len(),
            out@ == joined_all(base@, text::strs(parts@).take(i as int)),
        decreases parts.len() - i,
    {
        proof {
            let all = text::strs(parts@);
            assert(all.take(i + 1).drop_last() =~= all.take(i as int));
            assert(all.take(i + 1).last() == parts@[i as int]@);
        }
        out = join(out.as_str(), parts[i].as_str());
        i += 1;
    }
    assert(text::strs(parts@).take(i as int) =~= text::strs(parts@));
    out
}

/// Whether a path starts at the root.
pub fn is_absolute(s: &str) -> (r: bool)
    ensures
        r == absolute(s@),
{
    s.unicode_len() > 0 && s.get_char(0) == '/'
}

/// The named pieces of a path, in order.
pub fn split_parts(s: &str) -> (r: Vec<String>)
    ensures
        text::strs(r@) == parts(s@),
{
    let pieces = text::split_char(s, '/');
    let ghost all = text::strs(pieces@);
    let mut out: Vec<String> = Vec::new();
    let mut i: usize = 0;
    assert(text::strs(out@) =~= named(all.take(0)));
    while i < pieces.len()
        invariant
            all == text::strs(pieces@),
            i <= pieces.len(),
            text::strs(out@) == named(all.take(i as int)),
        decreases pieces.len() - i,
    {
        proof {
            assert(all.take(i + 1).drop_last() =~= all.take(i as int));
            assert(all.take(i + 1).last() == pieces@[i as int]@);
            reveal_strlit(".");
            assert("."@ =~= seq!['.']);
        }
        let p = pieces[i].as_str();
        if p.unicode_len() > 0 && !text::same(p, ".") {
            let ghost before = text::strs(out@);
            out.push(text::copy(p));
            assert(text::strs(out@) =~= before.push(p@));
        }
        i += 1;
    }
    assert(all.take(i as int) =~= all);
    out
}

/// The components of a path.
pub fn split_components(s: &str) -> (r: Vec<String>)
    ensures
        text::strs(r@) == components(s@),
{
    let named_parts = split_parts(s);
    let n = s.unicode_len();
    let mut out: Vec<String> = Vec::new();
    proof {
        reveal_strlit("/");
        reveal_strlit(".");
        assert("/"@ =~= seq!['/']);
        assert("."@ =~= seq!['.']);
    }
    let dot = text::same(s, ".") || (n >= 2 && s.get_char(0) == '.' && s.get_char(1) == '/');
    if is_absolute(s) {
        out.push(text::copy("/"));
        assert(text::strs(out@) =~= seq![seq!['/']]);
    } else if dot {
        out.push(text::copy("."));
        assert(text::strs(out@) =~= seq![seq!['.']]);
    } else {
        assert(text::strs(out@) =~= Seq::<Seq<char>>::empty());
    }
    let ghost head = text::strs(out@);
    let mut i: usize = 0;
    while i < named_parts.len()
        invariant
            i <= named_parts.len(),
            text::strs(out@) =~= head + text::strs(named_parts@).take(i as int),
        decreases named_parts.len() - i,
    {
        let ghost before = text::strs(out@);
        out.push(named_parts[i].clone());
        assert(text::strs(out@) =~= before.push(named_parts@[i as int]@));
        i += 1;
    }
    assert(text::strs(named_parts@).take(i as int) =~= text::strs(named_parts@));
    assert(text::strs(out@) =~= components(s@));
    out
}

/// The components of `path` below `base`, where `path` lies at or below it.
pub fn strip_prefix(path: &str, base: &str) -> (r: Option<Vec<String>>)
    ensures
        match r {
            Some(v) => below(path@, base@) == Some(text::strs(v@)),
            None => below(path@, base@) is None,
        },
{
    let p = split_components(path);
    let b = split_components(base);
    let ghost ps = components(path@);
    let ghost bs = components(base@);
    if b.len() > p.len() {
        return None;
    }
    let mut i: usize = 0;
    while i < b.len()
        invariant
            text::strs(p@) == ps,
            text::strs(b@) == bs,
            b.len() <= p.len(),
            i <= b.len(),
            ps == components(path@),
            bs == components(base@),
            forall|j: int| 0 <= j < i ==> #[trigger] ps[j] == bs[j],
        decreases b.len() - i,
    {
        if !text::same(p[i].as_str(), b[i].as_str()) {
            assert(ps[i as int] != bs[i as int]);
            return None;
        }
        assert(ps[i as int] == p@[i as int]@ && bs[i as int] == b@[i as int]@);
        i += 1;
    }
    assert(bs =~= ps.subrange(0, bs.len() as int));
    let mut out: Vec<String> = Vec::new();
    while i < p.len()
        invariant
            text::strs(p@) == ps,
            b.len() <= i <= p.len(),
            out.len() == i - b.len(),
            forall|j: int| 0 <= j < out.len() ==> (#[trigger] out@[j])@ == ps[j + b.len()],
        decreases p.len() - i,
    {
        out.push(p[i].clone());
        i += 1;
    }
    assert(text::strs(out@) =~= ps.skip(bs.len() as int));
    Some(out)
}

/// The path without the separators and lone dots at its end.
pub fn without_tail(s: &str) -> (r: String)
    ensures
        r@ == strip_tail(s@),
{
    let cs = text::chars(s);
    let mut n: usize = cs.len();
    assert(s@.take(n as int) =~= s@);
    while n > 1 && (cs[n - 1] == '/' || (cs[n - 1] == '.' && cs[n - 2] == '/'))
        invariant
            cs@ == s@,
            n <= cs.len(),
            strip_tail(s@) == strip_tail(s@.take(n as int)),
        decreases n,
    {
        assert(s@.take(n as int).drop_last() =~= s@.take(n - 1));
        n -= 1;
    }
    text::piece(s, 0, n)
}

/// The path without the separators and lone dots at its start.
pub fn without_head(s: &str) -> (r: String)
    ensures
        r@ == strip_head(s@),
{
    let cs = text::chars(s);
    let n = cs.len();
    let mut i: usize = 0;
    assert(s@.skip(0) =~= s@);
    while i < n && (cs[i] == '/' || (cs[i] == '.' && (i + 1 == n || cs[i + 1] == '/')))
        invariant
            cs@ == s@,
            n == cs.len(),
            i <= n,
            strip_head(s@) == strip_head(s@.skip(i as int)),
        decreases n - i,
    {
        assert(s@.skip(i as int).skip(1) =~= s@.skip(i + 1));
        i += 1;
    }
    let rest = text::piece(s, i, n);
    assert(rest@ =~= s@.skip(i as int));
    rest
}

/// Where the last separator of a text stands.
fn find_last_separator(s: &str) -> (r: Option<usize>)
    ensures
        match r {
            Some(i) => last_separator(s@) == i,
            None => last_separator(s@) == -1,
        },
{
    let cs = text::chars(s);
    let mut n: usize = cs.len();
    assert(s@.take(n as int) =~= s@);
    while n > 0
        invariant
            cs@ == s@,
            n <= cs.len(),
            last_separator(s@) == last_separator(s@.take(n as int)),
        decreases n,
    {
        if cs[n - 1] == '/' {
            return Some(n - 1);
        }
        assert(s@.take(n as int).drop_last() =~= s@.take(n - 1));
        n -= 1;
    }
    None
}

/// What follows the last separator.
pub fn last_piece(s: &str) -> (r: String)
    ensures
        r@ == tail(s@),
{
    proof {
        lemma_last_separator(s@);
    }
    let n = s.unicode_len();
    match find_last_separator(s) {
        Some(i) => {
            assert(s@.subrange(i + 1, n as int) =~= tail(s@));
            text::piece(s, i + 1, n)
        },
        None => {
            assert(tail(s@) =~= s@);
            text::copy(s)
        },
    }
}

/// What stands before the last separator; nothing where there is none.
pub fn before_last_separator(s: &str) -> (r: String)
    ensures
        r@ == (if last_separator(s@) < 0 {
            ""@
        } else {
            s@.take(last_separator(s@))
        }),
{
    proof {
        lemma_last_separator(s@);
    }
    match find_last_separator(s) {
        Some(i) => text::piece(s, 0, i),
        None => text::copy(""),
    }
}

/// The last component of a path, where it names something.
pub fn file_name(s: &str) -> (r: Option<String>)
    ensures
        text::opt(r) == base_name(s@),
{
    let name = last_piece(without_tail(s).as_str());
    proof {
        reveal_strlit(".");
        reveal_strlit("..");
        assert("."@ =~= seq!['.']);
        assert(".."@ =~= seq!['.', '.']);
    }
    if name.as_str().unicode_len() == 0 || text::same(name.as_str(), ".") || text::same(
        name.as_str(),
        "..",
    ) {
        None
    } else {
        Some(name)
    }
}

/// The path without its last component.
pub fn parent(s: &str) -> (r: Option<String>)
    ensures
        text::opt(r) == parent_of(s@),
{
    let t = without_tail(s);
    proof {
        lemma_last_separator(t@);
        reveal_strlit("/");
        assert("/"@ =~= seq!['/']);
    }
    if t.as_str().unicode_len() == 0 || text::same(t.as_str(), "/") {
        return None;
    }
    match find_last_separator(t.as_str()) {
        None => Some(String::new()),
        Some(cut) => if cut == 0 {
            Some(text::copy("/"))
        } else {
            let head = text::piece(t.as_str(), 0, cut);
            Some(without_tail(head.as_str()))
        },
    }
}

/// Where what follows the last dot of a text begins.
fn after_last_dot(name: &str) -> (n: usize)
    ensures
        n == last_dot(name@) + 1,
        n <= name@.len(),
{
    let cs = text::chars(name);
    let mut n: usize = cs.len();
    assert(name@.take(n as int) =~= name@);
    while n > 0 && cs[n - 1] != '.'
        invariant
            cs@ == name@,
            n <= cs.len(),
            last_dot(name@) == last_dot(name@.take(n as int)),
        decreases n,
    {
        assert(name@.take(n as int).drop_last() =~= name@.take(n - 1));
        n -= 1;
    }
    n
}

/// What follows the last dot of a file name, where something stands before it.
pub fn extension(name: &str) -> (r: Option<String>)
    ensures
        text::opt(r) == extension_of(name@),
{
    let n = after_last_dot(name);
    if n > 1 {
        assert(name@.subrange(n as int, name@.len() as int) =~= name@.skip(n as int));
        Some(text::piece(name, n, text::chars(name).len()))
    } else {
        None
    }
}

/// Whether two paths have the same components.
pub fn same(a: &str, b: &str) -> (r: bool)
    ensures
        r == (components(a@) == components(b@)),
{
    let x = split_components(a);
    let y = split_components(b);
    text::same_list(&x, &y)
}

/// Whether a path is at or below another, component by component.
pub fn starts_with(path: &str, base: &str) -> (r: bool)
    ensures
        r == (below(path@, base@) is Some),
{
    strip_prefix(path, base).is_some()
}

// --- joining adds components ---------------------------------------------------

proof fn lemma_split_joined(s: Seq<char>, t: Seq<char>)
    ensures
        text::split(s.push('/') + t, '/') == text::split(s, '/') + text::split(t, '/'),
    decreases t.len(),
{
    text::lemma_split_pieces(s, '/');
    text::lemma_split_pieces(t, '/');
    let all = s.push('/') + t;
    if t.len() == 0 {
        assert(all =~= s.push('/'));
        assert(all.drop_last() =~= s);
        assert(text::split(all, '/') =~= text::split(s, '/') + text::split(t, '/'));
    } else {
        let u = t.drop_last();
        lemma_split_joined(s, u);
        text::lemma_split_pieces(u, '/');
        assert(all.drop_last() =~= s.push('/') + u);
        assert(all.last() == t.last());
        let left = text::split(s, '/');
        let rest = text::split(u, '/');
        assert((left + rest).last() == rest.last());
        assert((left + rest).drop_last() =~= left + rest.drop_last());
        assert(text::split(all, '/') =~= left + text::split(t, '/'));
    }
}

proof fn lemma_named_joined(a: Seq<Seq<char>>, b: Seq<Seq<char>>)
    ensures
        named(a + b) == named(a) + named(b),
    decreases b.len(),
{
    if b.len() == 0 {
        assert(a + b =~= a);
        assert(named(a) + named(b) =~= named(a));
    } else {
        lemma_named_joined(a, b.drop_last());
        assert((a + b).drop_last() =~= a + b.drop_last());
        assert((a + b).last() == b.last());
        assert(named(a + b) =~= named(a) + named(b));
    }
}

proof fn lemma_split_single(name: Seq<char>)
    requires
        !name.contains('/'),
    ensures
        text::split(name, '/') == seq![name],
    decreases name.len(),
{
    if name.len() > 0 {
        let less = name.drop_last();
        assert(!less.contains('/')) by {
            if less.contains('/') {
                let k = choose|k: int| 0 <= k < less.len() && less[k] == '/';
                assert(name[k] == '/');
            }
        }
        lemma_split_single(less);
        assert(name.last() != '/') by {
            assert(name[name.len() - 1] == name.last());
        }
        assert(less.push(name.last()) =~= name);
        assert(text::split(name, '/') =~= seq![name]);
    } else {
        assert(name =~= Seq::<char>::empty());
        assert(text::split(name, '/') =~= seq![name]);
    }
}

/// A relative path joined to an absolute directory leads on from it by its own
/// parts.
pub proof fn law_join_leads_on(base: Seq<char>, rel: Seq<char>)
    requires
        absolute(base),
        !absolute(rel),
    ensures
        components(joined(base, rel)) == components(base) + parts(rel),
{
    let whole = joined(base, rel);
    let pieces = text::split(rel, '/');
    assert(whole[0] == base[0]);
    if base.last() == '/' {
        let b = base.drop_last();
        assert(b.push('/') =~= base);
        assert(whole =~= b.push('/') + rel);
        lemma_split_joined(b, rel);
        lemma_named_joined(text::split(b, '/'), pieces);
        lemma_split_joined(b, Seq::<char>::empty());
        assert(b.push('/') + Seq::<char>::empty() =~= base);
        assert(text::split(Seq::<char>::empty(), '/') =~= seq![Seq::<char>::empty()]);
        lemma_named_joined(text::split(b, '/'), seq![Seq::<char>::empty()]);
        assert(named(seq![Seq::<char>::empty()]) =~= Seq::<Seq<char>>::empty()) by {
            let one = seq![Seq::<char>::empty()];
            assert(one.drop_last() =~= Seq::<Seq<char>>::empty());
            assert(one.last().len() == 0);
            assert(named(one) == named(one.drop_last()));
            assert(named(Seq::<Seq<char>>::empty()) =~= Seq::<Seq<char>>::empty());
        }
        assert(parts(base) =~= named(text::split(b, '/')));
        assert(parts(whole) =~= parts(base) + parts(rel));
    } else {
        lemma_split_joined(base, rel);
        lemma_named_joined(text::split(base, '/'), pieces);
        assert(parts(whole) =~= parts(base) + parts(rel));
    }
    assert(components(whole) =~= components(base) + parts(rel));
}

/// A name joined to an absolute directory is one component below it.
pub proof fn law_join_adds_one_component(base: Seq<char>, name: Seq<char>)
    requires
        absolute(base),
        name.len() > 0,
        !name.contains('/'),
        name != seq!['.'],
    ensures
        components(joined(base, name)) == components(base).push(name),
{
    assert(!absolute(name)) by {
        if absolute(name) {
            assert(name.contains('/'));
        }
    }
    lemma_split_single(name);
    assert(named(seq![name]) =~= seq![name]) by {
        assert(seq![name].drop_last() =~= Seq::<Seq<char>>::empty());
        assert(named(Seq::<Seq<char>>::empty()) =~= Seq::<Seq<char>>::empty());
    }
    law_join_leads_on(base, name);
    assert(components(base) + seq![name] =~= components(base).push(name));
}

// --- the order of paths ------------------------------------------------------

/// The kind of a component: the root, the directory itself, its parent, a name.
pub open spec fn component_kind(c: Seq<char>) -> int {
    if c == seq!['/'] {
        0
    } else if c == seq!['.'] {
        1
    } else if c == seq!['.', '.'] {
        2
    } else {
        3
    }
}

/// Whether a component comes strictly before another: by kind, names as texts.
pub open spec fn component_lt(a: Seq<char>, b: Seq<char>) -> bool {
    component_kind(a) < component_kind(b) || (component_kind(a) == 3 && component_kind(b) == 3
        && order::text_lt(a, b))
}

/// Whether a list of components comes strictly before another: at the first
/// difference the earlier component decides, and a proper prefix comes first.
pub open spec fn components_lt(a: Seq<Seq<char>>, b: Seq<Seq<char>>) -> bool
    decreases a.len(),
{
    if b.len() == 0 {
        false
    } else if a.len() == 0 {
        true
    } else if a[0] != b[0] {
        component_lt(a[0], b[0])
    } else {
        components_lt(a.skip(1), b.skip(1))
    }
}

fn kind_of(c: &str) -> (r: u8)
    ensures
        r == component_kind(c@),
{
    proof {
        reveal_strlit("/");
        reveal_strlit(".");
        reveal_strlit("..");
        assert("/"@ =~= seq!['/']);
        assert("."@ =~= seq!['.']);
        assert(".."@ =~= seq!['.', '.']);
    }
    if text::same(c, "/") {
        0
    } else if text::same(c, ".") {
        1
    } else if text::same(c, "..") {
        2
    } else {
        3
    }
}

/// Whether a list of components comes strictly before another.
pub fn components_before(a: &Vec<String>, b: &Vec<String>) -> (r: bool)
    ensures
        r == components_lt(text::strs(a@), text::strs(b@)),
{
    let ghost x = text::strs(a@);
    let ghost y = text::strs(b@);
    let mut i: usize = 0;
    assert(x.skip(0) =~= x);
    assert(y.skip(0) =~= y);
    while i < a.len() && i < b.len()
        invariant
            x == text::strs(a@),
            y == text::strs(b@),
            i <= a.len(),
            i <= b.len(),
            components_lt(x, y) == components_lt(x.skip(i as int), y.skip(i as int)),
        decreases a.len() - i,
    {
        if !text::same(a[i].as_str(), b[i].as_str()) {
            let ka = kind_of(a[i].as_str());
            let kb = kind_of(b[i].as_str());
            return ka < kb || (ka == 3 && kb == 3 && order::text_before(
                a[i].as_str(),
                b[i].as_str(),
            ));
        }
        assert(x.skip(i as int).skip(1) =~= x.skip(i + 1));
        assert(y.skip(i as int).skip(1) =~= y.skip(i + 1));
        i += 1;
    }
    i < b.len()
}

proof fn lemma_strip_tail_shrinks(s: Seq<char>)
    ensures
        strip_tail(s).len() <= s.len(),
    decreases s.len(),
{
    if s.len() > 1 {
        lemma_strip_tail_shrinks(s.drop_last());
    }
}

/// The path without its last component is shorter.
pub proof fn lemma_parent_shrinks(s: Seq<char>)
    ensures
        parent_of(s) is Some ==> parent_of(s)->0.len() < s.len(),
{
    let t = strip_tail(s);
    lemma_strip_tail_shrinks(s);
    lemma_last_separator(t);
    let cut = last_separator(t);
    if t.len() > 0 && t != seq!['/'] {
        if cut == 0 && t.len() == 1 {
            assert(t =~= seq!['/']);
        }
        if cut > 0 {
            lemma_strip_tail_shrinks(t.take(cut));
        }
    }
}

/// A path and the directories above it, from the path upwards.
pub open spec fn upwards(s: Seq<char>) -> Seq<Seq<char>>
    decreases s.len() via upwards_ends
{
    match parent_of(s) {
        Some(p) => seq![s] + upwards(p),
        None => seq![s],
    }
}

#[via_fn]
proof fn upwards_ends(s: Seq<char>) {
    lemma_parent_shrinks(s);
}

/// A path and the directories above it, from the path upwards.
pub fn ancestors(s: &str) -> (r: Vec<String>)
    ensures
        text::strs(r@) == upwards(s@),
{
    let mut out: Vec<String> = Vec::new();
    let mut at = text::copy(s);
    assert(text::strs(out@) + upwards(at@) =~= upwards(s@));
    loop
        invariant
            text::strs(out@) + upwards(at@) == upwards(s@),
        decreases at@.len(),
    {
        let ghost before = text::strs(out@);
        let ghost here = at@;
        proof {
            lemma_parent_shrinks(here);
        }
        let next = parent(at.as_str());
        out.push(at);
        assert(text::strs(out@) =~= before.push(here));
        match next {
            Some(p) => {
                assert(text::strs(out@) + upwards(p@) =~= before + upwards(here));
                at = p;
            },
            None => {
                assert(text::strs(out@) =~= before + upwards(here));
                return out;
            },
        }
    }
}

/// A path with another last component; one that names nothing gets the name below
/// it.
pub open spec fn renamed(s: Seq<char>, name: Seq<char>) -> Seq<char> {
    match base_name(s) {
        Some(_) => joined(
            match parent_of(s) {
                Some(p) => p,
                None => Seq::<char>::empty(),
            },
            name,
        ),
        None => joined(s, name),
    }
}

/// A path with another last component.
pub fn with_file_name(s: &str, name: &str) -> (r: String)
    ensures
        r@ == renamed(s@, name@),
{
    match file_name(s) {
        Some(_) => match parent(s) {
            Some(p) => join(p.as_str(), name),
            None => {
                let none = String::new();
                assert(none@ =~= Seq::<char>::empty());
                join(none.as_str(), name)
            },
        },
        None => join(s, name),
    }
}

/// A file name without its extension.
pub open spec fn stem_of(name: Seq<char>) -> Seq<char> {
    if last_dot(name) > 0 {
        name.take(last_dot(name))
    } else {
        name
    }
}

/// A path whose last component has another extension; one that names nothing stays
/// as it is.
pub open spec fn re_extended(s: Seq<char>, extension: Seq<char>) -> Seq<char> {
    match base_name(s) {
        Some(name) => renamed(s, stem_of(name) + "."@ + extension),
        None => s,
    }
}

/// A path whose last component has another extension.
pub fn with_extension(s: &str, extension: &str) -> (r: String)
    ensures
        r@ == re_extended(s@, extension@),
{
    match file_name(s) {
        Some(name) => {
            let n = after_last_dot(name.as_str());
            let stem = if n > 1 {
                assert(name@.subrange(0, n - 1) =~= name@.take(n - 1));
                text::piece(name.as_str(), 0, n - 1)
            } else {
                text::copy(name.as_str())
            };
            with_file_name(s, text::cat3(stem.as_str(), ".", extension).as_str())
        },
        None => text::copy(s),
    }
}

/// A file that is taken from a directory has its name, and the directory is above it.
pub proof fn law_joined_files_have_their_names(base: Seq<char>, name: Seq<char>)
    requires
        base.len() > 0,
        base.last() != '/',
        name.len() > 0,
        !name.contains('/'),
        name != seq!['.'],
        name != seq!['.', '.'],
    ensures
        base_name(joined(base, name)) == Some(name),
        parent_of(joined(base, name)) == Some(strip_tail(base)),
{
    assert(name[0] != '/');
    let s = joined(base, name);
    assert(s == base.push('/') + name);
    assert(s.last() == name.last());
    assert(name.contains(name.last()));
    if name.len() == 1 {
        assert(name =~= seq![name[0]]);
    } else {
        assert(s[s.len() - 2] == name[name.len() - 2]);
        assert(name.contains(name[name.len() - 2]));
    }
    assert(strip_tail(s) == s);
    lemma_last_separator(s);
    let cut = last_separator(s);
    assert(s[base.len() as int] == '/');
    if cut > base.len() {
        assert(s[cut] == name[cut - base.len() - 1]);
        assert(name.contains(s[cut]));
    }
    assert(cut == base.len());
    assert(tail(s) =~= name);
    assert(s.take(cut) =~= base);
    assert(s.len() > 1);
}

/// What follows the last separator is the name behind it.
pub proof fn law_the_tail_is_behind_the_last_separator(above: Seq<char>, name: Seq<char>)
    requires
        !name.contains('/'),
    ensures
        tail(above.push('/') + name) == name,
{
    let s = above.push('/') + name;
    lemma_last_separator(s);
    let cut = last_separator(s);
    assert(s[above.len() as int] == '/');
    if cut > above.len() {
        assert(s[cut] == name[cut - above.len() - 1]);
        assert(name.contains(s[cut]));
    }
    assert(tail(s) =~= name);
}

} // verus!
