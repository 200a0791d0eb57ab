//! Names for files and directories: made safe, hashed, and spelled as the
//! Hugging Face cache spells them.

use vstd::prelude::*;
use crate::text;

verus! {

/// The text with each `c` replaced by `with`.
pub open spec fn replaced(s: Seq<char>, c: char, with: Seq<char>) -> Seq<char>
    decreases s.len(),
{
    if s.len() == 0 {
        s
    } else {
        replaced(s.drop_last(), c, with) + (if s.last() == c {
            with
        } else {
            seq![s.last()]
        })
    }
}

/// The text with each `c` replaced by `with`.
pub fn replace_char(s: &str, c: char, with: &str) -> (r: String)
    ensures
        r@ == replaced(s@, c, with@),
{
    let cs = text::chars(s);
    let mut out = String::new();
    let mut i: usize = 0;
    assert(out@ =~= replaced(s@.take(0), c, with@));
    while i < cs.len()
        invariant
            cs@ == s@,
            i <= cs.len(),
            out@ == replaced(s@.take(i as int), c, with@),
        decreases cs.len() - i,
    {
        proof {
            assert(s@.take(i + 1).drop_last() =~= s@.take(i as int));
            assert(s@.take(i + 1).last() == s@[i as int]);
        }
        let ghost before = out@;
        if cs[i] == c {
            out.append(with);
        } else {
            out.push(cs[i]);
            assert(out@ =~= before + seq![s@[i as int]]);
        }
        i += 1;
    }
    assert(s@.take(i as int) =~= s@);
    out
}

// --- one path component ------------------------------------------------------

/// Whether a character cannot stand in a path component.
pub open spec fn hostile(c: char, backslash: bool) -> bool {
    c == '/' || c == '\0' || (backslash && c == '\\')
}

/// The text with each hostile character replaced by an underscore.
pub open spec fn defused(raw: Seq<char>, backslash: bool) -> Seq<char> {
    raw.map_values(
        |c: char|
            if hostile(c, backslash) {
                '_'
            } else {
                c
            },
    )
}

/// A text as one path component: hostile characters replaced, and an underscore
/// for a text that would name no entry, the directory itself or its parent.
pub open spec fn component(raw: Seq<char>, backslash: bool) -> Seq<char> {
    let clean = defused(raw, backslash);
    if clean.len() == 0 || clean == "."@ || clean == ".."@ {
        "_"@
    } else {
        clean
    }
}

/// A text as one path component.
pub fn safe_component(raw: &str, backslash: bool) -> (r: String)
    ensures
        r@ == component(raw@, backslash),
{
    let cs = text::chars(raw);
    let mut clean = String::new();
    let mut i: usize = 0;
    while i < cs.len()
        invariant
            cs@ == raw@,
            i <= cs.len(),
            clean@ == defused(raw@, backslash).take(i as int),
        decreases cs.len() - i,
    {
        let c = cs[i];
        if c == '/' || c == '\0' || (backslash && c == '\\') {
            clean.push('_');
        } else {
            clean.push(c);
        }
        assert(clean@ =~= defused(raw@, backslash).take(i + 1));
        i += 1;
    }
    assert(defused(raw@, backslash).take(i as int) =~= defused(raw@, backslash));
    if clean.as_str().is_empty() || text::same(clean.as_str(), ".") || text::same(
        clean.as_str(),
        "..",
    ) {
        text::copy("_")
    } else {
        clean
    }
}

/// A path component is never empty, holds nothing hostile, and is neither the
/// directory itself nor its parent.
pub proof fn law_component_stays_in_its_directory(raw: Seq<char>, backslash: bool)
    ensures
        component(raw, backslash).len() > 0,
        !component(raw, backslash).contains('/'),
        !component(raw, backslash).contains('\0'),
        backslash ==> !component(raw, backslash).contains('\\'),
        component(raw, backslash) != "."@,
        component(raw, backslash) != ".."@,
{
    reveal_strlit("_");
    reveal_strlit(".");
    reveal_strlit("..");
    let c = component(raw, backslash);
    assert("_"@.len() == 1 && "_"@[0] == '_');
    assert("."@[0] == '.');
    let clean = defused(raw, backslash);
    assert forall|i: int| 0 <= i < clean.len() implies !hostile(clean[i], backslash) by {
        assert(clean[i] == if hostile(raw[i], backslash) {
            '_'
        } else {
            raw[i]
        });
    }
}

// --- hashing -----------------------------------------------------------------

/// The 64-bit FNV-1a hash of bytes.
pub open spec fn fnv1a(bytes: Seq<u8>) -> u64
    decreases bytes.len(),
{
    if bytes.len() == 0 {
        0xcbf2_9ce4_8422_2325
    } else {
        fnv_step(fnv1a(bytes.drop_last()), bytes.last())
    }
}

/// One step of the hash: the byte folded in, then a multiplication modulo 2^64.
pub open spec fn fnv_step(hash: u64, byte: u8) -> u64 {
    (((hash ^ (byte as u64)) as nat * 0x100_0000_01b3) % 0x1_0000_0000_0000_0000) as u64
}

/// The 64-bit FNV-1a hash of bytes.
pub fn stable_hash(bytes: &[u8]) -> (r: u64)
    ensures
        r == fnv1a(bytes@),
{
    let mut hash: u64 = 0xcbf2_9ce4_8422_2325;
    let mut i: usize = 0;
    while i < bytes.len()
        invariant
            i <= bytes.len(),
            hash == fnv1a(bytes@.take(i as int)),
        decreases bytes.len() - i,
    {
        proof {
            assert(bytes@.take(i + 1).drop_last() =~= bytes@.take(i as int));
            assert(bytes@.take(i + 1).last() == bytes@[i as int]);
        }
        hash = (hash ^ (bytes[i] as u64)).wrapping_mul(0x100_0000_01b3);
        i += 1;
    }
    assert(bytes@.take(i as int) =~= bytes@);
    hash
}

/// The hash of a text's UTF-8 bytes.
pub open spec fn text_hash(s: Seq<char>) -> u64 {
    fnv1a(vstd::utf8::encode_utf8(s))
}

/// The hash of a text's UTF-8 bytes.
pub fn hash_text(s: &str) -> (r: u64)
    ensures
        r == text_hash(s@),
{
    stable_hash(s.as_bytes())
}

// --- the Hugging Face cache --------------------------------------------------

/// The directory name under which the cache keeps a repository.
pub open spec fn cache_name(repo: Seq<char>) -> Seq<char> {
    "models--"@ + replaced(repo, '/', "--"@)
}

/// The directory name under which the cache keeps a repository.
pub fn cache_dir_name(repo: &str) -> (r: String)
    ensures
        r@ == cache_name(repo@),
{
    text::cat("models--", replace_char(repo, '/', "--").as_str())
}

/// A text that names an entry of a directory is kept as it is.
pub proof fn law_harmless_names_are_kept(raw: Seq<char>)
    requires
        raw.len() > 0,
        !raw.contains('/'),
        !raw.contains('\0'),
        raw != "."@,
        raw != ".."@,
    ensures
        component(raw, false) == raw,
        !raw.contains('\\') ==> component(raw, true) == raw,
{
    assert forall|i: int| 0 <= i < raw.len() implies !hostile(#[trigger] raw[i], false) && (
    !raw.contains('\\') ==> !hostile(raw[i], true)) by {
        assert(raw.contains(raw[i]));
    }
    assert(defused(raw, false) =~= raw);
    if !raw.contains('\\') {
        assert(defused(raw, true) =~= raw);
    }
}

proof fn lemma_nothing_to_replace(s: Seq<char>, c: char, with: Seq<char>)
    requires
        !s.contains(c),
    ensures
        replaced(s, c, with) == s,
    decreases s.len(),
{
    if s.len() > 0 {
        assert(s.contains(s[s.len() - 1]));
        assert forall|i: int| 0 <= i < s.drop_last().len() implies s.drop_last()[i] != c by {
            assert(s.contains(s[i]));
        }
        lemma_nothing_to_replace(s.drop_last(), c, with);
        assert(replaced(s, c, with) =~= s);
    }
}

proof fn lemma_replaced_parts(a: Seq<char>, b: Seq<char>, c: char, with: Seq<char>)
    ensures
        replaced(a + b, c, with) == replaced(a, c, with) + replaced(b, c, with),
    decreases b.len(),
{
    if b.len() == 0 {
        assert(a + b =~= a);
        assert(replaced(a, c, with) + replaced(b, c, with) =~= replaced(a, c, with));
    } else {
        lemma_replaced_parts(a, b.drop_last(), c, with);
        assert((a + b).drop_last() =~= a + b.drop_last());
        assert((a + b).last() == b.last());
        assert(replaced(a + b, c, with) =~= replaced(a, c, with) + replaced(b, c, with));
    }
}

/// The cache keeps a repository under its owner and its name, with two dashes between
/// them.
pub proof fn law_the_cache_goes_by_owner_and_name(owner: Seq<char>, name: Seq<char>)
    requires
        !owner.contains('/'),
        !name.contains('/'),
    ensures
        cache_name(owner + "/"@ + name) == "models--"@ + owner + "--"@ + name,
{
    reveal_strlit("/");
    reveal_strlit("--");
    let id = owner + "/"@ + name;
    lemma_replaced_parts(owner + "/"@, name, '/', "--"@);
    lemma_replaced_parts(owner, "/"@, '/', "--"@);
    lemma_nothing_to_replace(owner, '/', "--"@);
    lemma_nothing_to_replace(name, '/', "--"@);
    assert("/"@ =~= seq!['/']);
    assert("/"@.drop_last() =~= Seq::<char>::empty());
    assert(replaced("/"@.drop_last(), '/', "--"@) =~= Seq::<char>::empty());
    assert(replaced("/"@, '/', "--"@) =~= "--"@);
    assert(cache_name(id) =~= "models--"@ + owner + "--"@ + name);
}

/// The hash goes byte by byte: one more byte is folded into the hash of the others, and
/// nothing hashes to the offset of FNV-1a.
pub proof fn law_the_hash_goes_byte_by_byte(bytes: Seq<u8>, more: u8)
    ensures
        fnv1a(Seq::<u8>::empty()) == 14_695_981_039_346_656_037,
        fnv1a(bytes.push(more)) == ((fnv1a(bytes) ^ (more as u64)) as nat * 1_099_511_628_211)
            % 0x1_0000_0000_0000_0000,
{
    assert(bytes.push(more).drop_last() =~= bytes);
}

} // verus!
