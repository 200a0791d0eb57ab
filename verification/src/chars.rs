//! Character classes, letter case, and what is trimmed or split by them.

use vstd::prelude::*;
use crate::text;

verus! {

// --- classes -----------------------------------------------------------------

/// Unicode white space: the characters with the property `White_Space`.
pub open spec fn is_white(c: char) -> bool {
    let n = c as u32;
    (0x9 <= n && n <= 0xd) || n == 0x20 || n == 0x85 || n == 0xa0 || n == 0x1680
        || (0x2000 <= n && n <= 0x200a) || n == 0x2028 || n == 0x2029 || n == 0x202f
        || n == 0x205f || n == 0x3000
}

/// Unicode control characters: the general category `Cc`.
pub open spec fn is_control(c: char) -> bool {
    let n = c as u32;
    n <= 0x1f || (0x7f <= n && n <= 0x9f)
}

/// An ASCII decimal digit.
pub open spec fn is_digit(c: char) -> bool {
    '0' <= c && c <= '9'
}

/// An ASCII letter.
pub open spec fn is_ascii_letter(c: char) -> bool {
    ('a' <= c && c <= 'z') || ('A' <= c && c <= 'Z')
}

/// An ASCII letter or decimal digit.
pub open spec fn is_ascii_alnum(c: char) -> bool {
    is_ascii_letter(c) || is_digit(c)
}

/// An ASCII hexadecimal digit.
pub open spec fn is_hex_digit(c: char) -> bool {
    is_digit(c) || ('a' <= c && c <= 'f') || ('A' <= c && c <= 'F')
}

pub fn white(c: char) -> (r: bool)
    ensures
        r == is_white(c),
{
    let n: u32 = c as u32;
    (0x9 <= n && n <= 0xd) || n == 0x20 || n == 0x85 || n == 0xa0 || n == 0x1680
        || (0x2000 <= n && n <= 0x200a) || n == 0x2028 || n == 0x2029 || n == 0x202f
        || n == 0x205f || n == 0x3000
}

pub fn control(c: char) -> (r: bool)
    ensures
        r == is_control(c),
{
    let n: u32 = c as u32;
    n <= 0x1f || (0x7f <= n && n <= 0x9f)
}

pub fn digit(c: char) -> (r: bool)
    ensures
        r == is_digit(c),
{
    '0' <= c && c <= '9'
}

pub fn ascii_alnum(c: char) -> (r: bool)
    ensures
        r == is_ascii_alnum(c),
{
    ('a' <= c && c <= 'z') || ('A' <= c && c <= 'Z') || ('0' <= c && c <= '9')
}

pub fn hex_digit(c: char) -> (r: bool)
    ensures
        r == is_hex_digit(c),
{
    ('0' <= c && c <= '9') || ('a' <= c && c <= 'f') || ('A' <= c && c <= 'F')
}

// --- letter case -------------------------------------------------------------

/// The ASCII lower case of one character; every other character is kept.
pub open spec fn lower(c: char) -> char {
    if 'A' <= c && c <= 'Z' {
        ((c as u8 + 32) as u8) as char
    } else {
        c
    }
}

/// The ASCII lower case of a text.
pub open spec fn ascii_lower(s: Seq<char>) -> Seq<char> {
    s.map_values(|c: char| lower(c))
}

/// Whether two texts are equal when ASCII letters of either case count as equal.
pub open spec fn same_fold(a: Seq<char>, b: Seq<char>) -> bool {
    ascii_lower(a) == ascii_lower(b)
}

pub fn lower_char(c: char) -> (r: char)
    ensures
        r == lower(c),
{
    if 'A' <= c && c <= 'Z' {
        ((c as u8) + 32) as char
    } else {
        c
    }
}

/// The ASCII lower case of a text.
pub fn to_ascii_lower(s: &str) -> (r: String)
    ensures
        r@ == ascii_lower(s@),
{
    let cs = text::chars(s);
    let mut out = String::new();
    let mut i: usize = 0;
    while i < cs.len()
        invariant
            cs@ == s@,
            i <= cs.len(),
            out@ == ascii_lower(s@).take(i as int),
        decreases cs.len() - i,
    {
        out.push(lower_char(cs[i]));
        assert(out@ =~= ascii_lower(s@).take(i + 1));
        i += 1;
    }
    assert(ascii_lower(s@).take(i as int) =~= ascii_lower(s@));
    out
}

/// Whether two texts are equal when ASCII letters of either case count as equal.
pub fn eq_fold(a: &str, b: &str) -> (r: bool)
    ensures
        r == same_fold(a@, b@),
{
    text::same(to_ascii_lower(a).as_str(), to_ascii_lower(b).as_str())
}

/// The Unicode lower case of a text, as `str::to_lowercase` gives it.
pub uninterp spec fn lowercase(s: Seq<char>) -> Seq<char>;

/// The Unicode upper case of a text, as `str::to_uppercase` gives it.
pub uninterp spec fn uppercase(s: Seq<char>) -> Seq<char>;

/// `str::to_lowercase`: a function of the text alone. Which characters it maps
/// to which is left unsaid.
#[verifier::external_body]
pub(crate) fn to_lowercase(s: &str) -> (r: String)
    ensures
        r@ == lowercase(s@),
{
    s.to_lowercase()
}

/// `str::to_uppercase`: a function of the text alone. Which characters it maps
/// to which is left unsaid.
#[verifier::external_body]
pub(crate) fn to_uppercase(s: &str) -> (r: String)
    ensures
        r@ == uppercase(s@),
{
    s.to_uppercase()
}

// --- trimming ----------------------------------------------------------------

/// The text without the white space at its front.
pub open spec fn trim_start(s: Seq<char>) -> Seq<char>
    decreases s.len(),
{
    if s.len() > 0 && is_white(s[0]) {
        trim_start(s.skip(1))
    } else {
        s
    }
}

/// The text without the white space at its end.
pub open spec fn trim_end(s: Seq<char>) -> Seq<char>
    decreases s.len(),
{
    if s.len() > 0 && is_white(s.last()) {
        trim_end(s.drop_last())
    } else {
        s
    }
}

/// The text without the white space at both ends.
pub open spec fn trimmed(s: Seq<char>) -> Seq<char> {
    trim_end(trim_start(s))
}

/// The text without the occurrences of `c` at its end.
pub open spec fn trim_end_of(s: Seq<char>, c: char) -> Seq<char>
    decreases s.len(),
{
    if s.len() > 0 && s.last() == c {
        trim_end_of(s.drop_last(), c)
    } else {
        s
    }
}

/// The text without the occurrences of `c` at its front.
pub open spec fn trim_start_of(s: Seq<char>, c: char) -> Seq<char>
    decreases s.len(),
{
    if s.len() > 0 && s[0] == c {
        trim_start_of(s.skip(1), c)
    } else {
        s
    }
}

/// The text without the white space at both ends.
pub fn trim(s: &str) -> (r: String)
    ensures
        r@ == trimmed(s@),
{
    let cs = text::chars(s);
    let mut lo: usize = 0;
    assert(s@.skip(0) =~= s@);
    while lo < cs.len() && white(cs[lo])
        invariant
            cs@ == s@,
            lo <= cs.len(),
            trim_start(s@) == trim_start(s@.skip(lo as int)),
        decreases cs.len() - lo,
    {
        assert(s@.skip(lo as int).skip(1) =~= s@.skip(lo + 1));
        lo += 1;
    }
    let mut hi: usize = cs.len();
    let ghost rest = s@.skip(lo as int);
    assert(trim_start(s@) == rest);
    assert(s@.subrange(lo as int, hi as int) =~= rest);
    while lo < hi && white(cs[hi - 1])
        invariant
            cs@ == s@,
            lo <= hi <= cs.len(),
            trim_end(rest) == trim_end(s@.subrange(lo as int, hi as int)),
        decreases hi - lo,
    {
        assert(s@.subrange(lo as int, hi as int).drop_last() =~= s@.subrange(lo as int, hi - 1));
        assert(s@.subrange(lo as int, hi as int).last() == s@[hi - 1]);
        hi -= 1;
    }
    proof {
        if lo < hi {
            assert(s@.subrange(lo as int, hi as int).last() == s@[hi - 1]);
        }
    }
    text::piece(s, lo, hi)
}

/// The text without the occurrences of `c` at its end.
pub fn trim_end_char(s: &str, c: char) -> (r: String)
    ensures
        r@ == trim_end_of(s@, c),
{
    let cs = text::chars(s);
    let mut hi: usize = cs.len();
    assert(s@.take(hi as int) =~= s@);
    while 0 < hi && cs[hi - 1] == c
        invariant
            cs@ == s@,
            hi <= cs.len(),
            trim_end_of(s@, c) == trim_end_of(s@.take(hi as int), c),
        decreases hi,
    {
        assert(s@.take(hi as int).drop_last() =~= s@.take(hi - 1));
        hi -= 1;
    }
    text::piece(s, 0, hi)
}

/// The text without the occurrences of `c` at its front.
pub fn trim_start_char(s: &str, c: char) -> (r: String)
    ensures
        r@ == trim_start_of(s@, c),
{
    let cs = text::chars(s);
    let mut lo: usize = 0;
    assert(s@.skip(0) =~= s@);
    while lo < cs.len() && cs[lo] == c
        invariant
            cs@ == s@,
            lo <= cs.len(),
            trim_start_of(s@, c) == trim_start_of(s@.skip(lo as int), c),
        decreases cs.len() - lo,
    {
        assert(s@.skip(lo as int).skip(1) =~= s@.skip(lo + 1));
        lo += 1;
    }
    assert(s@.subrange(lo as int, s@.len() as int) =~= s@.skip(lo as int));
    text::piece(s, lo, cs.len())
}

// --- words and lines ---------------------------------------------------------

/// The maximal runs of characters that are not white space.
pub open spec fn words(s: Seq<char>) -> Seq<Seq<char>>
    decreases s.len(),
{
    if s.len() == 0 {
        Seq::<Seq<char>>::empty()
    } else {
        let rest = words(s.drop_last());
        if is_white(s.last()) {
            rest
        } else if s.len() == 1 || is_white(s[s.len() - 2]) {
            rest.push(seq![s.last()])
        } else {
            rest.drop_last().push(rest.last().push(s.last()))
        }
    }
}

/// The maximal runs of characters that are not white space.
pub fn split_words(s: &str) -> (r: Vec<String>)
    ensures
        text::strs(r@) == words(s@),
{
    let cs = text::chars(s);
    let mut out: Vec<String> = Vec::new();
    let mut word = String::new();
    let mut i: usize = 0;
    assert(text::strs(out@) =~= words(s@.take(0)));
    while i < cs.len()
        invariant
            cs@ == s@,
            i <= cs.len(),
            word@.len() == 0 <==> (i == 0 || is_white(s@[i - 1])),
            word@.len() == 0 ==> words(s@.take(i as int)) == text::strs(out@),
            word@.len() > 0 ==> words(s@.take(i as int)) == text::strs(out@).push(word@),
        decreases cs.len() - i,
    {
        let ghost here = s@.take(i + 1);
        let ghost had = text::strs(out@);
        proof {
            assert(here.drop_last() =~= s@.take(i as int));
            assert(here.last() == s@[i as int]);
            if i > 0 {
                assert(here[here.len() - 2] == s@[i - 1]);
            }
            assert(had.push(word@).drop_last() =~= had);
        }
        if white(cs[i]) {
            if word.as_str().unicode_len() > 0 {
                out.push(word);
                word = String::new();
                assert(text::strs(out@) =~= words(here));
            }
        } else {
            let ghost w = word@;
            word.push(cs[i]);
            proof {
                if w.len() == 0 {
                    assert(word@ =~= seq![s@[i as int]]);
                }
            }
        }
        i += 1;
    }
    assert(s@.take(i as int) =~= s@);
    if word.as_str().unicode_len() > 0 {
        let ghost had = text::strs(out@);
        out.push(word);
        assert(text::strs(out@) =~= words(s@));
    }
    out
}

/// A line as it was ended: without the carriage return before its newline.
pub open spec fn without_return(s: Seq<char>) -> Seq<char> {
    if s.len() > 0 && s.last() == '\r' {
        s.drop_last()
    } else {
        s
    }
}

/// The lines of a text: each ends at a newline, with or without a carriage
/// return before it; what follows the last newline is a line unless it is empty.
pub open spec fn lines(s: Seq<char>) -> Seq<Seq<char>> {
    let pieces = text::split(s, '\n');
    let ended = pieces.drop_last().map_values(|p: Seq<char>| without_return(p));
    if pieces.last().len() == 0 {
        ended
    } else {
        ended.push(pieces.last())
    }
}

fn strip_return(s: &str) -> (r: String)
    ensures
        r@ == without_return(s@),
{
    let cs = text::chars(s);
    if cs.len() > 0 && cs[cs.len() - 1] == '\r' {
        assert(s@.take(s@.len() - 1) =~= s@.drop_last());
        text::piece(s, 0, cs.len() - 1)
    } else {
        text::copy(s)
    }
}

/// The lines of a text.
pub fn split_lines(s: &str) -> (r: Vec<String>)
    ensures
        text::strs(r@) == lines(s@),
{
    let pieces = text::split_char(s, '\n');
    let ghost all = text::split(s@, '\n');
    proof {
        text::lemma_split_pieces(s@, '\n');
        assert(pieces@.len() == all.len());
    }
    let mut out: Vec<String> = Vec::new();
    let mut i: usize = 0;
    while i < pieces.len() - 1
        invariant
            all == text::strs(pieces@),
            1 <= pieces.len(),
            i <= pieces.len() - 1,
            out.len() == i,
            forall|j: int| 0 <= j < i ==> (#[trigger] out@[j])@ == without_return(all[j]),
        decreases pieces.len() - i,
    {
        out.push(strip_return(pieces[i].as_str()));
        i += 1;
    }
    let ghost ended = all.drop_last().map_values(|p: Seq<char>| without_return(p));
    assert(text::strs(out@) =~= ended);
    let last = pieces[pieces.len() - 1].as_str();
    if last.unicode_len() > 0 {
        out.push(text::copy(last));
        assert(text::strs(out@) =~= ended.push(all.last()));
    }
    out
}

} // verus!
