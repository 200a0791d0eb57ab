//! Split models and quantization labels, as file names spell them.

use vstd::prelude::*;
use crate::chars;
use crate::pattern;
use crate::pattern::Span;
use crate::text;

verus! {

/// One part of a split model: its number, the number of parts, the extension.
pub const SHARD: &'static str = r"(?i)-(\d{5})-of-(\d{5})\.gguf$";

/// The same, its numbers in ASCII digits alone.
pub const ASCII_SHARD: &'static str = r"(?i)-([0-9]{5})-of-([0-9]{5})\.gguf$";

/// A quantization label; the more specific spellings first.
pub const QUANT: &'static str =
    r"(?i)\b(IQ\d+_[A-Z0-9]+|Q\d+_K(?:_[A-Z]+)?|Q\d+_\d|Q\d+|MXFP\d+|BF16|FP16|FP8|F16|F32)\b";

/// Where the parts of a split name stand: the whole suffix, the part's number,
/// and the number of parts.
#[derive(Debug, Clone, Copy, PartialEq, Eq, Structural)]
pub struct Shard {
    pub suffix: Span,
    pub index: Span,
    pub total: Span,
}

/// Whether a span lies in a text.
pub open spec fn inside(s: Span, text: Seq<char>) -> bool {
    s.start <= s.end <= text.len()
}

/// The characters of a span.
pub open spec fn at(text: Seq<char>, s: Span) -> Seq<char> {
    text.subrange(s.start as int, s.end as int)
}

impl Shard {
    /// Whether the spans lie in the text.
    pub open spec fn fits(self, text: Seq<char>) -> bool {
        inside(self.suffix, text) && inside(self.index, text) && inside(self.total, text)
    }
}

/// A span from its two ends.
pub open spec fn span_of(e: (int, int)) -> Span {
    Span { start: e.0 as usize, end: e.1 as usize }
}

/// The shard that the groups of a match describe.
pub open spec fn shard_in(groups: Option<Seq<Option<(int, int)>>>) -> Option<Shard> {
    match groups {
        Some(g) => if g.len() >= 3 && g[0] is Some && g[1] is Some && g[2] is Some {
            Some(
                Shard {
                    suffix: span_of(g[0]->0),
                    index: span_of(g[1]->0),
                    total: span_of(g[2]->0),
                },
            )
        } else {
            None
        },
        None => None,
    }
}

/// The shard that a file name names, by a shard pattern.
pub open spec fn shard_name(spelled: Seq<char>, name: Seq<char>) -> Option<Shard> {
    shard_in(pattern::regex_captures(spelled, name))
}

/// The shard that a file name names, by a shard pattern.
pub fn shard_of(spelled: &str, name: &str) -> (r: Option<Shard>)
    ensures
        r == shard_name(spelled@, name@),
        r is Some ==> r->0.fits(name@),
{
    let groups = pattern::captures(spelled, name);
    match groups {
        Some(g) => {
            if g.len() < 3 {
                return None;
            }
            assert(pattern::all_ends(g@)[0] == pattern::ends(g@[0]));
            assert(pattern::all_ends(g@)[1] == pattern::ends(g@[1]));
            assert(pattern::all_ends(g@)[2] == pattern::ends(g@[2]));
            match (g[0], g[1], g[2]) {
                (Some(suffix), Some(index), Some(total)) => Some(Shard { suffix, index, total }),
                _ => None,
            }
        },
        None => None,
    }
}

/// The first part stands for the whole model: a name that is no part, or the
/// part numbered `00001`.
pub open spec fn first_shard(name: Seq<char>, shard: Option<Shard>) -> bool {
    shard is Some ==> at(name, shard->0.index) == "00001"@
}

/// Whether a file stands for its model, given the shard that its name names.
pub fn stands_for_model(name: &str, shard: Option<Shard>) -> (r: bool)
    requires
        shard is Some ==> shard->0.fits(name@),
    ensures
        r == first_shard(name@, shard),
{
    match shard {
        Some(s) => text::same(text::piece(name, s.index.start, s.index.end).as_str(), "00001"),
        None => true,
    }
}

/// The name without the part suffix, keeping `extension`.
pub open spec fn logical_name(name: Seq<char>, shard: Option<Shard>, extension: Seq<char>) -> Seq<char> {
    match shard {
        Some(s) => name.take(s.suffix.start as int) + extension + name.skip(s.suffix.end as int),
        None => name,
    }
}

/// The name without the part suffix, given the shard that it names.
pub fn whole_name(name: &str, shard: Option<Shard>, extension: &str) -> (r: String)
    requires
        shard is Some ==> shard->0.fits(name@),
    ensures
        r@ == logical_name(name@, shard, extension@),
{
    match shard {
        Some(s) => {
            let n = name.unicode_len();
            let head = text::piece(name, 0, s.suffix.start);
            let tail = text::piece(name, s.suffix.end, n);
            assert(tail@ =~= name@.skip(s.suffix.end as int));
            text::cat3(head.as_str(), extension, tail.as_str())
        },
        None => text::copy(name),
    }
}

/// The quantization label of the match at a span.
pub open spec fn label_at(name: Seq<char>, found: Option<(int, int)>) -> Option<Seq<char>> {
    match found {
        Some(s) => Some(chars::uppercase(name.subrange(s.0, s.1))),
        None => None,
    }
}

/// The quantization label in a file name, by the label pattern, in upper case.
pub open spec fn quant_label(name: Seq<char>) -> Option<Seq<char>> {
    label_at(name, pattern::regex_find(QUANT@, name))
}

/// The quantization label of a match.
pub fn label_of(name: &str, found: Option<Span>) -> (r: Option<String>)
    requires
        found is Some ==> inside(found->0, name@),
    ensures
        text::opt(r) == label_at(name@, pattern::ends(found)),
{
    match found {
        Some(s) => Some(chars::to_uppercase(text::piece(name, s.start, s.end).as_str())),
        None => None,
    }
}

/// The quantization label in a file name, such as `Q4_K_M`.
pub fn quant_from_filename(name: &str) -> (r: Option<String>)
    ensures
        text::opt(r) == quant_label(name@),
{
    label_of(name, pattern::find(QUANT, name))
}

} // verus!
