//! Regular expressions: the spans that a pattern matches in a text.

use vstd::prelude::*;

verus! {

/// Where a match stands in a text, counted in characters.
#[derive(Debug, Clone, Copy, PartialEq, Eq, Structural)]
pub struct Span {
    pub start: usize,
    pub end: usize,
}

/// The two ends of a span.
pub open spec fn ends(s: Option<Span>) -> Option<(int, int)> {
    match s {
        Some(span) => Some((span.start as int, span.end as int)),
        None => None,
    }
}

/// The ends of each span of a list.
pub open spec fn all_ends(v: Seq<Option<Span>>) -> Seq<Option<(int, int)>> {
    v.map_values(|s: Option<Span>| ends(s))
}

/// The span of the leftmost match of `pattern` in `text`, as `Regex::find`
/// gives it.
pub uninterp spec fn regex_find(pattern: Seq<char>, text: Seq<char>) -> Option<(int, int)>;

/// The spans of the groups of the leftmost match of `pattern` in `text`, the
/// whole match first, as `Regex::captures` gives them.
pub uninterp spec fn regex_captures(
    pattern: Seq<char>,
    text: Seq<char>,
) -> Option<Seq<Option<(int, int)>>>;

/// `regex::Regex::find`: a function of the pattern and the text. A span lies in
/// the text. A pattern that is not a regular expression matches nothing.
#[verifier::external_body]
pub(crate) fn find(pattern: &str, text: &str) -> (r: Option<Span>)
    ensures
        ends(r) == regex_find(pattern@, text@),
        r is Some ==> r->0.start <= r->0.end <= text@.len(),
{
    let found = regex::Regex::new(pattern).ok()?.find(text)?;
    let position = |byte: usize| text[..byte].chars().count();
    Some(Span { start: position(found.start()), end: position(found.end()) })
}

/// `regex::Regex::captures`: a function of the pattern and the text. Each span
/// lies in the text. A pattern that is not a regular expression matches nothing.
#[verifier::external_body]
pub(crate) fn captures(pattern: &str, text: &str) -> (r: Option<Vec<Option<Span>>>)
    ensures
        match r {
            Some(v) => regex_captures(pattern@, text@) == Some(all_ends(v@)) && forall|i: int|
                0 <= i < v@.len() && #[trigger] v@[i] is Some ==> v@[i]->0.start <= v@[i]->0.end
                    <= text@.len(),
            None => regex_captures(pattern@, text@) is None,
        },
{
    let found = regex::Regex::new(pattern).ok()?.captures(text)?;
    let position = |byte: usize| text[..byte].chars().count();
    let span = |m: regex::Match<'_>| Span { start: position(m.start()), end: position(m.end()) };
    Some(found.iter().map(|group| group.map(span)).collect())
}

} // verus!
