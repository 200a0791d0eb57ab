//! Log lines as a terminal would show them.
//!
//! Servers write to their log as if it were a terminal: carriage returns to redraw
//! a line, escape sequences to erase it or to hide the cursor. None of that may
//! reach the terminal that shows the log.

use vstd::prelude::*;
use crate::chars;
use crate::discovery::gguf;
use crate::text;
use crate::text::strs;

verus! {

/// The escape character.
pub const ESC: char = '\u{1b}';

/// The bell character.
pub const BEL: char = '\u{7}';

/// A character that changes how the one before it is drawn, and is not drawn
/// itself.
pub open spec fn selects_variation(c: char) -> bool {
    ('\u{fe00}' <= c && c <= '\u{fe0f}') || ('\u{e0100}' <= c && c <= '\u{e01ef}')
}

/// A character that ends a control sequence.
pub open spec fn ends_sequence(c: char) -> bool {
    '\u{40}' <= c && c <= '\u{7e}'
}

/// A character that is shown.
pub open spec fn shown(c: char) -> bool {
    !selects_variation(c) && (c == '\t' || !chars::is_control(c))
}

/// What follows a control sequence, from a position in it.
pub open spec fn after_csi(s: Seq<char>, i: int) -> int
    decreases s.len() - i,
{
    if i < 0 || i >= s.len() {
        s.len() as int
    } else if ends_sequence(s[i]) {
        i + 1
    } else {
        after_csi(s, i + 1)
    }
}

/// What follows an operating-system command, from a position in it: it ends at a
/// bell or at a string terminator.
pub open spec fn after_osc(s: Seq<char>, i: int) -> int
    decreases s.len() - i,
{
    if i < 0 || i >= s.len() {
        s.len() as int
    } else if s[i] == BEL {
        i + 1
    } else if s[i] == ESC && i + 1 < s.len() && s[i + 1] == '\\' {
        i + 2
    } else {
        after_osc(s, i + 1)
    }
}

/// What follows an escape sequence that begins at a position.
pub open spec fn after_escape(s: Seq<char>, i: int) -> int {
    if i + 1 >= s.len() {
        s.len() as int
    } else if s[i + 1] == '[' {
        after_csi(s, i + 2)
    } else if s[i + 1] == ']' {
        after_osc(s, i + 2)
    } else {
        i + 2
    }
}

/// The shown text from a position on: escape sequences, control characters and
/// variation selectors left out.
pub open spec fn stripped(s: Seq<char>, i: int) -> Seq<char>
    decreases s.len() - i,
    via stripped_ends
{
    if i < 0 || i >= s.len() {
        Seq::<char>::empty()
    } else if s[i] == ESC {
        stripped(s, after_escape(s, i))
    } else if shown(s[i]) {
        seq![s[i]] + stripped(s, i + 1)
    } else {
        stripped(s, i + 1)
    }
}

#[via_fn]
proof fn stripped_ends(s: Seq<char>, i: int) {
    if 0 <= i < s.len() && s[i] == ESC {
        lemma_after_escape(s, i);
    }
}

proof fn lemma_after_csi(s: Seq<char>, i: int)
    requires
        0 <= i <= s.len(),
    ensures
        i <= after_csi(s, i) <= s.len(),
    decreases s.len() - i,
{
    if i < s.len() && !ends_sequence(s[i]) {
        lemma_after_csi(s, i + 1);
    }
}

proof fn lemma_after_osc(s: Seq<char>, i: int)
    requires
        0 <= i <= s.len(),
    ensures
        i <= after_osc(s, i) <= s.len(),
    decreases s.len() - i,
{
    if i < s.len() && s[i] != BEL && !(s[i] == ESC && i + 1 < s.len() && s[i + 1] == '\\') {
        lemma_after_osc(s, i + 1);
    }
}

proof fn lemma_after_escape(s: Seq<char>, i: int)
    requires
        0 <= i < s.len(),
    ensures
        i < after_escape(s, i) <= s.len(),
{
    if i + 1 < s.len() {
        lemma_after_csi(s, i + 2);
        lemma_after_osc(s, i + 2);
    }
}

/// Nothing that could move the cursor or erase the frame is left in a shown text:
/// no control character but the tab, and no variation selector.
pub proof fn law_nothing_controls_the_terminal(s: Seq<char>, i: int)
    requires
        0 <= i,
    ensures
        forall|k: int|
            0 <= k < stripped(s, i).len() ==> shown(#[trigger] stripped(s, i)[k]) && stripped(
                s,
                i,
            )[k] != ESC,
    decreases s.len() - i,
{
    if i < s.len() {
        if s[i] == ESC {
            lemma_after_escape(s, i);
            law_nothing_controls_the_terminal(s, after_escape(s, i));
            assert(stripped(s, i) == stripped(s, after_escape(s, i)));
        } else {
            law_nothing_controls_the_terminal(s, i + 1);
            if !shown(s[i]) {
                assert(stripped(s, i) == stripped(s, i + 1));
            } else {
                let rest = stripped(s, i + 1);
                let all = stripped(s, i);
                assert forall|k: int| 0 <= k < all.len() implies shown(#[trigger] all[k]) && all[k]
                    != ESC by {
                    if k > 0 {
                        assert(all[k] == rest[k - 1]);
                    }
                }
            }
        }
    }
}

/// Whether a character changes how the one before it is drawn.
pub fn is_variation_selector(c: char) -> (r: bool)
    ensures
        r == selects_variation(c),
{
    ('\u{fe00}' <= c && c <= '\u{fe0f}') || ('\u{e0100}' <= c && c <= '\u{e01ef}')
}

fn skip_csi(cs: &Vec<char>, from: usize) -> (r: usize)
    requires
        from <= cs.len(),
    ensures
        r == after_csi(cs@, from as int),
        from <= r <= cs.len(),
{
    let mut i: usize = from;
    while i < cs.len()
        invariant
            from <= i <= cs.len(),
            after_csi(cs@, from as int) == after_csi(cs@, i as int),
        decreases cs.len() - i,
    {
        if '\u{40}' <= cs[i] && cs[i] <= '\u{7e}' {
            return i + 1;
        }
        i += 1;
    }
    i
}

fn skip_osc(cs: &Vec<char>, from: usize) -> (r: usize)
    requires
        from <= cs.len(),
    ensures
        r == after_osc(cs@, from as int),
        from <= r <= cs.len(),
{
    let mut i: usize = from;
    while i < cs.len()
        invariant
            from <= i <= cs.len(),
            after_osc(cs@, from as int) == after_osc(cs@, i as int),
        decreases cs.len() - i,
    {
        if cs[i] == BEL {
            return i + 1;
        }
        if cs[i] == ESC && i + 1 < cs.len() && cs[i + 1] == '\\' {
            return i + 2;
        }
        i += 1;
    }
    i
}

/// A text without escape sequences, control characters and variation selectors.
pub fn strip_control(raw: &str) -> (r: String)
    ensures
        r@ == stripped(raw@, 0),
{
    let cs = text::chars(raw);
    let mut out = String::new();
    let mut i: usize = 0;
    assert(out@ + stripped(raw@, 0) =~= stripped(raw@, 0));
    while i < cs.len()
        invariant
            cs@ == raw@,
            i <= cs.len(),
            out@ + stripped(raw@, i as int) == stripped(raw@, 0),
        decreases cs.len() - i,
    {
        let c = cs[i];
        if c == ESC {
            proof {
                lemma_after_escape(raw@, i as int);
            }
            if i + 1 >= cs.len() {
                i = cs.len();
            } else if cs[i + 1] == '[' {
                i = skip_csi(&cs, i + 2);
            } else if cs[i + 1] == ']' {
                i = skip_osc(&cs, i + 2);
            } else {
                i = i + 2;
            }
        } else {
            if !is_variation_selector(c) && (c == '\t' || !chars::control(c)) {
                let ghost before = out@;
                out.push(c);
                assert(out@ + stripped(raw@, i + 1) =~= before + (seq![c] + stripped(raw@, i + 1)));
            }
            i += 1;
        }
    }
    assert(out@ + Seq::<char>::empty() =~= out@);
    out
}

/// The last of the texts that shows anything.
pub open spec fn last_shown(segments: Seq<Seq<char>>) -> Seq<char>
    decreases segments.len(),
{
    if segments.len() == 0 {
        Seq::<char>::empty()
    } else {
        let s = stripped(segments.last(), 0);
        if chars::trimmed(s).len() > 0 {
            s
        } else {
            last_shown(segments.drop_last())
        }
    }
}

/// What a terminal shows of a line: a carriage return starts it over, so only the
/// last state that shows anything is seen.
pub open spec fn visible(raw: Seq<char>) -> Seq<char> {
    last_shown(text::split(raw, '\r'))
}

/// What a terminal shows of a line.
pub fn visible_line(raw: &str) -> (r: String)
    ensures
        r@ == visible(raw@),
{
    let segments = text::split_char(raw, '\r');
    let ghost all = text::split(raw@, '\r');
    let mut n: usize = segments.len();
    assert(all.take(n as int) =~= all);
    while n > 0
        invariant
            n <= segments.len(),
            all == strs(segments@),
            all == text::split(raw@, '\r'),
            last_shown(all) == last_shown(all.take(n as int)),
        decreases n,
    {
        proof {
            assert(all.take(n as int).last() == segments@[n - 1]@);
            assert(all.take(n as int).drop_last() =~= all.take(n - 1));
        }
        let s = strip_control(segments[n - 1].as_str());
        if !chars::trim(s.as_str()).as_str().is_empty() {
            return s;
        }
        n -= 1;
    }
    String::new()
}

/// The last `max` lines of a text, as a terminal shows them.
pub open spec fn tail_of(content: Seq<char>, max: nat) -> Seq<Seq<char>> {
    let all = chars::lines(content).map_values(|l: Seq<char>| visible(l));
    if all.len() > max {
        all.skip(all.len() - max)
    } else {
        all
    }
}

/// The last lines of a log, as a terminal shows them.
pub fn log_tail(content: &str, max_lines: usize) -> (r: Vec<String>)
    ensures
        strs(r@) == tail_of(content@, max_lines as nat),
{
    let lines = chars::split_lines(content);
    let ghost all = chars::lines(content@);
    let n = lines.len();
    assert(strs(lines@).len() == n);
    let from: usize = if n > max_lines {
        n - max_lines
    } else {
        0
    };
    let mut out: Vec<String> = Vec::new();
    let mut i: usize = from;
    while i < n
        invariant
            from <= i <= n,
            n == lines.len(),
            all == strs(lines@),
            out.len() == i - from,
            forall|j: int| 0 <= j < out.len() ==> (#[trigger] out@[j])@ == visible(all[from + j]),
        decreases n - i,
    {
        assert(all[i as int] == lines@[i as int]@);
        out.push(visible_line(lines[i].as_str()));
        i += 1;
    }
    assert(strs(out@) =~= tail_of(content@, max_lines as nat));
    out
}

/// The last lines of a log file, as a terminal shows them.
pub fn read_log_tail(bytes: &[u8], max_lines: usize) -> (r: Vec<String>)
    ensures
        strs(r@) == tail_of(gguf::lossy(bytes@), max_lines as nat),
{
    log_tail(gguf::lossy_text(bytes).as_str(), max_lines)
}

// --- what is shown -----------------------------------------------------------

/// A text without anything that controls a terminal is shown as it is.
pub proof fn law_plain_text_is_shown(s: Seq<char>, i: int)
    requires
        0 <= i <= s.len(),
        forall|k: int| 0 <= k < s.len() ==> shown(#[trigger] s[k]) && s[k] != ESC,
    ensures
        stripped(s, i) == s.skip(i),
    decreases s.len() - i,
{
    if i < s.len() {
        assert(shown(s[i]));
        law_plain_text_is_shown(s, i + 1);
        assert(seq![s[i]] + s.skip(i + 1) =~= s.skip(i));
    } else {
        assert(s.skip(i) =~= Seq::<char>::empty());
    }
}

proof fn lemma_csi_ends_at(s: Seq<char>, i: int, end: int)
    requires
        0 <= i <= end < s.len(),
        forall|k: int| i <= k < end ==> !ends_sequence(#[trigger] s[k]),
        ends_sequence(s[end]),
    ensures
        after_csi(s, i) == end + 1,
    decreases end - i,
{
    if i < end {
        assert(!ends_sequence(s[i]));
        lemma_csi_ends_at(s, i + 1, end);
    }
}

/// A control sequence, such as a colour, leaves no trace: what is shown goes on behind
/// it.
pub proof fn law_sequences_leave_no_trace(s: Seq<char>, i: int, end: int)
    requires
        0 <= i,
        i + 2 <= end < s.len(),
        s[i] == ESC,
        s[i + 1] == '[',
        forall|k: int| i + 2 <= k < end ==> !ends_sequence(#[trigger] s[k]),
        '@' <= s[end] && s[end] <= '~',
    ensures
        stripped(s, i) == stripped(s, end + 1),
{
    lemma_csi_ends_at(s, i + 2, end);
}

/// A carriage return starts a line over: what follows it is shown in its place, unless
/// that shows nothing.
pub proof fn law_a_return_starts_the_line_over(before: Seq<Seq<char>>, now: Seq<char>)
    ensures
        chars::trimmed(stripped(now, 0)).len() > 0 ==> last_shown(before.push(now)) == stripped(
            now,
            0,
        ),
        chars::trimmed(stripped(now, 0)).len() == 0 ==> last_shown(before.push(now)) == last_shown(
            before,
        ),
{
    assert(before.push(now).drop_last() =~= before);
}

/// The tail of a log is its last lines, all of them where they are few, in their order.
pub proof fn law_the_tail_is_the_end(content: Seq<char>, max: nat)
    ensures
        ({
            let all = chars::lines(content);
            let tail = tail_of(content, max);
            &&& tail.len() == if all.len() < max {
                all.len()
            } else {
                max
            }
            &&& forall|k: int|
                0 <= k < tail.len() ==> #[trigger] tail[k] == visible(
                    all[all.len() - tail.len() + k],
                )
        }),
{
}

} // verus!
