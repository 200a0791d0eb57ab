//! Option metadata, and the values that an option takes: what is allowed, what
//! one step changes, where the ends are.
//!
//! Floating-point values are read outside: a caller says how a text compares
//! with an option's bounds, or what a step leads to. Bounds and steps are kept in
//! thousandths.

use vstd::prelude::*;
use crate::chars;
use crate::number;
use crate::text;
use crate::text::opt;

verus! {

/// The texts of a list of literals.
pub open spec fn lits(v: Seq<&'static str>) -> Seq<Seq<char>> {
    v.map_values(|s: &'static str| s@)
}

/// What values an option takes.
#[derive(Debug)]
pub enum OptionKind {
    Int { min: Option<i64>, max: Option<i64> },
    /// Bounds in thousandths.
    Float { min: Option<i64>, max: Option<i64> },
    Enum(Vec<&'static str>),
    Str,
}

pub enum KindView {
    Int(Option<i64>, Option<i64>),
    Float(Option<i64>, Option<i64>),
    Enum(Seq<Seq<char>>),
    Str,
}

impl View for OptionKind {
    type V = KindView;

    open spec fn view(&self) -> KindView {
        match self {
            OptionKind::Int { min, max } => KindView::Int(*min, *max),
            OptionKind::Float { min, max } => KindView::Float(*min, *max),
            OptionKind::Enum(v) => KindView::Enum(lits(v@)),
            OptionKind::Str => KindView::Str,
        }
    }
}

impl Clone for OptionKind {
    fn clone(&self) -> (r: Self)
        ensures
            r@ == self@,
    {
        match self {
            OptionKind::Int { min, max } => OptionKind::Int { min: *min, max: *max },
            OptionKind::Float { min, max } => OptionKind::Float { min: *min, max: *max },
            OptionKind::Enum(v) => {
                let mut out: Vec<&'static str> = Vec::new();
                let mut i: usize = 0;
                while i < v.len()
                    invariant
                        i <= v.len(),
                        out.len() == i,
                        forall|j: int| 0 <= j < i ==> (#[trigger] out@[j])@ == v@[j]@,
                    decreases v.len() - i,
                {
                    out.push(v[i]);
                    i += 1;
                }
                assert(lits(out@) =~= lits(v@));
                OptionKind::Enum(out)
            },
            OptionKind::Str => OptionKind::Str,
        }
    }
}

/// Metadata of one option.
#[derive(Debug)]
pub struct OptionSpec {
    pub key: &'static str,
    pub cli: &'static str,
    pub kind: OptionKind,
    pub default: &'static str,
    /// What one step adds, in thousandths.
    pub step: u64,
    pub description: &'static str,
}

pub struct SpecView {
    pub key: Seq<char>,
    pub cli: Seq<char>,
    pub kind: KindView,
    pub default: Seq<char>,
    pub step: u64,
    pub description: Seq<char>,
}

impl View for OptionSpec {
    type V = SpecView;

    open spec fn view(&self) -> SpecView {
        SpecView {
            key: self.key@,
            cli: self.cli@,
            kind: self.kind@,
            default: self.default@,
            step: self.step,
            description: self.description@,
        }
    }
}

/// The views of a list of options.
pub open spec fn spec_views(v: Seq<OptionSpec>) -> Seq<SpecView> {
    v.map_values(|s: OptionSpec| s@)
}

/// How a text compares, as a floating-point number, with an option's bounds.
#[derive(Debug, Clone, Copy, PartialEq, Eq, Structural)]
pub enum FloatReading {
    NotANumber,
    NotFinite,
    BelowMin,
    AboveMax,
    Within,
}

/// What a step from a floating-point value leads to.
#[derive(Debug)]
pub enum FloatStep {
    /// The value is no number, or the sum is not finite.
    Nowhere,
    BelowMin,
    AboveMax,
    /// The sum, to three decimals and without trailing zeros.
    Value(String),
}

// --- thousandths as text -----------------------------------------------------

/// A number of thousandths in decimal, without trailing zeros.
pub open spec fn milli_text(m: int) -> Seq<char> {
    let size = if m < 0 {
        -m
    } else {
        m
    };
    let sign = if m < 0 {
        seq!['-']
    } else {
        Seq::<char>::empty()
    };
    let whole = number::decimal((size / 1000) as nat);
    if size % 1000 == 0 {
        sign + whole
    } else {
        sign + whole + "."@ + chars::trim_end_of(
            number::pad(number::decimal((size % 1000) as nat), 3),
            '0',
        )
    }
}

/// A number of thousandths in decimal, without trailing zeros.
pub fn write_milli(m: i64) -> (r: String)
    ensures
        r@ == milli_text(m as int),
{
    let size: u64 = if m == i64::MIN {
        0x8000_0000_0000_0000
    } else if m < 0 {
        (-m) as u64
    } else {
        m as u64
    };
    let mut out = String::new();
    if m < 0 {
        out.push('-');
        assert(out@ =~= seq!['-']);
    }
    out.append(number::nat_text(size / 1000).as_str());
    if size % 1000 != 0 {
        out.append(".");
        let digits = number::padded(number::nat_text(size % 1000).as_str(), 3);
        out.append(chars::trim_end_char(digits.as_str(), '0').as_str());
    }
    assert(out@ =~= milli_text(m as int));
    out
}

// --- ranges ------------------------------------------------------------------

/// The range between two written bounds, or `free` where there is none.
pub open spec fn range_text(lo: Option<Seq<char>>, hi: Option<Seq<char>>, free: Seq<char>) -> Seq<char> {
    match (lo, hi) {
        (Some(l), Some(h)) => l + " – "@ + h,
        (Some(l), None) => "≥ "@ + l,
        (None, Some(h)) => "≤ "@ + h,
        (None, None) => free,
    }
}

fn write_range(lo: Option<String>, hi: Option<String>, free: &str) -> (r: String)
    ensures
        r@ == range_text(opt(lo), opt(hi), free@),
{
    match (lo, hi) {
        (Some(l), Some(h)) => text::cat3(l.as_str(), " – ", h.as_str()),
        (Some(l), None) => text::cat("≥ ", l.as_str()),
        (None, Some(h)) => text::cat("≤ ", h.as_str()),
        (None, None) => text::copy(free),
    }
}

/// A written integer bound.
pub open spec fn int_bound(b: Option<i64>) -> Option<Seq<char>> {
    match b {
        Some(n) => Some(number::int_text(n as int)),
        None => None,
    }
}

/// A written bound in thousandths.
pub open spec fn milli_bound(b: Option<i64>) -> Option<Seq<char>> {
    match b {
        Some(n) => Some(milli_text(n as int)),
        None => None,
    }
}

fn write_int_bound(b: Option<i64>) -> (r: Option<String>)
    ensures
        opt(r) == int_bound(b),
{
    match b {
        Some(n) => Some(number::signed_text(n)),
        None => None,
    }
}

fn write_milli_bound(b: Option<i64>) -> (r: Option<String>)
    ensures
        opt(r) == milli_bound(b),
{
    match b {
        Some(n) => Some(write_milli(n)),
        None => None,
    }
}

/// The variants put together, with `sep` between each two.
fn join_variants(v: &Vec<&'static str>, sep: &str) -> (r: String)
    ensures
        r@ == text::join(lits(v@), sep@),
{
    let mut parts: Vec<String> = Vec::new();
    let mut i: usize = 0;
    while i < v.len()
        invariant
            i <= v.len(),
            parts.len() == i,
            forall|j: int| 0 <= j < i ==> (#[trigger] parts@[j])@ == v@[j]@,
        decreases v.len() - i,
    {
        parts.push(text::copy(v[i]));
        i += 1;
    }
    assert(text::strs(parts@) =~= lits(v@));
    text::join_all(&parts, sep)
}

// --- values ------------------------------------------------------------------

/// Why an integer is out of bounds.
pub open spec fn int_bound_error(v: int, min: Option<i64>, max: Option<i64>) -> Option<Seq<char>> {
    if min is Some && v < min->0 {
        Some("must be ≥ "@ + number::int_text(min->0 as int))
    } else if max is Some && v > max->0 {
        Some("must be ≤ "@ + number::int_text(max->0 as int))
    } else {
        None
    }
}

/// Why a floating-point value is not allowed.
pub open spec fn float_error(input: Seq<char>, reading: FloatReading, min: Option<i64>, max: Option<i64>) -> Option<Seq<char>> {
    match reading {
        FloatReading::NotANumber => Some("'"@ + input + "' is not a number"@),
        FloatReading::NotFinite => Some("must be a finite number"@),
        FloatReading::BelowMin => match min {
            Some(lo) => Some("must be ≥ "@ + milli_text(lo as int)),
            None => None,
        },
        FloatReading::AboveMax => match max {
            Some(hi) => Some("must be ≤ "@ + milli_text(hi as int)),
            None => None,
        },
        FloatReading::Within => None,
    }
}

/// The first variant from `from` on that equals a text, ASCII case aside.
pub open spec fn folded_variant(variants: Seq<Seq<char>>, input: Seq<char>, from: int) -> Option<int>
    decreases variants.len() - from,
{
    if from < 0 || from >= variants.len() {
        None
    } else if chars::same_fold(variants[from], input) {
        Some(from)
    } else {
        folded_variant(variants, input, from + 1)
    }
}

/// The first variant from `from` on that equals a text.
pub open spec fn exact_variant(variants: Seq<Seq<char>>, current: Seq<char>, from: int) -> Option<int>
    decreases variants.len() - from,
{
    if from < 0 || from >= variants.len() {
        None
    } else if variants[from] == current {
        Some(from)
    } else {
        exact_variant(variants, current, from + 1)
    }
}

/// An integer held within the range of 64 bits.
pub open spec fn saturated(v: int) -> int {
    if v < i64::MIN {
        i64::MIN as int
    } else if v > i64::MAX {
        i64::MAX as int
    } else {
        v
    }
}

/// An integer held within bounds, the lower one first.
pub open spec fn bounded(v: int, min: Option<i64>, max: Option<i64>) -> int {
    let low = if min is Some && v < min->0 {
        min->0 as int
    } else {
        v
    };
    if max is Some && low > max->0 {
        max->0 as int
    } else {
        low
    }
}

/// What one step adds to an integer: the step to the nearest whole number, at
/// least one.
pub open spec fn whole_step(step: u64) -> int {
    let rounded = (step + 500) / 1000;
    if rounded < 1 {
        1
    } else {
        rounded as int
    }
}

impl KindView {
    /// The allowed range, for display; free text has none.
    pub open spec fn range_label(self) -> Option<Seq<char>> {
        match self {
            KindView::Int(min, max) => Some(
                range_text(int_bound(min), int_bound(max), "integer"@),
            ),
            KindView::Float(min, max) => Some(
                range_text(milli_bound(min), milli_bound(max), "number"@),
            ),
            KindView::Enum(v) => Some(text::join(v, " | "@)),
            KindView::Str => None,
        }
    }

    /// The value that an entered text stands for, or why it is not allowed.
    /// `reading` says how it compares as a floating-point number.
    pub open spec fn validated(self, raw: Seq<char>, reading: FloatReading) -> Result<
        Seq<char>,
        Seq<char>,
    > {
        let input = chars::trimmed(raw);
        match self {
            KindView::Int(min, max) => match number::parse_int(input) {
                None => Err("'"@ + input + "' is not an integer"@),
                Some(v) => match int_bound_error(v, min, max) {
                    Some(e) => Err(e),
                    None => Ok(number::int_text(v)),
                },
            },
            KindView::Float(min, max) => match float_error(input, reading, min, max) {
                Some(e) => Err(e),
                None => Ok(input),
            },
            KindView::Enum(v) => match folded_variant(v, input, 0) {
                Some(i) => Ok(v[i]),
                None => Err("expected one of: "@ + text::join(v, ", "@)),
            },
            KindView::Str => if input.len() == 0 {
                Err("value cannot be empty"@)
            } else {
                Ok(input)
            },
        }
    }

    /// The value one step from the current one, in a direction. Numbers stop at
    /// their bounds, variants go round.
    pub open spec fn adjusted(self, current: Seq<char>, dir: int, step: u64, float: Option<Seq<char>>) -> Option<Seq<char>> {
        match self {
            KindView::Int(min, max) => match number::parse_int(current) {
                None => None,
                Some(v) => Some(
                    number::int_text(
                        bounded(saturated(v + saturated(dir * whole_step(step))), min, max),
                    ),
                ),
            },
            KindView::Float(min, max) => float,
            KindView::Enum(v) => if v.len() == 0 {
                None
            } else {
                let at = match exact_variant(v, current, 0) {
                    Some(i) => i,
                    None => 0,
                };
                Some(v[(at + dir) % (v.len() as int)])
            },
            KindView::Str => None,
        }
    }

    /// The value at the lower end (`dir` below zero) or the upper end.
    pub open spec fn extreme(self, dir: int) -> Option<Seq<char>> {
        match self {
            KindView::Int(min, max) => int_bound(
                if dir < 0 {
                    min
                } else {
                    max
                },
            ),
            KindView::Float(min, max) => milli_bound(
                if dir < 0 {
                    min
                } else {
                    max
                },
            ),
            KindView::Enum(v) => if v.len() == 0 {
                None
            } else if dir < 0 {
                Some(v[0])
            } else {
                Some(v.last())
            },
            KindView::Str => None,
        }
    }
}

/// What a floating-point step gives: the bound that it passes, or the sum.
pub open spec fn float_result(step: FloatStep, min: Option<i64>, max: Option<i64>) -> Option<Seq<char>> {
    match step {
        FloatStep::Nowhere => None,
        FloatStep::BelowMin => milli_bound(min),
        FloatStep::AboveMax => milli_bound(max),
        FloatStep::Value(t) => Some(t@),
    }
}

/// What a floating-point step gives for an option.
pub open spec fn float_outcome(kind: KindView, step: FloatStep) -> Option<Seq<char>> {
    match kind {
        KindView::Float(min, max) => float_result(step, min, max),
        _ => None,
    }
}

proof fn lemma_wrap(at: int, dir: int, n: int)
    requires
        0 <= at < n,
    ensures
        dir >= 0 ==> (at + dir) % n == (at + dir % n) % n,
        dir < 0 ==> (at + dir) % n == (at + n - (-dir) % n) % n,
{
    if dir >= 0 {
        vstd::arithmetic::div_mod::lemma_add_mod_noop_right(at, dir, n);
    } else {
        let m = (-dir) % n;
        let q = (-dir) / n;
        vstd::arithmetic::div_mod::lemma_fundamental_div_mod(-dir, n);
        assert(-dir == n * q + m);
        assert(at + dir == n * (-q - 1) + (at + n - m)) by (nonlinear_arith)
            requires
                -dir == n * q + m,
        ;
        vstd::arithmetic::div_mod::lemma_mod_multiples_vanish(-q - 1, at + n - m, n);
    }
}

fn find_folded(v: &Vec<&'static str>, input: &str) -> (r: Option<usize>)
    ensures
        match r {
            Some(i) => i < v.len() && folded_variant(lits(v@), input@, 0) == Some(i as int),
            None => folded_variant(lits(v@), input@, 0) is None,
        },
{
    let ghost all = lits(v@);
    let mut i: usize = 0;
    while i < v.len()
        invariant
            i <= v.len(),
            all == lits(v@),
            folded_variant(all, input@, 0) == folded_variant(all, input@, i as int),
        decreases v.len() - i,
    {
        assert(all[i as int] == v@[i as int]@);
        if chars::eq_fold(v[i], input) {
            return Some(i);
        }
        i += 1;
    }
    None
}

/// The first variant that equals a text.
pub fn find_variant(v: &Vec<&'static str>, current: &str) -> (r: Option<usize>)
    ensures
        match r {
            Some(i) => i < v.len() && exact_variant(lits(v@), current@, 0) == Some(i as int),
            None => exact_variant(lits(v@), current@, 0) is None,
        },
{
    let ghost all = lits(v@);
    let mut i: usize = 0;
    while i < v.len()
        invariant
            i <= v.len(),
            all == lits(v@),
            exact_variant(all, current@, 0) == exact_variant(all, current@, i as int),
        decreases v.len() - i,
    {
        assert(all[i as int] == v@[i as int]@);
        if text::same(v[i], current) {
            return Some(i);
        }
        i += 1;
    }
    None
}

fn saturate(v: i128) -> (r: i64)
    ensures
        r == saturated(v as int),
{
    if v < i64::MIN as i128 {
        i64::MIN
    } else if v > i64::MAX as i128 {
        i64::MAX
    } else {
        v as i64
    }
}

fn bound(v: i64, min: Option<i64>, max: Option<i64>) -> (r: i64)
    ensures
        r == bounded(v as int, min, max),
{
    let mut out: i64 = v;
    if let Some(lo) = min {
        if out < lo {
            out = lo;
        }
    }
    if let Some(hi) = max {
        if out > hi {
            out = hi;
        }
    }
    out
}

impl OptionKind {
    /// The allowed range, for display; free text has none.
    pub fn range_label(&self) -> (r: Option<String>)
        ensures
            opt(r) == self@.range_label(),
    {
        match self {
            OptionKind::Int { min, max } => Some(
                write_range(write_int_bound(*min), write_int_bound(*max), "integer"),
            ),
            OptionKind::Float { min, max } => Some(
                write_range(write_milli_bound(*min), write_milli_bound(*max), "number"),
            ),
            OptionKind::Enum(v) => Some(join_variants(v, " | ")),
            OptionKind::Str => None,
        }
    }

    /// The value that an entered text stands for, or why it is not allowed.
    /// `reading` says how the text compares as a floating-point number; it
    /// matters for such options alone.
    pub fn validate(&self, input: &str, reading: FloatReading) -> (r: Result<String, String>)
        ensures
            match (self@.validated(input@, reading), r) {
                (Ok(v), Ok(s)) => s@ == v,
                (Err(e), Err(s)) => s@ == e,
                _ => false,
            },
    {
        let entered = chars::trim(input);
        match self {
            OptionKind::Int { min, max } => {
                let v = match number::read_int(entered.as_str()) {
                    Some(v) => v,
                    None => return Err(
                        text::cat3("'", entered.as_str(), "' is not an integer"),
                    ),
                };
                if let Some(lo) = min {
                    if v < *lo {
                        return Err(text::cat("must be ≥ ", number::signed_text(*lo).as_str()));
                    }
                }
                if let Some(hi) = max {
                    if v > *hi {
                        return Err(text::cat("must be ≤ ", number::signed_text(*hi).as_str()));
                    }
                }
                Ok(number::signed_text(v))
            },
            OptionKind::Float { min, max } => match reading {
                FloatReading::NotANumber => Err(
                    text::cat3("'", entered.as_str(), "' is not a number"),
                ),
                FloatReading::NotFinite => Err(text::copy("must be a finite number")),
                FloatReading::BelowMin => match min {
                    Some(lo) => Err(text::cat("must be ≥ ", write_milli(*lo).as_str())),
                    None => Ok(entered),
                },
                FloatReading::AboveMax => match max {
                    Some(hi) => Err(text::cat("must be ≤ ", write_milli(*hi).as_str())),
                    None => Ok(entered),
                },
                FloatReading::Within => Ok(entered),
            },
            OptionKind::Enum(v) => match find_folded(v, entered.as_str()) {
                Some(i) => {
                    assert(lits(v@)[i as int] == v@[i as int]@);
                    Ok(text::copy(v[i]))
                },
                None => Err(text::cat("expected one of: ", join_variants(v, ", ").as_str())),
            },
            OptionKind::Str => if entered.as_str().is_empty() {
                Err(text::copy("value cannot be empty"))
            } else {
                Ok(entered)
            },
        }
    }

    /// The value one step from the current one. `float` says what the step leads
    /// to for a floating-point option; it matters for such options alone.
    pub fn adjust(&self, current: &str, dir: i32, step: u64, float: &FloatStep) -> (r: Option<String>)
        ensures
            opt(r) == self@.adjusted(current@, dir as int, step, float_outcome(self@, *float)),
    {
        match self {
            OptionKind::Int { min, max } => {
                let v = match number::read_int(current) {
                    Some(v) => v,
                    None => return None,
                };
                let rounded: i128 = (step as i128 + 500) / 1000;
                let whole: i128 = if rounded < 1 {
                    1
                } else {
                    rounded
                };
                assert(whole == whole_step(step));
                assert(-0x8000_0000 * 0x1_0000_0000_0000_0000 <= dir * whole <= 0x8000_0000
                    * 0x1_0000_0000_0000_0000) by (nonlinear_arith)
                    requires
                        -0x8000_0000 <= dir <= 0x7fff_ffff,
                        1 <= whole <= 0x1_0000_0000_0000_0000,
                ;
                let change: i64 = saturate((dir as i128) * whole);
                let moved: i64 = saturate((v as i128) + (change as i128));
                Some(number::signed_text(bound(moved, *min, *max)))
            },
            OptionKind::Float { min, max } => match float {
                FloatStep::Nowhere => None,
                FloatStep::BelowMin => write_milli_bound(*min),
                FloatStep::AboveMax => write_milli_bound(*max),
                FloatStep::Value(t) => Some(t.clone()),
            },
            OptionKind::Enum(v) => {
                if v.len() == 0 {
                    return None;
                }
                let at: usize = match find_variant(v, current) {
                    Some(i) => i,
                    None => 0,
                };
                let n: u128 = v.len() as u128;
                let next: usize = if dir >= 0 {
                    ((at as u128 + (dir as u128) % n) % n) as usize
                } else {
                    let back: u128 = (-(dir as i128)) as u128;
                    ((at as u128 + n - back % n) % n) as usize
                };
                proof {
                    lemma_wrap(at as int, dir as int, n as int);
                }
                assert(lits(v@)[next as int] == v@[next as int]@);
                Some(text::copy(v[next]))
            },
            OptionKind::Str => None,
        }
    }

    /// The value at the lower end (`dir` below zero) or the upper end.
    pub fn extreme(&self, dir: i32) -> (r: Option<String>)
        ensures
            opt(r) == self@.extreme(dir as int),
    {
        match self {
            OptionKind::Int { min, max } => write_int_bound(
                if dir < 0 {
                    *min
                } else {
                    *max
                },
            ),
            OptionKind::Float { min, max } => write_milli_bound(
                if dir < 0 {
                    *min
                } else {
                    *max
                },
            ),
            OptionKind::Enum(v) => {
                if v.len() == 0 {
                    None
                } else if dir < 0 {
                    assert(lits(v@)[0] == v@[0]@);
                    Some(text::copy(v[0]))
                } else {
                    assert(lits(v@)[v@.len() - 1] == v@[v@.len() - 1]@);
                    Some(text::copy(v[v.len() - 1]))
                }
            },
            OptionKind::Str => None,
        }
    }
}

// --- what holds of values ------------------------------------------------------

/// A step of an integer option never leaves its bounds, wherever it starts.
pub proof fn law_steps_stay_in_bounds(min: Option<i64>, max: Option<i64>, current: Seq<char>, dir: int, step: u64)
    requires
        number::parse_int(current) is Some,
        min is Some && max is Some ==> min->0 <= max->0,
    ensures
        exists|v: int|
            KindView::Int(min, max).adjusted(current, dir, step, None) == Some(
                #[trigger] number::int_text(v),
            ) && (min is Some ==> min->0 <= v) && (max is Some ==> v <= max->0),
{
    let v = number::parse_int(current)->0;
    let to = bounded(saturated(v + saturated(dir * whole_step(step))), min, max);
    assert(KindView::Int(min, max).adjusted(current, dir, step, None) == Some(
        number::int_text(to),
    ));
}

/// Whether no variant appears twice.
pub open spec fn distinct(v: Seq<Seq<char>>) -> bool {
    forall|i: int, j: int| 0 <= i < j < v.len() ==> #[trigger] v[i] != #[trigger] v[j]
}

proof fn lemma_exact_at(v: Seq<Seq<char>>, i: int, from: int)
    requires
        distinct(v),
        0 <= from <= i < v.len(),
    ensures
        exact_variant(v, v[i], from) == Some(i),
    decreases i - from,
{
    if from < i {
        assert(v[from] != v[i]);
        lemma_exact_at(v, i, from + 1);
    }
}

/// Among different variants, a step forward and a step back lead to where they
/// began.
pub proof fn law_step_back_undoes_step(v: Seq<Seq<char>>, i: int, dir: int, step: u64)
    requires
        distinct(v),
        0 <= i < v.len(),
    ensures
        KindView::Enum(v).adjusted(v[i], dir, step, None) is Some,
        KindView::Enum(v).adjusted(
            KindView::Enum(v).adjusted(v[i], dir, step, None)->0,
            -dir,
            step,
            None,
        ) == Some(v[i]),
{
    let n = v.len() as int;
    lemma_exact_at(v, i, 0);
    let k = (i + dir) % n;
    vstd::arithmetic::div_mod::lemma_mod_bound(i + dir, n);
    lemma_exact_at(v, k, 0);
    vstd::arithmetic::div_mod::lemma_add_mod_noop_right(-dir, i + dir, n);
    assert((k - dir) % n == (-dir + k) % n);
    assert((-dir + (i + dir)) % n == i % n);
    vstd::arithmetic::div_mod::lemma_small_mod(i as nat, n as nat);
}

proof fn lemma_trim_end_ends(s: Seq<char>)
    ensures
        chars::trim_end(s).len() == 0 || !chars::is_white(chars::trim_end(s).last()),
        chars::trim_end(s).is_prefix_of(s),
    decreases s.len(),
{
    if s.len() > 0 && chars::is_white(s.last()) {
        lemma_trim_end_ends(s.drop_last());
        let t = chars::trim_end(s);
        assert(t =~= s.subrange(0, t.len() as int)) by {
            assert(t == s.drop_last().subrange(0, t.len() as int));
        }
    } else {
        assert(s =~= s.subrange(0, s.len() as int));
    }
}

proof fn lemma_trim_start_ends(s: Seq<char>)
    ensures
        chars::trim_start(s).len() == 0 || !chars::is_white(chars::trim_start(s)[0]),
    decreases s.len(),
{
    if s.len() > 0 && chars::is_white(s[0]) {
        lemma_trim_start_ends(s.skip(1));
    }
}

/// Trimming a trimmed text changes nothing.
pub proof fn law_trim_is_stable(s: Seq<char>)
    ensures
        chars::trimmed(chars::trimmed(s)) == chars::trimmed(s),
{
    let a = chars::trim_start(s);
    lemma_trim_start_ends(s);
    lemma_trim_end_ends(a);
    let t = chars::trimmed(s);
    if t.len() > 0 {
        assert(t[0] == a.subrange(0, t.len() as int)[0]);
        assert(t[0] == a[0]);
        assert(chars::trim_start(t) == t);
    }
}

proof fn lemma_int_text_is_trimmed(v: int)
    ensures
        chars::trimmed(number::int_text(v)) == number::int_text(v),
{
    let n = if v < 0 {
        (-v) as nat
    } else {
        v as nat
    };
    number::lemma_decimal_value(n);
    let d = number::decimal(n);
    assert(chars::is_digit(d[0]));
    assert(chars::is_digit(d[d.len() - 1]));
    let s = number::int_text(v);
    assert(s.last() == d.last());
    assert(!chars::is_white(s[0]));
    assert(!chars::is_white(s.last()));
}

proof fn lemma_folded_first(v: Seq<Seq<char>>, input: Seq<char>, from: int)
    requires
        0 <= from,
        folded_variant(v, input, from) is Some,
    ensures
        from <= folded_variant(v, input, from)->0 < v.len(),
        chars::same_fold(v[folded_variant(v, input, from)->0], input),
        folded_variant(v, v[folded_variant(v, input, from)->0], from) == folded_variant(
            v,
            input,
            from,
        ),
    decreases v.len() - from,
{
    if !chars::same_fold(v[from], input) {
        lemma_folded_first(v, input, from + 1);
    }
}

/// Validating is stable: the value that an entry stands for stands for itself.
/// The variants of an enumeration are taken to have no white space around them.
pub proof fn law_validated_values_are_valid(kind: KindView, raw: Seq<char>, reading: FloatReading)
    requires
        kind.validated(raw, reading) is Ok,
        kind is Enum ==> forall|i: int|
            0 <= i < kind->Enum_0.len() ==> chars::trimmed(#[trigger] kind->Enum_0[i])
                == kind->Enum_0[i],
    ensures
        kind.validated(kind.validated(raw, reading)->Ok_0, reading) == kind.validated(raw, reading),
{
    let input = chars::trimmed(raw);
    law_trim_is_stable(raw);
    match kind {
        KindView::Int(min, max) => {
            let v = number::parse_int(input)->0;
            lemma_int_text_is_trimmed(v);
            number::law_read_int_undoes_write(v);
        },
        KindView::Float(_, _) => {},
        KindView::Enum(v) => {
            lemma_folded_first(v, input, 0);
        },
        KindView::Str => {},
    }
}

/// A whole number is accepted as it is written, within the bounds and nowhere else.
pub proof fn law_numbers_within_bounds_are_accepted(min: Option<i64>, max: Option<i64>, v: i64, reading: FloatReading)
    ensures
        ({
            let r = KindView::Int(min, max).validated(number::int_text(v as int), reading);
            let within = (min is Some ==> min->0 <= v) && (max is Some ==> v <= max->0);
            (within ==> r == Ok::<Seq<char>, Seq<char>>(number::int_text(v as int))) && (!within
                ==> r is Err)
        }),
{
    lemma_int_text_is_trimmed(v as int);
    number::law_read_int_undoes_write(v as int);
}

/// A step moves a whole number by the option's step, up or down, as long as no bound is
/// passed; a step past a bound stops at it.
pub proof fn law_steps_go_by_the_step(min: Option<i64>, max: Option<i64>, v: i64, dir: int, step: u64)
    requires
        dir == 1 || dir == -1,
        1 <= step <= 1_000_000_000,
        -1_000_000_000_000 <= v <= 1_000_000_000_000,
    ensures
        ({
            let kind = KindView::Int(min, max);
            let to = v + dir * step;
            let moved = kind.adjusted(number::int_text(v as int), dir, (step * 1000) as u64, None);
            &&& (min is Some ==> min->0 <= to) && (max is Some ==> to <= max->0) ==> moved == Some(
                number::int_text(to),
            )
            &&& max is Some && to > max->0 && (min is Some ==> min->0 <= max->0) ==> moved == Some(
                number::int_text(max->0 as int),
            )
            &&& min is Some && to < min->0 && (max is Some ==> min->0 <= max->0) ==> moved == Some(
                number::int_text(min->0 as int),
            )
        }),
{
    number::law_read_int_undoes_write(v as int);
    assert(whole_step((step * 1000) as u64) == step);
    assert(dir * step == step || dir * step == -step) by (nonlinear_arith)
        requires
            dir == 1 || dir == -1,
    ;
}

/// A step through variants goes to the next one, and from the last to the first; a step
/// back the other way.
pub proof fn law_variants_go_round(v: Seq<Seq<char>>, i: int, step: u64)
    requires
        distinct(v),
        0 <= i < v.len(),
    ensures
        KindView::Enum(v).adjusted(v[i], 1, step, None) == Some(
            if i + 1 < v.len() {
                v[i + 1]
            } else {
                v[0]
            },
        ),
        KindView::Enum(v).adjusted(v[i], -1, step, None) == Some(
            if i > 0 {
                v[i - 1]
            } else {
                v[v.len() - 1]
            },
        ),
{
    let n = v.len() as int;
    lemma_exact_at(v, i, 0);
    if i + 1 < n {
        vstd::arithmetic::div_mod::lemma_small_mod((i + 1) as nat, n as nat);
    } else {
        vstd::arithmetic::div_mod::lemma_mod_self_0(n);
    }
    if i > 0 {
        vstd::arithmetic::div_mod::lemma_small_mod((i - 1) as nat, n as nat);
    } else {
        vstd::arithmetic::div_mod::lemma_mod_add_multiples_vanish(-1, n);
        vstd::arithmetic::div_mod::lemma_small_mod((n - 1) as nat, n as nat);
    }
}

/// A variant is accepted in any case and becomes the variant; what spells none of them
/// is not accepted.
pub proof fn law_variants_are_accepted_in_any_case(v: Seq<Seq<char>>, i: int, raw: Seq<char>, reading: FloatReading)
    requires
        0 <= i < v.len(),
    ensures
        chars::same_fold(v[i], chars::trimmed(raw)) && (forall|j: int|
            0 <= j < i ==> !chars::same_fold(#[trigger] v[j], chars::trimmed(raw)))
            ==> KindView::Enum(v).validated(raw, reading) == Ok::<Seq<char>, Seq<char>>(v[i]),
        (forall|j: int| 0 <= j < v.len() ==> !chars::same_fold(#[trigger] v[j], chars::trimmed(raw)))
            ==> KindView::Enum(v).validated(raw, reading) is Err,
{
    let input = chars::trimmed(raw);
    if chars::same_fold(v[i], input) && (forall|j: int|
        0 <= j < i ==> !chars::same_fold(#[trigger] v[j], input)) {
        lemma_folded_at(v, input, 0, i);
    }
    if forall|j: int| 0 <= j < v.len() ==> !chars::same_fold(#[trigger] v[j], input) {
        lemma_folded_none(v, input, 0);
    }
}

proof fn lemma_folded_at(v: Seq<Seq<char>>, input: Seq<char>, from: int, i: int)
    requires
        0 <= from <= i < v.len(),
        chars::same_fold(v[i], input),
        forall|j: int| 0 <= j < i ==> !chars::same_fold(#[trigger] v[j], input),
    ensures
        folded_variant(v, input, from) == Some(i),
    decreases i - from,
{
    if from < i {
        assert(!chars::same_fold(v[from], input));
        lemma_folded_at(v, input, from + 1, i);
    }
}

proof fn lemma_folded_none(v: Seq<Seq<char>>, input: Seq<char>, from: int)
    requires
        0 <= from,
        forall|j: int| 0 <= j < v.len() ==> !chars::same_fold(#[trigger] v[j], input),
    ensures
        folded_variant(v, input, from) is None,
    decreases v.len() - from,
{
    if from < v.len() {
        assert(!chars::same_fold(v[from], input));
        lemma_folded_none(v, input, from + 1);
    }
}

/// The ends of an option are its bounds: below the lower one, above the upper one, and
/// of variants the first and the last.
pub proof fn law_extremes_are_the_bounds(lo: i64, hi: i64, v: Seq<Seq<char>>)
    requires
        v.len() > 0,
    ensures
        KindView::Int(Some(lo), Some(hi)).extreme(-1) == Some(number::int_text(lo as int)),
        KindView::Int(Some(lo), Some(hi)).extreme(1) == Some(number::int_text(hi as int)),
        KindView::Enum(v).extreme(-1) == Some(v.first()),
        KindView::Enum(v).extreme(1) == Some(v.last()),
        KindView::Str.extreme(1) is None && KindView::Str.extreme(-1) is None,
{
}

/// A bound in thousandths is written as the number that it is: without a point where it
/// is whole, else with as many decimals as it has.
pub proof fn law_thousandths_are_written_in_full(n: nat, tenth: nat)
    requires
        n <= 1_000_000,
        1 <= tenth <= 9,
    ensures
        milli_text((1000 * n) as int) == number::decimal(n),
        milli_text((1000 * n + 100 * tenth) as int) == number::decimal(n) + "."@ + number::decimal(
            tenth,
        ),
        n > 0 ==> milli_text(-(1000 * n)) == seq!['-'] + number::decimal(n),
{
    let none = Seq::<char>::empty();
    assert(none + number::decimal(n) =~= number::decimal(n));
    let d = number::digit_char(tenth);
    reveal_with_fuel(number::decimal, 4);
    assert((100 * tenth) / 10 == 10 * tenth);
    assert(number::decimal(tenth) =~= seq![d]);
    assert(number::decimal(10 * tenth) =~= seq![d, '0']);
    assert(number::decimal(100 * tenth) =~= seq![d, '0', '0']);
    let digits = seq![d, '0', '0'];
    assert(number::pad(digits, 3) == digits);
    assert(digits.drop_last() =~= seq![d, '0']);
    assert(digits.drop_last().drop_last() =~= seq![d]);
    reveal_with_fuel(chars::trim_end_of, 4);
    assert(d != '0');
    assert(chars::trim_end_of(digits, '0') =~= seq![d]);
    let m = 1000 * n + 100 * tenth;
    assert(m / 1000 == n && m % 1000 == 100 * tenth);
    assert(milli_text(m as int) =~= number::decimal(n) + "."@ + number::decimal(tenth));
}

} // verus!
