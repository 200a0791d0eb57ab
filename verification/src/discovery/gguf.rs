//! The header of a GGUF file: the metadata that stands before the tensors.
//!
//! Little-endian, from version 2 on: the magic `GGUF`, the version (32 bits),
//! the number of tensors and of entries (64 bits each), then the entries. An
//! entry is a key, a type tag (32 bits) and a value; a text is its length
//! (64 bits) and its bytes.

use vstd::prelude::*;
use crate::text;
use crate::text::opt;

verus! {

/// Why a header cannot be read.
#[derive(Debug, Clone, Copy, PartialEq, Eq, Structural)]
pub enum GgufError {
    /// The bytes end where more are due.
    UnexpectedEnd,
    /// The bytes end inside something that is skipped.
    SkippedPastEnd { wanted: u64, got: u64 },
    /// The bytes do not begin with the magic.
    NotGguf,
    UnsupportedVersion(u32),
    ImplausibleLength(u64),
    UnknownType(u32),
    NestedArray,
    UnknownElementType(u32),
}

impl GgufError {
    /// Whether more bytes could change the outcome.
    pub open spec fn wants_more(self) -> bool {
        self is UnexpectedEnd || self is SkippedPastEnd
    }
}

/// The longest text that is read, in bytes.
pub const MAX_TEXT: u64 = 67_108_864;

/// What the header says of a model.
#[derive(Debug)]
pub struct GgufInfo {
    pub architecture: Option<String>,
    pub context_length: Option<u64>,
    /// The quantization label of the file type, where it is a known one.
    pub file_type_label: Option<String>,
    pub has_chat_template: bool,
    pub has_mtp: bool,
    /// The trained block size of a drafter.
    pub block_size: Option<u64>,
}

pub struct InfoView {
    pub architecture: Option<Seq<char>>,
    pub context_length: Option<u64>,
    pub file_type_label: Option<Seq<char>>,
    pub has_chat_template: bool,
    pub has_mtp: bool,
    pub block_size: Option<u64>,
}

impl View for GgufInfo {
    type V = InfoView;

    open spec fn view(&self) -> InfoView {
        InfoView {
            architecture: opt(self.architecture),
            context_length: self.context_length,
            file_type_label: opt(self.file_type_label),
            has_chat_template: self.has_chat_template,
            has_mtp: self.has_mtp,
            block_size: self.block_size,
        }
    }
}

/// A value that is no array.
#[derive(Debug)]
pub enum Scalar {
    U(u64),
    S(String),
}

pub enum ScalarView {
    U(u64),
    S(Seq<char>),
}

impl View for Scalar {
    type V = ScalarView;

    open spec fn view(&self) -> ScalarView {
        match self {
            Scalar::U(n) => ScalarView::U(*n),
            Scalar::S(s) => ScalarView::S(s@),
        }
    }
}

impl ScalarView {
    pub open spec fn number(self) -> Option<u64> {
        match self {
            ScalarView::U(n) => Some(n),
            ScalarView::S(_) => None,
        }
    }

    pub open spec fn text(self) -> Option<Seq<char>> {
        match self {
            ScalarView::S(s) => Some(s),
            ScalarView::U(_) => None,
        }
    }
}

// --- bytes -------------------------------------------------------------------

/// The 32-bit number at a position, least significant byte first.
pub open spec fn u32_at(b: Seq<u8>, p: int) -> u32 {
    (b[p] as int + 256 * (b[p + 1] as int) + 65_536 * (b[p + 2] as int) + 16_777_216 * (b[p
        + 3] as int)) as u32
}

/// The 64-bit number at a position, least significant byte first.
pub open spec fn u64_at(b: Seq<u8>, p: int) -> u64 {
    (u32_at(b, p) as int + 0x1_0000_0000 * (u32_at(b, p + 4) as int)) as u64
}

/// A number of so many bits, taken as signed and extended to 64 bits.
pub open spec fn extended(n: u64, half: u64) -> u64 {
    if n >= half {
        (0x1_0000_0000_0000_0000 - 2 * half + n) as u64
    } else {
        n
    }
}

/// The text that bytes stand for, as `String::from_utf8_lossy` gives it.
pub uninterp spec fn lossy(bytes: Seq<u8>) -> Seq<char>;

/// `String::from_utf8_lossy`: a function of the bytes. Valid UTF-8 is taken as it
/// is; what stands for invalid bytes is left unsaid.
#[verifier::external_body]
pub(crate) fn lossy_text(bytes: &[u8]) -> (r: String)
    ensures
        r@ == lossy(bytes@),
        vstd::utf8::valid_utf8(bytes@) ==> vstd::utf8::encode_utf8(r@) == bytes@,
{
    String::from_utf8_lossy(bytes).into_owned()
}

/// The bytes of the text at a position, and the position behind it.
pub open spec fn string_at(b: Seq<u8>, p: int) -> Result<(Seq<u8>, int), GgufError> {
    if p + 8 > b.len() {
        Err(GgufError::UnexpectedEnd)
    } else {
        let n = u64_at(b, p);
        if n > MAX_TEXT {
            Err(GgufError::ImplausibleLength(n))
        } else if p + 8 + n > b.len() {
            Err(GgufError::UnexpectedEnd)
        } else {
            Ok((b.subrange(p + 8, p + 8 + n), p + 8 + n))
        }
    }
}

/// The position behind `n` skipped bytes.
pub open spec fn skip_at(b: Seq<u8>, p: int, n: u64) -> Result<int, GgufError> {
    if p + n > b.len() {
        Err(GgufError::SkippedPastEnd { wanted: n, got: (b.len() - p) as u64 })
    } else {
        Ok(p + n)
    }
}

/// The position behind `count` skipped texts.
pub open spec fn skip_strings(b: Seq<u8>, p: int, count: u64) -> Result<int, GgufError>
    decreases count,
{
    if count == 0 {
        Ok(p)
    } else if p + 8 > b.len() {
        Err(GgufError::UnexpectedEnd)
    } else {
        match skip_at(b, p + 8, u64_at(b, p)) {
            Err(e) => Err(e),
            Ok(q) => skip_strings(b, q, (count - 1) as u64),
        }
    }
}

/// The size of a value of a type, where it is fixed.
pub open spec fn fixed_size(tag: u32) -> Option<u64> {
    if tag == 0 || tag == 1 || tag == 7 {
        Some(1)
    } else if tag == 2 || tag == 3 {
        Some(2)
    } else if tag == 4 || tag == 5 || tag == 6 {
        Some(4)
    } else if tag == 10 || tag == 11 || tag == 12 {
        Some(8)
    } else {
        None
    }
}

/// The product, at most the largest number of 64 bits.
pub open spec fn saturating_product(a: u64, b: u64) -> u64 {
    if a * b > u64::MAX {
        u64::MAX
    } else {
        (a * b) as u64
    }
}

/// The position behind the elements of an array.
pub open spec fn skip_array(b: Seq<u8>, p: int, tag: u32, count: u64) -> Result<int, GgufError> {
    match fixed_size(tag) {
        Some(size) => skip_at(b, p, saturating_product(count, size)),
        None => if tag == 8 {
            skip_strings(b, p, count)
        } else if tag == 9 {
            Err(GgufError::NestedArray)
        } else {
            Err(GgufError::UnknownElementType(tag))
        },
    }
}

/// The value of a type at a position, and the position behind it. Arrays and
/// floating-point numbers are skipped.
pub open spec fn value_at(b: Seq<u8>, p: int, tag: u32) -> Result<
    (Option<ScalarView>, int),
    GgufError,
> {
    match fixed_size(tag) {
        Some(size) => if p + size > b.len() {
            Err(GgufError::UnexpectedEnd)
        } else if tag == 6 || tag == 12 {
            Ok((None, p + size))
        } else {
            Ok((Some(ScalarView::U(number_at(b, p, tag))), p + size))
        },
        None => if tag == 8 {
            match string_at(b, p) {
                Err(e) => Err(e),
                Ok(s) => Ok((Some(ScalarView::S(lossy(s.0))), s.1)),
            }
        } else if tag == 9 {
            if p + 12 > b.len() {
                Err(GgufError::UnexpectedEnd)
            } else {
                match skip_array(b, p + 12, u32_at(b, p), u64_at(b, p + 4)) {
                    Err(e) => Err(e),
                    Ok(q) => Ok((None, q)),
                }
            }
        } else {
            Err(GgufError::UnknownType(tag))
        },
    }
}

/// The number of an integer type at a position; a signed one is extended to 64
/// bits, a truth value is one or nothing.
pub open spec fn number_at(b: Seq<u8>, p: int, tag: u32) -> u64 {
    if tag == 0 {
        b[p] as u64
    } else if tag == 1 {
        extended(b[p] as u64, 0x80)
    } else if tag == 7 {
        if b[p] != 0 {
            1
        } else {
            0
        }
    } else if tag == 2 {
        (b[p] as int + 256 * (b[p + 1] as int)) as u64
    } else if tag == 3 {
        extended((b[p] as int + 256 * (b[p + 1] as int)) as u64, 0x8000)
    } else if tag == 4 {
        u32_at(b, p) as u64
    } else if tag == 5 {
        extended(u32_at(b, p) as u64, 0x8000_0000)
    } else {
        u64_at(b, p)
    }
}

// --- entries -----------------------------------------------------------------

/// What is kept of the entries read so far.
pub struct Seen {
    /// The entries that are consulted in the end, in the order of their keys'
    /// first appearance.
    pub kept: Seq<(Seq<char>, ScalarView)>,
    pub chat_template: bool,
    pub mtp: bool,
    pub block_size: Option<u64>,
}

/// Whether an entry of the key is consulted in the end.
pub open spec fn is_kept(key: Seq<char>) -> bool {
    key == "general.architecture"@ || key == "general.file_type"@
        || ".context_length"@.is_suffix_of(key)
}

/// The entries with one more; a later entry of the same key replaces the earlier
/// one.
pub open spec fn put(kept: Seq<(Seq<char>, ScalarView)>, key: Seq<char>, value: ScalarView) -> Seq<
    (Seq<char>, ScalarView),
>
    decreases kept.len(),
{
    if kept.len() == 0 {
        seq![(key, value)]
    } else if kept[0].0 == key {
        seq![(key, value)] + kept.skip(1)
    } else {
        seq![kept[0]] + put(kept.skip(1), key, value)
    }
}

/// The value of the entry with the key.
pub open spec fn lookup(kept: Seq<(Seq<char>, ScalarView)>, key: Seq<char>) -> Option<ScalarView>
    decreases kept.len(),
{
    if kept.len() == 0 {
        None
    } else if kept[0].0 == key {
        Some(kept[0].1)
    } else {
        lookup(kept.skip(1), key)
    }
}

/// The value of the first entry that states a context length.
pub open spec fn any_context(kept: Seq<(Seq<char>, ScalarView)>) -> Option<ScalarView>
    decreases kept.len(),
{
    if kept.len() == 0 {
        None
    } else if ".context_length"@.is_suffix_of(kept[0].0) {
        Some(kept[0].1)
    } else {
        any_context(kept.skip(1))
    }
}

/// What is kept after one more entry.
pub open spec fn seen_with(seen: Seen, key: Seq<char>, value: ScalarView) -> Seen {
    Seen {
        kept: if is_kept(key) {
            put(seen.kept, key, value)
        } else {
            seen.kept
        },
        chat_template: seen.chat_template || key == "tokenizer.chat_template"@,
        mtp: seen.mtp || (".nextn_predict_layers"@.is_suffix_of(key) && value.number() is Some
            && value.number()->0 > 0),
        block_size: if key == "dflash.block_size"@ {
            value.number()
        } else {
            seen.block_size
        },
    }
}

/// What is kept of `n` more entries from a position.
pub open spec fn entries(b: Seq<u8>, p: int, n: u64, seen: Seen) -> Result<Seen, GgufError>
    decreases n,
{
    if n == 0 {
        Ok(seen)
    } else {
        match string_at(b, p) {
            Err(e) => Err(e),
            Ok(key) => if key.1 + 4 > b.len() {
                Err(GgufError::UnexpectedEnd)
            } else {
                match value_at(b, key.1 + 4, u32_at(b, key.1)) {
                    Err(e) => Err(e),
                    Ok(v) => entries(
                        b,
                        v.1,
                        (n - 1) as u64,
                        match v.0 {
                            Some(value) => seen_with(seen, lossy(key.0), value),
                            None => seen,
                        },
                    ),
                }
            },
        }
    }
}

/// Nothing read yet.
pub open spec fn nothing_seen() -> Seen {
    Seen {
        kept: Seq::<(Seq<char>, ScalarView)>::empty(),
        chat_template: false,
        mtp: false,
        block_size: None,
    }
}

/// The quantization label of a file type.
pub open spec fn type_label(ft: u64) -> Option<Seq<char>> {
    match ft {
        0 => Some("F32"@),
        1 => Some("F16"@),
        2 => Some("Q4_0"@),
        3 => Some("Q4_1"@),
        7 => Some("Q8_0"@),
        8 => Some("Q5_0"@),
        9 => Some("Q5_1"@),
        10 => Some("Q2_K"@),
        11 => Some("Q3_K_S"@),
        12 => Some("Q3_K_M"@),
        13 => Some("Q3_K_L"@),
        14 => Some("Q4_K_S"@),
        15 => Some("Q4_K_M"@),
        16 => Some("Q5_K_S"@),
        17 => Some("Q5_K_M"@),
        18 => Some("Q6_K"@),
        19 => Some("IQ2_XXS"@),
        20 => Some("IQ2_XS"@),
        21 => Some("Q2_K_S"@),
        22 => Some("IQ3_XS"@),
        23 => Some("IQ3_XXS"@),
        24 => Some("IQ1_S"@),
        25 => Some("IQ4_NL"@),
        26 => Some("IQ3_S"@),
        27 => Some("IQ3_M"@),
        28 => Some("IQ2_S"@),
        29 => Some("IQ2_M"@),
        30 => Some("IQ4_XS"@),
        32 => Some("BF16"@),
        _ => None,
    }
}

/// What the kept entries say of the model. The context length is the one stated
/// for the architecture, else the first one stated for any.
pub open spec fn info_of(seen: Seen) -> InfoView {
    let architecture = match lookup(seen.kept, "general.architecture"@) {
        Some(v) => v.text(),
        None => None,
    };
    let own = match architecture {
        Some(a) => lookup(seen.kept, a + ".context_length"@),
        None => None,
    };
    let context = match own {
        Some(v) => Some(v),
        None => any_context(seen.kept),
    };
    InfoView {
        architecture,
        context_length: match context {
            Some(v) => v.number(),
            None => None,
        },
        file_type_label: match lookup(seen.kept, "general.file_type"@) {
            Some(v) => match v.number() {
                Some(n) => type_label(n),
                None => None,
            },
            None => None,
        },
        has_chat_template: seen.chat_template,
        has_mtp: seen.mtp,
        block_size: seen.block_size,
    }
}

/// Whether bytes begin with the magic.
pub open spec fn has_magic(b: Seq<u8>) -> bool {
    b[0] == 71 && b[1] == 71 && b[2] == 85 && b[3] == 70
}

/// What a header says, or why it cannot be read.
pub open spec fn header(b: Seq<u8>) -> Result<InfoView, GgufError> {
    if b.len() < 4 {
        Err(GgufError::UnexpectedEnd)
    } else if !has_magic(b) {
        Err(GgufError::NotGguf)
    } else if b.len() < 8 {
        Err(GgufError::UnexpectedEnd)
    } else if u32_at(b, 4) < 2 {
        Err(GgufError::UnsupportedVersion(u32_at(b, 4)))
    } else if b.len() < 24 {
        Err(GgufError::UnexpectedEnd)
    } else {
        match entries(b, 24, u64_at(b, 16), nothing_seen()) {
            Err(e) => Err(e),
            Ok(seen) => Ok(info_of(seen)),
        }
    }
}

// --- the same, computed ------------------------------------------------------

fn read_u32(b: &[u8], p: usize) -> (r: u32)
    requires
        p + 4 <= b.len(),
    ensures
        r == u32_at(b@, p as int),
{
    (b[p] as u32) + 256 * (b[p + 1] as u32) + 65_536 * (b[p + 2] as u32) + 16_777_216 * (b[p
        + 3] as u32)
}

fn read_u64(b: &[u8], p: usize) -> (r: u64)
    requires
        p + 8 <= b.len(),
    ensures
        r == u64_at(b@, p as int),
{
    let low: u64 = read_u32(b, p) as u64;
    let high: u64 = read_u32(b, p + 4) as u64;
    low + 0x1_0000_0000 * high
}

fn extend(n: u64, half: u64) -> (r: u64)
    requires
        1 <= half <= 0x8000_0000,
        n < 2 * half,
    ensures
        r == extended(n, half),
{
    if n >= half {
        u64::MAX - (2 * half - 1) + n
    } else {
        n
    }
}

/// Where the bytes of the text at a position begin and end.
fn read_string(b: &[u8], p: usize) -> (r: Result<(usize, usize), GgufError>)
    requires
        p <= b.len(),
    ensures
        match r {
            Ok(s) => p <= s.0 <= s.1 <= b.len() && string_at(b@, p as int) == Ok::<
                (Seq<u8>, int),
                GgufError,
            >((b@.subrange(s.0 as int, s.1 as int), s.1 as int)),
            Err(e) => string_at(b@, p as int) == Err::<(Seq<u8>, int), GgufError>(e),
        },
{
    if b.len() - p < 8 {
        return Err(GgufError::UnexpectedEnd);
    }
    let n = read_u64(b, p);
    if n > MAX_TEXT {
        return Err(GgufError::ImplausibleLength(n));
    }
    let from: usize = p + 8;
    if ((b.len() - from) as u64) < n {
        return Err(GgufError::UnexpectedEnd);
    }
    Ok((from, from + n as usize))
}

fn skip_bytes(b: &[u8], p: usize, n: u64) -> (r: Result<usize, GgufError>)
    requires
        p <= b.len(),
    ensures
        match r {
            Ok(q) => p <= q <= b.len() && skip_at(b@, p as int, n) == Ok::<int, GgufError>(q as int),
            Err(e) => skip_at(b@, p as int, n) == Err::<int, GgufError>(e),
        },
{
    let left: u64 = (b.len() - p) as u64;
    if left < n {
        Err(GgufError::SkippedPastEnd { wanted: n, got: left })
    } else {
        Ok(p + n as usize)
    }
}

fn skip_elements(b: &[u8], p: usize, tag: u32, count: u64) -> (r: Result<usize, GgufError>)
    requires
        p <= b.len(),
    ensures
        match r {
            Ok(q) => p <= q <= b.len() && skip_array(b@, p as int, tag, count) == Ok::<
                int,
                GgufError,
            >(q as int),
            Err(e) => skip_array(b@, p as int, tag, count) == Err::<int, GgufError>(e),
        },
{
    let size: u64 = match tag {
        0 | 1 | 7 => 1,
        2 | 3 => 2,
        4 | 5 | 6 => 4,
        10 | 11 | 12 => 8,
        8 => {
            let mut at: usize = p;
            let mut left: u64 = count;
            while left > 0
                invariant
                    p <= at <= b.len(),
                    skip_strings(b@, p as int, count) == skip_strings(b@, at as int, left),
                    tag == 8,
                    fixed_size(tag) is None,
                    skip_array(b@, p as int, tag, count) == skip_strings(b@, p as int, count),
                decreases left,
            {
                if b.len() - at < 8 {
                    return Err(GgufError::UnexpectedEnd);
                }
                let n = read_u64(b, at);
                match skip_bytes(b, at + 8, n) {
                    Err(e) => return Err(e),
                    Ok(q) => {
                        at = q;
                    },
                }
                left = left - 1;
            }
            return Ok(at);
        },
        9 => return Err(GgufError::NestedArray),
        other => return Err(GgufError::UnknownElementType(other)),
    };
    let total: u64 = if count > u64::MAX / size {
        u64::MAX
    } else {
        count * size
    };
    assert(total == saturating_product(count, size)) by {
        if count > u64::MAX / size {
            assert(count * size > u64::MAX) by (nonlinear_arith)
                requires
                    count > u64::MAX / size,
                    1 <= size <= 8,
            ;
        } else {
            assert(count * size <= u64::MAX) by (nonlinear_arith)
                requires
                    count <= u64::MAX / size,
                    1 <= size <= 8,
            ;
        }
    }
    skip_bytes(b, p, total)
}

/// The view of an optional value.
pub open spec fn scalar_view(v: Option<Scalar>) -> Option<ScalarView> {
    match v {
        Some(s) => Some(s@),
        None => None,
    }
}

fn read_number(b: &[u8], p: usize, tag: u32) -> (r: u64)
    requires
        fixed_size(tag) is Some,
        tag != 6 && tag != 12,
        p + fixed_size(tag)->0 <= b.len(),
    ensures
        r == number_at(b@, p as int, tag),
{
    match tag {
        0 => b[p] as u64,
        1 => extend(b[p] as u64, 0x80),
        7 => if b[p] != 0 {
            1
        } else {
            0
        },
        2 => (b[p] as u64) + 256 * (b[p + 1] as u64),
        3 => extend((b[p] as u64) + 256 * (b[p + 1] as u64), 0x8000),
        4 => read_u32(b, p) as u64,
        5 => extend(read_u32(b, p) as u64, 0x8000_0000),
        _ => read_u64(b, p),
    }
}

fn read_value(b: &[u8], p: usize, tag: u32) -> (r: Result<(Option<Scalar>, usize), GgufError>)
    requires
        p <= b.len(),
    ensures
        match r {
            Ok(v) => p <= v.1 <= b.len() && value_at(b@, p as int, tag) == Ok::<
                (Option<ScalarView>, int),
                GgufError,
            >((scalar_view(v.0), v.1 as int)),
            Err(e) => value_at(b@, p as int, tag) == Err::<(Option<ScalarView>, int), GgufError>(e),
        },
{
    let size: usize = match tag {
        0 | 1 | 7 => 1,
        2 | 3 => 2,
        4 | 5 | 6 => 4,
        10 | 11 | 12 => 8,
        8 => {
            return match read_string(b, p) {
                Err(e) => Err(e),
                Ok((from, to)) => Ok((Some(Scalar::S(lossy_text(&b[from..to]))), to)),
            };
        },
        9 => {
            if b.len() - p < 12 {
                return Err(GgufError::UnexpectedEnd);
            }
            let element = read_u32(b, p);
            let count = read_u64(b, p + 4);
            return match skip_elements(b, p + 12, element, count) {
                Err(e) => Err(e),
                Ok(q) => Ok((None, q)),
            };
        },
        other => return Err(GgufError::UnknownType(other)),
    };
    if b.len() - p < size {
        return Err(GgufError::UnexpectedEnd);
    }
    if tag == 6 || tag == 12 {
        Ok((None, p + size))
    } else {
        Ok((Some(Scalar::U(read_number(b, p, tag))), p + size))
    }
}

/// The entries kept so far.
struct Kept {
    entries: Vec<(String, Scalar)>,
    chat_template: bool,
    mtp: bool,
    block_size: Option<u64>,
}

/// The views of kept entries.
spec fn kept_view(v: Seq<(String, Scalar)>) -> Seq<(Seq<char>, ScalarView)> {
    v.map_values(|e: (String, Scalar)| (e.0@, e.1@))
}

impl Kept {
    spec fn seen(self) -> Seen {
        Seen {
            kept: kept_view(self.entries@),
            chat_template: self.chat_template,
            mtp: self.mtp,
            block_size: self.block_size,
        }
    }
}

/// Where an entry goes: in the place of the first of its key, or at the end.
proof fn lemma_put(kept: Seq<(Seq<char>, ScalarView)>, key: Seq<char>, value: ScalarView, at: int)
    requires
        0 <= at <= kept.len(),
        forall|j: int| 0 <= j < at ==> (#[trigger] kept[j]).0 != key,
        at < kept.len() ==> kept[at].0 == key,
    ensures
        put(kept, key, value) == if at < kept.len() {
            kept.update(at, (key, value))
        } else {
            kept.push((key, value))
        },
    decreases kept.len(),
{
    if kept.len() == 0 {
        assert(put(kept, key, value) =~= kept.push((key, value)));
    } else if at == 0 {
        assert(put(kept, key, value) =~= kept.update(0, (key, value)));
    } else {
        assert(kept[0].0 != key);
        let rest = kept.skip(1);
        assert forall|j: int| 0 <= j < at - 1 implies (#[trigger] rest[j]).0 != key by {
            assert(rest[j] == kept[j + 1]);
        }
        lemma_put(rest, key, value, at - 1);
        if at < kept.len() {
            assert(put(kept, key, value) =~= kept.update(at, (key, value)));
        } else {
            assert(put(kept, key, value) =~= kept.push((key, value)));
        }
    }
}

impl Kept {
    /// Takes in one entry.
    fn take(&mut self, key: String, value: Scalar)
        ensures
            final(self).seen() == seen_with(old(self).seen(), key@, value@),
    {
        let name = key.as_str();
        if text::same(name, "tokenizer.chat_template") {
            self.chat_template = true;
        }
        if text::ends_with(name, ".nextn_predict_layers") {
            if let Scalar::U(n) = &value {
                if *n > 0 {
                    self.mtp = true;
                }
            }
        }
        if text::same(name, "dflash.block_size") {
            self.block_size = match &value {
                Scalar::U(n) => Some(*n),
                Scalar::S(_) => None,
            };
        }
        if text::same(name, "general.architecture") || text::same(name, "general.file_type")
            || text::ends_with(name, ".context_length") {
            let ghost had = kept_view(self.entries@);
            let ghost view = value@;
            let ghost now = *self;
            let mut i: usize = 0;
            while i < self.entries.len() && !text::same(self.entries[i].0.as_str(), name)
                invariant
                    i <= self.entries.len(),
                    *self == now,
                    had == kept_view(self.entries@),
                    name@ == key@,
                    forall|j: int| 0 <= j < i ==> (#[trigger] had[j]).0 != key@,
                decreases self.entries.len() - i,
            {
                assert(had[i as int].0 == self.entries@[i as int].0@);
                i += 1;
            }
            proof {
                if i < self.entries.len() {
                    assert(had[i as int].0 == self.entries@[i as int].0@);
                }
                lemma_put(had, key@, view, i as int);
            }
            if i < self.entries.len() {
                self.entries[i] = (key, value);
                assert(kept_view(self.entries@) =~= had.update(i as int, (key@, view)));
            } else {
                self.entries.push((key, value));
                assert(kept_view(self.entries@) =~= had.push((key@, view)));
            }
        }
    }

    /// The place of the entry with the key.
    fn find(&self, key: &str) -> (r: Option<usize>)
        ensures
            match r {
                Some(i) => i < self.entries.len() && lookup(self.seen().kept, key@) == Some(
                    self.entries@[i as int].1@,
                ),
                None => lookup(self.seen().kept, key@) is None,
            },
    {
        let ghost all = self.seen().kept;
        let mut i: usize = 0;
        assert(all.skip(0) =~= all);
        while i < self.entries.len()
            invariant
                i <= self.entries.len(),
                all == kept_view(self.entries@),
                lookup(all, key@) == lookup(all.skip(i as int), key@),
            decreases self.entries.len() - i,
        {
            assert(all.skip(i as int)[0] == all[i as int]);
            if text::same(self.entries[i].0.as_str(), key) {
                return Some(i);
            }
            assert(all.skip(i as int).skip(1) =~= all.skip(i + 1));
            i += 1;
        }
        None
    }

    /// The place of the first entry that states a context length.
    fn find_context(&self) -> (r: Option<usize>)
        ensures
            match r {
                Some(i) => i < self.entries.len() && any_context(self.seen().kept) == Some(
                    self.entries@[i as int].1@,
                ),
                None => any_context(self.seen().kept) is None,
            },
    {
        let ghost all = self.seen().kept;
        let mut i: usize = 0;
        assert(all.skip(0) =~= all);
        while i < self.entries.len()
            invariant
                i <= self.entries.len(),
                all == kept_view(self.entries@),
                any_context(all) == any_context(all.skip(i as int)),
            decreases self.entries.len() - i,
        {
            assert(all.skip(i as int)[0] == all[i as int]);
            if text::ends_with(self.entries[i].0.as_str(), ".context_length") {
                return Some(i);
            }
            assert(all.skip(i as int).skip(1) =~= all.skip(i + 1));
            i += 1;
        }
        None
    }

    fn number(&self, at: Option<usize>) -> (r: Option<u64>)
        requires
            at is Some ==> at->0 < self.entries.len(),
        ensures
            r == match at {
                Some(i) => self.entries@[i as int].1@.number(),
                None => None,
            },
    {
        match at {
            Some(i) => match &self.entries[i].1 {
                Scalar::U(n) => Some(*n),
                Scalar::S(_) => None,
            },
            None => None,
        }
    }

    /// What the kept entries say of the model.
    fn info(&self) -> (r: GgufInfo)
        ensures
            r@ == info_of(self.seen()),
    {
        let architecture: Option<String> = match self.find("general.architecture") {
            Some(i) => match &self.entries[i].1 {
                Scalar::S(s) => Some(s.clone()),
                Scalar::U(_) => None,
            },
            None => None,
        };
        let own: Option<usize> = match &architecture {
            Some(a) => self.find(text::cat(a.as_str(), ".context_length").as_str()),
            None => None,
        };
        let context = if own.is_some() {
            own
        } else {
            self.find_context()
        };
        let label = match self.number(self.find("general.file_type")) {
            Some(n) => file_type_label(n),
            None => None,
        };
        GgufInfo {
            architecture,
            context_length: self.number(context),
            file_type_label: label,
            has_chat_template: self.chat_template,
            has_mtp: self.mtp,
            block_size: self.block_size,
        }
    }
}

/// The quantization label of a file type.
pub fn file_type_label(ft: u64) -> (r: Option<String>)
    ensures
        opt(r) == type_label(ft),
{
    let label = match ft {
        0 => "F32",
        1 => "F16",
        2 => "Q4_0",
        3 => "Q4_1",
        7 => "Q8_0",
        8 => "Q5_0",
        9 => "Q5_1",
        10 => "Q2_K",
        11 => "Q3_K_S",
        12 => "Q3_K_M",
        13 => "Q3_K_L",
        14 => "Q4_K_S",
        15 => "Q4_K_M",
        16 => "Q5_K_S",
        17 => "Q5_K_M",
        18 => "Q6_K",
        19 => "IQ2_XXS",
        20 => "IQ2_XS",
        21 => "Q2_K_S",
        22 => "IQ3_XS",
        23 => "IQ3_XXS",
        24 => "IQ1_S",
        25 => "IQ4_NL",
        26 => "IQ3_S",
        27 => "IQ3_M",
        28 => "IQ2_S",
        29 => "IQ2_M",
        30 => "IQ4_XS",
        32 => "BF16",
        _ => return None,
    };
    Some(text::copy(label))
}

/// What the header at the beginning of the bytes says of the model.
pub fn read_gguf_info(b: &[u8]) -> (r: Result<GgufInfo, GgufError>)
    ensures
        match r {
            Ok(info) => header(b@) == Ok::<InfoView, GgufError>(info@),
            Err(e) => header(b@) == Err::<InfoView, GgufError>(e),
        },
{
    if b.len() < 4 {
        return Err(GgufError::UnexpectedEnd);
    }
    if !(b[0] == 71 && b[1] == 71 && b[2] == 85 && b[3] == 70) {
        return Err(GgufError::NotGguf);
    }
    if b.len() < 8 {
        return Err(GgufError::UnexpectedEnd);
    }
    let version = read_u32(b, 4);
    if version < 2 {
        return Err(GgufError::UnsupportedVersion(version));
    }
    if b.len() < 24 {
        return Err(GgufError::UnexpectedEnd);
    }
    let count = read_u64(b, 16);
    let mut kept = Kept { entries: Vec::new(), chat_template: false, mtp: false, block_size: None };
    assert(kept.seen().kept =~= nothing_seen().kept);
    let mut p: usize = 24;
    let mut left: u64 = count;
    while left > 0
        invariant
            p <= b.len(),
            b.len() >= 24,
            has_magic(b@),
            u32_at(b@, 4) >= 2,
            count == u64_at(b@, 16),
            entries(b@, 24, count, nothing_seen()) == entries(b@, p as int, left, kept.seen()),
        decreases left,
    {
        let (from, to) = match read_string(b, p) {
            Err(e) => return Err(e),
            Ok(s) => s,
        };
        if b.len() - to < 4 {
            return Err(GgufError::UnexpectedEnd);
        }
        let tag = read_u32(b, to);
        match read_value(b, to + 4, tag) {
            Err(e) => return Err(e),
            Ok((value, q)) => {
                if let Some(v) = value {
                    kept.take(lossy_text(&b[from..to]), v);
                }
                p = q;
            },
        }
        left = left - 1;
    }
    Ok(kept.info())
}

// --- a prefix decides ----------------------------------------------------------

proof fn lemma_numbers(b: Seq<u8>, more: Seq<u8>, p: int)
    requires
        0 <= p,
    ensures
        p + 4 <= b.len() ==> u32_at(b + more, p) == u32_at(b, p),
        p + 8 <= b.len() ==> u64_at(b + more, p) == u64_at(b, p),
{
    let c = b + more;
    if p + 4 <= b.len() {
        assert(c[p] == b[p] && c[p + 1] == b[p + 1] && c[p + 2] == b[p + 2] && c[p + 3] == b[p + 3]);
    }
    if p + 8 <= b.len() {
        assert(c[p + 4] == b[p + 4] && c[p + 5] == b[p + 5] && c[p + 6] == b[p + 6] && c[p + 7]
            == b[p + 7]);
    }
}

/// Whether more bytes could not change an outcome.
pub open spec fn decided<T>(r: Result<T, GgufError>) -> bool {
    r is Err ==> !r->Err_0.wants_more()
}

proof fn lemma_string_prefix(b: Seq<u8>, more: Seq<u8>, p: int)
    requires
        0 <= p <= b.len(),
        decided(string_at(b, p)),
    ensures
        string_at(b + more, p) == string_at(b, p),
{
    lemma_numbers(b, more, p);
    if string_at(b, p) is Ok {
        let n = u64_at(b, p);
        assert((b + more).subrange(p + 8, p + 8 + n) =~= b.subrange(p + 8, p + 8 + n));
    }
}

proof fn lemma_skip_strings_prefix(b: Seq<u8>, more: Seq<u8>, p: int, count: u64)
    requires
        0 <= p <= b.len(),
        decided(skip_strings(b, p, count)),
    ensures
        skip_strings(b + more, p, count) == skip_strings(b, p, count),
    decreases count,
{
    lemma_numbers(b, more, p);
    if count > 0 {
        match skip_at(b, p + 8, u64_at(b, p)) {
            Ok(q) => {
                lemma_skip_strings_prefix(b, more, q, (count - 1) as u64);
            },
            Err(_) => {},
        }
    }
}

proof fn lemma_value_prefix(b: Seq<u8>, more: Seq<u8>, p: int, tag: u32)
    requires
        0 <= p <= b.len(),
        decided(value_at(b, p, tag)),
    ensures
        value_at(b + more, p, tag) == value_at(b, p, tag),
{
    lemma_numbers(b, more, p);
    lemma_numbers(b, more, p + 4);
    match fixed_size(tag) {
        Some(size) => {
            assert((b + more)[p] == b[p]);
            if size >= 2 {
                assert((b + more)[p + 1] == b[p + 1]);
            }
        },
        None => {
            if tag == 8 {
                lemma_string_prefix(b, more, p);
            } else if tag == 9 {
                let element = u32_at(b, p);
                if fixed_size(element) is None && element == 8 {
                    lemma_skip_strings_prefix(b, more, p + 12, u64_at(b, p + 4));
                }
            }
        },
    }
}

proof fn lemma_positions(b: Seq<u8>, p: int, tag: u32)
    requires
        0 <= p <= b.len(),
    ensures
        string_at(b, p) is Ok ==> p <= string_at(b, p)->Ok_0.1 <= b.len(),
        value_at(b, p, tag) is Ok ==> p <= value_at(b, p, tag)->Ok_0.1 <= b.len(),
{
    if tag == 9 && p + 12 <= b.len() && u32_at(b, p) == 8 {
        lemma_skip_strings_position(b, p + 12, u64_at(b, p + 4));
    }
}

proof fn lemma_skip_strings_position(b: Seq<u8>, p: int, count: u64)
    requires
        0 <= p <= b.len(),
    ensures
        skip_strings(b, p, count) is Ok ==> p <= skip_strings(b, p, count)->Ok_0 <= b.len(),
    decreases count,
{
    if count > 0 && p + 8 <= b.len() {
        match skip_at(b, p + 8, u64_at(b, p)) {
            Ok(q) => {
                lemma_skip_strings_position(b, q, (count - 1) as u64);
            },
            Err(_) => {},
        }
    }
}

proof fn lemma_entries_prefix(b: Seq<u8>, more: Seq<u8>, p: int, n: u64, seen: Seen)
    requires
        0 <= p <= b.len(),
        decided(entries(b, p, n, seen)),
    ensures
        entries(b + more, p, n, seen) == entries(b, p, n, seen),
    decreases n,
{
    if n > 0 {
        match string_at(b, p) {
            Err(_) => {
                lemma_string_prefix(b, more, p);
            },
            Ok(key) => {
                lemma_string_prefix(b, more, p);
                lemma_positions(b, p, 0);
                if key.1 + 4 <= b.len() {
                    lemma_numbers(b, more, key.1);
                    let tag = u32_at(b, key.1);
                    lemma_value_prefix(b, more, key.1 + 4, tag);
                    lemma_positions(b, key.1 + 4, tag);
                    match value_at(b, key.1 + 4, tag) {
                        Err(_) => {},
                        Ok(v) => {
                            let next = match v.0 {
                                Some(value) => seen_with(seen, lossy(key.0), value),
                                None => seen,
                            };
                            lemma_entries_prefix(b, more, v.1, (n - 1) as u64, next);
                        },
                    }
                }
            },
        }
    }
}

/// What the beginning of a file says of its header, the whole file says too,
/// unless the reading stopped for want of bytes. So a header can be read from as
/// much of a file as it takes.
pub proof fn law_prefix_decides_header(b: Seq<u8>, more: Seq<u8>)
    requires
        header(b) is Err ==> !header(b)->Err_0.wants_more(),
    ensures
        header(b + more) == header(b),
{
    let c = b + more;
    if b.len() >= 4 {
        assert(c[0] == b[0] && c[1] == b[1] && c[2] == b[2] && c[3] == b[3]);
        lemma_numbers(b, more, 4);
        if has_magic(b) && b.len() >= 24 && u32_at(b, 4) >= 2 {
            lemma_numbers(b, more, 16);
            lemma_entries_prefix(b, more, 24, u64_at(b, 16), nothing_seen());
        }
    }
}

} // verus!
