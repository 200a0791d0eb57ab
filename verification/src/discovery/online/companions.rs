//! Files of a repository that accompany a model: multi-token-prediction heads,
//! block drafters and multimodal projectors.

use vstd::prelude::*;
use crate::chars;
use crate::discovery::shards;
use crate::number;
use crate::order;
use crate::path;
use crate::text;
use crate::text::strs;

verus! {

// --- what a file name is -----------------------------------------------------

/// Whether a text begins with another, ASCII case aside.
pub open spec fn begins_fold(s: Seq<char>, p: Seq<char>) -> bool {
    p.is_prefix_of(chars::ascii_lower(s))
}

/// Whether a text ends with another, ASCII case aside.
pub open spec fn ends_fold(s: Seq<char>, p: Seq<char>) -> bool {
    p.is_suffix_of(chars::ascii_lower(s))
}

/// A multi-token-prediction head: `mtp-*.gguf`.
pub open spec fn is_mtp(file: Seq<char>) -> bool {
    begins_fold(path::tail(file), "mtp-"@) && ends_fold(path::tail(file), ".gguf"@)
}

/// A block drafter: `dflash*.gguf`.
pub open spec fn is_dflash(file: Seq<char>) -> bool {
    begins_fold(path::tail(file), "dflash"@) && ends_fold(path::tail(file), ".gguf"@)
}

/// A multimodal projector: `mmproj*.gguf`.
pub open spec fn is_projector(file: Seq<char>) -> bool {
    begins_fold(path::tail(file), "mmproj"@) && ends_fold(path::tail(file), ".gguf"@)
}

/// A file that accompanies a model and is none itself.
pub open spec fn accompanies(file: Seq<char>) -> bool {
    begins_fold(path::tail(file), "mtp-"@) || begins_fold(path::tail(file), "mmproj"@) || is_dflash(
        file,
    )
}

fn named_like(file: &str, prefix: &str) -> (r: bool)
    ensures
        r == (begins_fold(path::tail(file@), prefix@) && ends_fold(path::tail(file@), ".gguf"@)),
{
    let name = chars::to_ascii_lower(path::last_piece(file).as_str());
    text::starts_with(name.as_str(), prefix) && text::ends_with(name.as_str(), ".gguf")
}

/// Whether a file is a multi-token-prediction head.
pub fn is_mtp_companion(file: &str) -> (r: bool)
    ensures
        r == is_mtp(file@),
{
    named_like(file, "mtp-")
}

/// Whether a file is a block drafter.
pub fn is_dflash_companion(file: &str) -> (r: bool)
    ensures
        r == is_dflash(file@),
{
    named_like(file, "dflash")
}

/// Whether a file is a multimodal projector.
pub fn is_projector_companion(file: &str) -> (r: bool)
    ensures
        r == is_projector(file@),
{
    named_like(file, "mmproj")
}

/// Whether a file accompanies a model and is none itself.
pub fn is_companion(file: &str) -> (r: bool)
    ensures
        r == accompanies(file@),
{
    let name = chars::to_ascii_lower(path::last_piece(file).as_str());
    text::starts_with(name.as_str(), "mtp-") || text::starts_with(name.as_str(), "mmproj")
        || is_dflash_companion(file)
}

/// The text without a suffix that it ends with, ASCII case aside.
pub open spec fn without_suffix(value: Seq<char>, suffix: Seq<char>) -> Option<Seq<char>> {
    let start = value.len() - suffix.len();
    if start >= 0 && chars::same_fold(value.skip(start), suffix) {
        Some(value.take(start))
    } else {
        None
    }
}

/// The text without a suffix that it ends with, ASCII case aside.
pub fn strip_suffix_ascii_case(value: &str, suffix: &str) -> (r: Option<String>)
    ensures
        text::opt(r) == without_suffix(value@, suffix@),
{
    let n = value.unicode_len();
    let k = suffix.unicode_len();
    if n < k {
        return None;
    }
    let tail = text::piece(value, n - k, n);
    assert(tail@ =~= value@.skip(n - k));
    if chars::eq_fold(tail.as_str(), suffix) {
        Some(text::piece(value, 0, n - k))
    } else {
        None
    }
}

/// The text, or what is left of it without the suffix.
pub open spec fn stem(value: Seq<char>, suffix: Seq<char>) -> Seq<char> {
    match without_suffix(value, suffix) {
        Some(s) => s,
        None => value,
    }
}

fn stem_of(value: &str, suffix: &str) -> (r: String)
    ensures
        r@ == stem(value@, suffix@),
{
    match strip_suffix_ascii_case(value, suffix) {
        Some(s) => s,
        None => text::copy(value),
    }
}

/// What stands before the last separator; nothing where there is none.
pub open spec fn directory_of(file: Seq<char>) -> Seq<char> {
    if path::last_separator(file) < 0 {
        ""@
    } else {
        file.take(path::last_separator(file))
    }
}

/// What stands before the last separator; nothing where there is none.
pub fn parent_path(file: &str) -> (r: String)
    ensures
        r@ == directory_of(file@),
{
    path::before_last_separator(file)
}

// --- ranking -----------------------------------------------------------------

/// How well a companion fits: the tier first, then the quantization, then how
/// much of the name it shares.
#[derive(Debug, Clone, Copy, PartialEq, Eq, Structural)]
pub struct Rank {
    pub tier: u8,
    pub quant: u16,
    pub family: usize,
}

/// Whether rank `a` is lower than rank `b`.
pub open spec fn rank_lt(a: Rank, b: Rank) -> bool {
    a.tier < b.tier || (a.tier == b.tier && (a.quant < b.quant || (a.quant == b.quant && a.family
        < b.family)))
}

/// Whether candidate `a` is better than candidate `b`: the higher rank, and of
/// equal ranks the file name that comes first.
pub open spec fn better(names: Seq<Seq<char>>, ranks: Seq<Option<Rank>>, a: int, b: int) -> bool {
    rank_lt(ranks[b]->0, ranks[a]->0) || (ranks[a]->0 == ranks[b]->0 && order::text_lt(
        names[a],
        names[b],
    ))
}

/// The best of the first `n` candidates, the later one of equals; a file without
/// a rank is no candidate.
pub open spec fn best(names: Seq<Seq<char>>, ranks: Seq<Option<Rank>>, n: nat) -> Option<int>
    decreases n,
{
    if n == 0 {
        None
    } else {
        let sofar = best(names, ranks, (n - 1) as nat);
        if ranks[n - 1] is None || (sofar is Some && better(names, ranks, sofar->0, n - 1)) {
            sofar
        } else {
            Some(n - 1)
        }
    }
}

/// The best is a candidate, no other candidate is better, and there is none only
/// where there is no candidate.
pub proof fn law_best_is_unbeaten(names: Seq<Seq<char>>, ranks: Seq<Option<Rank>>, n: nat)
    requires
        n <= ranks.len(),
        n <= names.len(),
    ensures
        match best(names, ranks, n) {
            Some(i) => 0 <= i < n && ranks[i] is Some && forall|j: int|
                0 <= j < n && #[trigger] ranks[j] is Some ==> !better(names, ranks, j, i),
            None => forall|j: int| 0 <= j < n ==> #[trigger] ranks[j] is None,
        },
    decreases n,
{
    if n > 0 {
        law_best_is_unbeaten(names, ranks, (n - 1) as nat);
        let sofar = best(names, ranks, (n - 1) as nat);
        if let Some(i) = best(names, ranks, n) {
            assert forall|j: int| 0 <= j < n && #[trigger] ranks[j] is Some implies !better(
                names,
                ranks,
                j,
                i,
            ) by {
                order::law_text_order_is_total(names[i], names[j]);
                if i == n - 1 {
                    if j < n - 1 {
                        let b = sofar->0;
                        assert(!better(names, ranks, b, i));
                        assert(!better(names, ranks, j, b));
                        order::law_text_order_is_total(names[b], names[i]);
                        order::law_text_order_is_total(names[j], names[b]);
                        if better(names, ranks, j, i) && ranks[j]->0 == ranks[i]->0 {
                            assert(ranks[b]->0 == ranks[i]->0);
                            if names[b] != names[i] {
                                order::law_text_order_is_transitive(names[j], names[i], names[b]);
                            }
                        }
                    }
                } else if j == n - 1 {
                    assert(better(names, ranks, i, j));
                }
            }
        }
    }
}

/// The best of the candidates.
pub fn best_companion(names: &Vec<String>, ranks: &Vec<Option<Rank>>) -> (r: Option<usize>)
    requires
        names.len() == ranks.len(),
    ensures
        match r {
            Some(i) => best(strs(names@), ranks@, ranks@.len()) == Some(i as int) && i < names.len(),
            None => best(strs(names@), ranks@, ranks@.len()) is None,
        },
{
    let ghost all = strs(names@);
    let mut found: Option<usize> = None;
    let mut i: usize = 0;
    while i < ranks.len()
        invariant
            names.len() == ranks.len(),
            all == strs(names@),
            i <= ranks.len(),
            match found {
                Some(k) => k < i && ranks@[k as int] is Some && best(all, ranks@, i as nat) == Some(
                    k as int,
                ),
                None => best(all, ranks@, i as nat) is None,
            },
        decreases ranks.len() - i,
    {
        if let Some(rank) = ranks[i] {
            let mut keep: bool = false;
            if let Some(k) = found {
                if let Some(had) = ranks[k] {
                    let higher = rank.tier < had.tier || (rank.tier == had.tier && (rank.quant
                        < had.quant || (rank.quant == had.quant && rank.family < had.family)));
                    let equal = rank.tier == had.tier && rank.quant == had.quant && rank.family
                        == had.family;
                    keep = higher || (equal && order::text_before(
                        names[k].as_str(),
                        names[i].as_str(),
                    ));
                }
                assert(all[k as int] == names@[k as int]@ && all[i as int] == names@[i as int]@);
                assert(keep == better(all, ranks@, k as int, i as int));
            }
            if !keep {
                found = Some(i);
            }
        }
        i += 1;
    }
    found
}

// --- quantizations -----------------------------------------------------------

/// The digits that a text begins with.
pub open spec fn leading_digits(s: Seq<char>) -> Seq<char>
    decreases s.len(),
{
    if s.len() == 0 || !chars::is_digit(s[0]) {
        Seq::<char>::empty()
    } else {
        seq![s[0]] + leading_digits(s.skip(1))
    }
}

/// The first run of digits in a text.
pub open spec fn first_number(s: Seq<char>) -> Seq<char>
    decreases s.len(),
{
    if s.len() == 0 {
        Seq::<char>::empty()
    } else if chars::is_digit(s[0]) {
        leading_digits(s)
    } else {
        first_number(s.skip(1))
    }
}

/// What stands for the bits of a label that names no sensible number of them.
pub const MANY_BITS: u16 = 999;

/// The bits per weight that a quantization label names: `Q4_K_M` and `MXFP4` four,
/// `F16` sixteen.
pub open spec fn bits(label: Seq<char>) -> u16 {
    match number::parse_nat(first_number(label), MANY_BITS as nat) {
        Some(n) => n as u16,
        None => MANY_BITS,
    }
}

/// Which of the labels with the same bits comes first.
pub open spec fn favor(label: Seq<char>) -> u16 {
    if chars::same_fold(label, "Q4_0"@) || chars::same_fold(label, "Q8_0"@) || chars::same_fold(
        label,
        "BF16"@,
    ) {
        2
    } else if chars::same_fold(label, "F16"@) {
        1
    } else {
        0
    }
}

/// How much a block drafter's quantization is preferred: the publisher's unqualified
/// file first, then the most compact one.
pub open spec fn compact_rank(quant: Option<Seq<char>>) -> u16 {
    match quant {
        None => 3000,
        Some(q) => (3 * (MANY_BITS - bits(q)) + favor(q)) as u16,
    }
}

/// How much a head's quantization is preferred: the publisher's unqualified file
/// first, then the usual ones in this order, then any other.
pub open spec fn draft_rank(quant: Option<Seq<char>>) -> u16 {
    match quant {
        None => 6,
        Some(q) => if chars::same_fold(q, "Q4_0"@) {
            5
        } else if chars::same_fold(q, "Q8_0"@) {
            4
        } else if chars::same_fold(q, "BF16"@) {
            3
        } else if chars::same_fold(q, "F16"@) {
            2
        } else {
            1
        },
    }
}

/// How much a projector's quantization is preferred: the unqualified file first,
/// then the usual ones from the larger to the smaller, then any other.
pub open spec fn projector_rank(quant: Option<Seq<char>>) -> u16 {
    match quant {
        None => 6,
        Some(q) => if chars::same_fold(q, "BF16"@) {
            5
        } else if chars::same_fold(q, "F16"@) {
            4
        } else if chars::same_fold(q, "Q8_0"@) {
            3
        } else if chars::same_fold(q, "Q4_0"@) {
            2
        } else {
            1
        },
    }
}

proof fn lemma_leading_digits(s: Seq<char>, k: int)
    requires
        0 <= k <= s.len(),
        forall|i: int| 0 <= i < k ==> chars::is_digit(#[trigger] s[i]),
        k == s.len() || !chars::is_digit(s[k]),
    ensures
        leading_digits(s) == s.take(k),
    decreases k,
{
    if k > 0 {
        let t = s.skip(1);
        assert forall|i: int| 0 <= i < k - 1 implies chars::is_digit(#[trigger] t[i]) by {
            assert(t[i] == s[i + 1]);
        }
        lemma_leading_digits(t, k - 1);
        assert(seq![s[0]] + t.take(k - 1) =~= s.take(k));
    } else {
        assert(s.take(0) =~= Seq::<char>::empty());
    }
}

/// The bits per weight that a quantization label names.
pub fn label_bits(label: &str) -> (r: u16)
    ensures
        r == bits(label@),
        r <= MANY_BITS,
{
    let cs = text::chars(label);
    let mut i: usize = 0;
    assert(label@.skip(0) =~= label@);
    while i < cs.len() && !chars::digit(cs[i])
        invariant
            cs@ == label@,
            i <= cs.len(),
            first_number(label@) == first_number(label@.skip(i as int)),
        decreases cs.len() - i,
    {
        assert(label@.skip(i as int).skip(1) =~= label@.skip(i + 1));
        i += 1;
    }
    let mut j: usize = i;
    while j < cs.len() && chars::digit(cs[j])
        invariant
            cs@ == label@,
            i <= j <= cs.len(),
            forall|k: int| i <= k < j ==> chars::is_digit(#[trigger] label@[k]),
        decreases cs.len() - j,
    {
        j += 1;
    }
    let digits = text::piece(label, i, j);
    proof {
        let rest = label@.skip(i as int);
        assert forall|k: int| 0 <= k < j - i implies chars::is_digit(#[trigger] rest[k]) by {
            assert(rest[k] == label@[i + k]);
        }
        lemma_leading_digits(rest, j - i);
        assert(rest.take(j - i) =~= digits@);
        if i == cs.len() {
            assert(digits@ =~= Seq::<char>::empty());
        }
    }
    match number::read_nat(digits.as_str(), MANY_BITS as u64) {
        Some(n) => n as u16,
        None => MANY_BITS,
    }
}

fn label_favor(label: &str) -> (r: u16)
    ensures
        r == favor(label@),
        r <= 2,
{
    if chars::eq_fold(label, "Q4_0") || chars::eq_fold(label, "Q8_0") || chars::eq_fold(
        label,
        "BF16",
    ) {
        2
    } else if chars::eq_fold(label, "F16") {
        1
    } else {
        0
    }
}

/// How much a block drafter's quantization is preferred.
pub fn compact_quant_rank(quant: &Option<String>) -> (r: u16)
    ensures
        r == compact_rank(text::opt(*quant)),
{
    match quant {
        None => 3000,
        Some(q) => 3 * (MANY_BITS - label_bits(q.as_str())) + label_favor(q.as_str()),
    }
}

/// How much a head's quantization is preferred.
pub fn draft_quant_rank(quant: &Option<String>) -> (r: u16)
    ensures
        r == draft_rank(text::opt(*quant)),
{
    match quant {
        None => 6,
        Some(q) => {
            let q = q.as_str();
            if chars::eq_fold(q, "Q4_0") {
                5
            } else if chars::eq_fold(q, "Q8_0") {
                4
            } else if chars::eq_fold(q, "BF16") {
                3
            } else if chars::eq_fold(q, "F16") {
                2
            } else {
                1
            }
        },
    }
}

/// How much a projector's quantization is preferred.
pub fn projector_quant_rank(quant: &Option<String>) -> (r: u16)
    ensures
        r == projector_rank(text::opt(*quant)),
{
    match quant {
        None => 6,
        Some(q) => {
            let q = q.as_str();
            if chars::eq_fold(q, "BF16") {
                5
            } else if chars::eq_fold(q, "F16") {
                4
            } else if chars::eq_fold(q, "Q8_0") {
                3
            } else if chars::eq_fold(q, "Q4_0") {
                2
            } else {
                1
            }
        },
    }
}

// --- multi-token-prediction heads ------------------------------------------------

/// The name of a head without its prefix and extension.
pub open spec fn mtp_stem(file: Seq<char>) -> Seq<char> {
    stem(path::tail(file).skip(4), ".gguf"@)
}

/// The name of a base model without its extension, in lower case.
pub open spec fn base_stem(base: Seq<char>) -> Seq<char> {
    chars::ascii_lower(stem(path::tail(base), ".gguf"@))
}

/// The models that a head is for: its name without the quantization, in lower
/// case.
pub open spec fn mtp_family(file: Seq<char>, quant: Option<Seq<char>>) -> Seq<char> {
    chars::ascii_lower(
        match quant {
            Some(q) => stem(mtp_stem(file), "-"@ + q),
            None => mtp_stem(file),
        },
    )
}

/// Whether a base model belongs to a family: named like it, or like it with a
/// dash behind.
pub open spec fn in_family(base: Seq<char>, family: Seq<char>) -> bool {
    base == family || (family.is_prefix_of(base) && base.len() > family.len()
        && base[family.len() as int] == '-')
}

/// How well a file fits as the head of a base model, given the quantization
/// label in its stem: a head of the same name in the same directory first, then
/// an unqualified one there, then any other of the family.
pub open spec fn mtp_rank(base: Seq<char>, file: Seq<char>, quant: Option<Seq<char>>) -> Option<
    Rank,
> {
    let family = mtp_family(file, quant);
    let beside = directory_of(base) == directory_of(file);
    if !is_mtp(file) || !in_family(base_stem(base), family) {
        None
    } else {
        Some(
            Rank {
                tier: if beside && chars::same_fold(mtp_stem(file), base_stem(base)) {
                    3
                } else if beside && quant is None {
                    2
                } else {
                    1
                },
                quant: draft_rank(quant),
                family: family.len() as usize,
            },
        )
    }
}

fn stem_of_mtp(file: &str) -> (r: String)
    requires
        is_mtp(file@),
    ensures
        r@ == mtp_stem(file@),
{
    let name = path::last_piece(file);
    proof {
        reveal_strlit("mtp-");
        assert("mtp-"@.len() <= chars::ascii_lower(name@).len());
    }
    let n = name.as_str().unicode_len();
    let prefixed = text::piece(name.as_str(), 4, n);
    assert(prefixed@ =~= path::tail(file@).skip(4));
    stem_of(prefixed.as_str(), ".gguf")
}

/// How well a file fits as the head of a base model, given the quantization
/// label in its stem.
pub fn mtp_fit(base: &str, file: &str, quant: &Option<String>) -> (r: Option<Rank>)
    ensures
        r == mtp_rank(base@, file@, text::opt(*quant)),
{
    if !is_mtp_companion(file) {
        return None;
    }
    let raw = stem_of_mtp(file);
    let model = chars::to_ascii_lower(stem_of(path::last_piece(base).as_str(), ".gguf").as_str());
    let family = match quant {
        Some(q) => chars::to_ascii_lower(
            stem_of(raw.as_str(), text::cat("-", q.as_str()).as_str()).as_str(),
        ),
        None => chars::to_ascii_lower(raw.as_str()),
    };
    let k = family.as_str().unicode_len();
    let fits = text::same(model.as_str(), family.as_str()) || (text::starts_with(
        model.as_str(),
        family.as_str(),
    ) && model.as_str().unicode_len() > k && model.as_str().get_char(k) == '-');
    if !fits {
        return None;
    }
    let beside = text::same(parent_path(base).as_str(), parent_path(file).as_str());
    let tier: u8 = if beside && chars::eq_fold(raw.as_str(), model.as_str()) {
        3
    } else if beside && quant.is_none() {
        2
    } else {
        1
    };
    Some(Rank { tier, quant: draft_quant_rank(quant), family: k })
}

// --- choosing ----------------------------------------------------------------

/// The ranks of all files as heads of a base model.
pub open spec fn mtp_ranks(base: Seq<char>, files: Seq<Seq<char>>) -> Seq<Option<Rank>> {
    files.map_values(|f: Seq<char>| mtp_rank(base, f, shards::quant_label(mtp_stem(f))))
}

/// The rank of a file as the repository's block drafter.
pub open spec fn dflash_rank(file: Seq<char>, quant: Option<Seq<char>>) -> Option<Rank> {
    if is_dflash(file) {
        Some(Rank { tier: 0, quant: compact_rank(quant), family: 0 })
    } else {
        None
    }
}

/// The ranks of all files as the repository's block drafter.
pub open spec fn dflash_ranks(files: Seq<Seq<char>>) -> Seq<Option<Rank>> {
    files.map_values(|f: Seq<char>| dflash_rank(f, shards::quant_label(path::tail(f))))
}

/// The rank of a file as the repository's projector.
pub open spec fn projector_file_rank(file: Seq<char>, quant: Option<Seq<char>>) -> Option<Rank> {
    if is_projector(file) {
        Some(Rank { tier: 0, quant: projector_rank(quant), family: 0 })
    } else {
        None
    }
}

/// The ranks of all files as the repository's projector.
pub open spec fn projector_ranks(files: Seq<Seq<char>>) -> Seq<Option<Rank>> {
    files.map_values(|f: Seq<char>| projector_file_rank(f, shards::quant_label(f)))
}

/// The rank of a file as the repository's block drafter, given the quantization
/// label in its name.
pub fn dflash_fit(file: &str, quant: &Option<String>) -> (r: Option<Rank>)
    ensures
        r == dflash_rank(file@, text::opt(*quant)),
{
    if is_dflash_companion(file) {
        Some(Rank { tier: 0, quant: compact_quant_rank(quant), family: 0 })
    } else {
        None
    }
}

/// The rank of a file as the repository's projector, given the quantization
/// label in its path.
pub fn projector_fit(file: &str, quant: &Option<String>) -> (r: Option<Rank>)
    ensures
        r == projector_file_rank(file@, text::opt(*quant)),
{
    if is_projector_companion(file) {
        Some(Rank { tier: 0, quant: projector_quant_rank(quant), family: 0 })
    } else {
        None
    }
}

/// The head that goes with a base model, as an index into the files.
pub fn matching_mtp_companion(base: &str, files: &Vec<String>) -> (r: Option<usize>)
    ensures
        match r {
            Some(i) => best(strs(files@), mtp_ranks(base@, strs(files@)), files@.len()) == Some(
                i as int,
            ) && i < files.len(),
            None => best(strs(files@), mtp_ranks(base@, strs(files@)), files@.len()) is None,
        },
{
    let mut ranks: Vec<Option<Rank>> = Vec::new();
    let mut i: usize = 0;
    while i < files.len()
        invariant
            i <= files.len(),
            ranks.len() == i,
            forall|j: int|
                0 <= j < i ==> #[trigger] ranks@[j] == mtp_rank(
                    base@,
                    files@[j]@,
                    shards::quant_label(mtp_stem(files@[j]@)),
                ),
        decreases files.len() - i,
    {
        let file = files[i].as_str();
        let fit = if is_mtp_companion(file) {
            let quant = shards::quant_from_filename(stem_of_mtp(file).as_str());
            mtp_fit(base, file, &quant)
        } else {
            None
        };
        ranks.push(fit);
        i += 1;
    }
    assert(ranks@ =~= mtp_ranks(base@, strs(files@)));
    best_companion(files, &ranks)
}

/// The repository's block drafter, as an index into the files.
pub fn matching_dflash_companion(files: &Vec<String>) -> (r: Option<usize>)
    ensures
        match r {
            Some(i) => best(strs(files@), dflash_ranks(strs(files@)), files@.len()) == Some(
                i as int,
            ) && i < files.len(),
            None => best(strs(files@), dflash_ranks(strs(files@)), files@.len()) is None,
        },
{
    let mut ranks: Vec<Option<Rank>> = Vec::new();
    let mut i: usize = 0;
    while i < files.len()
        invariant
            i <= files.len(),
            ranks.len() == i,
            forall|j: int|
                0 <= j < i ==> #[trigger] ranks@[j] == dflash_rank(
                    files@[j]@,
                    shards::quant_label(path::tail(files@[j]@)),
                ),
        decreases files.len() - i,
    {
        let file = files[i].as_str();
        let quant = shards::quant_from_filename(path::last_piece(file).as_str());
        ranks.push(dflash_fit(file, &quant));
        i += 1;
    }
    assert(ranks@ =~= dflash_ranks(strs(files@)));
    best_companion(files, &ranks)
}

/// The repository's projector, as an index into the files.
pub fn matching_projector_companion(files: &Vec<String>) -> (r: Option<usize>)
    ensures
        match r {
            Some(i) => best(strs(files@), projector_ranks(strs(files@)), files@.len()) == Some(
                i as int,
            ) && i < files.len(),
            None => best(strs(files@), projector_ranks(strs(files@)), files@.len()) is None,
        },
{
    let mut ranks: Vec<Option<Rank>> = Vec::new();
    let mut i: usize = 0;
    while i < files.len()
        invariant
            i <= files.len(),
            ranks.len() == i,
            forall|j: int|
                0 <= j < i ==> #[trigger] ranks@[j] == projector_file_rank(
                    files@[j]@,
                    shards::quant_label(files@[j]@),
                ),
        decreases files.len() - i,
    {
        let file = files[i].as_str();
        let quant = shards::quant_from_filename(file);
        ranks.push(projector_fit(file, &quant));
        i += 1;
    }
    assert(ranks@ =~= projector_ranks(strs(files@)));
    best_companion(files, &ranks)
}

// --- laws --------------------------------------------------------------------

/// An unqualified drafter ranks above every quantized one, and of two quantized
/// ones the one with fewer bits ranks above the other.
pub proof fn law_compact_drafters_rank_higher(a: Seq<char>, b: Seq<char>)
    requires
        bits(a) < bits(b),
    ensures
        compact_rank(Some(b)) < compact_rank(Some(a)),
        compact_rank(Some(a)) < compact_rank(None),
{
    assert(bits(b) <= MANY_BITS);
}

/// The block drafter of a repository is never one with more bits than another,
/// where both name their quantization, nor a quantized one beside an unqualified
/// one.
pub proof fn law_the_most_compact_drafter_wins(files: Seq<Seq<char>>, i: int, j: int)
    requires
        0 <= i < files.len(),
        0 <= j < files.len(),
        is_dflash(files[i]),
        shards::quant_label(path::tail(files[j])) is Some,
        match shards::quant_label(path::tail(files[i])) {
            Some(a) => bits(a) < bits(shards::quant_label(path::tail(files[j]))->0),
            None => true,
        },
    ensures
        best(files, dflash_ranks(files), files.len()) is Some,
        best(files, dflash_ranks(files), files.len()) != Some(j),
{
    let ranks = dflash_ranks(files);
    law_best_is_unbeaten(files, ranks, files.len());
    let quant = shards::quant_label(path::tail(files[j]))->0;
    assert(bits(quant) <= MANY_BITS);
    assert(ranks[i] is Some);
    if let Some(a) = shards::quant_label(path::tail(files[i])) {
        law_compact_drafters_rank_higher(a, quant);
    }
    if best(files, ranks, files.len()) == Some(j) {
        assert(better(files, ranks, i, j));
    }
}

/// The head of a base model is never one whose quantization is less preferred than
/// that of another in its tier.
pub proof fn law_the_preferred_head_wins(base: Seq<char>, files: Seq<Seq<char>>, i: int, j: int)
    requires
        0 <= i < files.len(),
        0 <= j < files.len(),
        mtp_ranks(base, files)[i] is Some,
        mtp_ranks(base, files)[j] is Some,
        mtp_ranks(base, files)[i]->0.tier == mtp_ranks(base, files)[j]->0.tier,
        draft_rank(shards::quant_label(mtp_stem(files[j]))) < draft_rank(
            shards::quant_label(mtp_stem(files[i])),
        ),
    ensures
        best(files, mtp_ranks(base, files), files.len()) is Some,
        best(files, mtp_ranks(base, files), files.len()) != Some(j),
{
    let ranks = mtp_ranks(base, files);
    law_best_is_unbeaten(files, ranks, files.len());
    if best(files, ranks, files.len()) == Some(j) {
        assert(better(files, ranks, i, j));
    }
}

/// Files of a repository are told by their names: heads, drafters and projectors are no
/// models of their own.
pub proof fn law_companions_are_told_by_name(dir: Seq<char>, rest: Seq<char>)
    requires
        !rest.contains('/'),
    ensures
        is_mtp(dir.push('/') + ("mtp-"@ + rest + ".gguf"@)),
        is_dflash(dir.push('/') + ("dflash"@ + rest + ".gguf"@)),
        is_projector(dir.push('/') + ("mmproj"@ + rest + ".gguf"@)),
        accompanies(dir.push('/') + ("mtp-"@ + rest + ".gguf"@)),
        accompanies(dir.push('/') + ("dflash"@ + rest + ".gguf"@)),
        accompanies(dir.push('/') + ("mmproj"@ + rest + ".gguf"@)),
{
    lemma_begins_and_ends(dir, "mtp-"@, rest);
    lemma_begins_and_ends(dir, "dflash"@, rest);
    lemma_begins_and_ends(dir, "mmproj"@, rest);
}

proof fn lemma_begins_and_ends(dir: Seq<char>, word: Seq<char>, rest: Seq<char>)
    requires
        !rest.contains('/'),
        word == "mtp-"@ || word == "dflash"@ || word == "mmproj"@,
    ensures
        begins_fold(path::tail(dir.push('/') + (word + rest + ".gguf"@)), word),
        ends_fold(path::tail(dir.push('/') + (word + rest + ".gguf"@)), ".gguf"@),
{
    reveal_strlit("mtp-");
    reveal_strlit("dflash");
    reveal_strlit("mmproj");
    reveal_strlit(".gguf");
    let name = word + rest + ".gguf"@;
    assert forall|i: int| 0 <= i < name.len() implies name[i] != '/' by {
        if i < word.len() {
            assert(name[i] == word[i]);
        } else if i < word.len() + rest.len() {
            assert(name[i] == rest[i - word.len()]);
            assert(rest.contains(name[i]));
        } else {
            assert(name[i] == ".gguf"@[i - word.len() - rest.len()]);
        }
    }
    path::law_the_tail_is_behind_the_last_separator(dir, name);
    let low = chars::ascii_lower(name);
    assert(low.len() == name.len());
    assert forall|i: int| 0 <= i < word.len() implies low[i] == word[i] by {
        assert(name[i] == word[i]);
    }
    assert(low.take(word.len() as int) =~= word);
    let n = low.len() - 5;
    assert forall|i: int| 0 <= i < 5 implies low[n + i] == ".gguf"@[i] by {
        assert(name[n + i] == ".gguf"@[i]);
    }
    assert(low.skip(n) =~= ".gguf"@);
}

/// The head of a model is one of its family, and where one has the model's own name and
/// lies beside it, no other is taken.
pub proof fn law_the_head_of_the_same_name_wins(base: Seq<char>, files: Seq<Seq<char>>, i: int, j: int)
    requires
        0 <= i < files.len(),
        0 <= j < files.len(),
        mtp_ranks(base, files)[i] is Some,
        directory_of(base) == directory_of(files[i]),
        chars::same_fold(mtp_stem(files[i]), base_stem(base)),
        !(directory_of(base) == directory_of(files[j]) && chars::same_fold(
            mtp_stem(files[j]),
            base_stem(base),
        )),
    ensures
        best(files, mtp_ranks(base, files), files.len()) is Some,
        best(files, mtp_ranks(base, files), files.len()) != Some(j),
{
    let ranks = mtp_ranks(base, files);
    law_best_is_unbeaten(files, ranks, files.len());
    assert(ranks[i]->0.tier == 3);
    if best(files, ranks, files.len()) == Some(j) {
        assert(ranks[j]->0.tier < 3);
        assert(better(files, ranks, i, j));
    }
}

/// Every head that is taken for a model belongs to its family: the model is named like
/// the head, or like it with a dash behind.
pub proof fn law_heads_belong_to_the_family(base: Seq<char>, files: Seq<Seq<char>>)
    ensures
        match best(files, mtp_ranks(base, files), files.len()) {
            Some(i) => 0 <= i < files.len() && is_mtp(files[i]) && ({
                let family = mtp_family(files[i], shards::quant_label(mtp_stem(files[i])));
                family == base_stem(base) || family.push('-').is_prefix_of(base_stem(base))
            }),
            None => true,
        },
{
    law_best_is_unbeaten(files, mtp_ranks(base, files), files.len());
    if let Some(i) = best(files, mtp_ranks(base, files), files.len()) {
        let family = mtp_family(files[i], shards::quant_label(mtp_stem(files[i])));
        let b = base_stem(base);
        assert(mtp_ranks(base, files)[i] is Some);
        if family != b {
            assert(b.take(family.len() as int + 1) =~= family.push('-'));
        }
    }
}

/// Heads and projectors are preferred without a quantization; then heads from four bits
/// up and projectors from sixteen bits down.
pub proof fn law_usual_quantizations_come_first(other: Seq<char>)
    requires
        !chars::same_fold(other, "Q4_0"@),
        !chars::same_fold(other, "Q8_0"@),
        !chars::same_fold(other, "BF16"@),
        !chars::same_fold(other, "F16"@),
    ensures
        draft_rank(None) > draft_rank(Some("Q4_0"@)) > draft_rank(Some("Q8_0"@)) > draft_rank(
            Some("BF16"@),
        ) > draft_rank(Some("F16"@)) > draft_rank(Some(other)),
        projector_rank(None) > projector_rank(Some("BF16"@)) > projector_rank(Some("F16"@))
            > projector_rank(Some("Q8_0"@)) > projector_rank(Some("Q4_0"@)) > projector_rank(
            Some(other),
        ),
{
    reveal_strlit("Q4_0");
    reveal_strlit("Q8_0");
    reveal_strlit("BF16");
    reveal_strlit("F16");
    let a = "Q4_0"@;
    let b = "Q8_0"@;
    let c = "BF16"@;
    let d = "F16"@;
    assert(a.len() == 4 && b.len() == 4 && c.len() == 4 && d.len() == 3);
    assert(a[0] == 'Q' && b[0] == 'Q' && c[0] == 'B' && a[1] == '4' && b[1] == '8');
    assert(chars::ascii_lower(a)[1] == '4' && chars::ascii_lower(b)[1] == '8');
    assert(chars::ascii_lower(a)[0] == 'q' && chars::ascii_lower(b)[0] == 'q');
    assert(chars::ascii_lower(c)[0] == 'b');
    assert(chars::ascii_lower(d).len() == 3);
}

/// A projector that names a quantization is never taken beside one that names none.
pub proof fn law_the_preferred_projector_wins(files: Seq<Seq<char>>, i: int, j: int)
    requires
        0 <= i < files.len(),
        0 <= j < files.len(),
        is_projector(files[i]),
        projector_rank(shards::quant_label(files[j])) < projector_rank(
            shards::quant_label(files[i]),
        ),
    ensures
        best(files, projector_ranks(files), files.len()) is Some,
        best(files, projector_ranks(files), files.len()) != Some(j),
{
    let ranks = projector_ranks(files);
    law_best_is_unbeaten(files, ranks, files.len());
    assert(ranks[i] is Some);
    if best(files, ranks, files.len()) == Some(j) {
        assert(better(files, ranks, i, j));
    }
}

} // verus!
