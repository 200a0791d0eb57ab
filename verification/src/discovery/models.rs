//! The scan for model files: which files are models, what is known of each, and
//! where the catalog shows them.

use vstd::prelude::*;
use crate::chars;
use crate::discovery::gguf::{GgufInfo, InfoView};
use crate::discovery::online::companions;
use crate::discovery::online::{bare_entry, bare_model, RUNTIME};
use crate::discovery::shards;
use crate::discovery::shards::Shard;
use crate::domain::{Model, ModelView};
use crate::number;
use crate::path;
use crate::text;
use crate::text::{opt, strs};

verus! {

// --- which files are models --------------------------------------------------

/// Whether a path has the extension of model files, in any case.
pub open spec fn has_model_extension(file: Seq<char>) -> bool {
    match path::base_name(file) {
        Some(name) => match path::extension_of(name) {
            Some(e) => chars::same_fold(e, "gguf"@),
            None => false,
        },
        None => false,
    }
}

/// Whether a path is that of a projector, which is no model of its own.
pub open spec fn is_projector_file(file: Seq<char>) -> bool {
    match path::base_name(file) {
        Some(name) => "mmproj"@.is_prefix_of(chars::lowercase(name)),
        None => false,
    }
}

/// Whether a file is scanned as a model, given the shard that its path names:
/// the first part of a split model stands for it, and what only ever accompanies a
/// model is none.
pub open spec fn is_model_file(file: Seq<char>, shard: Option<Shard>) -> bool {
    has_model_extension(file) && shards::first_shard(file, shard) && !is_projector_file(file)
        && !companions::accompanies(file)
}

/// Whether a path has the extension of model files.
pub fn is_gguf(file: &str) -> (r: bool)
    ensures
        r == has_model_extension(file@),
{
    match path::file_name(file) {
        Some(name) => match path::extension(name.as_str()) {
            Some(e) => chars::eq_fold(e.as_str(), "gguf"),
            None => false,
        },
        None => false,
    }
}

/// Whether a path is that of a projector.
pub fn is_projector(file: &str) -> (r: bool)
    ensures
        r == is_projector_file(file@),
{
    match path::file_name(file) {
        Some(name) => text::starts_with(chars::to_lowercase(name.as_str()).as_str(), "mmproj"),
        None => false,
    }
}

/// Whether a file stands for its model: it is no part of a split one, or the
/// first part.
pub fn is_first_shard(file: &str) -> (r: bool)
    ensures
        r == shards::first_shard(file@, shards::shard_name(shards::SHARD@, file@)),
{
    shards::stands_for_model(file, shards::shard_of(shards::SHARD, file))
}

/// Whether a file is scanned as a model.
pub fn is_candidate(file: &str) -> (r: bool)
    ensures
        r == is_model_file(file@, shards::shard_name(shards::SHARD@, file@)),
{
    is_gguf(file) && is_first_shard(file) && !is_projector(file) && !companions::is_companion(file)
}

// --- split models ------------------------------------------------------------

/// The number of parts that a name states; one where it is no number.
pub open spec fn stated_total(name: Seq<char>, s: Shard) -> nat {
    match number::parse_nat(shards::at(name, s.total), 0xffff_ffff) {
        Some(n) => n,
        None => 1,
    }
}

/// The path of part `i` of a split model.
pub open spec fn part_path(dir: Seq<char>, name: Seq<char>, s: Shard, i: nat) -> Seq<char> {
    path::joined(
        dir,
        name.take(s.index.start as int) + number::pad(number::decimal(i), 5) + name.skip(
            s.index.end as int,
        ),
    )
}

/// The file name of a path; nothing where it has none.
pub open spec fn name_of(file: Seq<char>) -> Seq<char> {
    match path::base_name(file) {
        Some(n) => n,
        None => Seq::<char>::empty(),
    }
}

/// The directory of a path.
pub open spec fn dir_of(file: Seq<char>) -> Seq<char> {
    match path::parent_of(file) {
        Some(d) => d,
        None => "."@,
    }
}

/// The files of a model, given the shard that its file name names: the file
/// itself, or every part from the first to the stated last.
pub open spec fn part_paths(file: Seq<char>, shard: Option<Shard>) -> Seq<Seq<char>> {
    let name = name_of(file);
    match shard {
        None => seq![file],
        Some(s) => Seq::new(
            stated_total(name, s),
            |i: int| part_path(dir_of(file), name, s, (i + 1) as nat),
        ),
    }
}

fn own_name(file: &str) -> (r: String)
    ensures
        r@ == name_of(file@),
{
    match path::file_name(file) {
        Some(n) => n,
        None => String::new(),
    }
}

/// The files of a model, given the shard that its file name names.
pub fn parts_of(file: &str, shard: Option<Shard>) -> (r: Vec<String>)
    requires
        shard is Some ==> shard->0.fits(name_of(file@)),
    ensures
        strs(r@) == part_paths(file@, shard),
{
    let mut out: Vec<String> = Vec::new();
    match shard {
        None => {
            out.push(text::copy(file));
            assert(strs(out@) =~= seq![file@]);
        },
        Some(s) => {
            let name = own_name(file);
            let dir = match path::parent(file) {
                Some(d) => d,
                None => text::copy("."),
            };
            let n = name.as_str().unicode_len();
            let stated = text::piece(name.as_str(), s.total.start, s.total.end);
            let total: u64 = match number::read_nat(stated.as_str(), 0xffff_ffff) {
                Some(k) => k,
                None => 1,
            };
            let head = text::piece(name.as_str(), 0, s.index.start);
            let tail = text::piece(name.as_str(), s.index.end, n);
            assert(head@ =~= name@.take(s.index.start as int));
            assert(tail@ =~= name@.skip(s.index.end as int));
            let ghost want = part_paths(file@, shard);
            let mut i: u64 = 0;
            while i < total
                invariant
                    i <= total,
                    total == stated_total(name@, s),
                    total <= 0xffff_ffff,
                    name@ == name_of(file@),
                    dir@ == dir_of(file@),
                    head@ == name@.take(s.index.start as int),
                    tail@ == name@.skip(s.index.end as int),
                    shard == Some(s),
                    want == part_paths(file@, shard),
                    out.len() == i,
                    forall|j: int| 0 <= j < i ==> (#[trigger] out@[j])@ == want[j],
                decreases total - i,
            {
                let digits = number::padded(number::nat_text(i + 1).as_str(), 5);
                let part = text::cat3(head.as_str(), digits.as_str(), tail.as_str());
                out.push(path::join(dir.as_str(), part.as_str()));
                i += 1;
            }
            assert(strs(out@) =~= want);
        },
    }
    out
}

/// The files of a model.
pub fn shard_paths(file: &str) -> (r: Vec<String>)
    ensures
        strs(r@) == part_paths(file@, shards::shard_name(shards::SHARD@, name_of(file@))),
{
    let name = own_name(file);
    parts_of(file, shards::shard_of(shards::SHARD, name.as_str()))
}

/// The name of a model: its file name without the part suffix.
pub open spec fn shown_name(name: Seq<char>, shard: Option<Shard>) -> Seq<char> {
    match shard {
        Some(s) => name.take(s.suffix.start as int) + name.skip(s.total.end as int),
        None => name,
    }
}

/// The name of a model, given the shard that its file name names.
pub fn display_name(name: &str, shard: Option<Shard>) -> (r: String)
    requires
        shard is Some ==> shard->0.fits(name@),
    ensures
        r@ == shown_name(name@, shard),
{
    match shard {
        Some(s) => {
            let n = name.unicode_len();
            let head = text::piece(name, 0, s.suffix.start);
            let tail = text::piece(name, s.total.end, n);
            assert(tail@ =~= name@.skip(s.total.end as int));
            text::cat(head.as_str(), tail.as_str())
        },
        None => text::copy(name),
    }
}

/// The sizes together of the first `n` parts that exist.
pub open spec fn sizes_upto(sizes: Seq<Option<u64>>, n: nat) -> nat
    decreases n,
{
    if n == 0 {
        0
    } else {
        sizes_upto(sizes, (n - 1) as nat) + match sizes[n - 1] {
            Some(k) => k as nat,
            None => 0,
        }
    }
}

/// The size of a model: that of its only file, or of all parts that exist; the
/// first file's own where none does.
pub open spec fn model_size(first: u64, sizes: Seq<Option<u64>>) -> nat {
    if sizes.len() == 1 || sizes_upto(sizes, sizes.len()) == 0 {
        first as nat
    } else {
        sizes_upto(sizes, sizes.len())
    }
}

proof fn lemma_sizes_monotone(sizes: Seq<Option<u64>>, i: nat, n: nat)
    requires
        i <= n <= sizes.len(),
    ensures
        sizes_upto(sizes, i) <= sizes_upto(sizes, n),
    decreases n - i,
{
    if i < n {
        lemma_sizes_monotone(sizes, i, (n - 1) as nat);
    }
}

/// The size of a model, where it fits in 64 bits. `sizes` are those of its parts,
/// as far as they exist.
pub fn aggregate_size(first: u64, sizes: &Vec<Option<u64>>) -> (r: Option<u64>)
    ensures
        match r {
            Some(n) => model_size(first, sizes@) == n,
            None => model_size(first, sizes@) > u64::MAX,
        },
{
    if sizes.len() == 1 {
        return Some(first);
    }
    let mut total: u64 = 0;
    let mut i: usize = 0;
    while i < sizes.len()
        invariant
            sizes.len() != 1,
            i <= sizes.len(),
            total == sizes_upto(sizes@, i as nat),
        decreases sizes.len() - i,
    {
        proof {
            lemma_sizes_monotone(sizes@, (i + 1) as nat, sizes@.len());
        }
        if let Some(k) = sizes[i] {
            if k > u64::MAX - total {
                return None;
            }
            total = total + k;
        }
        i += 1;
    }
    if total == 0 {
        Some(first)
    } else {
        Some(total)
    }
}

// --- one model ---------------------------------------------------------------

/// The view of an optional header.
pub open spec fn info_view(info: Option<GgufInfo>) -> Option<InfoView> {
    match info {
        Some(i) => Some(i@),
        None => None,
    }
}

/// A model as its file tells of it, given the shard that its file name names and
/// the quantization label in its name. The label in the name comes before the
/// coarser one in the header.
pub open spec fn model_of(file: Seq<char>, size: u64, modified: Option<u64>, info: Option<InfoView>, shard: Option<Shard>, quant: Option<Seq<char>>) -> ModelView {
    let name = shown_name(name_of(file), shard);
    ModelView {
        path: file,
        shard_paths: part_paths(file, shard),
        has_mtp: info is Some && info->0.has_mtp,
        size_bytes: size,
        quantization: match quant {
            Some(q) => Some(q),
            None => match info {
                Some(i) => i.file_type_label,
                None => None,
            },
        },
        architecture: match info {
            Some(i) => i.architecture,
            None => None,
        },
        context_length: match info {
            Some(i) => i.context_length,
            None => None,
        },
        modified,
        has_chat_template: info is Some && info->0.has_chat_template,
        ..bare_entry(""@, name, Seq::<Seq<char>>::empty(), RUNTIME@)
    }
}

/// A model as its file tells of it, given what its name spells.
pub fn describe(file: &str, size: u64, modified: Option<u64>, info: &Option<GgufInfo>, shard: Option<Shard>, quant: Option<String>) -> (r: Model)
    requires
        shard is Some ==> shard->0.fits(name_of(file@)),
    ensures
        r@ == model_of(file@, size, modified, info_view(*info), shard, opt(quant)),
{
    let raw = own_name(file);
    let name = display_name(raw.as_str(), shard);
    let place: Vec<String> = Vec::new();
    assert(strs(place@) =~= Seq::<Seq<char>>::empty());
    let mut model = bare_model(text::copy(""), name, place, text::copy(RUNTIME));
    model.path = text::copy(file);
    model.shard_paths = parts_of(file, shard);
    model.size_bytes = size;
    model.modified = modified;
    let mut label = quant;
    if let Some(i) = info {
        model.has_mtp = i.has_mtp;
        model.architecture = text::copy_opt(&i.architecture);
        model.context_length = i.context_length;
        model.has_chat_template = i.has_chat_template;
        if label.is_none() {
            label = text::copy_opt(&i.file_type_label);
        }
    }
    model.quantization = label;
    model
}

/// The shard that a file's name names.
pub open spec fn own_shard(file: Seq<char>) -> Option<Shard> {
    shards::shard_name(shards::SHARD@, name_of(file))
}

/// Whether a file's name names a shard.
pub fn is_split(file: &str) -> (r: bool)
    ensures
        r == (own_shard(file@) is Some),
{
    shards::shard_of(shards::SHARD, own_name(file).as_str()).is_some()
}

/// The quantization label in a model's name.
pub open spec fn own_quant(file: Seq<char>) -> Option<Seq<char>> {
    shards::quant_label(shown_name(name_of(file), own_shard(file)))
}

/// A model as its file tells of it.
pub fn build_model(file: &str, size: u64, modified: Option<u64>, info: &Option<GgufInfo>) -> (r: Model)
    ensures
        r@ == model_of(
            file@,
            size,
            modified,
            info_view(*info),
            own_shard(file@),
            own_quant(file@),
        ),
{
    let raw = own_name(file);
    let shard = shards::shard_of(shards::SHARD, raw.as_str());
    let quant = shards::quant_from_filename(display_name(raw.as_str(), shard).as_str());
    describe(file, size, modified, info, shard, quant)
}

// --- laws --------------------------------------------------------------------

/// A model in one file is that file. A split one has as many files as its name states;
/// the part whose number the name spells is the file of that very name, and the others
/// lie beside it under names that differ in the number alone.
pub proof fn law_parts_are_numbered(file: Seq<char>, shard: Shard, total: nat, i: nat)
    requires
        shard.fits(name_of(file)),
        number::parse_nat(shards::at(name_of(file), shard.total), 0xffff_ffff) == Some(total),
        1 <= i <= total,
    ensures
        part_paths(file, None) == seq![file],
        part_paths(file, Some(shard)).len() == total,
        shards::at(name_of(file), shard.index) == number::pad(number::decimal(i), 5)
            ==> part_paths(file, Some(shard))[i - 1] == path::joined(dir_of(file), name_of(file)),
        exists|name: Seq<char>|
            part_paths(file, Some(shard))[i - 1] == path::joined(dir_of(file), name)
                && name.take(shard.index.start as int) == name_of(file).take(
                shard.index.start as int,
            ) && #[trigger] name.skip(
                shard.index.start + number::pad(number::decimal(i), 5).len(),
            ) == name_of(file).skip(shard.index.end as int) && name.subrange(
                shard.index.start as int,
                shard.index.start + number::pad(number::decimal(i), 5).len(),
            ) == number::pad(number::decimal(i), 5),
{
    let name = name_of(file);
    let digits = number::pad(number::decimal(i), 5);
    let own = name.take(shard.index.start as int) + digits + name.skip(shard.index.end as int);
    assert(part_paths(file, Some(shard))[i - 1] == path::joined(dir_of(file), own));
    assert(own.take(shard.index.start as int) =~= name.take(shard.index.start as int));
    assert(own.skip(shard.index.start + digits.len()) =~= name.skip(shard.index.end as int));
    assert(own.subrange(shard.index.start as int, shard.index.start + digits.len()) =~= digits);
    if shards::at(name, shard.index) == digits {
        assert(own =~= name);
    }
}

/// Each part of a split model that exists adds its size to that of the others, and one
/// that is missing adds nothing.
pub proof fn law_each_part_adds_its_size(first: u64, sizes: Seq<Option<u64>>, more: u64)
    requires
        sizes.len() >= 2,
    ensures
        model_size(first, sizes.push(None)) == model_size(first, sizes),
        model_size(first, sizes) >= 1 && sizes_upto(sizes, sizes.len()) > 0 ==> model_size(
            first,
            sizes.push(Some(more)),
        ) == model_size(first, sizes) + more,
        model_size(first, seq![Some(more)]) == first,
        more > 0 ==> model_size(first, seq![Some(first), Some(more)]) == first + more,
{
    lemma_sizes_prefix(sizes, None, sizes.len());
    lemma_sizes_prefix(sizes, Some(more), sizes.len());
    let two = seq![Some(first), Some(more)];
    assert(sizes_upto(two, 0) == 0);
    assert(sizes_upto(two, 1) == first);
    assert(sizes_upto(two, 2) == first + more);
}

proof fn lemma_sizes_prefix(sizes: Seq<Option<u64>>, more: Option<u64>, n: nat)
    requires
        n <= sizes.len(),
    ensures
        sizes_upto(sizes.push(more), n) == sizes_upto(sizes, n),
    decreases n,
{
    if n > 0 {
        lemma_sizes_prefix(sizes, more, (n - 1) as nat);
        assert(sizes.push(more)[n - 1] == sizes[n - 1]);
    }
}

/// The name of a split model is that of its file without the suffix of the parts.
pub proof fn law_names_leave_the_parts_out(stem: Seq<char>, suffix: Seq<char>, extension: Seq<char>, shard: Shard)
    requires
        shard.suffix.start == stem.len(),
        shard.total.end == stem.len() + suffix.len(),
    ensures
        shown_name(stem + suffix + extension, Some(shard)) == stem + extension,
        shown_name(stem + extension, None) == stem + extension,
{
    let name = stem + suffix + extension;
    assert(name.take(stem.len() as int) =~= stem);
    assert(name.skip((stem.len() + suffix.len()) as int) =~= extension);
}

/// A model is what its header says, and its quantization is what its name says first.
pub proof fn law_models_are_what_their_headers_say(file: Seq<char>, size: u64, modified: Option<u64>, info: InfoView, shard: Option<Shard>, quant: Option<Seq<char>>)
    ensures
        ({
            let m = model_of(file, size, modified, Some(info), shard, quant);
            let bare = model_of(file, size, modified, None, shard, quant);
            &&& m.architecture == info.architecture
            &&& m.context_length == info.context_length
            &&& m.has_chat_template == info.has_chat_template
            &&& m.has_mtp == info.has_mtp
            &&& m.quantization == if quant is Some {
                quant
            } else {
                info.file_type_label
            }
            &&& m.path == file && m.size_bytes == size && m.modified == modified
            &&& bare.architecture is None && bare.context_length is None
            &&& !bare.has_chat_template && !bare.has_mtp
            &&& bare.quantization == quant
            &&& bare.path == file && bare.size_bytes == size && bare.modified == modified
            &&& m.name == bare.name && m.runtime == RUNTIME@
        }),
{
}

/// A file is taken for a model by its extension, in any case, unless it is a later part
/// of a split one or accompanies another: a projector, a head or a block drafter.
pub proof fn law_files_are_told_by_their_names(file: Seq<char>, shard: Option<Shard>)
    ensures
        is_model_file(file, shard) ==> has_model_extension(file) && (shard is Some ==> shards::at(
            file,
            shard->0.index,
        ) == "00001"@),
        companions::is_mtp(file) || companions::is_dflash(file) || companions::is_projector(file)
            ==> !is_model_file(file, shard),
        has_model_extension(file) && shard is None && !is_projector_file(file)
            && !companions::accompanies(file) ==> is_model_file(file, shard),
{
}

} // verus!
