//! The FastFlowLM catalogue: what `flm` prints, and the models in it.

use vstd::prelude::*;
use crate::chars;
use crate::discovery::gguf;
use crate::discovery::online::{bare_entry, bare_model};
use crate::domain::{views, FlmModel, FlmView, Model, ModelView, Runtime, RuntimeView};
use crate::number;
use crate::order;
use crate::path;
use crate::text;
use crate::text::{opt, strs};

verus! {

/// The runtime that owns the catalogue.
pub const RUNTIME: &'static str = "FastFlowLM";

/// The port that `flm` serves on where it does not say.
pub const DEFAULT_PORT: u16 = 52625;

// --- what flm prints ---------------------------------------------------------

/// The first position at or after `from` that holds a byte.
pub open spec fn byte_from(b: Seq<u8>, byte: u8, from: int) -> Option<int>
    decreases b.len() - from,
{
    if from < 0 || from >= b.len() {
        None
    } else if b[from] == byte {
        Some(from)
    } else {
        byte_from(b, byte, from + 1)
    }
}

/// The JSON in an output: everything from the first opening brace on. An
/// informational line comes before it even where `flm` is asked to be quiet.
pub fn json_payload(output: &[u8]) -> (r: Option<&[u8]>)
    ensures
        match r {
            Some(p) => byte_from(output@, 123, 0) is Some && p@ == output@.skip(
                byte_from(output@, 123, 0)->0,
            ),
            None => byte_from(output@, 123, 0) is None,
        },
{
    let mut i: usize = 0;
    while i < output.len()
        invariant
            i <= output.len(),
            byte_from(output@, 123, 0) == byte_from(output@, 123, i as int),
        decreases output.len() - i,
    {
        if output[i] == 123 {
            assert(output@.subrange(i as int, output@.len() as int) =~= output@.skip(i as int));
            return Some(&output[i..output.len()]);
        }
        i += 1;
    }
    None
}

/// The maximal runs of decimal digits in a text.
pub open spec fn digit_runs(s: Seq<char>) -> Seq<Seq<char>>
    decreases s.len(),
{
    if s.len() == 0 {
        Seq::<Seq<char>>::empty()
    } else {
        let rest = digit_runs(s.drop_last());
        if !chars::is_digit(s.last()) {
            rest
        } else if s.len() == 1 || !chars::is_digit(s[s.len() - 2]) {
            rest.push(seq![s.last()])
        } else {
            rest.drop_last().push(rest.last().push(s.last()))
        }
    }
}

/// The last of the runs that is a port number.
pub open spec fn last_port(runs: Seq<Seq<char>>) -> Option<nat>
    decreases runs.len(),
{
    if runs.len() == 0 {
        None
    } else {
        match number::parse_nat(runs.last(), 65_535) {
            Some(n) => Some(n),
            None => last_port(runs.drop_last()),
        }
    }
}

fn find_digit_runs(s: &str) -> (r: Vec<String>)
    ensures
        strs(r@) == digit_runs(s@),
{
    let cs = text::chars(s);
    let mut out: Vec<String> = Vec::new();
    let mut run = String::new();
    let mut i: usize = 0;
    assert(strs(out@) =~= digit_runs(s@.take(0)));
    while i < cs.len()
        invariant
            cs@ == s@,
            i <= cs.len(),
            run@.len() == 0 <==> (i == 0 || !chars::is_digit(s@[i - 1])),
            run@.len() == 0 ==> digit_runs(s@.take(i as int)) == strs(out@),
            run@.len() > 0 ==> digit_runs(s@.take(i as int)) == strs(out@).push(run@),
        decreases cs.len() - i,
    {
        let ghost here = s@.take(i + 1);
        let ghost had = strs(out@);
        proof {
            assert(here.drop_last() =~= s@.take(i as int));
            assert(here.last() == s@[i as int]);
            if i > 0 {
                assert(here[here.len() - 2] == s@[i - 1]);
            }
            assert(had.push(run@).drop_last() =~= had);
        }
        if !chars::digit(cs[i]) {
            if run.as_str().unicode_len() > 0 {
                out.push(run);
                run = String::new();
                assert(strs(out@) =~= digit_runs(here));
            }
        } else {
            let ghost w = run@;
            run.push(cs[i]);
            proof {
                if w.len() == 0 {
                    assert(run@ =~= seq![s@[i as int]]);
                }
            }
        }
        i += 1;
    }
    assert(s@.take(i as int) =~= s@);
    if run.as_str().unicode_len() > 0 {
        out.push(run);
        assert(strs(out@) =~= digit_runs(s@));
    }
    out
}

/// The last port number in a text.
pub fn port_in(s: &str) -> (r: Option<u16>)
    ensures
        match r {
            Some(p) => last_port(digit_runs(s@)) == Some(p as nat),
            None => last_port(digit_runs(s@)) is None,
        },
{
    let runs = find_digit_runs(s);
    let ghost all = strs(runs@);
    let mut n: usize = runs.len();
    assert(all.take(n as int) =~= all);
    while n > 0
        invariant
            n <= runs.len(),
            all == strs(runs@),
            all == digit_runs(s@),
            last_port(all) == last_port(all.take(n as int)),
        decreases n,
    {
        proof {
            assert(all.take(n as int).last() == runs@[n - 1]@);
            assert(all.take(n as int).drop_last() =~= all.take(n - 1));
        }
        if let Some(p) = number::read_nat(runs[n - 1].as_str(), 65_535) {
            return Some(p as u16);
        }
        n -= 1;
    }
    None
}

/// The last port number in an output.
pub fn parse_port(output: &[u8]) -> (r: Option<u16>)
    ensures
        match r {
            Some(p) => last_port(digit_runs(gguf::lossy(output@))) == Some(p as nat),
            None => last_port(digit_runs(gguf::lossy(output@))) is None,
        },
{
    port_in(gguf::lossy_text(output).as_str())
}

// --- versions ----------------------------------------------------------------

/// The numbers of a dotted version; what is no number counts as nothing.
pub open spec fn version_parts(v: Seq<char>) -> Seq<nat> {
    text::split(v, '.').map_values(
        |p: Seq<char>|
            match number::parse_nat(p, u64::MAX as nat) {
                Some(n) => n,
                None => 0,
            },
    )
}

/// A part of a version; nothing where it has no such part.
pub open spec fn part_at(v: Seq<nat>, i: int) -> nat {
    if 0 <= i < v.len() {
        v[i]
    } else {
        0
    }
}

/// Whether `a` is at least `b` from part `i` on: at the first difference the
/// greater part decides.
pub open spec fn parts_at_least(a: Seq<nat>, b: Seq<nat>, i: int) -> bool
    decreases a.len() + b.len() - i,
{
    if i >= a.len() && i >= b.len() {
        true
    } else if i < 0 {
        true
    } else if part_at(a, i) != part_at(b, i) {
        part_at(a, i) > part_at(b, i)
    } else {
        parts_at_least(a, b, i + 1)
    }
}

/// Of two versions one is at least the other.
pub proof fn law_versions_are_ordered(a: Seq<nat>, b: Seq<nat>, i: int)
    requires
        0 <= i,
    ensures
        parts_at_least(a, b, i) || parts_at_least(b, a, i),
    decreases a.len() + b.len() - i,
{
    if i < a.len() || i < b.len() {
        law_versions_are_ordered(a, b, i + 1);
    }
}

fn read_version(v: &str) -> (r: Vec<u64>)
    ensures
        r@.len() == version_parts(v@).len(),
        forall|i: int| 0 <= i < r@.len() ==> #[trigger] r@[i] as nat == version_parts(v@)[i],
{
    let pieces = text::split_char(v, '.');
    let ghost all = text::split(v@, '.');
    let mut out: Vec<u64> = Vec::new();
    let mut i: usize = 0;
    while i < pieces.len()
        invariant
            i <= pieces.len(),
            all == strs(pieces@),
            all == text::split(v@, '.'),
            out.len() == i,
            forall|j: int| 0 <= j < i ==> #[trigger] out@[j] as nat == version_parts(v@)[j],
        decreases pieces.len() - i,
    {
        assert(all[i as int] == pieces@[i as int]@);
        let n: u64 = match number::read_nat(pieces[i].as_str(), u64::MAX) {
            Some(n) => n,
            None => 0,
        };
        out.push(n);
        i += 1;
    }
    out
}

/// Whether a dotted version is at least another, part by part as numbers.
pub fn version_at_least(actual: &str, required: &str) -> (r: bool)
    ensures
        r == parts_at_least(version_parts(actual@), version_parts(required@), 0),
{
    let a = read_version(actual);
    let b = read_version(required);
    let ghost x = version_parts(actual@);
    let ghost y = version_parts(required@);
    let mut i: usize = 0;
    while i < a.len() || i < b.len()
        invariant
            x == version_parts(actual@),
            y == version_parts(required@),
            a@.len() == x.len(),
            b@.len() == y.len(),
            forall|j: int| 0 <= j < a@.len() ==> #[trigger] a@[j] as nat == x[j],
            forall|j: int| 0 <= j < b@.len() ==> #[trigger] b@[j] as nat == y[j],
            parts_at_least(x, y, 0) == parts_at_least(x, y, i as int),
        decreases a.len() + b.len() - i,
    {
        let p: u64 = if i < a.len() {
            a[i]
        } else {
            0
        };
        let q: u64 = if i < b.len() {
            b[i]
        } else {
            0
        };
        if p != q {
            return p > q;
        }
        i += 1;
    }
    true
}

// --- models ------------------------------------------------------------------

/// An entry of the catalogue that `flm` prints.
#[derive(Debug)]
pub struct Entry {
    pub model: String,
    pub name: String,
    pub installed: bool,
    pub default_context_length: Option<u64>,
    pub max_prefill_len: Option<u64>,
    pub flm_min_version: Option<String>,
    /// The size on disk.
    pub size_bytes: u64,
    pub label: Vec<String>,
    pub vlm: bool,
    pub family: Option<String>,
    pub parameter_size: Option<String>,
    pub quantization_level: Option<String>,
}

/// What the catalogue says of a model besides what every model has.
#[derive(Debug)]
pub struct FastFlowModel {
    pub tag: String,
    pub installed: bool,
    pub min_version: Option<String>,
    /// Whether the installed `flm` is new enough, where both versions are known.
    pub version_compatible: Option<bool>,
    pub parameter_size: Option<String>,
    pub labels: Vec<String>,
    pub vision: bool,
    pub default_context_length: Option<u64>,
    pub max_prefill_len: Option<u64>,
    /// Whether the model can be served.
    pub supported: bool,
}

pub struct FastFlowView {
    pub tag: Seq<char>,
    pub installed: bool,
    pub min_version: Option<Seq<char>>,
    pub version_compatible: Option<bool>,
    pub parameter_size: Option<Seq<char>>,
    pub labels: Seq<Seq<char>>,
    pub vision: bool,
    pub default_context_length: Option<u64>,
    pub max_prefill_len: Option<u64>,
    pub supported: bool,
}

impl View for FastFlowModel {
    type V = FastFlowView;

    open spec fn view(&self) -> FastFlowView {
        FastFlowView {
            tag: self.tag@,
            installed: self.installed,
            min_version: opt(self.min_version),
            version_compatible: self.version_compatible,
            parameter_size: opt(self.parameter_size),
            labels: strs(self.labels@),
            vision: self.vision,
            default_context_length: self.default_context_length,
            max_prefill_len: self.max_prefill_len,
            supported: self.supported,
        }
    }
}

/// A model of the catalogue.
#[derive(Debug)]
pub struct Catalogued {
    pub model: Model,
    pub fastflow: FastFlowModel,
}

/// The tag of an entry: its model, else its name.
pub open spec fn tag_of(e: Entry) -> Seq<char> {
    if e.model@.len() == 0 {
        e.name@
    } else {
        e.model@
    }
}

/// Whether the installed version is at least what an entry asks for, where both
/// are known.
pub open spec fn compatible(e: Entry, version: Option<Seq<char>>) -> Option<bool> {
    match (e.flm_min_version, version) {
        (Some(required), Some(actual)) => Some(
            parts_at_least(version_parts(actual), version_parts(required@), 0),
        ),
        _ => None,
    }
}

/// Whether an entry can be served: it is no embedding and no speech model, and
/// the version is not known to be too old.
pub open spec fn is_supported(e: Entry, version: Option<Seq<char>>) -> bool {
    !strs(e.label@).contains("embeddings"@) && !(e.family is Some && "whisper"@.is_prefix_of(
        e.family->0@,
    )) && compatible(e, version) != Some(false)
}

/// The tag with what cannot stand in a file name replaced.
pub open spec fn safe_tag_of(tag: Seq<char>) -> Seq<char> {
    crate::names::defused(tag, false)
}

/// The managed leaf of a tag.
pub open spec fn leaf_of(models_dir: Seq<char>, tag: Seq<char>) -> Seq<char> {
    path::joined(
        path::joined(path::joined(models_dir, "fastflowlm"@), "catalogue"@),
        safe_tag_of(tag),
    )
}

/// The model of an entry.
pub open spec fn entry_model(e: Entry, models_dir: Seq<char>) -> ModelView {
    let tag = tag_of(e);
    ModelView {
        catalog_dir: leaf_of(models_dir, tag),
        size_bytes: e.size_bytes,
        quantization: opt(e.quantization_level),
        architecture: opt(e.family),
        context_length: e.default_context_length,
        has_chat_template: true,
        flm: Some(
            FlmView {
                tag,
                installed: e.installed,
                repo: ""@,
                revision: "main"@,
                files: Seq::<Seq<char>>::empty(),
                labels: strs(e.label@),
                vlm: e.vlm,
                asr: false,
                max_prefill_len: e.max_prefill_len,
            },
        ),
        ..bare_entry("flm:"@ + tag, tag, seq![tag], RUNTIME@)
    }
}

/// What the catalogue says of an entry's model.
pub open spec fn entry_details(e: Entry, version: Option<Seq<char>>) -> FastFlowView {
    FastFlowView {
        tag: tag_of(e),
        installed: e.installed,
        min_version: opt(e.flm_min_version),
        version_compatible: compatible(e, version),
        parameter_size: opt(e.parameter_size),
        labels: strs(e.label@),
        vision: e.vlm,
        default_context_length: e.default_context_length,
        max_prefill_len: e.max_prefill_len,
        supported: is_supported(e, version),
    }
}

/// The models of the first `n` entries; one without a tag is none.
pub open spec fn models_upto(entries: Seq<Entry>, version: Option<Seq<char>>, models_dir: Seq<char>, n: nat) -> Seq<(ModelView, FastFlowView)>
    decreases n,
{
    if n == 0 {
        Seq::<(ModelView, FastFlowView)>::empty()
    } else {
        let rest = models_upto(entries, version, models_dir, (n - 1) as nat);
        let e = entries[n - 1];
        if tag_of(e).len() == 0 {
            rest
        } else {
            rest.push((entry_model(e, models_dir), entry_details(e, version)))
        }
    }
}

/// The views of catalogued models.
pub open spec fn catalogued_views(v: Seq<Catalogued>) -> Seq<(ModelView, FastFlowView)> {
    v.map_values(|c: Catalogued| (c.model@, c.fastflow@))
}

/// The tag with what cannot stand in a file name replaced.
pub fn safe_tag(tag: &str) -> (r: String)
    ensures
        r@ == safe_tag_of(tag@),
{
    let cs = text::chars(tag);
    let mut out = String::new();
    let mut i: usize = 0;
    while i < cs.len()
        invariant
            cs@ == tag@,
            i <= cs.len(),
            out@ == safe_tag_of(tag@).take(i as int),
        decreases cs.len() - i,
    {
        let c = cs[i];
        out.push(
            if c == '/' || c == '\0' {
                '_'
            } else {
                c
            },
        );
        assert(out@ =~= safe_tag_of(tag@).take(i + 1));
        i += 1;
    }
    assert(safe_tag_of(tag@).take(i as int) =~= safe_tag_of(tag@));
    out
}

/// The model of an entry, and what the catalogue says of it.
fn build_entry(e: &Entry, version: &Option<String>, models_dir: &str) -> (r: Catalogued)
    requires
        tag_of(*e).len() > 0,
    ensures
        r.model@ == entry_model(*e, models_dir@),
        r.fastflow@ == entry_details(*e, opt(*version)),
{
    let tag = if e.model.as_str().is_empty() {
        e.name.clone()
    } else {
        e.model.clone()
    };
    let version_compatible: Option<bool> = match (&e.flm_min_version, version) {
        (Some(required), Some(actual)) => Some(
            version_at_least(actual.as_str(), required.as_str()),
        ),
        _ => None,
    };
    let embedding = text::list_contains(&e.label, "embeddings");
    let whisper = match &e.family {
        Some(f) => text::starts_with(f.as_str(), "whisper"),
        None => false,
    };
    let too_old = match version_compatible {
        Some(b) => !b,
        None => false,
    };
    let supported = !embedding && !whisper && !too_old;
    let mut place: Vec<String> = Vec::new();
    place.push(tag.clone());
    assert(strs(place@) =~= seq![tag@]);
    let mut model = bare_model(
        text::cat("flm:", tag.as_str()),
        tag.clone(),
        place,
        text::copy(RUNTIME),
    );
    let root = path::join(path::join(models_dir, "fastflowlm").as_str(), "catalogue");
    model.catalog_dir = path::join(root.as_str(), safe_tag(tag.as_str()).as_str());
    model.size_bytes = e.size_bytes;
    model.quantization = text::copy_opt(&e.quantization_level);
    model.architecture = text::copy_opt(&e.family);
    model.context_length = e.default_context_length;
    model.has_chat_template = true;
    let identity = FlmModel {
        tag: tag.clone(),
        installed: e.installed,
        repo: text::copy(""),
        revision: text::copy("main"),
        files: Vec::new(),
        labels: text::copy_all(&e.label),
        vlm: e.vlm,
        asr: false,
        max_prefill_len: e.max_prefill_len,
    };
    assert(identity@.files =~= Seq::<Seq<char>>::empty());
    model.flm = Some(identity);
    let fastflow = FastFlowModel {
        tag,
        installed: e.installed,
        min_version: text::copy_opt(&e.flm_min_version),
        version_compatible,
        parameter_size: text::copy_opt(&e.parameter_size),
        labels: text::copy_all(&e.label),
        vision: e.vlm,
        default_context_length: e.default_context_length,
        max_prefill_len: e.max_prefill_len,
        supported,
    };
    Catalogued { model, fastflow }
}

/// The models of a catalogue, given the installed version.
pub fn build_models(entries: &Vec<Entry>, version: &Option<String>, models_dir: &str) -> (r: Vec<Catalogued>)
    ensures
        catalogued_views(r@) == models_upto(entries@, opt(*version), models_dir@, entries@.len()),
{
    let mut out: Vec<Catalogued> = Vec::new();
    let mut i: usize = 0;
    assert(catalogued_views(out@) =~= models_upto(entries@, opt(*version), models_dir@, 0));
    while i < entries.len()
        invariant
            i <= entries.len(),
            catalogued_views(out@) == models_upto(
                entries@,
                opt(*version),
                models_dir@,
                i as nat,
            ),
        decreases entries.len() - i,
    {
        let e = &entries[i];
        if !e.model.as_str().is_empty() || !e.name.as_str().is_empty() {
            let ghost before = catalogued_views(out@);
            let built = build_entry(e, version, models_dir);
            let ghost view = (built.model@, built.fastflow@);
            out.push(built);
            assert(catalogued_views(out@) =~= before.push(view));
        }
        i += 1;
    }
    out
}

// --- sorting -----------------------------------------------------------------

/// Whether a model is installed.
pub open spec fn installed(m: ModelView) -> bool {
    m.flm is Some && m.flm->0.installed
}

/// Whether model `i` comes before model `j`: installed ones first, then by name,
/// ASCII case aside.
pub open spec fn installed_lt(models: Seq<ModelView>) -> spec_fn(int, int) -> bool {
    |i: int, j: int|
        (installed(models[i]) && !installed(models[j])) || (installed(models[i]) == installed(
            models[j],
        ) && order::text_lt(chars::ascii_lower(models[i].name), chars::ascii_lower(models[j].name)))
}

/// The models, installed ones first, each group by name.
pub open spec fn installed_first(models: Seq<ModelView>) -> Seq<ModelView> {
    order::pick(models, order::stable_order(models.len(), installed_lt(models)))
}

/// The places of models once installed ones come first.
fn installed_order(models: &Vec<Model>) -> (r: Vec<usize>)
    ensures
        order::ints(r@) == order::stable_order(models@.len(), installed_lt(views(models@))),
        forall|j: int| 0 <= j < r@.len() ==> #[trigger] r@[j] < models@.len(),
{
    let ghost all = views(models@);
    let n = models.len();
    let mut keys: Vec<String> = Vec::new();
    let mut stored: Vec<bool> = Vec::new();
    let mut i: usize = 0;
    while i < n
        invariant
            n == models.len(),
            i <= n,
            keys.len() == i,
            stored.len() == i,
            all == views(models@),
            forall|j: int| 0 <= j < i ==> (#[trigger] keys@[j])@ == chars::ascii_lower(all[j].name),
            forall|j: int| 0 <= j < i ==> #[trigger] stored@[j] == installed(all[j]),
        decreases n - i,
    {
        assert(all[i as int] == models@[i as int]@);
        keys.push(chars::to_ascii_lower(models[i].name.as_str()));
        stored.push(
            match &models[i].flm {
                Some(f) => f.installed,
                None => false,
            },
        );
        i += 1;
    }
    let before = |a: usize, b: usize| -> (r: bool)
        requires
            a < n,
            b < n,
            n == keys.len(),
            n == stored.len(),
        ensures
            r == ((stored@[a as int] && !stored@[b as int]) || (stored@[a as int]
                == stored@[b as int] && order::text_lt(keys@[a as int]@, keys@[b as int]@))),
        {
            (stored[a] && !stored[b]) || (stored[a] == stored[b] && order::text_before(
                keys[a].as_str(),
                keys[b].as_str(),
            ))
        };
    order::sorted_indices(n, before, Ghost(installed_lt(all)))
}

/// Puts installed models first and keeps each group in the order of names.
pub fn sort_models(models: &mut Vec<Model>)
    ensures
        views(final(models)@) == installed_first(views(old(models)@)),
{
    let ghost all = views(models@);
    let picked = installed_order(models);
    let n = models.len();
    let mut out: Vec<Model> = Vec::new();
    let mut k: usize = 0;
    while k < picked.len()
        invariant
            k <= picked.len(),
            n == models.len(),
            all == views(models@),
            *models == *old(models),
            out.len() == k,
            forall|j: int| 0 <= j < picked@.len() ==> #[trigger] picked@[j] < n,
            forall|j: int| 0 <= j < k ==> (#[trigger] out@[j])@ == all[picked@[j] as int],
        decreases picked.len() - k,
    {
        assert(all[picked@[k as int] as int] == models@[picked@[k as int] as int]@);
        out.push(models[picked[k]].clone());
        k += 1;
    }
    assert(views(out@) =~= order::pick(all, order::ints(picked@)));
    *models = out;
}

impl Clone for FastFlowModel {
    fn clone(&self) -> (r: Self)
        ensures
            r@ == self@,
    {
        let labels = text::copy_all(&self.labels);
        FastFlowModel {
            tag: self.tag.clone(),
            installed: self.installed,
            min_version: text::copy_opt(&self.min_version),
            version_compatible: self.version_compatible,
            parameter_size: text::copy_opt(&self.parameter_size),
            labels,
            vision: self.vision,
            default_context_length: self.default_context_length,
            max_prefill_len: self.max_prefill_len,
            supported: self.supported,
        }
    }
}

// --- what was found of flm ---------------------------------------------------

/// What `flm` says of the device that it runs on.
#[derive(Debug)]
pub struct FastFlowValidation {
    pub ready: bool,
    pub devices: Vec<String>,
}

/// What asking the system for `flm` gave. Without a binary nothing could be asked, and
/// only the catalogue from an earlier time counts.
#[derive(Debug)]
pub struct FastFlowProbe {
    pub binary_path: Option<String>,
    pub version: Option<String>,
    pub validation: Option<FastFlowValidation>,
    /// What `flm` prints when asked for its port.
    pub port: Option<Vec<u8>>,
    /// The catalogue that `flm` prints.
    pub listed: Option<Vec<Entry>>,
    /// The catalogue from an earlier time.
    pub kept: Option<Vec<Entry>>,
}

/// The runtime with its catalogue and its port.
#[derive(Debug)]
pub struct FastFlowDiscovery {
    pub runtime: Runtime,
    pub command: Vec<String>,
    pub models: Vec<Catalogued>,
    pub port: u16,
}

/// The description of the runtime.
pub open spec fn described(ready: bool) -> Seq<char> {
    if ready {
        "AMD Ryzen AI NPU inference (NPU ready)"@
    } else {
        "AMD Ryzen AI NPU inference"@
    }
}

/// The runtime that a probe found.
pub open spec fn runtime_found(p: FastFlowProbe) -> RuntimeView {
    RuntimeView {
        name: RUNTIME@,
        description: described(
            p.binary_path is Some && p.validation is Some && p.validation->0.ready,
        ),
        version: version_found(p),
        binary_path: opt(p.binary_path),
        bench_path: None,
        formats: seq!["NPU2"@, "Q4NX"@],
        devices: match (p.binary_path, p.validation) {
            (Some(_), Some(v)) => strs(v.devices@),
            _ => Seq::<Seq<char>>::empty(),
        },
    }
}

/// The version of the binary, where there is one.
pub open spec fn version_found(p: FastFlowProbe) -> Option<Seq<char>> {
    if p.binary_path is Some {
        opt(p.version)
    } else {
        None
    }
}

/// The catalogue that counts: the one that `flm` prints now, else the one that was
/// kept.
pub open spec fn catalogue_found(p: FastFlowProbe) -> Seq<Entry> {
    match (p.binary_path, p.listed, p.kept) {
        (Some(_), Some(v), _) => v@,
        (_, _, Some(v)) => v@,
        _ => Seq::<Entry>::empty(),
    }
}

/// The models of a catalogue alone.
pub open spec fn only_models(v: Seq<(ModelView, FastFlowView)>) -> Seq<ModelView> {
    v.map_values(|p: (ModelView, FastFlowView)| p.0)
}

/// A catalogue with the installed models first, each group by name.
pub open spec fn catalogue_in_order(v: Seq<(ModelView, FastFlowView)>) -> Seq<(ModelView, FastFlowView)> {
    order::pick(v, order::stable_order(v.len(), installed_lt(only_models(v))))
}

/// The models of the catalogue that counts, with what it says of each, installed ones
/// first.
pub open spec fn models_found(p: FastFlowProbe, models_dir: Seq<char>) -> Seq<(ModelView, FastFlowView)> {
    let entries = catalogue_found(p);
    catalogue_in_order(models_upto(entries, version_found(p), models_dir, entries.len()))
}

fn take_models(found: &Vec<Catalogued>) -> (r: Vec<Model>)
    ensures
        views(r@) == only_models(catalogued_views(found@)),
{
    let ghost all = catalogued_views(found@);
    let mut out: Vec<Model> = Vec::new();
    let mut i: usize = 0;
    while i < found.len()
        invariant
            i <= found.len(),
            all == catalogued_views(found@),
            out.len() == i,
            forall|j: int| 0 <= j < i ==> (#[trigger] out@[j])@ == all[j].0,
        decreases found.len() - i,
    {
        assert(all[i as int] == (found@[i as int].model@, found@[i as int].fastflow@));
        out.push(found[i].model.clone());
        i += 1;
    }
    assert(all.len() == found@.len());
    assert(views(out@) =~= only_models(all));
    out
}

fn sort_catalogue(found: &Vec<Catalogued>) -> (r: Vec<Catalogued>)
    ensures
        catalogued_views(r@) == catalogue_in_order(catalogued_views(found@)),
{
    let ghost all = catalogued_views(found@);
    let models = take_models(found);
    assert(views(models@).len() == models@.len());
    assert(all.len() == found@.len());
    let picked = installed_order(&models);
    let n = found.len();
    let mut out: Vec<Catalogued> = Vec::new();
    let mut k: usize = 0;
    while k < picked.len()
        invariant
            k <= picked.len(),
            n == found.len(),
            all == catalogued_views(found@),
            out.len() == k,
            forall|j: int| 0 <= j < picked@.len() ==> #[trigger] picked@[j] < n,
            forall|j: int|
                0 <= j < k ==> ((#[trigger] out@[j]).model@, out@[j].fastflow@)
                    == all[picked@[j] as int],
        decreases picked.len() - k,
    {
        let e = &found[picked[k]];
        assert(all[picked@[k as int] as int] == (e.model@, e.fastflow@));
        out.push(Catalogued { model: e.model.clone(), fastflow: e.fastflow.clone() });
        k += 1;
    }
    assert(catalogued_views(out@) =~= order::pick(all, order::ints(picked@)));
    out
}

/// The runtime, its catalogue and its port, from what asking the system gave. Where
/// `flm` cannot be asked, the catalogue from an earlier time is shown.
pub fn discover(probe: &FastFlowProbe, models_dir: &str) -> (r: FastFlowDiscovery)
    ensures
        r.runtime@ == runtime_found(*probe),
        strs(r.command@) == (match probe.binary_path {
            Some(p) => seq![p@],
            None => Seq::<Seq<char>>::empty(),
        }),
        catalogued_views(r.models@) == models_found(*probe, models_dir@),
        r.port == (match (probe.binary_path, probe.port) {
            (Some(_), Some(out)) => match last_port(digit_runs(gguf::lossy(out@))) {
                Some(n) => n as u16,
                None => DEFAULT_PORT,
            },
            _ => DEFAULT_PORT,
        }),
{
    let mut command: Vec<String> = Vec::new();
    if let Some(p) = &probe.binary_path {
        command.push(p.clone());
    }
    assert(strs(command@) =~= match probe.binary_path {
        Some(p) => seq![p@],
        None => Seq::<Seq<char>>::empty(),
    });
    let version = match &probe.binary_path {
        Some(_) => text::copy_opt(&probe.version),
        None => None,
    };
    let (ready, devices) = match (&probe.binary_path, &probe.validation) {
        (Some(_), Some(v)) => (v.ready, text::copy_all(&v.devices)),
        _ => {
            let none: Vec<String> = Vec::new();
            assert(strs(none@) =~= Seq::<Seq<char>>::empty());
            (false, none)
        },
    };
    let port: u16 = match (&probe.binary_path, &probe.port) {
        (Some(_), Some(out)) => match parse_port(out.as_slice()) {
            Some(n) => n,
            None => DEFAULT_PORT,
        },
        _ => DEFAULT_PORT,
    };
    let found = match (&probe.binary_path, &probe.listed, &probe.kept) {
        (Some(_), Some(v), _) => build_models(v, &version, models_dir),
        (_, _, Some(v)) => build_models(v, &version, models_dir),
        _ => {
            let none: Vec<Catalogued> = Vec::new();
            assert(catalogued_views(none@) =~= models_upto(
                Seq::<Entry>::empty(),
                opt(version),
                models_dir@,
                0,
            ));
            none
        },
    };
    let models = sort_catalogue(&found);
    let mut formats: Vec<String> = Vec::new();
    formats.push(text::copy("NPU2"));
    formats.push(text::copy("Q4NX"));
    assert(strs(formats@) =~= seq!["NPU2"@, "Q4NX"@]);
    let description = if ready {
        text::copy("AMD Ryzen AI NPU inference (NPU ready)")
    } else {
        text::copy("AMD Ryzen AI NPU inference")
    };
    FastFlowDiscovery {
        runtime: Runtime {
            name: text::copy(RUNTIME),
            description,
            version,
            binary_path: text::copy_opt(&probe.binary_path),
            bench_path: None,
            formats,
            devices,
        },
        command,
        models,
        port,
    }
}

// --- laws --------------------------------------------------------------------

/// Versions compare as numbers: the first part in which they differ decides, and where
/// none does each is at least the other. A missing part counts as nothing.
pub proof fn law_the_first_difference_decides(a: Seq<nat>, b: Seq<nat>, from: int, i: int)
    requires
        0 <= from <= i,
        forall|j: int| from <= j < i ==> part_at(a, j) == part_at(b, j),
    ensures
        part_at(a, i) > part_at(b, i) ==> parts_at_least(a, b, from) && !parts_at_least(b, a, from),
        i >= a.len() && i >= b.len() ==> parts_at_least(a, b, from),
    decreases i - from,
{
    if from < i && (from < a.len() || from < b.len()) {
        assert(part_at(a, from) == part_at(b, from));
        law_the_first_difference_decides(a, b, from + 1, i);
    } else if from == i && part_at(a, i) > part_at(b, i) {
        assert(i < a.len());
    } else if from < i && part_at(a, i) > part_at(b, i) {
        assert(part_at(a, i) == 0);
    }
}

/// An entry can be served unless it is an embedding or a speech model, or asks for a
/// later version than the installed one.
pub proof fn law_entries_that_can_be_served(e: Entry, version: Option<Seq<char>>)
    ensures
        strs(e.label@).contains("embeddings"@) ==> !is_supported(e, version),
        e.family is Some && "whisper"@.is_prefix_of(e.family->0@) ==> !is_supported(e, version),
        e.flm_min_version is Some && version is Some && !parts_at_least(
            version_parts(version->0),
            version_parts(e.flm_min_version->0@),
            0,
        ) ==> !is_supported(e, version),
        !strs(e.label@).contains("embeddings"@) && !(e.family is Some && "whisper"@.is_prefix_of(
            e.family->0@,
        )) && (e.flm_min_version is None || version is None || parts_at_least(
            version_parts(version->0),
            version_parts(e.flm_min_version->0@),
            0,
        )) ==> is_supported(e, version),
{
}

/// Every entry with a tag becomes a model of that tag, with the size, the context and
/// the state that the catalogue gives it; an entry without one becomes none.
pub proof fn law_entries_become_models(entries: Seq<Entry>, version: Option<Seq<char>>, models_dir: Seq<char>, n: nat, i: int)
    requires
        0 <= i < n <= entries.len(),
        tag_of(entries[i]).len() > 0,
    ensures
        exists|k: int|
            0 <= k < models_upto(entries, version, models_dir, n).len() && describes(
                #[trigger] models_upto(entries, version, models_dir, n)[k],
                entries[i],
            ),
        models_upto(entries, version, models_dir, n).len() <= n,
    decreases n,
{
    let rest = models_upto(entries, version, models_dir, (n - 1) as nat);
    let all = models_upto(entries, version, models_dir, n);
    lemma_models_are_no_more(entries, version, models_dir, n);
    if i == n - 1 {
        assert(describes(all[all.len() - 1], entries[i]));
    } else {
        law_entries_become_models(entries, version, models_dir, (n - 1) as nat, i);
        let k = choose|k: int| 0 <= k < rest.len() && describes(#[trigger] rest[k], entries[i]);
        assert(all[k] == rest[k]);
    }
}

proof fn lemma_models_are_no_more(entries: Seq<Entry>, version: Option<Seq<char>>, models_dir: Seq<char>, n: nat)
    ensures
        models_upto(entries, version, models_dir, n).len() <= n,
    decreases n,
{
    if n > 0 {
        lemma_models_are_no_more(entries, version, models_dir, (n - 1) as nat);
    }
}

/// Whether a model is what an entry of the catalogue says.
pub open spec fn describes(m: (ModelView, FastFlowView), e: Entry) -> bool {
    let tag = if e.model@.len() > 0 {
        e.model@
    } else {
        e.name@
    };
    &&& m.0.flm is Some
    &&& m.0.flm->0.tag == tag
    &&& m.0.name == tag
    &&& m.0.flm->0.installed == e.installed
    &&& m.0.flm->0.max_prefill_len == e.max_prefill_len
    &&& m.0.flm->0.labels == strs(e.label@)
    &&& m.0.flm->0.vlm == e.vlm
    &&& m.0.context_length == e.default_context_length
    &&& m.0.size_bytes == e.size_bytes
    &&& m.0.architecture == opt(e.family)
    &&& m.0.quantization == opt(e.quantization_level)
    &&& m.1.tag == tag
    &&& m.1.installed == e.installed
    &&& m.1.min_version == opt(e.flm_min_version)
}

proof fn lemma_installed_order(models: Seq<ModelView>)
    ensures
        order::weak_order(installed_lt(models)),
{
    let lt = installed_lt(models);
    assert forall|a: int, b: int| #[trigger] lt(a, b) implies !lt(b, a) by {
        order::law_text_order_is_total(
            chars::ascii_lower(models[a].name),
            chars::ascii_lower(models[b].name),
        );
    }
    assert forall|a: int, b: int, c: int|
        !#[trigger] lt(a, b) && !#[trigger] lt(b, c) implies !lt(a, c) by {
        let x = chars::ascii_lower(models[a].name);
        let y = chars::ascii_lower(models[b].name);
        let z = chars::ascii_lower(models[c].name);
        order::law_text_order_is_total(x, y);
        order::law_text_order_is_total(y, z);
        order::law_text_order_is_total(x, z);
        if lt(a, c) && installed(models[a]) == installed(models[b]) && installed(models[b])
            == installed(models[c]) {
            if x != y {
                order::law_text_order_is_transitive(y, x, z);
            }
        }
    }
}

/// The catalogue shows the installed models first, and each group by name.
pub proof fn law_installed_models_come_first(models: Seq<ModelView>, i: int, j: int)
    requires
        0 <= i < j < installed_first(models).len(),
    ensures
        installed(installed_first(models)[j]) ==> installed(installed_first(models)[i]),
        installed(installed_first(models)[i]) == installed(installed_first(models)[j])
            ==> !order::text_lt(
            chars::ascii_lower(installed_first(models)[j].name),
            chars::ascii_lower(installed_first(models)[i].name),
        ),
        installed_first(models).len() == models.len(),
{
    let lt = installed_lt(models);
    lemma_installed_order(models);
    order::law_stable_order_is_a_permutation(models.len(), lt);
    order::law_stable_order_is_ascending(models.len(), lt);
    let picked = order::stable_order(models.len(), lt);
    assert(!lt(picked[j], picked[i]));
}

proof fn lemma_runs_of_digits(s: Seq<char>, d: Seq<char>, k: int)
    requires
        s.len() == 0 || !chars::is_digit(s.last()),
        1 <= k <= d.len(),
        forall|i: int| 0 <= i < d.len() ==> chars::is_digit(#[trigger] d[i]),
    ensures
        digit_runs(s + d.take(k)) == digit_runs(s).push(d.take(k)),
    decreases k,
{
    let t = s + d.take(k);
    assert(chars::is_digit(d[k - 1]));
    assert(t.last() == d[k - 1]);
    assert(t.drop_last() =~= s + d.take(k - 1));
    if k == 1 {
        assert(d.take(0) =~= Seq::<char>::empty());
        assert(t.drop_last() =~= s);
        assert(d.take(1) =~= seq![d[0]]);
        if s.len() > 0 {
            assert(t[t.len() - 2] == s.last());
        }
    } else {
        lemma_runs_of_digits(s, d, k - 1);
        assert(chars::is_digit(d[k - 2]));
        assert(t[t.len() - 2] == d[k - 2]);
        let rest = digit_runs(t.drop_last());
        assert(rest.drop_last() =~= digit_runs(s));
        assert(rest.last().push(t.last()) =~= d.take(k));
    }
}

/// The port that a text ends with is the port in it, whatever stands before.
pub proof fn law_the_last_port_counts(before: Seq<char>, port: u16)
    requires
        before.len() == 0 || !chars::is_digit(before.last()),
    ensures
        last_port(digit_runs(before + number::decimal(port as nat))) == Some(port as nat),
{
    let d = number::decimal(port as nat);
    number::lemma_decimal_value(port as nat);
    number::law_read_nat_undoes_write(port as nat, 65_535);
    lemma_runs_of_digits(before, d, d.len() as int);
    assert(d.take(d.len() as int) =~= d);
}

/// What `flm` lists is the catalogue; without it, or where it says nothing, what was kept
/// of an earlier list is, and the version is that of a binary that is there.
pub proof fn law_the_list_comes_before_what_was_kept(p: FastFlowProbe)
    ensures
        p.binary_path is Some && p.listed is Some ==> catalogue_found(p) == p.listed->0@,
        p.listed is None && p.kept is Some ==> catalogue_found(p) == p.kept->0@,
        p.binary_path is None && p.kept is Some ==> catalogue_found(p) == p.kept->0@,
        p.listed is None && p.kept is None ==> catalogue_found(p).len() == 0,
        p.binary_path is None ==> version_found(p) is None,
        p.binary_path is Some ==> version_found(p) == opt(p.version),
{
}

/// The runtime has its binary and, where the stack was checked, its devices; it says
/// that it is ready only where the check said so.
pub proof fn law_the_runtime_is_what_was_found(p: FastFlowProbe)
    ensures
        runtime_found(p).binary_path == opt(p.binary_path),
        p.binary_path is Some && p.validation is Some ==> runtime_found(p).devices == strs(
            p.validation->0.devices@,
        ),
        p.binary_path is None || p.validation is None ==> runtime_found(p).devices.len() == 0,
        p.binary_path is Some && p.validation is Some && p.validation->0.ready ==> runtime_found(
            p,
        ).description == "AMD Ryzen AI NPU inference (NPU ready)"@,
        p.binary_path is None || p.validation is None || !p.validation->0.ready ==> runtime_found(
            p,
        ).description == "AMD Ryzen AI NPU inference"@,
{
}

/// Each entry with a tag is a model of the catalogue, and the models are as many as the
/// entries with a tag.
pub proof fn law_entries_with_a_tag_are_models(entries: Seq<Entry>, version: Option<Seq<char>>, models_dir: Seq<char>, n: nat, i: int)
    requires
        n <= entries.len(),
        0 <= i < n,
        entries[i].model@.len() > 0 || entries[i].name@.len() > 0,
    ensures
        models_upto(entries, version, models_dir, n).contains(
            (entry_model(entries[i], models_dir), entry_details(entries[i], version)),
        ),
    decreases n,
{
    let m = (n - 1) as nat;
    let rest = models_upto(entries, version, models_dir, m);
    let all = models_upto(entries, version, models_dir, n);
    let own = (entry_model(entries[i], models_dir), entry_details(entries[i], version));
    if i == m {
        assert(all.last() == own);
    } else {
        law_entries_with_a_tag_are_models(entries, version, models_dir, m, i);
        let k = choose|k: int| 0 <= k < rest.len() && rest[k] == own;
        assert(all[k] == own);
    }
}

/// The catalogue is shown with what is installed first, then by name, and all of it.
pub proof fn law_the_catalogue_is_in_order(v: Seq<(ModelView, FastFlowView)>, i: int, j: int)
    requires
        0 <= i < j < catalogue_in_order(v).len(),
    ensures
        catalogue_in_order(v).len() == v.len(),
        installed(catalogue_in_order(v)[j].0) ==> installed(catalogue_in_order(v)[i].0),
        installed(catalogue_in_order(v)[i].0) == installed(catalogue_in_order(v)[j].0)
            ==> !order::text_lt(
            chars::ascii_lower(catalogue_in_order(v)[j].0.name),
            chars::ascii_lower(catalogue_in_order(v)[i].0.name),
        ),
{
    let models = only_models(v);
    let lt = installed_lt(models);
    lemma_installed_order(models);
    order::law_stable_order_is_a_permutation(models.len(), lt);
    order::law_stable_order_is_ascending(models.len(), lt);
    let picked = order::stable_order(models.len(), lt);
    assert(!lt(picked[j], picked[i]));
    assert(models[picked[i]] == v[picked[i]].0 && models[picked[j]] == v[picked[j]].0);
}

} // verus!
