//! The Hub's interface: what is asked, and what the answers mean for a browser of
//! GGUF files.

use vstd::prelude::*;
use crate::chars;
use crate::discovery::shards;
use crate::discovery::shards::{logical_name, quant_label, shard_name, SHARD};
use crate::number;
use crate::order;
use crate::text;
use crate::text::{opt, strs};
use crate::url;

verus! {

/// Where the Hub is.
pub const BASE: &'static str = "https://huggingface.co";

/// How many repositories a search gives.
pub const SEARCH_LIMIT: u64 = 30;

// --- what is known of repositories and files ---------------------------------

/// A repository that a search found.
#[derive(Debug)]
pub struct HubModel {
    pub id: String,
    pub likes: u64,
    pub downloads: u64,
    /// The day on which it was created, where that is known.
    pub created: Option<String>,
}

pub struct HubModelView {
    pub id: Seq<char>,
    pub likes: u64,
    pub downloads: u64,
    pub created: Option<Seq<char>>,
}

impl View for HubModel {
    type V = HubModelView;

    open spec fn view(&self) -> HubModelView {
        HubModelView {
            id: self.id@,
            likes: self.likes,
            downloads: self.downloads,
            created: opt(self.created),
        }
    }
}

/// The views of a list of repositories.
pub open spec fn model_views(v: Seq<HubModel>) -> Seq<HubModelView> {
    v.map_values(|m: HubModel| m@)
}

/// One physical file of an artifact.
#[derive(Debug)]
pub struct FilePart {
    /// The name in the repository, with its directories.
    pub rfilename: String,
    pub size: u64,
}

pub struct PartView {
    pub rfilename: Seq<char>,
    pub size: u64,
}

impl View for FilePart {
    type V = PartView;

    open spec fn view(&self) -> PartView {
        PartView { rfilename: self.rfilename@, size: self.size }
    }
}

impl Clone for FilePart {
    fn clone(&self) -> (r: Self)
        ensures
            r@ == self@,
    {
        FilePart { rfilename: self.rfilename.clone(), size: self.size }
    }
}

/// The views of a list of parts.
pub open spec fn part_views(v: Seq<FilePart>) -> Seq<PartView> {
    v.map_values(|p: FilePart| p@)
}

/// A copy of a list of parts.
pub fn copy_parts(v: &Vec<FilePart>) -> (r: Vec<FilePart>)
    ensures
        part_views(r@) == part_views(v@),
{
    let mut out: Vec<FilePart> = Vec::new();
    let mut i: usize = 0;
    while i < v.len()
        invariant
            i <= v.len(),
            out.len() == i,
            forall|j: int| 0 <= j < i ==> (#[trigger] out@[j])@ == v@[j]@,
        decreases v.len() - i,
    {
        out.push(v[i].clone());
        i += 1;
    }
    assert(part_views(out@) =~= part_views(v@));
    out
}

/// One artifact: a file, or the parts of a split one under the name of the whole.
#[derive(Debug)]
pub struct HubFile {
    pub name: String,
    pub quant: Option<String>,
    /// The size of all parts, zero where the Hub does not say.
    pub size_bytes: u64,
    pub parts: Vec<FilePart>,
}

pub struct FileView {
    pub name: Seq<char>,
    pub quant: Option<Seq<char>>,
    pub size_bytes: int,
    pub parts: Seq<PartView>,
}

impl View for HubFile {
    type V = FileView;

    open spec fn view(&self) -> FileView {
        FileView {
            name: self.name@,
            quant: opt(self.quant),
            size_bytes: self.size_bytes as int,
            parts: part_views(self.parts@),
        }
    }
}

impl Clone for HubFile {
    fn clone(&self) -> (r: Self)
        ensures
            r@ == self@,
    {
        HubFile {
            name: self.name.clone(),
            quant: text::copy_opt(&self.quant),
            size_bytes: self.size_bytes,
            parts: copy_parts(&self.parts),
        }
    }
}

/// The views of a list of artifacts.
pub open spec fn file_views(v: Seq<HubFile>) -> Seq<FileView> {
    v.map_values(|f: HubFile| f@)
}

/// The GGUF contents of a repository.
#[derive(Debug)]
pub struct HubRepo {
    /// Whether a license has to be accepted before anything is downloaded.
    pub gated: bool,
    pub architecture: Option<String>,
    pub context_length: Option<u64>,
    pub files: Vec<HubFile>,
}

pub struct RepoView {
    pub gated: bool,
    pub architecture: Option<Seq<char>>,
    pub context_length: Option<u64>,
    pub files: Seq<FileView>,
}

impl View for HubRepo {
    type V = RepoView;

    open spec fn view(&self) -> RepoView {
        RepoView {
            gated: self.gated,
            architecture: opt(self.architecture),
            context_length: self.context_length,
            files: file_views(self.files@),
        }
    }
}

// --- what is asked -----------------------------------------------------------

/// Where a search is asked: models that llama.cpp runs, by how they trend. An
/// empty query asks for all of them.
pub open spec fn search_place(query: Seq<char>) -> Seq<char> {
    let wanted = chars::trimmed(query);
    let all = BASE@
        + "/api/models?pipeline_tag=text-generation&library=gguf&apps=llama.cpp&sort=trendingScore&limit="@
        + number::decimal(SEARCH_LIMIT as nat);
    if wanted.len() == 0 {
        all
    } else {
        all + "&search="@ + url::encoded_text(wanted, false)
    }
}

/// Where a search is asked.
pub fn search_url(query: &str) -> (r: String)
    ensures
        r@ == search_place(query@),
{
    let mut out = text::cat3(
        BASE,
        "/api/models?pipeline_tag=text-generation&library=gguf&apps=llama.cpp&sort=trendingScore&limit=",
        number::nat_text(SEARCH_LIMIT).as_str(),
    );
    let wanted = chars::trim(query);
    if text::length(wanted.as_str()) > 0 {
        out.append("&search=");
        out.append(urlencode(wanted.as_str()).as_str());
    }
    out
}

/// Each part between separators, encoded.
pub open spec fn encoded_parts(s: Seq<char>) -> Seq<Seq<char>> {
    text::split(s, '/').map_values(|p: Seq<char>| url::encoded_text(p, false))
}

/// A path encoded part by part, its separators kept.
pub open spec fn encoded_path(s: Seq<char>) -> Seq<char> {
    text::join(encoded_parts(s), "/"@)
}

/// A text with everything encoded that means something in a URL.
pub fn urlencode(raw: &str) -> (r: String)
    ensures
        r@ == url::encoded_text(raw@, false),
{
    url::encode(raw, false)
}

fn encode_path(s: &str) -> (r: String)
    ensures
        r@ == encoded_path(s@),
{
    let parts = text::split_char(s, '/');
    let ghost all = text::split(s@, '/');
    let mut out: Vec<String> = Vec::new();
    let mut i: usize = 0;
    while i < parts.len()
        invariant
            i <= parts.len(),
            all == strs(parts@),
            out.len() == i,
            forall|j: int|
                0 <= j < i ==> (#[trigger] out@[j])@ == url::encoded_text(all[j], false),
        decreases parts.len() - i,
    {
        assert(all[i as int] == parts@[i as int]@);
        out.push(urlencode(parts[i].as_str()));
        i += 1;
    }
    assert(all.len() == parts@.len());
    assert(strs(out@) =~= encoded_parts(s@));
    text::join_all(&out, "/")
}

/// Where the files of a repository are asked for.
pub fn repo_url(repo_id: &str) -> (r: String)
    ensures
        r@ == BASE@ + "/api/models/"@ + encoded_path(repo_id@) + "?blobs=true"@,
{
    let mut out = text::cat3(BASE, "/api/models/", encode_path(repo_id).as_str());
    out.append("?blobs=true");
    out
}

/// Where a file of a repository downloads from.
pub fn resolve_url(repo_id: &str, rfilename: &str) -> (r: String)
    ensures
        r@ == BASE@ + "/"@ + encoded_path(repo_id@) + "/resolve/main/"@ + encoded_path(rfilename@),
{
    let mut out = text::cat3(BASE, "/", encode_path(repo_id).as_str());
    out.append("/resolve/main/");
    out.append(encode_path(rfilename).as_str());
    out
}

/// What a request says about who asks: the token, where there is one.
pub fn authorization(token: &Option<String>) -> (r: Option<String>)
    ensures
        opt(r) == (match *token {
            Some(t) => if chars::trimmed(t@).len() > 0 {
                Some("Bearer "@ + chars::trimmed(t@))
            } else {
                None
            },
            None => None,
        }),
{
    match token {
        Some(t) => {
            let t = chars::trim(t.as_str());
            if text::length(t.as_str()) > 0 {
                Some(text::cat("Bearer ", t.as_str()))
            } else {
                None
            }
        },
        None => None,
    }
}

/// How a request failed.
#[derive(Debug)]
pub enum HttpError {
    Status(u16),
    Transport(String),
}

/// What is said of a failed request.
pub open spec fn complaint(e: HttpError) -> Seq<char> {
    match e {
        HttpError::Status(code) => if code == 401 || code == 403 {
            "access denied — gated model? set HF_TOKEN to a token with access"@
        } else {
            "Hugging Face returned HTTP "@ + number::decimal(code as nat)
        },
        HttpError::Transport(t) => "network error: "@ + t@,
    }
}

/// What is said of a failed request.
pub fn describe(err: &HttpError) -> (r: String)
    ensures
        r@ == complaint(*err),
{
    match err {
        HttpError::Status(code) => if *code == 401 || *code == 403 {
            text::copy("access denied — gated model? set HF_TOKEN to a token with access")
        } else {
            text::cat("Hugging Face returned HTTP ", number::nat_text(*code as u64).as_str())
        },
        HttpError::Transport(t) => text::cat("network error: ", t.as_str()),
    }
}

// --- what a search answers ---------------------------------------------------

/// A repository as the Hub describes it.
#[derive(Debug)]
pub struct ApiModel {
    pub id: String,
    pub likes: u64,
    pub downloads: u64,
    /// When it was created, as date and time.
    pub created_at: Option<String>,
}

/// The day of a date and time: its first ten characters.
pub open spec fn day_of(s: Seq<char>) -> Seq<char> {
    if s.len() < 10 {
        s
    } else {
        s.take(10)
    }
}

/// A repository as it is listed.
pub open spec fn listed(m: ApiModel) -> HubModelView {
    HubModelView {
        id: m.id@,
        likes: m.likes,
        downloads: m.downloads,
        created: match m.created_at {
            Some(d) => Some(day_of(d@)),
            None => None,
        },
    }
}

fn take_day(s: &str) -> (r: String)
    ensures
        r@ == day_of(s@),
{
    if text::length(s) < 10 {
        text::copy(s)
    } else {
        let day = text::piece(s, 0, 10);
        assert(day@ =~= s@.take(10));
        day
    }
}

/// The repositories that a search found, in the order of the answer.
pub fn search_models(answer: &Vec<ApiModel>) -> (r: Vec<HubModel>)
    ensures
        model_views(r@) == answer@.map_values(|m: ApiModel| listed(m)),
{
    let mut out: Vec<HubModel> = Vec::new();
    let mut i: usize = 0;
    while i < answer.len()
        invariant
            i <= answer.len(),
            out.len() == i,
            forall|j: int| 0 <= j < i ==> (#[trigger] out@[j])@ == listed(answer@[j]),
        decreases answer.len() - i,
    {
        let m = &answer[i];
        let created = match &m.created_at {
            Some(d) => Some(take_day(d.as_str())),
            None => None,
        };
        out.push(HubModel { id: m.id.clone(), likes: m.likes, downloads: m.downloads, created });
        i += 1;
    }
    assert(model_views(out@) =~= answer@.map_values(|m: ApiModel| listed(m)));
    out
}

// --- what a repository holds -------------------------------------------------

/// A file as the Hub lists it.
#[derive(Debug)]
pub struct ApiSibling {
    pub rfilename: String,
    pub size: Option<u64>,
}

/// What the Hub says of who may download.
#[derive(Debug)]
pub enum ApiGated {
    Flag(bool),
    /// How access is granted.
    Mode(String),
    /// Nothing, or something else.
    Unsaid,
}

/// A repository with its files as the Hub describes it.
#[derive(Debug)]
pub struct ApiRepo {
    pub gated: ApiGated,
    pub siblings: Vec<ApiSibling>,
    pub architecture: Option<String>,
    pub context_length: Option<u64>,
}

/// What the grouping has of a file: whether it is an artifact, the name of the
/// whole, and its quantization.
#[derive(Debug)]
pub struct FileFacts {
    pub artifact: bool,
    pub logical: String,
    pub quant: Option<String>,
}

pub struct FactsView {
    pub artifact: bool,
    pub logical: Seq<char>,
    pub quant: Option<Seq<char>>,
}

impl View for FileFacts {
    type V = FactsView;

    open spec fn view(&self) -> FactsView {
        FactsView { artifact: self.artifact, logical: self.logical@, quant: opt(self.quant) }
    }
}

/// The views of a list of facts.
pub open spec fn facts_views(v: Seq<FileFacts>) -> Seq<FactsView> {
    v.map_values(|f: FileFacts| f@)
}

/// What stands behind the last separator.
pub open spec fn last_part(s: Seq<char>) -> Seq<char> {
    text::split(s, '/').last()
}

/// Whether a file is a projector and no model of its own, by its name in lower
/// case.
pub open spec fn projector_name(low: Seq<char>) -> bool {
    "mmproj"@.is_prefix_of(low)
}

/// What the grouping has of a file of a name.
pub open spec fn facts_for(name: Seq<char>) -> FactsView {
    let logical = logical_name(name, shard_name(SHARD@, name), ".gguf"@);
    FactsView {
        artifact: ".gguf"@.is_suffix_of(chars::lowercase(name)) && !projector_name(
            chars::lowercase(last_part(name)),
        ),
        logical,
        quant: quant_label(logical),
    }
}

/// What is known of the size of a file.
pub open spec fn known_size(s: ApiSibling) -> u64 {
    match s.size {
        Some(n) => n,
        None => 0,
    }
}

/// A file as a part.
pub open spec fn as_part(s: ApiSibling) -> PartView {
    PartView { rfilename: s.rfilename@, size: known_size(s) }
}

/// The first artifact of a name, from `from` on.
pub open spec fn named_file(files: Seq<FileView>, name: Seq<char>, from: int) -> Option<int>
    decreases files.len() - from,
{
    if from < 0 || from >= files.len() {
        None
    } else if files[from].name == name {
        Some(from)
    } else {
        named_file(files, name, from + 1)
    }
}

/// The artifacts with one more file: a part of one that is there, or a new one.
pub open spec fn with_file(files: Seq<FileView>, s: ApiSibling, facts: FactsView) -> Seq<FileView> {
    if !facts.artifact {
        files
    } else {
        match named_file(files, facts.logical, 0) {
            Some(i) => files.update(
                i,
                FileView {
                    size_bytes: files[i].size_bytes + known_size(s),
                    parts: files[i].parts.push(as_part(s)),
                    ..files[i]
                },
            ),
            None => files.push(
                FileView {
                    name: facts.logical,
                    quant: facts.quant,
                    size_bytes: known_size(s) as int,
                    parts: seq![as_part(s)],
                },
            ),
        }
    }
}

/// The artifacts of the first `n` files, in the order of the list.
pub open spec fn collected(siblings: Seq<ApiSibling>, facts: Seq<FactsView>, n: nat) -> Seq<FileView>
    decreases n,
{
    if n == 0 {
        Seq::<FileView>::empty()
    } else {
        with_file(
            collected(siblings, facts, (n - 1) as nat),
            siblings[n - 1],
            facts[n - 1],
        )
    }
}

/// Whether part `i` comes before part `j`: by name.
pub open spec fn part_lt(parts: Seq<PartView>) -> spec_fn(int, int) -> bool {
    |i: int, j: int| order::text_lt(parts[i].rfilename, parts[j].rfilename)
}

/// The parts by name.
pub open spec fn parts_in_order(parts: Seq<PartView>) -> Seq<PartView> {
    order::pick(parts, order::stable_order(parts.len(), part_lt(parts)))
}

/// Artifacts with their parts by name.
pub open spec fn with_ordered_parts(files: Seq<FileView>) -> Seq<FileView> {
    files.map_values(|f: FileView| FileView { parts: parts_in_order(f.parts), ..f })
}

/// Whether artifact `i` comes before artifact `j`: the smaller one, then by name.
pub open spec fn file_lt(files: Seq<FileView>) -> spec_fn(int, int) -> bool {
    |i: int, j: int|
        if files[i].size_bytes != files[j].size_bytes {
            files[i].size_bytes < files[j].size_bytes
        } else {
            order::text_lt(files[i].name, files[j].name)
        }
}

/// The artifacts of a repository, the smallest first.
pub open spec fn grouped_files(siblings: Seq<ApiSibling>, facts: Seq<FactsView>) -> Seq<FileView> {
    let files = with_ordered_parts(collected(siblings, facts, siblings.len()));
    order::pick(files, order::stable_order(files.len(), file_lt(files)))
}

/// Whether the size of each artifact fits in 64 bits.
pub open spec fn artifacts_fit(siblings: Seq<ApiSibling>, facts: Seq<FactsView>) -> bool {
    let files = collected(siblings, facts, siblings.len());
    forall|i: int| 0 <= i < files.len() ==> (#[trigger] files[i]).size_bytes <= u64::MAX
}

proof fn lemma_named_file(files: Seq<FileView>, name: Seq<char>, from: int)
    requires
        0 <= from,
    ensures
        named_file(files, name, from) is Some ==> from <= named_file(files, name, from)->0
            < files.len() && files[named_file(files, name, from)->0].name == name,
    decreases files.len() - from,
{
    if from < files.len() {
        lemma_named_file(files, name, from + 1);
    }
}

/// An artifact stays where it is in the list, and only grows.
proof fn lemma_artifacts_grow(siblings: Seq<ApiSibling>, facts: Seq<FactsView>, m: nat, n: nat, i: int)
    requires
        m <= n <= siblings.len(),
        0 <= i < collected(siblings, facts, m).len(),
    ensures
        i < collected(siblings, facts, n).len(),
        collected(siblings, facts, m)[i].size_bytes <= collected(siblings, facts, n)[i].size_bytes,
    decreases n - m,
{
    if m < n {
        lemma_artifacts_grow(siblings, facts, m, (n - 1) as nat, i);
        let before = collected(siblings, facts, (n - 1) as nat);
        lemma_named_file(before, facts[n - 1].logical, 0);
    }
}

fn find_file(files: &Vec<HubFile>, name: &str) -> (r: Option<usize>)
    ensures
        match r {
            Some(i) => i < files.len() && named_file(file_views(files@), name@, 0) == Some(
                i as int,
            ),
            None => named_file(file_views(files@), name@, 0) is None,
        },
{
    let ghost all = file_views(files@);
    let mut i: usize = 0;
    while i < files.len()
        invariant
            i <= files.len(),
            all == file_views(files@),
            named_file(all, name@, 0) == named_file(all, name@, i as int),
        decreases files.len() - i,
    {
        assert(all[i as int] == files@[i as int]@);
        if text::same(files[i].name.as_str(), name) {
            return Some(i);
        }
        i += 1;
    }
    None
}

fn sort_parts(parts: &Vec<FilePart>) -> (r: Vec<FilePart>)
    ensures
        part_views(r@) == parts_in_order(part_views(parts@)),
{
    let ghost all = part_views(parts@);
    let n = parts.len();
    assert(all.len() == n);
    assert forall|k: int| 0 <= k < n implies (#[trigger] parts@[k]).rfilename@ == all[k].rfilename by {
        assert(all[k] == parts@[k]@);
    }
    let before = |a: usize, b: usize| -> (r: bool)
        requires
            a < n,
            b < n,
            n == parts.len(),
        ensures
            r == order::text_lt(parts@[a as int].rfilename@, parts@[b as int].rfilename@),
        { order::text_before(parts[a].rfilename.as_str(), parts[b].rfilename.as_str()) };
    let picked = order::sorted_indices(n, before, Ghost(part_lt(all)));
    let mut out: Vec<FilePart> = Vec::new();
    let mut k: usize = 0;
    while k < picked.len()
        invariant
            k <= picked.len(),
            n == parts.len(),
            all == part_views(parts@),
            out.len() == k,
            forall|j: int| 0 <= j < picked@.len() ==> #[trigger] picked@[j] < n,
            forall|j: int| 0 <= j < k ==> (#[trigger] out@[j])@ == all[picked@[j] as int],
        decreases picked.len() - k,
    {
        assert(all[picked@[k as int] as int] == parts@[picked@[k as int] as int]@);
        out.push(parts[picked[k]].clone());
        k += 1;
    }
    assert(part_views(out@) =~= order::pick(all, order::ints(picked@)));
    out
}

fn sort_files(files: &Vec<HubFile>) -> (r: Vec<HubFile>)
    ensures
        ({
            let all = file_views(files@);
            file_views(r@) == order::pick(all, order::stable_order(all.len(), file_lt(all)))
        }),
{
    let ghost all = file_views(files@);
    let n = files.len();
    assert(all.len() == n);
    assert forall|k: int| 0 <= k < n implies (#[trigger] files@[k]).name@ == all[k].name
        && files@[k].size_bytes == all[k].size_bytes by {
        assert(all[k] == files@[k]@);
    }
    let before = |a: usize, b: usize| -> (r: bool)
        requires
            a < n,
            b < n,
            n == files.len(),
        ensures
            r == (if files@[a as int].size_bytes != files@[b as int].size_bytes {
                files@[a as int].size_bytes < files@[b as int].size_bytes
            } else {
                order::text_lt(files@[a as int].name@, files@[b as int].name@)
            }),
        {
            if files[a].size_bytes != files[b].size_bytes {
                files[a].size_bytes < files[b].size_bytes
            } else {
                order::text_before(files[a].name.as_str(), files[b].name.as_str())
            }
        };
    let picked = order::sorted_indices(n, before, Ghost(file_lt(all)));
    let mut out: Vec<HubFile> = Vec::new();
    let mut k: usize = 0;
    while k < picked.len()
        invariant
            k <= picked.len(),
            n == files.len(),
            all == file_views(files@),
            out.len() == k,
            forall|j: int| 0 <= j < picked@.len() ==> #[trigger] picked@[j] < n,
            forall|j: int| 0 <= j < k ==> (#[trigger] out@[j])@ == all[picked@[j] as int],
        decreases picked.len() - k,
    {
        assert(all[picked@[k as int] as int] == files@[picked@[k as int] as int]@);
        out.push(files[picked[k]].clone());
        k += 1;
    }
    assert(file_views(out@) =~= order::pick(all, order::ints(picked@)));
    out
}

/// The artifacts of a repository as they come together, where their sizes fit.
fn collect(siblings: &Vec<ApiSibling>, facts: &Vec<FileFacts>) -> (r: Option<Vec<HubFile>>)
    requires
        facts@.len() == siblings@.len(),
    ensures
        match r {
            Some(v) => file_views(v@) == collected(
                siblings@,
                facts_views(facts@),
                siblings@.len(),
            ) && artifacts_fit(siblings@, facts_views(facts@)),
            None => !artifacts_fit(siblings@, facts_views(facts@)),
        },
{
    let ghost known = facts_views(facts@);
    let mut files: Vec<HubFile> = Vec::new();
    let mut i: usize = 0;
    assert(file_views(files@) =~= collected(siblings@, known, 0));
    while i < siblings.len()
        invariant
            i <= siblings.len(),
            facts@.len() == siblings@.len(),
            known == facts_views(facts@),
            file_views(files@) == collected(siblings@, known, i as nat),
        decreases siblings.len() - i,
    {
        let s = &siblings[i];
        let f = &facts[i];
        assert(known[i as int] == f@);
        if f.artifact {
            let size: u64 = match s.size {
                Some(n) => n,
                None => 0,
            };
            let part = FilePart { rfilename: s.rfilename.clone(), size };
            assert(part@ == as_part(*s));
            let ghost before = file_views(files@);
            match find_file(&files, f.logical.as_str()) {
                Some(k) => {
                    assert(before[k as int] == files@[k as int]@);
                    if size > u64::MAX - files[k].size_bytes {
                        proof {
                            let now = collected(siblings@, known, (i + 1) as nat);
                            assert(now[k as int].size_bytes == before[k as int].size_bytes + size);
                            lemma_artifacts_grow(
                                siblings@,
                                known,
                                (i + 1) as nat,
                                siblings@.len(),
                                k as int,
                            );
                        }
                        return None;
                    }
                    let ghost parts = part_views(files@[k as int].parts@);
                    let file = &mut files[k];
                    file.size_bytes = file.size_bytes + size;
                    file.parts.push(part);
                    assert(part_views(file.parts@) =~= parts.push(as_part(*s)));
                    assert(file_views(files@) =~= before.update(
                        k as int,
                        FileView {
                            size_bytes: before[k as int].size_bytes + known_size(*s),
                            parts: parts.push(as_part(*s)),
                            ..before[k as int]
                        },
                    ));
                },
                None => {
                    let mut parts: Vec<FilePart> = Vec::new();
                    parts.push(part);
                    assert(part_views(parts@) =~= seq![as_part(*s)]);
                    let file = HubFile {
                        name: f.logical.clone(),
                        quant: text::copy_opt(&f.quant),
                        size_bytes: size,
                        parts,
                    };
                    let ghost view = file@;
                    files.push(file);
                    assert(file_views(files@) =~= before.push(view));
                },
            }
        }
        i += 1;
    }
    proof {
        let found = collected(siblings@, known, siblings@.len());
        assert forall|k: int| 0 <= k < found.len() implies (#[trigger] found[k]).size_bytes
            <= u64::MAX by {
            assert(file_views(files@)[k] == files@[k]@);
        }
    }
    Some(files)
}

/// The artifacts of a repository, given what the grouping has of each file.
pub fn group_with_facts(siblings: &Vec<ApiSibling>, facts: &Vec<FileFacts>) -> (r: Vec<HubFile>)
    requires
        facts@.len() == siblings@.len(),
        artifacts_fit(siblings@, facts_views(facts@)),
    ensures
        file_views(r@) == grouped_files(siblings@, facts_views(facts@)),
{
    let ghost known = facts_views(facts@);
    let files = match collect(siblings, facts) {
        Some(v) => v,
        None => Vec::new(),
    };
    let ghost found = collected(siblings@, known, siblings@.len());
    assert(found.len() == files@.len());
    let mut ordered: Vec<HubFile> = Vec::new();
    let mut k: usize = 0;
    while k < files.len()
        invariant
            k <= files.len(),
            file_views(files@) == found,
            ordered.len() == k,
            forall|j: int|
                0 <= j < k ==> (#[trigger] ordered@[j])@ == with_ordered_parts(found)[j],
        decreases files.len() - k,
    {
        let f = &files[k];
        assert(found[k as int] == f@);
        ordered.push(
            HubFile {
                name: f.name.clone(),
                quant: text::copy_opt(&f.quant),
                size_bytes: f.size_bytes,
                parts: sort_parts(&f.parts),
            },
        );
        k += 1;
    }
    assert(found.len() == files@.len());
    assert(file_views(ordered@) =~= with_ordered_parts(found));
    sort_files(&ordered)
}

/// Whether a file is a projector and no model of its own.
pub fn is_projector(rfilename: &str) -> (r: bool)
    ensures
        r == projector_name(chars::lowercase(last_part(rfilename@))),
{
    let parts = text::split_char(rfilename, '/');
    proof {
        lemma_split_some(rfilename@);
        assert(strs(parts@).len() == parts@.len());
        assert(strs(parts@)[parts@.len() - 1] == parts@[parts@.len() - 1]@);
    }
    let last = parts[parts.len() - 1].as_str();
    text::starts_with(chars::to_lowercase(last).as_str(), "mmproj")
}

proof fn lemma_split_some(s: Seq<char>)
    ensures
        text::split(s, '/').len() > 0,
    decreases s.len(),
{
    if s.len() > 0 {
        lemma_split_some(s.drop_last());
    }
}

fn facts_of(name: &str) -> (r: FileFacts)
    ensures
        r@ == facts_for(name@),
{
    let artifact = text::ends_with(chars::to_lowercase(name).as_str(), ".gguf") && !is_projector(
        name,
    );
    let logical = shards::whole_name(name, shards::shard_of(SHARD, name), ".gguf");
    let quant = shards::quant_from_filename(logical.as_str());
    FileFacts { artifact, logical, quant }
}

/// What the grouping has of each file of a list.
pub open spec fn all_facts(siblings: Seq<ApiSibling>) -> Seq<FactsView> {
    siblings.map_values(|s: ApiSibling| facts_for(s.rfilename@))
}

fn list_facts(siblings: &Vec<ApiSibling>) -> (r: Vec<FileFacts>)
    ensures
        facts_views(r@) == all_facts(siblings@),
        r@.len() == siblings@.len(),
{
    let mut facts: Vec<FileFacts> = Vec::new();
    let mut i: usize = 0;
    while i < siblings.len()
        invariant
            i <= siblings.len(),
            facts.len() == i,
            forall|j: int|
                0 <= j < i ==> (#[trigger] facts@[j])@ == facts_for(siblings@[j].rfilename@),
        decreases siblings.len() - i,
    {
        facts.push(facts_of(siblings[i].rfilename.as_str()));
        i += 1;
    }
    assert(facts_views(facts@) =~= all_facts(siblings@));
    facts
}

/// The artifacts of a repository: its GGUF files without the projectors, the
/// parts of a split one together, the smallest first.
pub fn group_files(siblings: &Vec<ApiSibling>) -> (r: Vec<HubFile>)
    requires
        artifacts_fit(siblings@, all_facts(siblings@)),
    ensures
        file_views(r@) == grouped_files(siblings@, all_facts(siblings@)),
{
    group_with_facts(siblings, &list_facts(siblings))
}

/// Whether downloading needs consent: where the Hub says so, or names a way to
/// get it.
pub open spec fn is_gated(g: ApiGated) -> bool {
    match g {
        ApiGated::Flag(b) => b,
        ApiGated::Mode(_) => true,
        ApiGated::Unsaid => false,
    }
}

/// What a repository holds, from the answer of the Hub.
pub open spec fn repo_of(answer: ApiRepo) -> RepoView {
    RepoView {
        gated: is_gated(answer.gated),
        architecture: opt(answer.architecture),
        context_length: answer.context_length,
        files: grouped_files(answer.siblings@, all_facts(answer.siblings@)),
    }
}

/// What a repository holds, where the size of each artifact fits in 64 bits.
pub fn fitting_repo_files(answer: &ApiRepo) -> (r: Option<HubRepo>)
    ensures
        match r {
            Some(repo) => artifacts_fit(answer.siblings@, all_facts(answer.siblings@)) && repo@
                == repo_of(*answer),
            None => !artifacts_fit(answer.siblings@, all_facts(answer.siblings@)),
        },
{
    if collect(&answer.siblings, &list_facts(&answer.siblings)).is_some() {
        Some(repo_files(answer))
    } else {
        None
    }
}

/// What a repository holds.
pub fn repo_files(answer: &ApiRepo) -> (r: HubRepo)
    requires
        artifacts_fit(answer.siblings@, all_facts(answer.siblings@)),
    ensures
        r@ == repo_of(*answer),
{
    let gated = match &answer.gated {
        ApiGated::Flag(b) => *b,
        ApiGated::Mode(_) => true,
        ApiGated::Unsaid => false,
    };
    HubRepo {
        gated,
        architecture: text::copy_opt(&answer.architecture),
        context_length: answer.context_length,
        files: group_files(&answer.siblings),
    }
}

// --- laws --------------------------------------------------------------------

/// No two artifacts of a repository have the same name.
pub proof fn law_artifacts_have_different_names(siblings: Seq<ApiSibling>, facts: Seq<FactsView>, n: nat, i: int, j: int)
    requires
        n <= siblings.len(),
        0 <= i < j < collected(siblings, facts, n).len(),
    ensures
        collected(siblings, facts, n)[i].name != collected(siblings, facts, n)[j].name,
    decreases n,
{
    if n > 0 {
        let before = collected(siblings, facts, (n - 1) as nat);
        let f = facts[n - 1];
        if f.artifact {
            lemma_named_file(before, f.logical, 0);
            if named_file(before, f.logical, 0) is None && j == before.len() {
                lemma_absent(before, f.logical, 0, i);
            } else {
                law_artifacts_have_different_names(siblings, facts, (n - 1) as nat, i, j);
            }
        } else {
            law_artifacts_have_different_names(siblings, facts, (n - 1) as nat, i, j);
        }
    }
}

proof fn lemma_absent(files: Seq<FileView>, name: Seq<char>, from: int, i: int)
    requires
        0 <= from <= i < files.len(),
        named_file(files, name, from) is None,
    ensures
        files[i].name != name,
    decreases files.len() - from,
{
    if from < i {
        lemma_absent(files, name, from + 1, i);
    }
}

/// The size of an artifact is that of its parts together.
pub proof fn law_sizes_add_up(siblings: Seq<ApiSibling>, facts: Seq<FactsView>, n: nat, i: int)
    requires
        n <= siblings.len(),
        0 <= i < collected(siblings, facts, n).len(),
    ensures
        collected(siblings, facts, n)[i].size_bytes == parts_size(
            collected(siblings, facts, n)[i].parts,
        ),
        collected(siblings, facts, n)[i].parts.len() > 0,
    decreases n,
{
    if n > 0 {
        let before = collected(siblings, facts, (n - 1) as nat);
        let f = facts[n - 1];
        if f.artifact {
            lemma_named_file(before, f.logical, 0);
            match named_file(before, f.logical, 0) {
                Some(k) => {
                    law_sizes_add_up(siblings, facts, (n - 1) as nat, i);
                    if k == i {
                        let part = as_part(siblings[n - 1]);
                        let more = before[i].parts.push(part);
                        assert(more.drop_last() =~= before[i].parts);
                    }
                },
                None => {
                    if i < before.len() {
                        law_sizes_add_up(siblings, facts, (n - 1) as nat, i);
                    } else {
                        let one = seq![as_part(siblings[n - 1])];
                        assert(one.drop_last() =~= Seq::<PartView>::empty());
                        assert(parts_size(one.drop_last()) == 0);
                    }
                },
            }
        } else {
            law_sizes_add_up(siblings, facts, (n - 1) as nat, i);
        }
    }
}

/// The sizes of parts together.
pub open spec fn parts_size(parts: Seq<PartView>) -> int
    decreases parts.len(),
{
    if parts.len() == 0 {
        0
    } else {
        parts_size(parts.drop_last()) + parts.last().size
    }
}

proof fn lemma_thirty()
    ensures
        number::decimal(30) == "30"@,
{
    reveal_strlit("30");
    assert(number::decimal(3) =~= seq!['3']);
    assert(number::decimal(30) =~= seq!['3', '0']);
    assert("30"@ =~= seq!['3', '0']);
}

/// A search asks for thirty text models that llama.cpp runs, those that trend first; what
/// is asked for stands behind in a form that decodes to it.
pub proof fn law_searches_are_for_models(query: Seq<char>)
    ensures
        ({
            let all = "https://huggingface.co"@
                + "/api/models?pipeline_tag=text-generation&library=gguf&apps=llama.cpp&sort=trendingScore&limit="@
                + "30"@;
            &&& chars::trimmed(query).len() == 0 ==> search_place(query) == all
            &&& chars::trimmed(query).len() > 0 ==> (all + "&search="@).is_prefix_of(
                search_place(query),
            ) && url::decoded(search_place(query).skip((all + "&search="@).len() as int))
                == vstd::utf8::encode_utf8(chars::trimmed(query))
        }),
{
    lemma_thirty();
    let all = "https://huggingface.co"@
        + "/api/models?pipeline_tag=text-generation&library=gguf&apps=llama.cpp&sort=trendingScore&limit="@
        + "30"@;
    let front = all + "&search="@;
    let wanted = chars::trimmed(query);
    if wanted.len() > 0 {
        let place = search_place(query);
        assert(place.skip(front.len() as int) =~= url::encoded_text(wanted, false));
        assert(place.take(front.len() as int) =~= front);
        url::law_decoding_undoes_encoding(vstd::utf8::encode_utf8(wanted), false);
    }
}

/// Whether an artifact of a name has a file among its parts.
pub open spec fn has_part(files: Seq<FileView>, name: Seq<char>, part: PartView) -> bool {
    exists|i: int| 0 <= i < files.len() && (#[trigger] files[i]).name == name && files[i].parts.contains(part)
}

/// Each file of a model is a part of the artifact of its name, and nothing else makes an
/// artifact.
pub proof fn law_files_become_parts(siblings: Seq<ApiSibling>, facts: Seq<FactsView>, n: nat)
    requires
        n <= siblings.len(),
        n <= facts.len(),
    ensures
        forall|k: int|
            0 <= k < n && (#[trigger] facts[k]).artifact ==> has_part(
                collected(siblings, facts, n),
                facts[k].logical,
                as_part(siblings[k]),
            ),
        (forall|k: int| 0 <= k < n ==> !(#[trigger] facts[k]).artifact) ==> collected(
            siblings,
            facts,
            n,
        ).len() == 0,
    decreases n,
{
    if n > 0 {
        let m = (n - 1) as nat;
        law_files_become_parts(siblings, facts, m);
        let before = collected(siblings, facts, m);
        let now = collected(siblings, facts, n);
        let f = facts[n - 1];
        let p = as_part(siblings[n - 1]);
        lemma_named_file(before, f.logical, 0);
        assert forall|k: int| 0 <= k < n && (#[trigger] facts[k]).artifact implies has_part(
            now,
            facts[k].logical,
            as_part(siblings[k]),
        ) by {
            if k < m {
                let q = as_part(siblings[k]);
                let i = choose|i: int|
                    0 <= i < before.len() && (#[trigger] before[i]).name == facts[k].logical
                        && before[i].parts.contains(q);
                let j = choose|j: int| 0 <= j < before[i].parts.len() && before[i].parts[j] == q;
                assert(now[i].name == facts[k].logical);
                assert(now[i].parts[j] == q);
            } else {
                match named_file(before, f.logical, 0) {
                    Some(i) => {
                        assert(now[i].parts.last() == p);
                    },
                    None => {
                        assert(now[before.len() as int].parts[0] == p);
                    },
                }
            }
        }
    }
}

proof fn lemma_file_order(files: Seq<FileView>)
    ensures
        order::weak_order(file_lt(files)),
{
    let lt = file_lt(files);
    assert forall|a: int, b: int| #[trigger] lt(a, b) implies !lt(b, a) by {
        order::law_text_order_is_total(files[a].name, files[b].name);
    }
    assert forall|a: int, b: int, c: int|
        !#[trigger] lt(a, b) && !#[trigger] lt(b, c) implies !lt(a, c) by {
        let x = files[a].name;
        let y = files[b].name;
        let z = files[c].name;
        order::law_text_order_is_total(x, y);
        order::law_text_order_is_total(y, z);
        order::law_text_order_is_total(x, z);
        if lt(a, c) && files[a].size_bytes == files[b].size_bytes && files[b].size_bytes
            == files[c].size_bytes && x != y {
            order::law_text_order_is_transitive(y, x, z);
        }
    }
}

proof fn lemma_part_order(parts: Seq<PartView>)
    ensures
        order::weak_order(part_lt(parts)),
{
    let lt = part_lt(parts);
    assert forall|a: int, b: int| #[trigger] lt(a, b) implies !lt(b, a) by {
        order::law_text_order_is_total(parts[a].rfilename, parts[b].rfilename);
    }
    assert forall|a: int, b: int, c: int|
        !#[trigger] lt(a, b) && !#[trigger] lt(b, c) implies !lt(a, c) by {
        let x = parts[a].rfilename;
        let y = parts[b].rfilename;
        let z = parts[c].rfilename;
        order::law_text_order_is_total(x, y);
        order::law_text_order_is_total(y, z);
        order::law_text_order_is_total(x, z);
        if lt(a, c) && x != y {
            order::law_text_order_is_transitive(y, x, z);
        }
    }
}

/// The artifacts of a repository are listed from the smallest to the largest, all of
/// them.
pub proof fn law_artifacts_go_by_size(siblings: Seq<ApiSibling>, facts: Seq<FactsView>, i: int, j: int)
    requires
        0 <= i < j < grouped_files(siblings, facts).len(),
    ensures
        grouped_files(siblings, facts)[i].size_bytes <= grouped_files(siblings, facts)[j].size_bytes,
        grouped_files(siblings, facts).len() == collected(siblings, facts, siblings.len()).len(),
{
    let files = with_ordered_parts(collected(siblings, facts, siblings.len()));
    let lt = file_lt(files);
    lemma_file_order(files);
    order::law_stable_order_is_a_permutation(files.len(), lt);
    order::law_stable_order_is_ascending(files.len(), lt);
    let o = order::stable_order(files.len(), lt);
    assert(!lt(o[j], o[i]));
}

/// The parts of an artifact are in the order of their names, which is that of their
/// numbers.
pub proof fn law_parts_go_by_name(parts: Seq<PartView>, i: int, j: int)
    requires
        0 <= i < j < parts_in_order(parts).len(),
    ensures
        parts_in_order(parts).len() == parts.len(),
        !order::text_lt(parts_in_order(parts)[j].rfilename, parts_in_order(parts)[i].rfilename),
        parts.contains(parts_in_order(parts)[i]),
{
    let lt = part_lt(parts);
    lemma_part_order(parts);
    order::law_stable_order_is_a_permutation(parts.len(), lt);
    order::law_stable_order_is_ascending(parts.len(), lt);
    let o = order::stable_order(parts.len(), lt);
    assert(!lt(o[j], o[i]));
    assert(parts_in_order(parts)[i] == parts[o[i]]);
}

/// Access must be asked for where the Hub says so or names a way, and a refusal says how
/// to get it.
pub proof fn law_gated_repositories_are_told(way: String, code: u16)
    ensures
        is_gated(ApiGated::Flag(true)),
        !is_gated(ApiGated::Flag(false)),
        is_gated(ApiGated::Mode(way)),
        !is_gated(ApiGated::Unsaid),
        code == 401 || code == 403 ==> complaint(HttpError::Status(code))
            == "access denied — gated model? set HF_TOKEN to a token with access"@,
        code != 401 && code != 403 ==> complaint(HttpError::Status(code))
            == "Hugging Face returned HTTP "@ + number::decimal(code as nat),
{
}

/// A repository is listed with its counts and the day of its creation.
pub proof fn law_repositories_are_listed_with_their_counts(m: ApiModel, day: Seq<char>, time: Seq<char>)
    requires
        day.len() == 10,
    ensures
        listed(m).id == m.id@ && listed(m).likes == m.likes && listed(m).downloads == m.downloads,
        m.created_at is None ==> listed(m).created is None,
        m.created_at is Some && m.created_at->0@ == day + time ==> listed(m).created == Some(day),
{
    assert((day + time).take(10) =~= day);
}

/// The address of a file keeps its folders: each part is encoded for itself.
pub proof fn law_addresses_keep_the_folders(s: Seq<char>, i: int)
    requires
        0 <= i < text::split(s, '/').len(),
    ensures
        encoded_parts(s).len() == text::split(s, '/').len(),
        url::decoded(encoded_parts(s)[i]) == vstd::utf8::encode_utf8(text::split(s, '/')[i]),
        encoded_path(s) == text::join(encoded_parts(s), seq!['/']),
{
    reveal_strlit("/");
    assert("/"@ =~= seq!['/']);
    url::law_decoding_undoes_encoding(vstd::utf8::encode_utf8(text::split(s, '/')[i]), false);
}

/// Models are the GGUF files that are no projectors.
pub proof fn law_projectors_are_no_artifacts(name: Seq<char>)
    ensures
        facts_for(name).artifact ==> ".gguf"@.is_suffix_of(chars::lowercase(name)),
        "mmproj"@.is_prefix_of(chars::lowercase(text::split(name, '/').last()))
            ==> !facts_for(name).artifact,
        ".gguf"@.is_suffix_of(chars::lowercase(name)) && !"mmproj"@.is_prefix_of(
            chars::lowercase(text::split(name, '/').last()),
        ) ==> facts_for(name).artifact,
        facts_for(name).quant == quant_label(facts_for(name).logical),
{
}

} // verus!
