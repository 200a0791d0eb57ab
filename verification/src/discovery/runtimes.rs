//! Finding runtimes: where their binaries may be, and what they print of
//! themselves.

use vstd::prelude::*;
use crate::chars;
use crate::discovery::gguf;
use crate::domain::{Runtime, RuntimeView};
use crate::path;
use crate::text;
use crate::text::{opt, strs};

verus! {

/// Whether a configured binary is a path and not a name to search for.
pub open spec fn is_path(binary: Seq<char>) -> bool {
    path::absolute(binary) || text::has(binary, "/"@)
}

/// The directories of a search path, each with the binary's name in it.
pub open spec fn on_search_path(binary: Seq<char>, search: Seq<char>) -> Seq<Seq<char>> {
    text::split(search, ':').map_values(|dir: Seq<char>| path::joined(dir, binary))
}

/// The places where a binary may be, in the order of preference: the path that
/// was configured, else each directory of the search path.
pub open spec fn binary_places(binary: Seq<char>, search: Option<Seq<char>>) -> Seq<Seq<char>> {
    if is_path(binary) {
        seq![binary]
    } else {
        match search {
            Some(s) => on_search_path(binary, s),
            None => Seq::<Seq<char>>::empty(),
        }
    }
}

/// The places where a binary may be.
pub fn binary_candidates(binary: &str, search: &Option<String>) -> (r: Vec<String>)
    ensures
        strs(r@) == binary_places(binary@, opt(*search)),
{
    let mut out: Vec<String> = Vec::new();
    if path::is_absolute(binary) || text::contains(binary, "/") {
        out.push(text::copy(binary));
        assert(strs(out@) =~= seq![binary@]);
        return out;
    }
    match search {
        None => {
            assert(strs(out@) =~= Seq::<Seq<char>>::empty());
        },
        Some(s) => {
            let dirs = text::split_char(s.as_str(), ':');
            let ghost all = text::split(s@, ':');
            let mut i: usize = 0;
            while i < dirs.len()
                invariant
                    i <= dirs.len(),
                    all == strs(dirs@),
                    out.len() == i,
                    forall|j: int|
                        0 <= j < i ==> (#[trigger] out@[j])@ == path::joined(all[j], binary@),
                decreases dirs.len() - i,
            {
                assert(all[i as int] == dirs@[i as int]@);
                out.push(path::join(dirs[i].as_str(), binary));
                i += 1;
            }
            assert(strs(out@) =~= on_search_path(binary@, s@));
        },
    }
    out
}

/// The first line that is not blank, without surrounding white space.
pub open spec fn first_line(lines: Seq<Seq<char>>) -> Option<Seq<char>>
    decreases lines.len(),
{
    if lines.len() == 0 {
        None
    } else if chars::trimmed(lines[0]).len() > 0 {
        Some(chars::trimmed(lines[0]))
    } else {
        first_line(lines.skip(1))
    }
}

/// The first line of a text that is not blank.
pub fn first_text_line(s: &str) -> (r: Option<String>)
    ensures
        opt(r) == first_line(chars::lines(s@)),
{
    let lines = chars::split_lines(s);
    let ghost all = strs(lines@);
    let mut i: usize = 0;
    assert(all.skip(0) =~= all);
    while i < lines.len()
        invariant
            i <= lines.len(),
            all == strs(lines@),
            all == chars::lines(s@),
            first_line(all) == first_line(all.skip(i as int)),
        decreases lines.len() - i,
    {
        assert(all.skip(i as int)[0] == lines@[i as int]@);
        let line = chars::trim(lines[i].as_str());
        if !line.as_str().is_empty() {
            return Some(line);
        }
        assert(all.skip(i as int).skip(1) =~= all.skip(i + 1));
        i += 1;
    }
    None
}

/// The version in what a binary printed: the first line of its error stream
/// where that has anything, else of its output.
pub fn version_line(stdout: &[u8], stderr: &[u8]) -> (r: Option<String>)
    ensures
        opt(r) == first_line(
            chars::lines(
                gguf::lossy(
                    if stderr@.len() == 0 {
                        stdout@
                    } else {
                        stderr@
                    },
                ),
            ),
        ),
{
    let bytes = if stderr.len() == 0 {
        stdout
    } else {
        stderr
    };
    first_text_line(gguf::lossy_text(bytes).as_str())
}

/// A runtime with its formats and nothing measured.
pub open spec fn plain_runtime(name: Seq<char>, description: Seq<char>, version: Option<Seq<char>>, binary: Option<Seq<char>>, formats: Seq<Seq<char>>) -> RuntimeView {
    RuntimeView {
        name,
        description,
        version,
        binary_path: binary,
        bench_path: None,
        formats,
        devices: Seq::<Seq<char>>::empty(),
    }
}

/// llama.cpp as it was found.
pub fn discover_llama_cpp(binary_path: Option<String>, version: Option<String>) -> (r: Runtime)
    ensures
        r@ == plain_runtime(
            "llama.cpp"@,
            "GGUF inference via llama-server"@,
            opt(version),
            opt(binary_path),
            seq!["GGUF"@],
        ),
{
    let mut formats: Vec<String> = Vec::new();
    formats.push(text::copy("GGUF"));
    let runtime = Runtime {
        name: text::copy("llama.cpp"),
        description: text::copy("GGUF inference via llama-server"),
        version,
        binary_path,
        bench_path: None,
        formats,
        devices: Vec::new(),
    };
    assert(runtime@.formats =~= seq!["GGUF"@]);
    assert(runtime@.devices =~= Seq::<Seq<char>>::empty());
    runtime
}

/// vLLM as it was found. Its version is not asked for: that can take seconds.
pub fn discover_vllm(binary_path: Option<String>) -> (r: Runtime)
    ensures
        r@ == plain_runtime(
            "vLLM"@,
            "High-throughput serving for Hugging Face models"@,
            None,
            opt(binary_path),
            seq!["Safetensors"@, "Hugging Face"@],
        ),
{
    let mut formats: Vec<String> = Vec::new();
    formats.push(text::copy("Safetensors"));
    formats.push(text::copy("Hugging Face"));
    let runtime = Runtime {
        name: text::copy("vLLM"),
        description: text::copy("High-throughput serving for Hugging Face models"),
        version: None,
        binary_path,
        bench_path: None,
        formats,
        devices: Vec::new(),
    };
    assert(runtime@.formats =~= seq!["Safetensors"@, "Hugging Face"@]);
    assert(runtime@.devices =~= Seq::<Seq<char>>::empty());
    runtime
}

/// The first line that says anything is the version, without the white space around
/// it; blank lines before it are passed over.
pub proof fn law_blank_lines_are_passed_over(lines: Seq<Seq<char>>, i: int)
    requires
        0 <= i < lines.len(),
        chars::trimmed(lines[i]).len() > 0,
        forall|j: int| 0 <= j < i ==> chars::trimmed(#[trigger] lines[j]).len() == 0,
    ensures
        first_line(lines) == Some(chars::trimmed(lines[i])),
    decreases i,
{
    if i > 0 {
        let rest = lines.skip(1);
        assert(chars::trimmed(lines[0]).len() == 0);
        assert(rest[i - 1] == lines[i]);
        assert forall|j: int| 0 <= j < i - 1 implies chars::trimmed(#[trigger] rest[j]).len() == 0 by {
            assert(rest[j] == lines[j + 1]);
        }
        law_blank_lines_are_passed_over(rest, i - 1);
    }
}

/// A binary that is given by its path is looked for there and nowhere else; one that is
/// given by its name is looked for under it in each directory of the search path.
pub proof fn law_binaries_are_looked_for(binary: Seq<char>, search: Seq<char>, k: int)
    requires
        0 <= k < text::split(search, ':').len(),
    ensures
        text::has(binary, "/"@) ==> binary_places(binary, Some(search)) == seq![binary],
        !text::has(binary, "/"@) && !path::absolute(binary) ==> binary_places(
            binary,
            Some(search),
        ).len() == text::split(search, ':').len() && binary_places(binary, Some(search))[k]
            == path::joined(text::split(search, ':')[k], binary),
{
}

} // verus!
