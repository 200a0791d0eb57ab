# llmctl

A keyboard-driven terminal interface for local inference servers: it finds models,
keeps launch profiles for them, starts servers and watches over downloads. Two
runtimes are known, llama.cpp with GGUF files and FastFlowLM on an NPU.

The rules, the formats and the state behind the interface are a library that is
verified with [Verus](https://github.com/verus-lang/verus). What reads, writes,
sends, draws or computes with floating-point numbers stands around it: it hands the
library plain values and does what the library answers.

## Layout

| Path | What it holds |
|------|---------------|
| `src/domain/` | models, options, how values are validated and shown |
| `src/discovery/` | where models come from: scans, GGUF headers, the online catalog and its cache |
| `src/profiles/` | built-in templates, the profile store, how the layers of a profile resolve |
| `src/runtime/` | the two runtimes: their options, commands and model directories |
| `src/hub/` | the folder of the Hub: listings and resumable downloads |
| `src/app/` | the state behind the interface: panes, dialogs, jobs, what a key does |
| `src/config.rs`, `src/persistence.rs` | settings, directories, replacing records whole |
| `src/text.rs`, `src/chars.rs`, `src/number.rs`, `src/order.rs`, `src/path.rs`, `src/names.rs`, `src/url.rs`, `src/table.rs`, `src/pattern.rs` | texts, numbers, orders, paths and tables |
| `tests/` | tests of the library on concrete values |
| `app/` | the program: files, network, processes, floating point, drawing |

## What is proved

Each function states what it returns for every input, in terms of sequences, maps
and numbers. Properties that span several functions are public proof functions whose
names begin with `law_`; a few of them:

- a first edit of a profile shifts nothing but the edited option;
- pending edits survive a scan, and a failed rename keeps the profile;
- options that are not allowed start nothing;
- the home directory is never scanned;
- with what earlier scans remember, a scan lists each file once;
- no deletion touches the files of a neighbouring artifact;
- stale answers and superseded attempts change nothing;
- a catalog path never leaves its directory;
- no line of a log controls the terminal.

The proofs say nothing of `app/`. What they believe without proof is listed by the
attribute `verifier::external_body` and the items `assume_specification`:

- of the crate `regex`: what a pattern finds and captures in a text;
- of the standard library: `String::push`, `String::pop`, equality of `str`, case
  mapping and classification of characters, and lossy decoding of UTF-8.

Each of them says in its comment what is believed of it.
