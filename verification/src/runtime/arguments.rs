//! What the arguments of a program say: which files a server is started from, which
//! options reach it, and which of them a chat or a measurement passes on.

use vstd::prelude::*;
use crate::discovery::shards;
use crate::domain::{OptionItemView, RemoteView};
use crate::profiles::registry::{Dialect, DEFAULT};
use crate::runtime::backend::Backend;
use crate::runtime::command::{
    args_of, args_upto, companion_args, draft_args, law_explicit_options_are_given,
    projector_args,
};
use crate::runtime::flm::{self, FlmBackend};
use crate::runtime::llama_cpp::{self, LlamaCppBackend};
use crate::runtime::{ContextView, RuntimeBackend};
use crate::text;
use crate::text::opt;

verus! {

/// Whether a flag stands among the arguments with a value directly behind it.
pub open spec fn given(argv: Seq<Seq<char>>, flag: Seq<char>, value: Seq<char>) -> bool {
    exists|k: int|
        0 <= k && k + 1 < argv.len() && #[trigger] argv[k] == flag && argv[k + 1] == value
}

/// Whether the options choose a way to draft.
pub open spec fn drafts_with(options: Seq<OptionItemView>, way: Seq<char>) -> bool {
    exists|i: int|
        0 <= i < options.len() && (#[trigger] options[i]).key == "spec-type"@ && options[i].value
            == way
}

proof fn lemma_given_at(argv: Seq<Seq<char>>, k: int)
    requires
        0 <= k,
        k + 1 < argv.len(),
    ensures
        given(argv, argv[k], argv[k + 1]),
{
    assert(argv[k] == argv[k]);
}

proof fn lemma_given_in_part(before: Seq<Seq<char>>, part: Seq<Seq<char>>, after: Seq<Seq<char>>, flag: Seq<char>, value: Seq<char>)
    requires
        given(part, flag, value),
    ensures
        given(before + part + after, flag, value),
{
    let k = choose|k: int|
        0 <= k && k + 1 < part.len() && #[trigger] part[k] == flag && part[k + 1] == value;
    let all = before + part + after;
    assert(all[before.len() + k] == flag);
    assert(all[before.len() + k + 1] == value);
}

// --- a server of llama.cpp ---------------------------------------------------

/// The arguments of a llama.cpp launch without its options.
spec fn head(ctx: ContextView) -> Seq<Seq<char>> {
    let m = ctx.model;
    let mtp = llama_cpp::mtp_on(ctx.options);
    let draft = llama_cpp::draft_file(m, ctx.options);
    match llama_cpp::fetched_from(m, mtp) {
        Some(r) => seq![
            ctx.binary,
            "--hf-repo"@,
            r.repo,
            "--hf-file"@,
            llama_cpp::or_empty(r.file),
        ] + drafted(ctx, r) + projected(ctx, r),
        None => seq![ctx.binary, "-m"@, m.path] + companion_args("--spec-draft-model"@, draft)
            + companion_args("--mmproj"@, m.projector_path),
    }
}

spec fn drafted(ctx: ContextView, r: RemoteView) -> Seq<Seq<char>> {
    let mtp = llama_cpp::mtp_on(ctx.options);
    draft_args(
        llama_cpp::draft_file(ctx.model, ctx.options),
        llama_cpp::fetched_head(
            r,
            mtp,
            if mtp {
                ctx.model.mtp_path
            } else {
                None
            },
        ),
    )
}

spec fn projected(ctx: ContextView, r: RemoteView) -> Seq<Seq<char>> {
    projector_args(
        ctx.model.projector_path,
        ctx.model.projector_path is None && r.projector_file is Some,
    )
}

proof fn lemma_head(b: LlamaCppBackend, ctx: ContextView)
    ensures
        b.launch_argv(ctx) == head(ctx) + args_of(Dialect::LlamaCpp, ctx.options),
        head(ctx).len() >= 3,
{
    assert(b.launch_argv(ctx) =~= head(ctx) + args_of(Dialect::LlamaCpp, ctx.options));
}

/// The program to run comes first, whatever is started.
pub proof fn law_the_program_comes_first(b: Backend, ctx: ContextView)
    ensures
        b.launch_argv(ctx)[0] == ctx.binary,
        b.bench_spec(ctx) is Some && b is Flm ==> b.bench_spec(ctx)->0[0] == ctx.binary,
        b.chat_spec(ctx) is Some && b is Flm ==> b.chat_spec(ctx)->0[0] == ctx.binary,
{
}

/// A model that is not on disk is fetched from its repository: the arguments name the
/// repository, and the file in it.
pub proof fn law_missing_models_are_fetched(b: LlamaCppBackend, ctx: ContextView, r: RemoteView, file: Seq<char>)
    requires
        ctx.model.remote == Some(r),
        r.file == Some(file),
        ctx.model.path.len() == 0,
    ensures
        b.launch_argv(ctx).take(5) == seq![ctx.binary, "--hf-repo"@, r.repo, "--hf-file"@, file],
        given(b.launch_argv(ctx), "--hf-repo"@, r.repo),
        given(b.launch_argv(ctx), "--hf-file"@, file),
{
    let argv = b.launch_argv(ctx);
    assert(argv.take(5) =~= seq![ctx.binary, "--hf-repo"@, r.repo, "--hf-file"@, file]);
    lemma_given_at(argv, 1);
    lemma_given_at(argv, 3);
}

/// A stored model whose chosen head is missing on disk is started from its repository
/// too, and so is one whose projector is.
pub proof fn law_missing_companions_are_fetched(b: LlamaCppBackend, ctx: ContextView, r: RemoteView, file: Seq<char>)
    requires
        ctx.model.remote == Some(r),
        r.file == Some(file),
        (drafts_with(ctx.options, "draft-mtp"@) && ctx.model.mtp_path is None && r.mtp_file is Some)
            || (ctx.model.projector_path is None && r.projector_file is Some),
    ensures
        given(b.launch_argv(ctx), "--hf-repo"@, r.repo),
        given(b.launch_argv(ctx), "--hf-file"@, file),
        ctx.model.projector_path is None && r.projector_file is Some ==> b.launch_argv(
            ctx,
        ).contains("--mmproj-auto"@),
{
    let argv = b.launch_argv(ctx);
    lemma_head(b, ctx);
    assert(drafts_with(ctx.options, "draft-mtp"@) == llama_cpp::mtp_on(ctx.options));
    assert(argv[1] == "--hf-repo"@ && argv[2] == r.repo);
    assert(argv[3] == "--hf-file"@ && argv[4] == file);
    lemma_given_at(argv, 1);
    lemma_given_at(argv, 3);
    if ctx.model.projector_path is None && r.projector_file is Some {
        let k = 5 + drafted(ctx, r).len() as int;
        assert(projected(ctx, r)[0] == "--mmproj-auto"@);
        assert(head(ctx)[k] == "--mmproj-auto"@);
        assert(argv[k] == "--mmproj-auto"@);
    }
}

/// A head that is missing on disk is fetched by the label in its file name, or from
/// its repository where it has none and lies in a subdirectory.
pub proof fn law_missing_heads_are_named(b: LlamaCppBackend, ctx: ContextView, r: RemoteView, file: Seq<char>)
    requires
        ctx.model.remote == Some(r),
        r.mtp_file == Some(file),
        drafts_with(ctx.options, "draft-mtp"@),
        ctx.model.mtp_path is None,
    ensures
        match shards::quant_label(file) {
            Some(label) => given(
                b.launch_argv(ctx),
                "--spec-draft-hf"@,
                r.repo + ":"@ + label,
            ),
            None => text::has(file, "/"@) ==> given(
                b.launch_argv(ctx),
                "--spec-draft-hf"@,
                r.repo,
            ),
        },
{
    lemma_head(b, ctx);
    assert(llama_cpp::mtp_on(ctx.options));
    if shards::quant_label(file) is Some || text::has(file, "/"@) {
        let argv = b.launch_argv(ctx);
        let d = drafted(ctx, r);
        assert(d.len() == 2);
        assert(argv[5] == d[0] && argv[6] == d[1]);
        lemma_given_at(argv, 5);
    }
}

/// A stored model is started from its file: nothing that it needs is missing, or it
/// has no repository.
pub proof fn law_stored_models_start_from_disk(b: LlamaCppBackend, ctx: ContextView)
    requires
        match ctx.model.remote {
            Some(r) => ctx.model.path.len() > 0 && (ctx.model.mtp_path is Some || r.mtp_file is None
                || !drafts_with(ctx.options, "draft-mtp"@)) && (ctx.model.projector_path is Some
                || r.projector_file is None),
            None => true,
        },
    ensures
        b.launch_argv(ctx).take(3) == seq![ctx.binary, "-m"@, ctx.model.path],
        given(b.launch_argv(ctx), "-m"@, ctx.model.path),
{
    let argv = b.launch_argv(ctx);
    assert(drafts_with(ctx.options, "draft-mtp"@) == llama_cpp::mtp_on(ctx.options));
    assert(llama_cpp::fetched_from(ctx.model, llama_cpp::mtp_on(ctx.options)) is None);
    assert(argv.take(3) =~= seq![ctx.binary, "-m"@, ctx.model.path]);
    lemma_given_at(argv, 1);
}

/// The chosen draft model is given where it is on disk, and a projector on disk
/// always.
pub proof fn law_stored_companions_are_given(b: LlamaCppBackend, ctx: ContextView)
    ensures
        drafts_with(ctx.options, "draft-mtp"@) && ctx.model.mtp_path is Some ==> given(
            b.launch_argv(ctx),
            "--spec-draft-model"@,
            ctx.model.mtp_path->0,
        ),
        drafts_with(ctx.options, "draft-dflash"@) && !drafts_with(ctx.options, "draft-mtp"@)
            && ctx.model.dflash_path is Some ==> given(
            b.launch_argv(ctx),
            "--spec-draft-model"@,
            ctx.model.dflash_path->0,
        ),
        ctx.model.projector_path is Some ==> given(
            b.launch_argv(ctx),
            "--mmproj"@,
            ctx.model.projector_path->0,
        ),
{
    let argv = b.launch_argv(ctx);
    let m = ctx.model;
    lemma_head(b, ctx);
    assert(drafts_with(ctx.options, "draft-mtp"@) == llama_cpp::mtp_on(ctx.options));
    assert(drafts_with(ctx.options, "draft-dflash"@) == llama_cpp::dflash_on(ctx.options));
    let draft = llama_cpp::draft_file(m, ctx.options);
    let remote = llama_cpp::fetched_from(m, llama_cpp::mtp_on(ctx.options));
    let start: int = if remote is Some {
        5
    } else {
        3
    };
    let d = if remote is Some {
        drafted(ctx, remote->0)
    } else {
        companion_args("--spec-draft-model"@, draft)
    };
    if draft is Some {
        assert(d =~= seq!["--spec-draft-model"@, draft->0]);
        assert(argv[start] == d[0] && argv[start + 1] == d[1]);
        lemma_given_at(argv, start);
    }
    if m.projector_path is Some {
        let k = start + d.len() as int;
        assert(argv[k] == "--mmproj"@);
        assert(argv[k + 1] == m.projector_path->0);
        lemma_given_at(argv, k);
    }
}

/// Without options and companions a launch has no further arguments.
pub proof fn law_a_bare_launch_says_no_more(b: LlamaCppBackend, ctx: ContextView)
    requires
        ctx.options.len() == 0,
        ctx.model.projector_path is None,
        ctx.model.remote is Some ==> ctx.model.remote->0.projector_file is None,
    ensures
        b.launch_argv(ctx).len() == if ctx.model.remote is Some && ctx.model.path.len() == 0 {
            5nat
        } else {
            3nat
        },
{
    lemma_head(b, ctx);
}

// --- options on the command line ---------------------------------------------

proof fn lemma_args_given(dialect: Dialect, options: Seq<OptionItemView>, i: int)
    requires
        0 <= i < options.len(),
        dialect.omitted_at(options[i].key) != Some(options[i].value),
        !dialect.flag(options[i].key),
    ensures
        given(
            args_of(dialect, options),
            options[i].cli,
            dialect.spelled(options[i].key, options[i].value),
        ),
{
    law_explicit_options_are_given(dialect, options, i, options.len());
    let argv = args_upto(dialect, options, options.len());
    let value = dialect.spelled(options[i].key, options[i].value);
    let k = choose|k: int|
        0 <= k && k + 1 < argv.len() && #[trigger] argv[k] == options[i].cli && argv[k + 1]
            == value;
    assert(given(argv, options[i].cli, value));
}

/// Every option of a launch that is not left off stands behind the model with its
/// value, on both runtimes.
pub proof fn law_options_reach_the_server(b: Backend, ctx: ContextView, i: int)
    requires
        0 <= i < ctx.options.len(),
        b.dialect().omitted_at(ctx.options[i].key) != Some(ctx.options[i].value),
        !b.dialect().flag(ctx.options[i].key),
    ensures
        given(
            b.launch_argv(ctx),
            ctx.options[i].cli,
            b.dialect().spelled(ctx.options[i].key, ctx.options[i].value),
        ),
{
    let o = ctx.options[i];
    let none = Seq::<Seq<char>>::empty();
    match b {
        Backend::LlamaCpp(l) => {
            lemma_head(l, ctx);
            lemma_args_given(Dialect::LlamaCpp, ctx.options, i);
            let args = args_of(Dialect::LlamaCpp, ctx.options);
            lemma_given_in_part(
                head(ctx),
                args,
                none,
                o.cli,
                Dialect::LlamaCpp.spelled(o.key, o.value),
            );
            assert(head(ctx) + args + none =~= l.launch_argv(ctx));
        },
        Backend::Flm(f) => {
            lemma_args_given(Dialect::Flm, ctx.options, i);
            let start = seq![ctx.binary, "serve"@, flm::served_tag(ctx.model), "--quiet"@];
            let args = args_of(Dialect::Flm, ctx.options);
            lemma_given_in_part(start, args, none, o.cli, o.value);
            assert(start + args + none =~= f.launch_argv(ctx));
        },
    }
}

/// The host and the port of a launch are never left off: the server listens where the
/// options say.
pub proof fn law_the_endpoint_is_always_given(b: Backend, ctx: ContextView, i: int)
    requires
        0 <= i < ctx.options.len(),
        ctx.options[i].key == "host"@ || ctx.options[i].key == "port"@,
    ensures
        given(b.launch_argv(ctx), ctx.options[i].cli, ctx.options[i].value),
{
    lemma_endpoint_is_plain(b.dialect(), ctx.options[i].key, ctx.options[i].value);
    law_options_reach_the_server(b, ctx, i);
}

proof fn lemma_endpoint_is_plain(dialect: Dialect, key: Seq<char>, value: Seq<char>)
    requires
        key == "host"@ || key == "port"@,
    ensures
        dialect.omitted_at(key) is None,
        !dialect.flag(key),
        dialect.spelled(key, value) == value,
{
    reveal_strlit("host");
    reveal_strlit("port");
    reveal_strlit("flash-attn");
    reveal_strlit("reasoning");
    reveal_strlit("mmap");
    reveal_strlit("jinja");
    reveal_strlit("spec-type");
    reveal_strlit("batch-size");
    reveal_strlit("device");
    reveal_strlit("gpu-layers");
    reveal_strlit("threads");
    reveal_strlit("cache-type-k");
    reveal_strlit("cache-type-v");
    reveal_strlit("spec-draft-n-max");
    reveal_strlit("spec-draft-n-min");
    reveal_strlit("reasoning-effort");
    reveal_strlit("chat-template");
    reveal_strlit("ctx-size");
    reveal_strlit("temperature");
    reveal_strlit("top-p");
    reveal_strlit("top-k");
    reveal_strlit("min-p");
    reveal_strlit("repeat-penalty");
    reveal_strlit("presence-penalty");
    reveal_strlit("split-mode");
    reveal_strlit("tensor-split");
    reveal_strlit("parallel");
    reveal_strlit("load-mode");
    reveal_strlit("sleep-idle-seconds");
    assert("mmap"@[0] == 'm' && key[0] != 'm');
    assert(key.len() == 4);
    assert("flash-attn"@.len() != 4);
    assert("reasoning"@.len() != 4);
    assert("jinja"@.len() != 4);
    assert("spec-type"@.len() != 4);
    assert("batch-size"@.len() != 4);
    assert("device"@.len() != 4);
    assert("gpu-layers"@.len() != 4);
    assert("threads"@.len() != 4);
    assert("cache-type-k"@.len() != 4);
    assert("cache-type-v"@.len() != 4);
    assert("spec-draft-n-max"@.len() != 4);
    assert("spec-draft-n-min"@.len() != 4);
    assert("reasoning-effort"@.len() != 4);
    assert("chat-template"@.len() != 4);
    assert("ctx-size"@.len() != 4);
    assert("temperature"@.len() != 4);
    assert("top-p"@.len() != 4);
    assert("top-k"@.len() != 4);
    assert("min-p"@.len() != 4);
    assert("repeat-penalty"@.len() != 4);
    assert("presence-penalty"@.len() != 4);
    assert("split-mode"@.len() != 4);
    assert("tensor-split"@.len() != 4);
    assert("parallel"@.len() != 4);
    assert("load-mode"@.len() != 4);
    assert("sleep-idle-seconds"@.len() != 4);
}

// --- what a chat and a measurement pass on -----------------------------------

/// Whether an option says where a server listens.
pub open spec fn of_endpoint(o: OptionItemView) -> bool {
    o.key == "host"@ || o.key == "port"@
}

proof fn lemma_without_endpoint(options: Seq<OptionItemView>)
    ensures
        llama_cpp::without_endpoint(options) == options.filter(
            |o: OptionItemView| !of_endpoint(o),
        ),
    decreases options.len(),
{
    reveal(Seq::filter);
    if options.len() > 0 {
        lemma_without_endpoint(options.drop_last());
    }
}

/// A chat with llama.cpp is a launch of the client with the same model and with all
/// options but those of the endpoint, in their order, and ends in the flag for a
/// conversation.
pub proof fn law_a_chat_has_all_but_the_endpoint(b: LlamaCppBackend, ctx: ContextView)
    requires
        b.chat_spec(ctx) is Some,
    ensures
        ({
            let argv = b.chat_spec(ctx)->0;
            let passed = ctx.options.filter(|o: OptionItemView| !of_endpoint(o));
            &&& argv.last() == "-cnv"@
            &&& argv.drop_last() == b.launch_argv(
                ContextView { binary: argv[0], model: ctx.model, options: passed },
            )
            &&& forall|i: int| 0 <= i < passed.len() ==> !of_endpoint(#[trigger] passed[i])
            &&& forall|i: int|
                0 <= i < ctx.options.len() && !of_endpoint(#[trigger] ctx.options[i])
                    ==> passed.contains(ctx.options[i])
        }),
{
    broadcast use vstd::seq_lib::group_filter_ensures;
    lemma_without_endpoint(ctx.options);
    let argv = b.chat_spec(ctx)->0;
    let pred = |o: OptionItemView| !of_endpoint(o);
    let passed = ctx.options.filter(pred);
    let client = llama_cpp::client_of(ctx.binary)->0;
    let sub_ctx = ContextView { binary: client, model: ctx.model, options: passed };
    lemma_head(b, sub_ctx);
    assert(argv =~= b.launch_argv(sub_ctx).push("-cnv"@));
    assert(argv.drop_last() =~= b.launch_argv(sub_ctx));
    assert(argv[0] == client);
    assert forall|i: int| 0 <= i < passed.len() implies !of_endpoint(#[trigger] passed[i]) by {
        assert(passed.contains(passed[i]));
        assert(pred(passed[i]));
    }
    assert forall|i: int|
        0 <= i < ctx.options.len() && !of_endpoint(#[trigger] ctx.options[i]) implies passed.contains(
        ctx.options[i],
    ) by {
        assert(pred(ctx.options[i]));
    }
}

/// An option of the profile reaches a chat with llama.cpp as it reaches a server.
pub proof fn law_options_reach_the_chat(b: LlamaCppBackend, ctx: ContextView, i: int)
    requires
        b.chat_spec(ctx) is Some,
        0 <= i < ctx.options.len(),
        !of_endpoint(ctx.options[i]),
        Dialect::LlamaCpp.omitted_at(ctx.options[i].key) != Some(ctx.options[i].value),
        !Dialect::LlamaCpp.flag(ctx.options[i].key),
    ensures
        given(
            b.chat_spec(ctx)->0,
            ctx.options[i].cli,
            Dialect::LlamaCpp.spelled(ctx.options[i].key, ctx.options[i].value),
        ),
{
    law_a_chat_has_all_but_the_endpoint(b, ctx);
    let argv = b.chat_spec(ctx)->0;
    let passed = ctx.options.filter(|o: OptionItemView| !of_endpoint(o));
    let o = ctx.options[i];
    let sub_ctx = ContextView { binary: argv[0], model: ctx.model, options: passed };
    assert(passed.contains(o));
    let k = choose|k: int| 0 <= k < passed.len() && passed[k] == o;
    law_options_reach_the_server(Backend::LlamaCpp(b), sub_ctx, k);
    let value = Dialect::LlamaCpp.spelled(o.key, o.value);
    let less = argv.drop_last();
    let at = choose|at: int|
        0 <= at && at + 1 < less.len() && #[trigger] less[at] == o.cli && less[at + 1] == value;
    assert(argv[at] == o.cli && argv[at + 1] == value);
}

/// Whether an option is for a server of FastFlowLM alone.
pub open spec fn of_flm_server(o: OptionItemView) -> bool {
    of_endpoint(o) || o.key == "q-len"@ || o.key == "socket"@ || o.key == "cors"@
}

proof fn lemma_client_options(options: Seq<OptionItemView>)
    ensures
        flm::client_options(options, false) == options.filter(
            |o: OptionItemView| !of_flm_server(o),
        ),
        flm::client_options(options, true) == options.filter(
            |o: OptionItemView| o.key == "pmode"@,
        ),
    decreases options.len(),
{
    reveal(Seq::filter);
    if options.len() > 0 {
        lemma_client_options(options.drop_last());
    }
}

/// FastFlowLM serves, runs and measures a model by its tag. A chat takes all options
/// but those of a server, a measurement the power mode alone, each in their order.
pub proof fn law_flm_goes_by_the_tag(b: FlmBackend, ctx: ContextView, tag: Seq<char>)
    requires
        ctx.model.flm is Some,
        ctx.model.flm->0.tag == tag,
    ensures
        b.launch_argv(ctx) == seq![ctx.binary, "serve"@, tag, "--quiet"@] + args_of(
            Dialect::Flm,
            ctx.options,
        ),
        b.chat_spec(ctx) is Some,
        b.chat_spec(ctx)->0 == seq![ctx.binary, "run"@, tag] + args_of(
            Dialect::Flm,
            ctx.options.filter(|o: OptionItemView| !of_flm_server(o)),
        ),
        b.bench_spec(ctx) is Some,
        b.bench_spec(ctx)->0 == seq![ctx.binary, "bench"@, tag] + args_of(
            Dialect::Flm,
            ctx.options.filter(|o: OptionItemView| o.key == "pmode"@),
        ),
{
    lemma_client_options(ctx.options);
}

/// A measurement with llama.cpp runs the tool for it on the model's file, with the
/// first device and the first number of layers that the options set.
pub proof fn law_a_measurement_is_of_the_file(b: LlamaCppBackend, ctx: ContextView, bench: Seq<char>, i: int)
    requires
        opt(b.runtime.bench_path) == Some(bench),
        0 <= i < ctx.options.len(),
        ctx.options[i].value != DEFAULT@,
        forall|j: int|
            0 <= j < i ==> (#[trigger] ctx.options[j]).key != ctx.options[i].key
                || ctx.options[j].value == DEFAULT@,
    ensures
        b.bench_spec(ctx) is Some,
        b.bench_spec(ctx)->0.take(3) == seq![bench, "-m"@, ctx.model.path],
        ctx.options[i].key == "device"@ ==> given(
            b.bench_spec(ctx)->0,
            "--device"@,
            ctx.options[i].value,
        ),
        ctx.options[i].key == "gpu-layers"@ ==> given(
            b.bench_spec(ctx)->0,
            "-ngl"@,
            ctx.options[i].value,
        ),
        b.bench_spec(ctx)->0.len() <= 7,
{
    let argv = b.bench_spec(ctx)->0;
    assert(argv.take(3) =~= seq![bench, "-m"@, ctx.model.path]);
    let o = ctx.options[i];
    lemma_set_value(ctx.options, i);
    reveal_strlit("device");
    reveal_strlit("gpu-layers");
    if o.key == "device"@ {
        assert(argv[3] == "--device"@ && argv[4] == o.value);
        lemma_given_at(argv, 3);
    }
    if o.key == "gpu-layers"@ {
        let k: int = if llama_cpp::set_value(ctx.options, "device"@) is Some {
            5
        } else {
            3
        };
        assert(argv[k] == "-ngl"@ && argv[k + 1] == o.value);
        lemma_given_at(argv, k);
    }
}

proof fn lemma_set_value(options: Seq<OptionItemView>, i: int)
    requires
        0 <= i < options.len(),
        options[i].value != DEFAULT@,
        forall|j: int|
            0 <= j < i ==> (#[trigger] options[j]).key != options[i].key || options[j].value
                == DEFAULT@,
    ensures
        llama_cpp::set_value(options, options[i].key) == Some(options[i].value),
    decreases i,
{
    if i > 0 {
        let rest = options.skip(1);
        assert(options[0].key != options[i].key || options[0].value == DEFAULT@);
        assert(rest[i - 1] == options[i]);
        assert forall|j: int| 0 <= j < i - 1 implies (#[trigger] rest[j]).key != rest[i - 1].key
            || rest[j].value == DEFAULT@ by {
            assert(rest[j] == options[j + 1]);
        }
        lemma_set_value(rest, i - 1);
    }
}

} // verus!
