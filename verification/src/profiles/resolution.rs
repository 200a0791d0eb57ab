//! What the options of a profile come to: which layer decides, and what an option
//! starts at for a model.

use vstd::prelude::*;
use crate::chars;
use crate::domain::options::{FloatReading, KindView, SpecView};
use crate::number;
use crate::profiles::registry::DEFAULT;
use crate::profiles::templates::overridden;
use crate::profiles::{
    instance_in, instance_value, layered_value, reading_at, resolved_item, resolved_items,
    template_layer, Layers,
};
use crate::runtime::command::option_args;
use crate::runtime::flm::FlmBackend;
use crate::runtime::llama_cpp::{
    capped, context_bound, law_capped_values_fit, LlamaCppBackend,
};
use crate::runtime::RuntimeBackend;

verus! {

/// Whether neither an instance nor a built-in profile sets an option.
pub open spec fn unset<B: RuntimeBackend>(backend: &B, l: Layers, key: Seq<char>) -> bool {
    &&& instance_in(backend, l) is Some ==> !instance_in(backend, l)->0.values.dom().contains(key)
    &&& overridden(backend.template_table(), l.profile, key) is None
}

proof fn lemma_digits_are_trimmed(n: nat)
    ensures
        chars::trimmed(number::decimal(n)) == number::decimal(n),
        number::decimal(n).len() > 0,
        chars::is_digit(number::decimal(n)[0]),
{
    number::lemma_decimal_value(n);
    let s = number::decimal(n);
    assert(chars::is_digit(s[0]));
    assert(chars::is_digit(s[s.len() - 1]));
}

proof fn lemma_number_is_no_word(n: nat, word: Seq<char>)
    requires
        word.len() > 0,
        !chars::is_digit(chars::lower(word[0])),
    ensures
        !chars::same_fold(word, chars::trimmed(number::decimal(n))),
{
    lemma_digits_are_trimmed(n);
    let s = number::decimal(n);
    if chars::same_fold(word, s) {
        assert(chars::ascii_lower(word)[0] == chars::lower(word[0]));
        assert(chars::ascii_lower(s)[0] == chars::lower(s[0]));
        assert(chars::ascii_lower(word)[0] == chars::ascii_lower(s)[0]);
        assert(chars::lower(s[0]) == s[0]);
    }
}

/// A number up to a context stays as it is when the context bounds it.
proof fn lemma_bounded_number(n: nat, context: u64, reading: FloatReading)
    requires
        n <= context,
    ensures
        capped(number::decimal(n), Some(context)) == number::decimal(n),
        match KindView::Int(
            Some(0),
            Some(context_bound(context)),
        ).validated(number::decimal(n), reading) {
            Ok(v) => v == number::decimal(n),
            Err(_) => true,
        },
{
    lemma_digits_are_trimmed(n);
    let s = number::decimal(n);
    if n <= i64::MAX {
        number::law_read_int_undoes_write(n as int);
        assert(number::int_text(n as int) == s);
    } else {
        number::lemma_decimal_value(n);
        assert(chars::is_digit(s[0]));
        assert(number::after_plus(s) == s);
        assert(number::parse_int(s) is None);
    }
}

// --- FastFlowLM --------------------------------------------------------------

/// Where nothing sets it, the context of a FastFlowLM profile is the one that the
/// model is known to have, in decimal.
pub proof fn law_flm_starts_with_the_context_of_the_model(b: FlmBackend, l: Layers, readings: Seq<FloatReading>, context: u64, i: int)
    requires
        l.model.context_length == Some(context),
        unset(&b, l, "ctx-len"@),
        0 <= i < resolved_items(&b, l, readings).len(),
        resolved_items(&b, l, readings)[i].key == "ctx-len"@,
    ensures
        resolved_items(&b, l, readings)[i].value == number::decimal(context as nat),
        resolved_items(&b, l, readings)[i].default == number::decimal(context as nat),
{
    let spec = b.dialect().table()[i];
    let reading = reading_at(readings, i);
    let text = number::decimal(context as nat);
    reveal_strlit("ctx-len");
    reveal_strlit("prefill-chunk-len");
    reveal_strlit("host");
    reveal_strlit("port");
    reveal_strlit("default");
    assert("ctx-len"@.len() == 7 && "prefill-chunk-len"@.len() == 17);
    assert("host"@.len() == 4 && "port"@.len() == 4);
    lemma_number_is_no_word(context as nat, DEFAULT@);
    lemma_bounded_number(context as nat, context, reading);
    assert(layered_value(&b, spec, l) == text);
    assert(resolved_items(&b, l, readings)[i] == resolved_item(&b, spec, l, reading));
}

/// The context is among the options of FastFlowLM, and so are the host and the port.
pub proof fn law_flm_has_a_context_and_an_endpoint(b: FlmBackend, l: Layers, readings: Seq<FloatReading>)
    ensures
        exists|i: int|
            0 <= i < resolved_items(&b, l, readings).len() && (#[trigger] resolved_items(
                &b,
                l,
                readings,
            )[i]).key == "ctx-len"@ && resolved_items(&b, l, readings)[i].cli == "--ctx-len"@,
        exists|i: int|
            0 <= i < resolved_items(&b, l, readings).len() && (#[trigger] resolved_items(
                &b,
                l,
                readings,
            )[i]).key == "host"@ && resolved_items(&b, l, readings)[i].cli == "--host"@,
        exists|i: int|
            0 <= i < resolved_items(&b, l, readings).len() && (#[trigger] resolved_items(
                &b,
                l,
                readings,
            )[i]).key == "port"@ && resolved_items(&b, l, readings)[i].cli == "--port"@,
{
    let items = resolved_items(&b, l, readings);
    assert(items[0].key == "ctx-len"@ && items[0].cli == "--ctx-len"@);
    assert(items[10].key == "host"@ && items[10].cli == "--host"@);
    assert(items[11].key == "port"@ && items[11].cli == "--port"@);
}

/// Where nothing sets it, the prefill of a FastFlowLM profile is the longest that the
/// model supports, in decimal.
pub proof fn law_flm_starts_with_the_prefill_of_the_model(b: FlmBackend, l: Layers, spec: SpecView, longest: u64)
    requires
        spec.key == "prefill-chunk-len"@,
        l.model.flm is Some,
        l.model.flm->0.max_prefill_len == Some(longest),
        unset(&b, l, "prefill-chunk-len"@),
    ensures
        layered_value(&b, spec, l) == number::decimal(longest as nat),
{
    reveal_strlit("ctx-len");
    reveal_strlit("prefill-chunk-len");
    assert("ctx-len"@.len() == 7 && "prefill-chunk-len"@.len() == 17);
    lemma_bounded_number(longest as nat, longest, FloatReading::Within);
}

/// No FastFlowLM profile has a context beyond that of the model, or a prefill beyond
/// the model's longest, whatever sets it.
pub proof fn law_flm_values_fit_the_model(b: FlmBackend, l: Layers, spec: SpecView, limit: u64)
    requires
        (spec.key == "ctx-len"@ && l.model.context_length == Some(limit)) || (spec.key
            == "prefill-chunk-len"@ && l.model.flm is Some && l.model.flm->0.max_prefill_len
            == Some(limit)),
    ensures
        match number::parse_int(layered_value(&b, spec, l)) {
            Some(v) => v <= limit,
            None => true,
        },
{
    reveal_strlit("ctx-len");
    reveal_strlit("prefill-chunk-len");
    assert("ctx-len"@.len() == 7 && "prefill-chunk-len"@.len() == 17);
    let value = match instance_value(&b, instance_in(&b, l), spec.key) {
        Some(v) => v,
        None => template_layer(&b, spec, l),
    };
    law_capped_values_fit(value, limit);
}

// --- llama.cpp ---------------------------------------------------------------

/// Where nothing sets it, the context of a llama.cpp profile is an eighth of the one
/// that the model was trained for: eight times it comes to no more, and eight times
/// the next number to more.
pub proof fn law_llama_starts_with_an_eighth_of_the_context(b: LlamaCppBackend, l: Layers, readings: Seq<FloatReading>, context: u64, i: int)
    requires
        l.model.context_length == Some(context),
        context >= 8,
        unset(&b, l, "ctx-size"@),
        0 <= i < resolved_items(&b, l, readings).len(),
        resolved_items(&b, l, readings)[i].key == "ctx-size"@,
    ensures
        exists|n: nat|
            8 * n <= context < 8 * (n + 1) && resolved_items(&b, l, readings)[i].value
                == #[trigger] number::decimal(n),
{
    let spec = b.dialect().table()[i];
    let reading = reading_at(readings, i);
    let n = (context / 8) as nat;
    let text = number::decimal(n);
    reveal_strlit("ctx-size");
    reveal_strlit("spec-type");
    reveal_strlit("flash-attn");
    reveal_strlit("reasoning");
    reveal_strlit("default");
    reveal_strlit("mmap");
    reveal_strlit("jinja");
    assert("ctx-size"@.len() == 8 && "spec-type"@.len() == 9 && "flash-attn"@.len() == 10
        && "reasoning"@.len() == 9 && "mmap"@.len() == 4 && "jinja"@.len() == 5);
    lemma_number_is_no_word(n, DEFAULT@);
    lemma_bounded_number(n, context, reading);
    assert(layered_value(&b, spec, l) == text);
    assert(resolved_items(&b, l, readings)[i] == resolved_item(&b, spec, l, reading));
    assert(8 * n <= context < 8 * (n + 1));
}

/// Where nothing sets it, a llama.cpp profile drafts with the head that the model
/// brings, else with its block drafter where the server can, else not at all.
pub proof fn law_llama_starts_with_the_drafter_of_the_model(b: LlamaCppBackend, l: Layers, spec: SpecView)
    requires
        spec.key == "spec-type"@,
        unset(&b, l, "spec-type"@),
    ensures
        layered_value(&b, spec, l) == ({
            let m = l.model;
            let head = m.has_mtp || m.mtp_path is Some || (m.remote is Some
                && m.remote->0.mtp_file is Some);
            let blocks = m.dflash_path is Some || (m.remote is Some && m.remote->0.dflash_file is Some);
            if head {
                "draft-mtp"@
            } else if blocks && b.dflash_supported {
                "draft-dflash"@
            } else {
                "none"@
            }
        }),
{
    reveal_strlit("ctx-size");
    reveal_strlit("spec-type");
    reveal_strlit("flash-attn");
    reveal_strlit("reasoning");
    reveal_strlit("mmap");
    reveal_strlit("jinja");
    assert("spec-type"@[0] == 's' && "reasoning"@[0] == 'r');
    assert("ctx-size"@.len() == 8 && "spec-type"@.len() == 9 && "flash-attn"@.len() == 10
        && "mmap"@.len() == 4 && "jinja"@.len() == 5);
}

/// No llama.cpp profile has a context beyond that of the model, whatever sets it.
pub proof fn law_llama_values_fit_the_model(b: LlamaCppBackend, l: Layers, spec: SpecView, limit: u64)
    requires
        spec.key == "ctx-size"@,
        l.model.context_length == Some(limit),
    ensures
        match number::parse_int(layered_value(&b, spec, l)) {
            Some(v) => v <= limit,
            None => true,
        },
{
    reveal_strlit("ctx-size");
    reveal_strlit("flash-attn");
    reveal_strlit("reasoning");
    assert("ctx-size"@.len() == 8 && "flash-attn"@.len() == 10 && "reasoning"@.len() == 9);
    let value = match instance_value(&b, instance_in(&b, l), spec.key) {
        Some(v) => v,
        None => template_layer(&b, spec, l),
    };
    law_capped_values_fit(value, limit);
}

// --- which layer decides -----------------------------------------------------

/// Whether llama.cpp takes the values of an option as they are: neither the model's
/// context bounds them, nor were they once spelled otherwise.
pub open spec fn plain_for_llama(key: Seq<char>) -> bool {
    key != "ctx-size"@ && key != "flash-attn"@ && key != "reasoning"@
}

/// Whether FastFlowLM takes the values of an option as they are.
pub open spec fn plain_for_flm(key: Seq<char>) -> bool {
    key != "ctx-len"@ && key != "prefill-chunk-len"@
}

/// A saved value is what the profile has, also where a built-in profile sets another.
pub proof fn law_saved_values_decide(llama: LlamaCppBackend, flm: FlmBackend, l: Layers, spec: SpecView, value: Seq<char>)
    ensures
        instance_in(&llama, l) is Some && instance_in(&llama, l)->0.values.dom().contains(spec.key)
            && instance_in(&llama, l)->0.values[spec.key] == value && plain_for_llama(spec.key)
            ==> layered_value(&llama, spec, l) == value,
        instance_in(&flm, l) is Some && instance_in(&flm, l)->0.values.dom().contains(spec.key)
            && instance_in(&flm, l)->0.values[spec.key] == value && plain_for_flm(spec.key)
            ==> layered_value(&flm, spec, l) == value,
{
}

/// Where no value is saved, that of the built-in profile is what the profile has.
pub proof fn law_builtin_values_come_next(llama: LlamaCppBackend, flm: FlmBackend, l: Layers, spec: SpecView, value: Seq<char>)
    ensures
        (instance_in(&llama, l) is Some ==> !instance_in(&llama, l)->0.values.dom().contains(
            spec.key,
        )) && overridden(llama.template_table(), l.profile, spec.key) == Some(value)
            && plain_for_llama(spec.key) ==> layered_value(&llama, spec, l) == value,
        (instance_in(&flm, l) is Some ==> !instance_in(&flm, l)->0.values.dom().contains(spec.key))
            && overridden(flm.template_table(), l.profile, spec.key) == Some(value)
            && plain_for_flm(spec.key) ==> layered_value(&flm, spec, l) == value,
{
}

/// A saved context that the model can hold stays as it was saved; one beyond it
/// becomes the model's own.
pub proof fn law_saved_contexts_are_kept_or_cut(llama: LlamaCppBackend, flm: FlmBackend, l: Layers, spec: SpecView, n: nat, context: u64)
    requires
        l.model.context_length == Some(context),
        context <= i64::MAX,
        n <= i64::MAX,
    ensures
        spec.key == "ctx-size"@ && instance_in(&llama, l) is Some && instance_in(
            &llama,
            l,
        )->0.values.dom().contains(spec.key) && instance_in(&llama, l)->0.values[spec.key]
            == number::decimal(n) ==> layered_value(&llama, spec, l) == number::decimal(
            if n <= context {
                n
            } else {
                context as nat
            },
        ),
        spec.key == "ctx-len"@ && instance_in(&flm, l) is Some && instance_in(
            &flm,
            l,
        )->0.values.dom().contains(spec.key) && instance_in(&flm, l)->0.values[spec.key]
            == number::decimal(n) ==> layered_value(&flm, spec, l) == number::decimal(
            if n <= context {
                n
            } else {
                context as nat
            },
        ),
{
    reveal_strlit("ctx-size");
    reveal_strlit("flash-attn");
    reveal_strlit("reasoning");
    reveal_strlit("ctx-len");
    reveal_strlit("prefill-chunk-len");
    assert("ctx-size"@.len() == 8 && "flash-attn"@.len() == 10 && "reasoning"@.len() == 9
        && "ctx-len"@.len() == 7 && "prefill-chunk-len"@.len() == 17);
    number::law_read_int_undoes_write(n as int);
    number::lemma_decimal_value(n);
    assert(number::int_text(n as int) == number::decimal(n));
}

/// Switches that were saved under their old names are read under the new ones.
pub proof fn law_old_switches_are_understood(b: LlamaCppBackend, l: Layers, spec: SpecView)
    requires
        spec.key == "flash-attn"@ || spec.key == "reasoning"@,
        instance_in(&b, l) is Some,
        instance_in(&b, l)->0.values.dom().contains(spec.key),
    ensures
        ({
            let saved = instance_in(&b, l)->0.values[spec.key];
            let shown = layered_value(&b, spec, l);
            &&& saved == "true"@ ==> shown == "on"@
            &&& saved == "false"@ ==> shown == "off"@
            &&& saved == "default"@ ==> shown == "auto"@
            &&& saved == "on"@ || saved == "off"@ || saved == "auto"@ ==> shown == saved
        }),
{
    reveal_strlit("ctx-size");
    reveal_strlit("flash-attn");
    reveal_strlit("reasoning");
    reveal_strlit("true");
    reveal_strlit("false");
    reveal_strlit("default");
    reveal_strlit("on");
    reveal_strlit("off");
    reveal_strlit("auto");
    assert("ctx-size"@.len() == 8 && "flash-attn"@.len() == 10 && "reasoning"@.len() == 9);
    assert("true"@.len() == 4 && "false"@.len() == 5 && "default"@.len() == 7);
    assert("on"@.len() == 2 && "off"@.len() == 3 && "auto"@.len() == 4);
    assert("true"@[0] == 't' && "auto"@[0] == 'a');
}

/// Where nothing sets them, the host and the port are those of the configuration; the
/// port of FastFlowLM is its own.
pub proof fn law_the_endpoint_is_configured(llama: LlamaCppBackend, flm: FlmBackend, l: Layers, spec: SpecView)
    ensures
        spec.key == "host"@ && unset(&llama, l, spec.key) ==> layered_value(&llama, spec, l)
            == l.host,
        spec.key == "port"@ && unset(&llama, l, spec.key) ==> layered_value(&llama, spec, l)
            == number::decimal(l.port as nat),
        spec.key == "host"@ && unset(&flm, l, spec.key) ==> layered_value(&flm, spec, l) == l.host,
        spec.key == "port"@ && unset(&flm, l, spec.key) ==> layered_value(&flm, spec, l)
            == spec.default,
{
    reveal_strlit("host");
    reveal_strlit("port");
    reveal_strlit("flash-attn");
    reveal_strlit("reasoning");
    reveal_strlit("mmap");
    reveal_strlit("jinja");
    reveal_strlit("spec-type");
    reveal_strlit("batch-size");
    reveal_strlit("device");
    reveal_strlit("gpu-layers");
    reveal_strlit("threads");
    reveal_strlit("cache-type-k");
    reveal_strlit("cache-type-v");
    reveal_strlit("spec-draft-n-max");
    reveal_strlit("spec-draft-n-min");
    reveal_strlit("reasoning-effort");
    reveal_strlit("chat-template");
    reveal_strlit("ctx-size");
    reveal_strlit("temperature");
    reveal_strlit("top-p");
    reveal_strlit("top-k");
    reveal_strlit("min-p");
    reveal_strlit("repeat-penalty");
    reveal_strlit("presence-penalty");
    reveal_strlit("split-mode");
    reveal_strlit("tensor-split");
    reveal_strlit("parallel");
    reveal_strlit("load-mode");
    reveal_strlit("sleep-idle-seconds");
    assert("mmap"@[0] == 'm' && "host"@[0] == 'h' && "port"@[0] == 'p');
    assert("host"@.len() == 4 && "port"@.len() == 4);
    assert("flash-attn"@.len() != 4);
    assert("reasoning"@.len() != 4);
    assert("jinja"@.len() != 4);
    assert("spec-type"@.len() != 4);
    assert("batch-size"@.len() != 4);
    assert("device"@.len() != 4);
    assert("gpu-layers"@.len() != 4);
    assert("threads"@.len() != 4);
    assert("cache-type-k"@.len() != 4);
    assert("cache-type-v"@.len() != 4);
    assert("spec-draft-n-max"@.len() != 4);
    assert("spec-draft-n-min"@.len() != 4);
    assert("reasoning-effort"@.len() != 4);
    assert("chat-template"@.len() != 4);
    assert("ctx-size"@.len() != 4);
    assert("temperature"@.len() != 4);
    assert("top-p"@.len() != 4);
    assert("top-k"@.len() != 4);
    assert("min-p"@.len() != 4);
    assert("repeat-penalty"@.len() != 4);
    assert("presence-penalty"@.len() != 4);
    assert("split-mode"@.len() != 4);
    assert("tensor-split"@.len() != 4);
    assert("parallel"@.len() != 4);
    assert("load-mode"@.len() != 4);
    assert("sleep-idle-seconds"@.len() != 4);
    reveal_strlit("ctx-len");
    reveal_strlit("prefill-chunk-len");
    assert("ctx-len"@.len() == 7 && "prefill-chunk-len"@.len() == 17);
}

/// Where nothing sets it, any other option is left to the runtime: it adds nothing to
/// the command line.
pub proof fn law_other_options_are_left_to_the_runtime(llama: LlamaCppBackend, flm: FlmBackend, l: Layers, spec: SpecView, reading: FloatReading)
    requires
        spec.key != "host"@,
        spec.key != "port"@,
    ensures
        llama.dialect().omitted_at(spec.key) is Some && spec.key != "ctx-size"@ && spec.key
            != "spec-type"@ && unset(&llama, l, spec.key) ==> option_args(
            llama.dialect(),
            resolved_item(&llama, spec, l, reading),
        ) == Seq::<Seq<char>>::empty(),
        spec.key != "ctx-len"@ && spec.key != "prefill-chunk-len"@ && unset(&flm, l, spec.key)
            ==> option_args(flm.dialect(), resolved_item(&flm, spec, l, reading)) == Seq::<
            Seq<char>,
        >::empty(),
{
    lemma_words_are_trimmed();
    reveal_strlit("true");
    reveal_strlit("false");
    assert("true"@[0] == 't' && "true"@.len() == 4 && "false"@.len() == 5);
    assert("auto"@[0] == 'a');
}

proof fn lemma_words_are_trimmed()
    ensures
        chars::trimmed("auto"@) == "auto"@,
        chars::trimmed("on"@) == "on"@,
        chars::trimmed("none"@) == "none"@,
        chars::trimmed("default"@) == "default"@,
        "auto"@.len() == 4,
        "on"@.len() == 2,
        "none"@.len() == 4,
        "default"@.len() == 7,
        "auto"@[0] == 'a',
{
    reveal_strlit("auto");
    reveal_strlit("on");
    reveal_strlit("none");
    reveal_strlit("default");
    assert("auto"@[0] == 'a' && "auto"@.last() == 'o');
    assert("on"@[0] == 'o' && "on"@.last() == 'n');
    assert("none"@[0] == 'n' && "none"@.last() == 'e');
    assert("default"@[0] == 'd' && "default"@.last() == 't');
}

} // verus!
