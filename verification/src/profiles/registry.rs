//! The option schema: a runtime's options together with the way they are spelled
//! on its command line.

use vstd::prelude::*;
use crate::chars;
use crate::domain::options::{
    float_outcome, spec_views, FloatStep, KindView, OptionKind, OptionSpec, SpecView,
};
use crate::runtime::{flm_options, llama_options};
use crate::text;
use crate::text::opt;

verus! {

/// The value of an option, without a variant for it, that means: leave the flag
/// off the command line and rely on the runtime's own default.
pub const DEFAULT: &'static str = "default";

/// The runtimes' ways to spell options.
#[derive(Debug, Clone, Copy, PartialEq, Eq, Structural)]
pub enum Dialect {
    LlamaCpp,
    Flm,
}

impl Dialect {
    /// The value at which an option is left off the command line.
    pub open spec fn omitted_at(self, key: Seq<char>) -> Option<Seq<char>> {
        match self {
            Dialect::LlamaCpp => llama_options::omitted_at(key),
            Dialect::Flm => flm_options::omitted_at(key),
        }
    }

    /// Whether an option is a flag without a value.
    pub open spec fn flag(self, key: Seq<char>) -> bool {
        match self {
            Dialect::LlamaCpp => llama_options::flag(key),
            Dialect::Flm => false,
        }
    }

    /// The value as it stands on the command line.
    pub open spec fn spelled(self, key: Seq<char>, value: Seq<char>) -> Seq<char> {
        match self {
            Dialect::LlamaCpp => llama_options::spelled(key, value),
            Dialect::Flm => value,
        }
    }

    /// The options, in the order of display.
    pub open spec fn table(self) -> Seq<SpecView> {
        match self {
            Dialect::LlamaCpp => llama_options::table(),
            Dialect::Flm => flm_options::table(),
        }
    }
}

/// A runtime's options with their spelling.
#[derive(Debug)]
pub struct OptionSchema {
    pub dialect: Dialect,
    /// Every option, in the order of display.
    pub specs: Vec<OptionSpec>,
}

/// The first option of a key.
pub open spec fn spec_at(specs: Seq<SpecView>, key: Seq<char>) -> Option<SpecView>
    decreases specs.len(),
{
    if specs.len() == 0 {
        None
    } else if specs[0].key == key {
        Some(specs[0])
    } else {
        spec_at(specs.skip(1), key)
    }
}

/// Whether an option's omitted state is the sentinel and no variant of its own.
pub open spec fn sentinel(dialect: Dialect, specs: Seq<SpecView>, key: Seq<char>) -> bool {
    dialect.omitted_at(key) == Some(DEFAULT@) && !(spec_at(specs, key) is Some && spec_at(
        specs,
        key,
    )->0.kind is Enum)
}

/// The omitted value of an option, where a text spells it: surrounding white
/// space and ASCII case aside.
pub open spec fn spelled_omit(dialect: Dialect, key: Seq<char>, value: Seq<char>) -> Option<Seq<char>> {
    match dialect.omitted_at(key) {
        Some(t) => if chars::same_fold(t, chars::trimmed(value)) {
            Some(t)
        } else {
            None
        },
        None => None,
    }
}

/// The value one step from the current one. The sentinel lies just below the
/// numbers: a step up from it enters the option's concrete default.
pub open spec fn bumped(dialect: Dialect, specs: Seq<SpecView>, spec: SpecView, kind: KindView, current: Seq<char>, dir: int, float: Option<Seq<char>>) -> Option<Seq<char>> {
    if sentinel(dialect, specs, spec.key) && current == DEFAULT@ {
        Some(
            if dir > 0 {
                spec.default
            } else {
                DEFAULT@
            },
        )
    } else {
        kind.adjusted(current, dir, spec.step, float)
    }
}

/// The first option of a key, as an index.
pub fn find_spec(specs: &Vec<OptionSpec>, key: &str) -> (r: Option<usize>)
    ensures
        match r {
            Some(i) => i < specs.len() && spec_at(spec_views(specs@), key@) == Some(
                specs@[i as int]@,
            ),
            None => spec_at(spec_views(specs@), key@) is None,
        },
{
    let ghost all = spec_views(specs@);
    let mut i: usize = 0;
    assert(all.skip(0) =~= all);
    while i < specs.len()
        invariant
            i <= specs.len(),
            all == spec_views(specs@),
            spec_at(all, key@) == spec_at(all.skip(i as int), key@),
        decreases specs.len() - i,
    {
        assert(all.skip(i as int)[0] == specs@[i as int]@);
        if text::same(specs[i].key, key) {
            return Some(i);
        }
        assert(all.skip(i as int).skip(1) =~= all.skip(i + 1));
        i += 1;
    }
    None
}

impl OptionSchema {
    /// The schema of a runtime.
    pub fn of(dialect: Dialect) -> (r: OptionSchema)
        ensures
            r.dialect == dialect,
            spec_views(r.specs@) == dialect.table(),
    {
        match dialect {
            Dialect::LlamaCpp => OptionSchema { dialect, specs: llama_options::specs() },
            Dialect::Flm => OptionSchema { dialect, specs: flm_options::specs() },
        }
    }

    /// The option of a key.
    pub fn spec(&self, key: &str) -> (r: Option<&OptionSpec>)
        ensures
            match r {
                Some(s) => spec_at(spec_views(self.specs@), key@) == Some(s@),
                None => spec_at(spec_views(self.specs@), key@) is None,
            },
    {
        match find_spec(&self.specs, key) {
            Some(i) => Some(&self.specs[i]),
            None => None,
        }
    }

    /// The value at which an option is left off the command line.
    pub fn omit_token(&self, key: &str) -> (r: Option<&'static str>)
        ensures
            match r {
                Some(t) => self.dialect.omitted_at(key@) == Some(t@),
                None => self.dialect.omitted_at(key@) is None,
            },
    {
        match self.dialect {
            Dialect::LlamaCpp => llama_options::omit_token(key),
            Dialect::Flm => flm_options::omit_token(key),
        }
    }

    /// The omitted value of an option, where a text spells it.
    pub fn matching_omit_token(&self, key: &str, value: &str) -> (r: Option<&'static str>)
        ensures
            match r {
                Some(t) => spelled_omit(self.dialect, key@, value@) == Some(t@),
                None => spelled_omit(self.dialect, key@, value@) is None,
            },
    {
        match self.omit_token(key) {
            Some(t) => if chars::eq_fold(t, chars::trim(value).as_str()) {
                Some(t)
            } else {
                None
            },
            None => None,
        }
    }

    /// Whether an option is a flag without a value.
    pub fn is_flag(&self, key: &str) -> (r: bool)
        ensures
            r == self.dialect.flag(key@),
    {
        match self.dialect {
            Dialect::LlamaCpp => llama_options::is_flag(key),
            Dialect::Flm => false,
        }
    }

    /// The value as it stands on the command line.
    pub fn cli_value(&self, key: &str, value: &str) -> (r: String)
        ensures
            r@ == self.dialect.spelled(key@, value@),
    {
        match self.dialect {
            Dialect::LlamaCpp => llama_options::cli_value(key, value),
            Dialect::Flm => text::copy(value),
        }
    }

    /// Whether an option's omitted state is the sentinel, which an editor then
    /// accepts as an entry.
    pub fn uses_sentinel(&self, key: &str) -> (r: bool)
        ensures
            r == sentinel(self.dialect, spec_views(self.specs@), key@),
    {
        let omitted = match self.omit_token(key) {
            Some(t) => text::same(t, DEFAULT),
            None => false,
        };
        let variants = match self.spec(key) {
            Some(s) => match s.kind {
                OptionKind::Enum(_) => true,
                _ => false,
            },
            None => false,
        };
        omitted && !variants
    }

    /// The value one step from the current one, in a direction.
    pub fn bump(&self, spec: &OptionSpec, kind: &OptionKind, current: &str, dir: i32, float: &FloatStep) -> (r: Option<String>)
        ensures
            opt(r) == bumped(
                self.dialect,
                spec_views(self.specs@),
                spec@,
                kind@,
                current@,
                dir as int,
                float_outcome(kind@, *float),
            ),
    {
        if self.uses_sentinel(spec.key) && text::same(current, DEFAULT) {
            return Some(
                text::copy(
                    if dir > 0 {
                        spec.default
                    } else {
                        DEFAULT
                    },
                ),
            );
        }
        kind.adjust(current, dir, spec.step, float)
    }
}

/// An option that is left to the runtime takes its concrete default with a step up, and
/// stays left to it with a step down.
pub proof fn law_a_step_enters_the_numbers(dialect: Dialect, specs: Seq<SpecView>, spec: SpecView, kind: KindView, float: Option<Seq<char>>)
    requires
        sentinel(dialect, specs, spec.key),
    ensures
        bumped(dialect, specs, spec, kind, "default"@, 1, float) == Some(spec.default),
        bumped(dialect, specs, spec, kind, "default"@, -1, float) == Some("default"@),
{
}

/// An option is found by its key: the first of that key, and none only where no option
/// has it.
pub proof fn law_options_are_found_by_key(specs: Seq<SpecView>, key: Seq<char>, i: int)
    ensures
        0 <= i < specs.len() && specs[i].key == key && (forall|k: int|
            0 <= k < i ==> (#[trigger] specs[k]).key != key) ==> spec_at(specs, key) == Some(
            specs[i],
        ),
        (forall|k: int| 0 <= k < specs.len() ==> (#[trigger] specs[k]).key != key) ==> spec_at(
            specs,
            key,
        ) is None,
    decreases specs.len(),
{
    if specs.len() > 0 && specs[0].key != key {
        let rest = specs.skip(1);
        assert forall|k: int| 0 <= k < rest.len() implies #[trigger] rest[k] == specs[k + 1] by {}
        law_options_are_found_by_key(rest, key, i - 1);
        if 0 < i < specs.len() {
            assert(rest[i - 1] == specs[i]);
        }
    }
}

/// The value at which an option is left off is taken in any case, with blanks around it,
/// and stands for itself; no other value is.
pub proof fn law_leaving_off_is_spelled_in_any_case(dialect: Dialect, key: Seq<char>, t: Seq<char>, value: Seq<char>)
    requires
        dialect.omitted_at(key) == Some(t),
    ensures
        chars::same_fold(t, chars::trimmed(value)) ==> spelled_omit(dialect, key, value) == Some(t),
        !chars::same_fold(t, chars::trimmed(value)) ==> spelled_omit(dialect, key, value) is None,
{
}

} // verus!
