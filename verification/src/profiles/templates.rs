//! Built-in, read-only profile templates. Each overrides some of its runtime's
//! option defaults.

use vstd::prelude::*;
use crate::domain::options::lits;
use crate::text;
use crate::text::opt;

verus! {

/// A built-in profile: a name, and the option values that it overrides.
#[derive(Debug)]
pub struct Template {
    pub name: &'static str,
    pub overrides: Vec<(&'static str, &'static str)>,
}

pub struct TemplateView {
    pub name: Seq<char>,
    pub overrides: Seq<(Seq<char>, Seq<char>)>,
}

/// The texts of a list of pairs of literals.
pub open spec fn pairs(v: Seq<(&'static str, &'static str)>) -> Seq<(Seq<char>, Seq<char>)> {
    v.map_values(|p: (&'static str, &'static str)| (p.0@, p.1@))
}

impl View for Template {
    type V = TemplateView;

    open spec fn view(&self) -> TemplateView {
        TemplateView { name: self.name@, overrides: pairs(self.overrides@) }
    }
}

/// The views of a list of templates.
pub open spec fn template_views(v: Seq<Template>) -> Seq<TemplateView> {
    v.map_values(|t: Template| t@)
}

/// The value of the first pair with a key.
pub open spec fn value_at(v: Seq<(Seq<char>, Seq<char>)>, key: Seq<char>) -> Option<Seq<char>>
    decreases v.len(),
{
    if v.len() == 0 {
        None
    } else if v[0].0 == key {
        Some(v[0].1)
    } else {
        value_at(v.skip(1), key)
    }
}

/// The first template of a name, from `from` on.
pub open spec fn template_from(v: Seq<TemplateView>, name: Seq<char>, from: int) -> Option<int>
    decreases v.len() - from,
{
    if from < 0 || from >= v.len() {
        None
    } else if v[from].name == name {
        Some(from)
    } else {
        template_from(v, name, from + 1)
    }
}

/// Whether one of the templates has the name.
pub open spec fn builtin(v: Seq<TemplateView>, name: Seq<char>) -> bool {
    template_from(v, name, 0) is Some
}

/// What the template of a name sets a key to, if there is such a template and it
/// sets the key.
pub open spec fn overridden(v: Seq<TemplateView>, name: Seq<char>, key: Seq<char>) -> Option<Seq<char>> {
    match template_from(v, name, 0) {
        Some(i) => value_at(v[i].overrides, key),
        None => None,
    }
}

impl Template {
    /// A template from its overrides.
    pub fn new(name: &'static str, overrides: Vec<(&'static str, &'static str)>) -> (r: Template)
        ensures
            r@ == (TemplateView { name: name@, overrides: pairs(overrides@) }),
    {
        Template { name, overrides }
    }

    /// What the template sets a key to, if it does.
    pub fn override_value(&self, key: &str) -> (r: Option<String>)
        ensures
            opt(r) == value_at(self@.overrides, key@),
    {
        let ghost all = self@.overrides;
        let mut i: usize = 0;
        assert(all.skip(0) =~= all);
        while i < self.overrides.len()
            invariant
                i <= self.overrides.len(),
                all == pairs(self.overrides@),
                value_at(all, key@) == value_at(all.skip(i as int), key@),
            decreases self.overrides.len() - i,
        {
            assert(all.skip(i as int)[0] == all[i as int]);
            if text::same(self.overrides[i].0, key) {
                return Some(text::copy(self.overrides[i].1));
            }
            assert(all.skip(i as int).skip(1) =~= all.skip(i + 1));
            i += 1;
        }
        None
    }
}

/// The names of the templates, in the order of display.
pub open spec fn names_of(v: Seq<TemplateView>) -> Seq<Seq<char>> {
    v.map_values(|t: TemplateView| t.name)
}

/// The names of the templates, in the order of display.
pub fn names(templates: &Vec<Template>) -> (r: Vec<&'static str>)
    ensures
        lits(r@) == names_of(template_views(templates@)),
{
    let mut out: Vec<&'static str> = Vec::new();
    let mut i: usize = 0;
    while i < templates.len()
        invariant
            i <= templates.len(),
            out.len() == i,
            forall|j: int| 0 <= j < i ==> (#[trigger] out@[j])@ == templates@[j].name@,
        decreases templates.len() - i,
    {
        out.push(templates[i].name);
        i += 1;
    }
    assert(lits(out@) =~= names_of(template_views(templates@)));
    out
}

/// The template of a name, as an index.
pub fn find(templates: &Vec<Template>, name: &str) -> (r: Option<usize>)
    ensures
        match r {
            Some(i) => i < templates.len() && template_from(
                template_views(templates@),
                name@,
                0,
            ) == Some(i as int),
            None => template_from(template_views(templates@), name@, 0) is None,
        },
{
    let ghost all = template_views(templates@);
    let mut i: usize = 0;
    while i < templates.len()
        invariant
            i <= templates.len(),
            all == template_views(templates@),
            template_from(all, name@, 0) == template_from(all, name@, i as int),
        decreases templates.len() - i,
    {
        assert(all[i as int] == templates@[i as int]@);
        if text::same(templates[i].name, name) {
            return Some(i);
        }
        i += 1;
    }
    None
}

/// Whether one of the templates has the name.
pub fn is_builtin(templates: &Vec<Template>, name: &str) -> (r: bool)
    ensures
        r == builtin(template_views(templates@), name@),
{
    find(templates, name).is_some()
}

/// What the template of a name sets a key to.
pub fn template_value(templates: &Vec<Template>, name: &str, key: &str) -> (r: Option<String>)
    ensures
        opt(r) == overridden(template_views(templates@), name@, key@),
{
    match find(templates, name) {
        Some(i) => {
            assert(template_views(templates@)[i as int] == templates@[i as int]@);
            templates[i].override_value(key)
        },
        None => None,
    }
}

proof fn lemma_template_from(v: Seq<TemplateView>, from: int, i: int)
    requires
        0 <= from <= i < v.len(),
        forall|k: int| 0 <= k < i ==> (#[trigger] v[k]).name != v[i].name,
    ensures
        template_from(v, v[i].name, from) == Some(i),
    decreases i - from,
{
    if from < i {
        lemma_template_from(v, from + 1, i);
    }
}

proof fn lemma_value_at(v: Seq<(Seq<char>, Seq<char>)>, i: int)
    requires
        0 <= i < v.len(),
        forall|k: int| 0 <= k < i ==> (#[trigger] v[k]).0 != v[i].0,
    ensures
        value_at(v, v[i].0) == Some(v[i].1),
    decreases v.len(),
{
    if i > 0 {
        let rest = v.skip(1);
        assert(rest[i - 1] == v[i]);
        assert forall|k: int| 0 <= k < i - 1 implies (#[trigger] rest[k]).0 != v[i].0 by {
            assert(rest[k] == v[k + 1]);
        }
        assert(v[0].0 != v[i].0);
        lemma_value_at(rest, i - 1);
    }
}

proof fn lemma_no_value(v: Seq<(Seq<char>, Seq<char>)>, key: Seq<char>)
    requires
        forall|k: int| 0 <= k < v.len() ==> (#[trigger] v[k]).0 != key,
    ensures
        value_at(v, key) is None,
    decreases v.len(),
{
    if v.len() > 0 {
        let rest = v.skip(1);
        assert forall|k: int| 0 <= k < rest.len() implies (#[trigger] rest[k]).0 != key by {
            assert(rest[k] == v[k + 1]);
        }
        assert(v[0].0 != key);
        lemma_no_value(rest, key);
    }
}

proof fn lemma_no_template(v: Seq<TemplateView>, name: Seq<char>, from: int)
    requires
        0 <= from <= v.len(),
        forall|k: int| from <= k < v.len() ==> (#[trigger] v[k]).name != name,
    ensures
        template_from(v, name, from) is None,
    decreases v.len() - from,
{
    if from < v.len() {
        lemma_no_template(v, name, from + 1);
    }
}

/// A built-in profile sets what its template names, to the value that stands there, and
/// leaves every other option alone.
pub proof fn law_templates_set_what_they_name(v: Seq<TemplateView>, i: int, j: int, key: Seq<char>)
    requires
        0 <= i < v.len(),
        forall|k: int| 0 <= k < i ==> (#[trigger] v[k]).name != v[i].name,
    ensures
        builtin(v, v[i].name),
        0 <= j < v[i].overrides.len() && (forall|k: int|
            0 <= k < j ==> (#[trigger] v[i].overrides[k]).0 != v[i].overrides[j].0) ==> overridden(
            v,
            v[i].name,
            v[i].overrides[j].0,
        ) == Some(v[i].overrides[j].1),
        (forall|k: int|
            0 <= k < v[i].overrides.len() ==> (#[trigger] v[i].overrides[k]).0 != key)
            ==> overridden(v, v[i].name, key) is None,
{
    lemma_template_from(v, 0, i);
    let o = v[i].overrides;
    if 0 <= j < o.len() && (forall|k: int| 0 <= k < j ==> (#[trigger] o[k]).0 != o[j].0) {
        lemma_value_at(o, j);
    }
    if forall|k: int| 0 <= k < o.len() ==> (#[trigger] o[k]).0 != key {
        lemma_no_value(o, key);
    }
}

/// A name that no template has is no built-in profile, and sets nothing.
pub proof fn law_other_names_are_not_built_in(v: Seq<TemplateView>, name: Seq<char>, key: Seq<char>)
    requires
        forall|k: int| 0 <= k < v.len() ==> (#[trigger] v[k]).name != name,
    ensures
        !builtin(v, name),
        overridden(v, name, key) is None,
{
    lemma_no_template(v, name, 0);
}

} // verus!
