//! Dialogs that edit: the text prompt, the list of values, and what their
//! results become.

use vstd::prelude::*;
use crate::app::keys::Key;
use crate::app::panes::Pane;
use crate::chars;
use crate::domain::options::{
    exact_variant, float_outcome, lits, FloatReading, FloatStep, KindView, OptionKind, OptionSpec,
    SpecView,
};
use crate::domain::{Model, OptionItem, OptionItemView, Profile, ProfileView};
use crate::domain::profile_views;
use crate::profiles::registry::{bumped, sentinel, spec_at, DEFAULT};
use crate::runtime::deletion::Deletion;
use crate::runtime::RuntimeBackend;
use crate::text;
use crate::text::{opt, strs};

verus! {

// --- messages and confirmations ----------------------------------------------

/// A message, which any key dismisses.
#[derive(Debug)]
pub struct Message {
    pub title: String,
    pub lines: Vec<String>,
}

/// A message as mathematics sees it.
pub struct MessageView {
    pub title: Seq<char>,
    pub lines: Seq<Seq<char>>,
}

impl View for Message {
    type V = MessageView;

    open spec fn view(&self) -> MessageView {
        MessageView { title: self.title@, lines: strs(self.lines@) }
    }
}

impl Message {
    /// A message of one line.
    pub fn line(title: &str, line: &str) -> (r: Message)
        ensures
            r@ == (MessageView { title: title@, lines: seq![line@] }),
    {
        let mut lines: Vec<String> = Vec::new();
        lines.push(text::copy(line));
        assert(strs(lines@) =~= seq![line@]);
        Message { title: text::copy(title), lines }
    }

    /// A message of two lines.
    pub fn two_lines(title: &str, first: &str, second: &str) -> (r: Message)
        ensures
            r@ == (MessageView { title: title@, lines: seq![first@, second@] }),
    {
        let mut lines: Vec<String> = Vec::new();
        lines.push(text::copy(first));
        lines.push(text::copy(second));
        assert(strs(lines@) =~= seq![first@, second@]);
        Message { title: text::copy(title), lines }
    }
}

/// A deletion that waits for consent.
#[derive(Debug)]
pub struct Confirm {
    pub title: String,
    pub lines: Vec<String>,
    pub deletion: Deletion,
}

// --- the text prompt ---------------------------------------------------------

/// What a prompt asks for.
#[derive(Debug)]
pub enum PromptKind {
    EditOption { key: String },
    NewProfile,
    RenameProfile { old: String },
    DuplicateProfile { src: String },
}

pub enum PromptKindView {
    EditOption(Seq<char>),
    NewProfile,
    RenameProfile(Seq<char>),
    DuplicateProfile(Seq<char>),
}

impl View for PromptKind {
    type V = PromptKindView;

    open spec fn view(&self) -> PromptKindView {
        match self {
            PromptKind::EditOption { key } => PromptKindView::EditOption(key@),
            PromptKind::NewProfile => PromptKindView::NewProfile,
            PromptKind::RenameProfile { old } => PromptKindView::RenameProfile(old@),
            PromptKind::DuplicateProfile { src } => PromptKindView::DuplicateProfile(src@),
        }
    }
}

impl Clone for PromptKind {
    fn clone(&self) -> (r: Self)
        ensures
            r@ == self@,
    {
        match self {
            PromptKind::EditOption { key } => PromptKind::EditOption { key: key.clone() },
            PromptKind::NewProfile => PromptKind::NewProfile,
            PromptKind::RenameProfile { old } => PromptKind::RenameProfile { old: old.clone() },
            PromptKind::DuplicateProfile { src } => PromptKind::DuplicateProfile {
                src: src.clone(),
            },
        }
    }
}

/// A line of text that is being entered.
#[derive(Debug)]
pub struct Prompt {
    pub kind: PromptKind,
    pub title: String,
    pub buffer: String,
    pub error: Option<String>,
}

pub struct PromptView {
    pub kind: PromptKindView,
    pub title: Seq<char>,
    pub buffer: Seq<char>,
    pub error: Option<Seq<char>>,
}

impl View for Prompt {
    type V = PromptView;

    open spec fn view(&self) -> PromptView {
        PromptView {
            kind: self.kind@,
            title: self.title@,
            buffer: self.buffer@,
            error: opt(self.error),
        }
    }
}

/// What a prompt does on a key.
#[derive(Debug, Clone, Copy, PartialEq, Eq, Structural)]
pub enum PromptAction {
    Close,
    Commit,
    Nothing,
}

/// A text after a key that edits its end.
pub open spec fn typed(s: Seq<char>, key: Key) -> Seq<char> {
    match key {
        Key::Char(c) => s.push(c),
        Key::Backspace => if s.len() > 0 {
            s.drop_last()
        } else {
            s
        },
        _ => s,
    }
}

/// Whether a key edits the end of a text.
pub open spec fn types(key: Key) -> bool {
    key is Char || key is Backspace
}

impl PromptView {
    /// The prompt after a key: an edit takes the last complaint away.
    pub open spec fn after(self, key: Key) -> PromptView {
        PromptView {
            buffer: typed(self.buffer, key),
            error: if types(key) {
                None
            } else {
                self.error
            },
            ..self
        }
    }

    /// The prompt with a complaint.
    pub open spec fn refused(self, error: Seq<char>) -> PromptView {
        PromptView { error: Some(error), ..self }
    }
}

impl Prompt {
    /// Takes a key.
    pub fn key(&mut self, key: Key) -> (r: PromptAction)
        ensures
            final(self)@ == old(self)@.after(key),
            r == (match key {
                Key::Esc => PromptAction::Close,
                Key::Enter => PromptAction::Commit,
                _ => PromptAction::Nothing,
            }),
    {
        match key {
            Key::Esc => PromptAction::Close,
            Key::Enter => PromptAction::Commit,
            Key::Backspace => {
                let _last = self.buffer.pop();
                self.error = None;
                PromptAction::Nothing
            },
            Key::Char(c) => {
                self.buffer.push(c);
                self.error = None;
                PromptAction::Nothing
            },
            _ => PromptAction::Nothing,
        }
    }

    /// What was entered.
    pub fn input(&self) -> (r: String)
        ensures
            r@ == chars::trimmed(self@.buffer),
    {
        chars::trim(self.buffer.as_str())
    }

    /// Says why what was entered is not accepted.
    pub fn refuse(&mut self, error: String)
        ensures
            final(self)@ == old(self)@.refused(error@),
    {
        self.error = Some(error);
    }
}

// --- the list of values ------------------------------------------------------

/// A list of values to choose from, narrowed by what is typed.
#[derive(Debug)]
pub struct Selector {
    /// The option that the value is for.
    pub key: String,
    pub title: String,
    pub variants: Vec<String>,
    pub filter: String,
    /// The selected one of the values that remain.
    pub cursor: usize,
}

pub struct SelectorView {
    pub key: Seq<char>,
    pub title: Seq<char>,
    pub variants: Seq<Seq<char>>,
    pub filter: Seq<char>,
    pub cursor: int,
}

impl View for Selector {
    type V = SelectorView;

    open spec fn view(&self) -> SelectorView {
        SelectorView {
            key: self.key@,
            title: self.title@,
            variants: strs(self.variants@),
            filter: self.filter@,
            cursor: self.cursor as int,
        }
    }
}

/// The first `n` values that contain a text, where `lowered` and `needle` are in
/// lower case already.
pub open spec fn narrowed(variants: Seq<Seq<char>>, lowered: Seq<Seq<char>>, needle: Seq<char>, n: nat) -> Seq<Seq<char>>
    decreases n,
{
    if n == 0 {
        Seq::<Seq<char>>::empty()
    } else {
        let rest = narrowed(variants, lowered, needle, (n - 1) as nat);
        if text::has(lowered[n - 1], needle) {
            rest.push(variants[n - 1])
        } else {
            rest
        }
    }
}

/// The lower case of each text.
pub open spec fn lowered(v: Seq<Seq<char>>) -> Seq<Seq<char>> {
    v.map_values(|s: Seq<char>| chars::lowercase(s))
}

/// The characters of each text of a list.
pub open spec fn refs(v: Seq<&str>) -> Seq<Seq<char>> {
    v.map_values(|s: &str| s@)
}

/// The values that contain a text, where `lowered` and `needle` are in lower case
/// already.
pub fn narrow<'a>(variants: &'a Vec<String>, lowered: &Vec<String>, needle: &str) -> (r: Vec<&'a str>)
    requires
        lowered@.len() == variants@.len(),
    ensures
        refs(r@) == narrowed(strs(variants@), strs(lowered@), needle@, variants@.len()),
        r@.len() <= variants@.len(),
{
    let ghost all = strs(variants@);
    let ghost low = strs(lowered@);
    let mut out: Vec<&'a str> = Vec::new();
    let mut i: usize = 0;
    assert(refs(out@) =~= narrowed(all, low, needle@, 0));
    while i < variants.len()
        invariant
            i <= variants.len(),
            lowered@.len() == variants@.len(),
            all == strs(variants@),
            low == strs(lowered@),
            refs(out@) == narrowed(all, low, needle@, i as nat),
            out@.len() <= i,
        decreases variants.len() - i,
    {
        assert(all[i as int] == variants@[i as int]@);
        assert(low[i as int] == lowered@[i as int]@);
        if text::contains(lowered[i].as_str(), needle) {
            let ghost before = refs(out@);
            out.push(variants[i].as_str());
            assert(refs(out@) =~= before.push(all[i as int]));
        }
        i += 1;
    }
    out
}

/// What a list of values does on a key.
#[derive(Debug, Clone, Copy, PartialEq, Eq, Structural)]
pub enum SelectorAction {
    Close,
    Pick,
    Nothing,
}

/// The last position of a list.
pub open spec fn last_of(len: int) -> int {
    if len == 0 {
        0
    } else {
        len - 1
    }
}

impl SelectorView {
    /// The values that remain.
    pub open spec fn remaining(self) -> Seq<Seq<char>> {
        narrowed(
            self.variants,
            lowered(self.variants),
            chars::lowercase(self.filter),
            self.variants.len(),
        )
    }

    /// The selected value.
    pub open spec fn chosen(self) -> Option<Seq<char>> {
        if 0 <= self.cursor < self.remaining().len() {
            Some(self.remaining()[self.cursor])
        } else {
            None
        }
    }

    /// The list after a key: typing narrows it and goes back to the top.
    pub open spec fn after(self, key: Key) -> SelectorView {
        let last = last_of(self.remaining().len() as int);
        match key {
            Key::Up => SelectorView {
                cursor: if self.cursor > 0 {
                    self.cursor - 1
                } else {
                    0
                },
                ..self
            },
            Key::Down => SelectorView {
                cursor: if self.cursor + 1 < last {
                    self.cursor + 1
                } else {
                    last
                },
                ..self
            },
            Key::Home => SelectorView { cursor: 0, ..self },
            Key::End => SelectorView { cursor: last, ..self },
            Key::Backspace => SelectorView { filter: typed(self.filter, key), cursor: 0, ..self },
            Key::Char(_) => SelectorView { filter: typed(self.filter, key), cursor: 0, ..self },
            _ => self,
        }
    }
}

fn lower_all(v: &Vec<String>) -> (r: Vec<String>)
    ensures
        strs(r@) == lowered(strs(v@)),
        r@.len() == v@.len(),
{
    let ghost all = strs(v@);
    let mut out: Vec<String> = Vec::new();
    let mut i: usize = 0;
    while i < v.len()
        invariant
            i <= v.len(),
            all == strs(v@),
            out.len() == i,
            forall|j: int| 0 <= j < i ==> (#[trigger] out@[j])@ == chars::lowercase(all[j]),
        decreases v.len() - i,
    {
        assert(all[i as int] == v@[i as int]@);
        out.push(chars::to_lowercase(v[i].as_str()));
        i += 1;
    }
    assert(strs(out@) =~= lowered(all));
    out
}

impl Selector {
    /// The values that contain what was typed, whatever the case.
    pub fn filtered(&self) -> (r: Vec<&str>)
        ensures
            refs(r@) == self@.remaining(),
            r@.len() == self@.remaining().len(),
    {
        let low = lower_all(&self.variants);
        let needle = chars::to_lowercase(self.filter.as_str());
        let out = narrow(&self.variants, &low, needle.as_str());
        assert(strs(self.variants@).len() == self.variants@.len());
        assert(refs(out@).len() == out@.len());
        out
    }

    /// The selected value.
    pub fn selected(&self) -> (r: Option<&str>)
        ensures
            match r {
                Some(s) => self@.chosen() == Some(s@),
                None => self@.chosen() is None,
            },
    {
        let left = self.filtered();
        if self.cursor < left.len() {
            assert(refs(left@)[self.cursor as int] == left@[self.cursor as int]@);
            Some(left[self.cursor])
        } else {
            None
        }
    }

    /// Takes a key.
    pub fn key(&mut self, key: Key) -> (r: SelectorAction)
        ensures
            final(self)@ == old(self)@.after(key),
            r == (match key {
                Key::Esc => SelectorAction::Close,
                Key::Enter => SelectorAction::Pick,
                _ => SelectorAction::Nothing,
            }),
    {
        match key {
            Key::Esc => {
                return SelectorAction::Close;
            },
            Key::Enter => {
                return SelectorAction::Pick;
            },
            Key::Up => {
                if self.cursor > 0 {
                    self.cursor = self.cursor - 1;
                }
            },
            Key::Down => {
                let count = self.filtered().len();
                let last: usize = if count == 0 {
                    0
                } else {
                    count - 1
                };
                self.cursor = if self.cursor < last {
                    self.cursor + 1
                } else {
                    last
                };
            },
            Key::Home => {
                self.cursor = 0;
            },
            Key::End => {
                let count = self.filtered().len();
                self.cursor = if count == 0 {
                    0
                } else {
                    count - 1
                };
            },
            Key::Backspace => {
                let _last = self.filter.pop();
                self.cursor = 0;
            },
            Key::Char(c) => {
                self.filter.push(c);
                self.cursor = 0;
            },
            _ => {},
        }
        SelectorAction::Nothing
    }
}

// --- devices -----------------------------------------------------------------

/// The choices of a device: automatic, then the ones that were found.
pub open spec fn device_ring(devices: Seq<Seq<char>>) -> Seq<Seq<char>> {
    seq![DEFAULT@] + devices
}

/// The place of a value, or the first where it is not there.
pub open spec fn place_of(variants: Seq<Seq<char>>, current: Seq<char>) -> int {
    match exact_variant(variants, current, 0) {
        Some(i) => i,
        None => 0,
    }
}

/// The device beside the current one; the ends meet.
pub open spec fn next_device(devices: Seq<Seq<char>>, current: Seq<char>, dir: int) -> Seq<char> {
    let ring = device_ring(devices);
    let to = place_of(ring, current) + (if dir > 0 {
        1
    } else if dir < 0 {
        -1int
    } else {
        0
    });
    ring[if to < 0 {
        ring.len() - 1
    } else if to == ring.len() {
        0
    } else {
        to
    }]
}

fn list_devices(devices: &Vec<String>) -> (r: Vec<String>)
    ensures
        strs(r@) == device_ring(strs(devices@)),
        r@.len() > 0,
{
    let ghost all = strs(devices@);
    let mut out: Vec<String> = Vec::new();
    out.push(text::copy(DEFAULT));
    let mut i: usize = 0;
    assert(strs(out@) =~= seq![DEFAULT@] + all.take(0));
    while i < devices.len()
        invariant
            i <= devices.len(),
            all == strs(devices@),
            strs(out@) == seq![DEFAULT@] + all.take(i as int),
            out@.len() > 0,
        decreases devices.len() - i,
    {
        let ghost before = strs(out@);
        assert(all[i as int] == devices@[i as int]@);
        out.push(devices[i].clone());
        assert(strs(out@) =~= before.push(all[i as int]));
        assert(strs(out@) =~= seq![DEFAULT@] + all.take(i + 1));
        i += 1;
    }
    assert(all.take(i as int) =~= all);
    out
}

fn find_place(variants: &Vec<String>, current: &str) -> (r: usize)
    requires
        variants@.len() > 0,
    ensures
        r == place_of(strs(variants@), current@),
        r < variants@.len(),
{
    let ghost all = strs(variants@);
    let mut i: usize = 0;
    while i < variants.len()
        invariant
            i <= variants.len(),
            all == strs(variants@),
            exact_variant(all, current@, 0) == exact_variant(all, current@, i as int),
        decreases variants.len() - i,
    {
        assert(all[i as int] == variants@[i as int]@);
        if text::same(variants[i].as_str(), current) {
            return i;
        }
        i += 1;
    }
    0
}

/// The device beside the current one, in a direction. The automatic choice stands
/// before the first device, and the ends meet.
pub fn cycle_device(devices: &Vec<String>, current: &str, dir: i32) -> (r: String)
    ensures
        r@ == next_device(strs(devices@), current@, dir as int),
{
    let ring = list_devices(devices);
    let at = find_place(&ring, current);
    let n = ring.len();
    assert(strs(ring@).len() == n);
    let to: usize = if dir > 0 {
        if at + 1 == n {
            0
        } else {
            at + 1
        }
    } else if dir < 0 {
        if at == 0 {
            n - 1
        } else {
            at - 1
        }
    } else {
        at
    };
    assert(strs(ring@)[to as int] == ring@[to as int]@);
    ring[to].clone()
}

// --- editing an option -------------------------------------------------------

/// Options with more values than this are chosen from a list.
pub const SELECTOR_THRESHOLD: usize = 8;

/// What editing an option opens or does.
#[derive(Debug)]
pub enum Editor {
    Nothing,
    Select(Selector),
    /// The option takes a value at once.
    Apply(String),
    Prompt(Prompt),
}

pub enum EditorView {
    Nothing,
    Select(SelectorView),
    Apply(Seq<char>),
    Prompt(PromptView),
}

impl View for Editor {
    type V = EditorView;

    open spec fn view(&self) -> EditorView {
        match self {
            Editor::Nothing => EditorView::Nothing,
            Editor::Select(s) => EditorView::Select(s@),
            Editor::Apply(v) => EditorView::Apply(v@),
            Editor::Prompt(p) => EditorView::Prompt(p@),
        }
    }
}

/// A list of values for an option, with the current one selected.
pub open spec fn selector_for(title: Seq<char>, key: Seq<char>, variants: Seq<Seq<char>>, current: Seq<char>) -> SelectorView {
    SelectorView {
        key,
        title,
        variants,
        filter: Seq::<char>::empty(),
        cursor: place_of(variants, current),
    }
}

/// The title of an option's prompt.
pub open spec fn edit_title(key: Seq<char>, sentinel: bool) -> Seq<char> {
    if sentinel {
        "Edit "@ + key + " (number or 'default')"@
    } else {
        "Edit "@ + key
    }
}

/// A prompt for an option's value, with the current one entered.
pub open spec fn prompt_for(key: Seq<char>, current: Seq<char>, sentinel: bool) -> PromptView {
    PromptView {
        kind: PromptKindView::EditOption(key),
        title: edit_title(key, sentinel),
        buffer: current,
        error: None,
    }
}

/// The devices of a runtime.
pub open spec fn devices_of<B: RuntimeBackend>(backend: Option<&B>) -> Seq<Seq<char>> {
    match backend {
        Some(b) => b.descriptor_view().devices,
        None => Seq::<Seq<char>>::empty(),
    }
}

/// What editing an option does: devices and long lists of values are chosen from
/// a list, short ones go to the next value, and everything else is typed.
pub open spec fn editor_for<B: RuntimeBackend>(option: OptionItemView, backend: Option<&B>) -> EditorView {
    if option.key == "device"@ {
        EditorView::Select(
            selector_for(
                "Select device"@,
                option.key,
                device_ring(devices_of(backend)),
                option.value,
            ),
        )
    } else {
        match backend {
            None => EditorView::Nothing,
            Some(b) => {
                let table = b.dialect().table();
                match spec_at(table, option.key) {
                    Some(spec) => match spec.kind {
                        KindView::Enum(variants) => if variants.len() > SELECTOR_THRESHOLD {
                            EditorView::Select(
                                selector_for(
                                    "Select "@ + option.key,
                                    option.key,
                                    variants,
                                    option.value,
                                ),
                            )
                        } else {
                            match bumped(
                                b.dialect(),
                                table,
                                spec,
                                spec.kind,
                                option.value,
                                1,
                                None,
                            ) {
                                Some(v) => EditorView::Apply(v),
                                None => EditorView::Nothing,
                            }
                        },
                        _ => EditorView::Prompt(
                            prompt_for(
                                option.key,
                                option.value,
                                sentinel(b.dialect(), table, option.key),
                            ),
                        ),
                    },
                    None => EditorView::Prompt(
                        prompt_for(
                            option.key,
                            option.value,
                            sentinel(b.dialect(), table, option.key),
                        ),
                    ),
                }
            },
        }
    }
}

fn copy_variants(v: &Vec<&'static str>) -> (r: Vec<String>)
    ensures
        strs(r@) == lits(v@),
        r@.len() == v@.len(),
{
    let mut out: Vec<String> = Vec::new();
    let mut i: usize = 0;
    while i < v.len()
        invariant
            i <= v.len(),
            out.len() == i,
            forall|j: int| 0 <= j < i ==> (#[trigger] out@[j])@ == v@[j]@,
        decreases v.len() - i,
    {
        out.push(text::copy(v[i]));
        i += 1;
    }
    assert(strs(out@) =~= lits(v@));
    out
}

fn make_selector(title: &str, key: &str, variants: Vec<String>, current: &str) -> (r: Selector)
    requires
        variants@.len() > 0,
    ensures
        r@ == selector_for(title@, key@, strs(variants@), current@),
{
    let cursor = find_place(&variants, current);
    let filter = String::new();
    assert(filter@ =~= Seq::<char>::empty());
    Selector { key: text::copy(key), title: text::copy(title), variants, filter, cursor }
}

fn make_prompt(key: &str, current: &str, sentinel: bool) -> (r: Prompt)
    ensures
        r@ == prompt_for(key@, current@, sentinel),
{
    let title = if sentinel {
        text::cat3("Edit ", key, " (number or 'default')")
    } else {
        text::cat("Edit ", key)
    };
    Prompt {
        kind: PromptKind::EditOption { key: text::copy(key) },
        title,
        buffer: text::copy(current),
        error: None,
    }
}

/// What editing the selected option does; only the options can be edited.
pub fn open_editor<B: RuntimeBackend>(focus: Pane, option: Option<&OptionItem>, backend: Option<&B>) -> (r: Editor)
    ensures
        r@ == (if focus == Pane::Options && option is Some {
            editor_for(option->0@, backend)
        } else {
            EditorView::Nothing
        }),
{
    if focus != Pane::Options {
        return Editor::Nothing;
    }
    let option = match option {
        Some(o) => o,
        None => return Editor::Nothing,
    };
    let key = option.key.as_str();
    let current = option.value.as_str();
    if text::same(key, "device") {
        let variants = match backend {
            Some(b) => {
                let descriptor = b.descriptor();
                assert(strs(descriptor.devices@) == descriptor@.devices);
                list_devices(&descriptor.devices)
            },
            None => {
                let none: Vec<String> = Vec::new();
                assert(strs(none@) =~= Seq::<Seq<char>>::empty());
                list_devices(&none)
            },
        };
        return Editor::Select(make_selector("Select device", key, variants, current));
    }
    let backend = match backend {
        Some(b) => b,
        None => return Editor::Nothing,
    };
    let schema = backend.schema();
    if let Some(spec) = schema.spec(key) {
        if let OptionKind::Enum(variants) = &spec.kind {
            assert(spec@.kind == KindView::Enum(lits(variants@)));
            assert(lits(variants@).len() == variants@.len());
            if variants.len() > SELECTOR_THRESHOLD {
                let title = text::cat("Select ", key);
                let list = copy_variants(variants);
                return Editor::Select(make_selector(title.as_str(), key, list, current));
            }
            return match schema.bump(spec, &spec.kind, current, 1, &FloatStep::Nowhere) {
                Some(v) => Editor::Apply(v),
                None => Editor::Nothing,
            };
        }
    }
    Editor::Prompt(make_prompt(key, current, schema.uses_sentinel(key)))
}

/// What values an option takes for the selected model, or for any.
pub open spec fn kind_here<B: RuntimeBackend>(backend: &B, spec: SpecView, model: Option<&Model>) -> KindView {
    match model {
        Some(m) => backend.kind_for(spec, m@),
        None => spec.kind,
    }
}

fn effective_kind<B: RuntimeBackend>(backend: &B, spec: &OptionSpec, model: Option<&Model>) -> (r: OptionKind)
    ensures
        r@ == kind_here(backend, spec@, model),
{
    match model {
        Some(m) => backend.effective_kind(spec, m),
        None => spec.kind.clone(),
    }
}

/// The value that an entry gives an option, or why it is not accepted. An option
/// that can be left off takes an empty entry or the word for it.
pub open spec fn edited<B: RuntimeBackend>(backend: Option<&B>, model: Option<&Model>, key: Seq<char>, input: Seq<char>, reading: FloatReading) -> Result<Seq<char>, Seq<char>> {
    match backend {
        None => Err("no runtime selected"@),
        Some(b) => match spec_at(b.dialect().table(), key) {
            None => Err("unknown option"@),
            Some(spec) => if sentinel(b.dialect(), b.dialect().table(), key) && (input.len() == 0
                || chars::same_fold(input, DEFAULT@)) {
                Ok(DEFAULT@)
            } else {
                kind_here(b, spec, model).validated(input, reading)
            },
        },
    }
}

/// The value that an entry gives an option.
pub fn commit_option_edit<B: RuntimeBackend>(backend: Option<&B>, model: Option<&Model>, key: &str, input: &str, reading: FloatReading) -> (r: Result<String, String>)
    ensures
        match (edited(backend, model, key@, input@, reading), r) {
            (Ok(v), Ok(s)) => s@ == v,
            (Err(e), Err(s)) => s@ == e,
            _ => false,
        },
{
    let backend = match backend {
        Some(b) => b,
        None => return Err(text::copy("no runtime selected")),
    };
    let schema = backend.schema();
    let spec = match schema.spec(key) {
        Some(s) => s,
        None => return Err(text::copy("unknown option")),
    };
    if schema.uses_sentinel(key) && (text::length(input) == 0 || chars::eq_fold(input, DEFAULT)) {
        return Ok(text::copy(DEFAULT));
    }
    effective_kind(backend, spec, model).validate(input, reading)
}

/// The value one step from the selected option's, in a direction.
pub open spec fn stepped<B: RuntimeBackend>(focus: Pane, option: OptionItemView, backend: Option<&B>, model: Option<&Model>, dir: int, float: FloatStep) -> Option<Seq<char>> {
    match backend {
        None => None,
        Some(b) => if option.key == "device"@ {
            Some(next_device(b.descriptor_view().devices, option.value, dir))
        } else if focus != Pane::Options {
            None
        } else {
            let table = b.dialect().table();
            match spec_at(table, option.key) {
                None => None,
                Some(spec) => {
                    let kind = kind_here(b, spec, model);
                    bumped(
                        b.dialect(),
                        table,
                        spec,
                        kind,
                        option.value,
                        dir,
                        float_outcome(kind, float),
                    )
                },
            }
        },
    }
}

/// The value one step from the selected option's, in a direction.
pub fn adjust_option<B: RuntimeBackend>(focus: Pane, option: Option<&OptionItem>, backend: Option<&B>, model: Option<&Model>, dir: i32, float: &FloatStep) -> (r: Option<String>)
    ensures
        opt(r) == (match option {
            Some(o) => stepped(focus, o@, backend, model, dir as int, *float),
            None => None,
        }),
{
    let option = match option {
        Some(o) => o,
        None => return None,
    };
    let backend = match backend {
        Some(b) => b,
        None => return None,
    };
    if text::same(option.key.as_str(), "device") {
        let descriptor = backend.descriptor();
        assert(strs(descriptor.devices@) == descriptor@.devices);
        return Some(cycle_device(&descriptor.devices, option.value.as_str(), dir));
    }
    if focus != Pane::Options {
        return None;
    }
    let schema = backend.schema();
    match schema.spec(option.key.as_str()) {
        None => None,
        Some(spec) => {
            let kind = effective_kind(backend, spec, model);
            schema.bump(spec, &kind, option.value.as_str(), dir, float)
        },
    }
}

/// The least or greatest value of the selected option.
pub open spec fn extreme_here<B: RuntimeBackend>(focus: Pane, option: OptionItemView, backend: Option<&B>, model: Option<&Model>, dir: int) -> Option<Seq<char>> {
    match backend {
        None => None,
        Some(b) => if focus != Pane::Options {
            None
        } else {
            match spec_at(b.dialect().table(), option.key) {
                None => None,
                Some(spec) => kind_here(b, spec, model).extreme(dir),
            }
        },
    }
}

/// The least value of the selected option, or the greatest.
pub fn set_option_extreme<B: RuntimeBackend>(focus: Pane, option: Option<&OptionItem>, backend: Option<&B>, model: Option<&Model>, dir: i32) -> (r: Option<String>)
    ensures
        opt(r) == (match option {
            Some(o) => extreme_here(focus, o@, backend, model, dir as int),
            None => None,
        }),
{
    let option = match option {
        Some(o) => o,
        None => return None,
    };
    let backend = match backend {
        Some(b) => b,
        None => return None,
    };
    if focus != Pane::Options {
        return None;
    }
    let schema = backend.schema();
    match schema.spec(option.key.as_str()) {
        None => None,
        Some(spec) => effective_kind(backend, spec, model).extreme(dir),
    }
}

/// The default that the selected option goes back to.
pub fn reset_option_default(focus: Pane, option: Option<&OptionItem>) -> (r: Option<String>)
    ensures
        opt(r) == (match option {
            Some(o) => if focus == Pane::Options {
                Some(o@.default)
            } else {
                None
            },
            None => None,
        }),
{
    match option {
        Some(o) => if focus == Pane::Options {
            Some(o.default.clone())
        } else {
            None
        },
        None => None,
    }
}

// --- naming a profile --------------------------------------------------------

/// A prompt for a new profile's name.
pub open spec fn new_profile_prompt() -> PromptView {
    PromptView {
        kind: PromptKindView::NewProfile,
        title: "New profile"@,
        buffer: Seq::<char>::empty(),
        error: None,
    }
}

/// A prompt for another name of a profile.
pub open spec fn rename_prompt(old: Seq<char>) -> PromptView {
    PromptView {
        kind: PromptKindView::RenameProfile(old),
        title: "Rename "@ + old,
        buffer: old,
        error: None,
    }
}

/// A prompt for the name of a profile's copy.
pub open spec fn duplicate_prompt(src: Seq<char>) -> PromptView {
    PromptView {
        kind: PromptKindView::DuplicateProfile(src),
        title: "Duplicate "@ + src,
        buffer: src + " copy"@,
        error: None,
    }
}

/// The view of an optional prompt.
pub open spec fn opt_prompt(o: Option<Prompt>) -> Option<PromptView> {
    match o {
        Some(p) => Some(p@),
        None => None,
    }
}

/// Asks for a new profile's name.
pub fn prompt_new_profile(focus: Pane) -> (r: Option<Prompt>)
    ensures
        opt_prompt(r) == (if focus == Pane::Profile {
            Some(new_profile_prompt())
        } else {
            None
        }),
{
    if focus != Pane::Profile {
        return None;
    }
    let buffer = String::new();
    assert(buffer@ =~= Seq::<char>::empty());
    Some(
        Prompt { kind: PromptKind::NewProfile, title: text::copy("New profile"), buffer, error: None },
    )
}

/// Asks for another name of a profile; a built-in one keeps its own.
pub fn prompt_rename_profile(focus: Pane, profile: Option<&Profile>) -> (r: Option<Prompt>)
    ensures
        opt_prompt(r) == (if focus == Pane::Profile && profile is Some && !profile->0@.builtin {
            Some(rename_prompt(profile->0@.name))
        } else {
            None
        }),
{
    if focus != Pane::Profile {
        return None;
    }
    match profile {
        Some(p) => {
            if p.builtin {
                return None;
            }
            Some(
                Prompt {
                    kind: PromptKind::RenameProfile { old: p.name.clone() },
                    title: text::cat("Rename ", p.name.as_str()),
                    buffer: p.name.clone(),
                    error: None,
                },
            )
        },
        None => None,
    }
}

/// Asks for the name of a profile's copy.
pub fn prompt_duplicate_profile(focus: Pane, profile: Option<&Profile>) -> (r: Option<Prompt>)
    ensures
        opt_prompt(r) == (if focus == Pane::Profile && profile is Some {
            Some(duplicate_prompt(profile->0@.name))
        } else {
            None
        }),
{
    if focus != Pane::Profile {
        return None;
    }
    match profile {
        Some(p) => Some(
            Prompt {
                kind: PromptKind::DuplicateProfile { src: p.name.clone() },
                title: text::cat("Duplicate ", p.name.as_str()),
                buffer: text::cat(p.name.as_str(), " copy"),
                error: None,
            },
        ),
        None => None,
    }
}

/// Whether a profile has a name, whatever the case.
pub open spec fn name_taken(profiles: Seq<ProfileView>, name: Seq<char>) -> bool {
    exists|i: int| 0 <= i < profiles.len() && chars::same_fold((#[trigger] profiles[i]).name, name)
}

/// Why a name is not accepted for a profile.
pub open spec fn name_fault(profiles: Seq<ProfileView>, name: Seq<char>) -> Option<Seq<char>> {
    if name.len() == 0 {
        Some("name cannot be empty"@)
    } else if name_taken(profiles, name) {
        Some("'"@ + name + "' already exists"@)
    } else {
        None
    }
}

/// Accepts a name for a profile: not empty, and no other profile's.
pub fn validate_new_name(profiles: &Vec<Profile>, name: &str) -> (r: Result<(), String>)
    ensures
        match (name_fault(profile_views(profiles@), name@), r) {
            (None, Ok(_)) => true,
            (Some(e), Err(s)) => s@ == e,
            _ => false,
        },
{
    let ghost all = profile_views(profiles@);
    if text::length(name) == 0 {
        return Err(text::copy("name cannot be empty"));
    }
    let mut i: usize = 0;
    while i < profiles.len()
        invariant
            i <= profiles.len(),
            name@.len() > 0,
            all == profile_views(profiles@),
            forall|j: int| 0 <= j < i ==> !chars::same_fold((#[trigger] all[j]).name, name@),
        decreases profiles.len() - i,
    {
        assert(all[i as int] == profiles@[i as int]@);
        if chars::eq_fold(profiles[i].name.as_str(), name) {
            assert(chars::same_fold(all[i as int].name, name@));
            return Err(text::cat3("'", name, "' already exists"));
        }
        i += 1;
    }
    assert(all.len() == profiles@.len());
    Ok(())
}

/// What a new name asks for.
#[derive(Debug)]
pub enum Rename {
    /// The name stays as it is.
    Same,
    Rename,
    Refused(String),
}

/// Decides on another name of a profile. One that differs only in case is none.
pub fn commit_rename_profile(profiles: &Vec<Profile>, old: &str, name: &str) -> (r: Rename)
    ensures
        match r {
            Rename::Same => chars::same_fold(name@, old@),
            Rename::Rename => !chars::same_fold(name@, old@) && name_fault(
                profile_views(profiles@),
                name@,
            ) is None,
            Rename::Refused(e) => !chars::same_fold(name@, old@) && name_fault(
                profile_views(profiles@),
                name@,
            ) == Some(e@),
        },
{
    if chars::eq_fold(name, old) {
        return Rename::Same;
    }
    match validate_new_name(profiles, name) {
        Ok(_) => Rename::Rename,
        Err(e) => Rename::Refused(e),
    }
}

// --- laws --------------------------------------------------------------------

/// Going one device on and one back leads to the same device, where the current
/// one is a choice and no device is listed twice.
pub proof fn law_device_steps_cancel(devices: Seq<Seq<char>>, at: int)
    requires
        0 <= at < device_ring(devices).len(),
        forall|i: int, j: int|
            0 <= i < j < device_ring(devices).len() ==> device_ring(devices)[i] != device_ring(
                devices,
            )[j],
    ensures
        next_device(
            devices,
            next_device(devices, device_ring(devices)[at], 1),
            -1,
        ) == device_ring(devices)[at],
        next_device(
            devices,
            next_device(devices, device_ring(devices)[at], -1),
            1,
        ) == device_ring(devices)[at],
{
    let ring = device_ring(devices);
    let n = ring.len() as int;
    let up = if at + 1 == n {
        0
    } else {
        at + 1
    };
    let down = if at == 0 {
        n - 1
    } else {
        at - 1
    };
    lemma_place(ring, at, 0);
    lemma_place(ring, up, 0);
    lemma_place(ring, down, 0);
}

proof fn lemma_place(ring: Seq<Seq<char>>, at: int, from: int)
    requires
        0 <= from <= at < ring.len(),
        forall|i: int, j: int| 0 <= i < j < ring.len() ==> ring[i] != ring[j],
    ensures
        exact_variant(ring, ring[at], from) == Some(at),
    decreases at - from,
{
    if from < at {
        assert(ring[from] != ring[at]);
        lemma_place(ring, at, from + 1);
    }
}

/// Whatever is typed into a list of values, what can be picked is one of them.
pub proof fn law_picked_values_are_listed(s: SelectorView)
    requires
        s.chosen() is Some,
    ensures
        s.variants.contains(s.chosen()->0),
{
    lemma_narrowed(
        s.variants,
        lowered(s.variants),
        chars::lowercase(s.filter),
        s.variants.len(),
        s.cursor,
    );
}

proof fn lemma_narrowed(variants: Seq<Seq<char>>, low: Seq<Seq<char>>, needle: Seq<char>, n: nat, k: int)
    requires
        n <= variants.len(),
        0 <= k < narrowed(variants, low, needle, n).len(),
    ensures
        variants.contains(narrowed(variants, low, needle, n)[k]),
    decreases n,
{
    if n > 0 {
        let rest = narrowed(variants, low, needle, (n - 1) as nat);
        if k < rest.len() {
            lemma_narrowed(variants, low, needle, (n - 1) as nat, k);
        } else {
            assert(variants[n - 1] == narrowed(variants, low, needle, n)[k]);
        }
    }
}

/// A profile's name has to say something, and no other profile may have it, in whatever
/// case; any other name is accepted.
pub proof fn law_names_are_free_or_refused(profiles: Seq<ProfileView>, name: Seq<char>, i: int)
    ensures
        name.len() == 0 ==> name_fault(profiles, name) is Some,
        0 <= i < profiles.len() && chars::same_fold(profiles[i].name, name) ==> name_fault(
            profiles,
            name,
        ) is Some,
        name.len() > 0 && (forall|j: int|
            0 <= j < profiles.len() ==> !chars::same_fold((#[trigger] profiles[j]).name, name))
            ==> name_fault(profiles, name) is None,
{
    if 0 <= i < profiles.len() && chars::same_fold(profiles[i].name, name) {
        assert(name_taken(profiles, name));
    }
}

/// Typing a character and taking it back leaves a text as it was.
pub proof fn law_backspace_undoes_typing(s: Seq<char>, c: char)
    ensures
        typed(typed(s, Key::Char(c)), Key::Backspace) == s,
        typed(s, Key::Char(c)) == s + seq![c],
{
    assert(s.push(c).drop_last() =~= s);
    assert(s.push(c) =~= s + seq![c]);
}

/// Devices are gone through in their order: from the automatic choice to the first, from
/// each to the next, and from the last back to the automatic choice.
pub proof fn law_devices_go_round(devices: Seq<Seq<char>>, i: int)
    requires
        0 <= i < devices.len(),
        forall|a: int, b: int|
            0 <= a < b < device_ring(devices).len() ==> device_ring(devices)[a] != device_ring(
                devices,
            )[b],
    ensures
        next_device(devices, "default"@, 1) == devices[0],
        next_device(devices, devices[i], 1) == if i + 1 < devices.len() {
            devices[i + 1]
        } else {
            "default"@
        },
        next_device(devices, "default"@, -1) == devices.last(),
{
    let ring = device_ring(devices);
    assert(ring[0] == "default"@);
    assert(ring[i + 1] == devices[i]);
    lemma_place(ring, 0, 0);
    lemma_place(ring, i + 1, 0);
}

/// An option that can be left to the runtime is, by an empty entry or by the word for
/// it.
pub proof fn law_an_empty_entry_leaves_it_to_the_runtime<B: RuntimeBackend>(backend: &B, model: Option<&Model>, key: Seq<char>, input: Seq<char>, reading: FloatReading)
    requires
        spec_at(backend.dialect().table(), key) is Some,
        sentinel(backend.dialect(), backend.dialect().table(), key),
        input.len() == 0 || chars::same_fold(input, "default"@),
    ensures
        edited(Some(backend), model, key, input, reading) == Ok::<Seq<char>, Seq<char>>(
            "default"@,
        ),
{
}

/// A list narrows to the values that contain what was typed, in their order.
pub proof fn law_narrowing_keeps_what_matches(variants: Seq<Seq<char>>, lowered: Seq<Seq<char>>, needle: Seq<char>, n: nat, i: int)
    requires
        0 <= i < n <= variants.len(),
        variants.len() == lowered.len(),
    ensures
        text::has(lowered[i], needle) ==> narrowed(variants, lowered, needle, n).contains(
            variants[i],
        ),
        (forall|j: int| 0 <= j < n ==> !text::has(#[trigger] lowered[j], needle)) ==> narrowed(
            variants,
            lowered,
            needle,
            n,
        ).len() == 0,
    decreases n,
{
    let rest = narrowed(variants, lowered, needle, (n - 1) as nat);
    let all = narrowed(variants, lowered, needle, n);
    if forall|j: int| 0 <= j < n ==> !text::has(#[trigger] lowered[j], needle) {
        assert(!text::has(lowered[n - 1], needle));
        if n > 1 {
            law_narrowing_keeps_what_matches(variants, lowered, needle, (n - 1) as nat, 0);
        }
    }
    if text::has(lowered[i], needle) {
        if i == n - 1 {
            assert(all[all.len() - 1] == variants[i]);
        } else {
            law_narrowing_keeps_what_matches(variants, lowered, needle, (n - 1) as nat, i);
            let k = choose|k: int| 0 <= k < rest.len() && rest[k] == variants[i];
            assert(all[k] == variants[i]);
        }
    }
}

/// Editing an option gives what suits it: a list for the devices and for long
/// enumerations, the next variant for short ones, and a line for everything else, with
/// the current value in it.
pub proof fn law_editors_suit_their_options<B: RuntimeBackend>(option: OptionItemView, b: &B)
    ensures
        option.key == "device"@ ==> editor_for(option, Some(b)) is Select
            && editor_for(option, Some(b))->Select_0.variants == device_ring(
            b.descriptor_view().devices,
        ),
        ({
            let spec = spec_at(b.dialect().table(), option.key);
            let e = editor_for(option, Some(b));
            &&& option.key != "device"@ && spec is Some && !(spec->0.kind is Enum) ==> e is Prompt
                && e->Prompt_0.buffer == option.value && e->Prompt_0.kind
                == PromptKindView::EditOption(option.key) && e->Prompt_0.error is None
            &&& option.key != "device"@ && spec is Some && spec->0.kind is Enum
                && spec->0.kind->Enum_0.len() > 8 ==> e is Select && e->Select_0.variants
                == spec->0.kind->Enum_0 && e->Select_0.key == option.key
            &&& option.key != "device"@ && spec is Some && spec->0.kind is Enum
                && spec->0.kind->Enum_0.len() <= 8 ==> !(e is Select) && !(e is Prompt)
        }),
{
}

/// A list opens on the current value, where that is one of its values.
pub proof fn law_lists_open_on_the_current_value(title: Seq<char>, key: Seq<char>, variants: Seq<Seq<char>>, i: int)
    requires
        0 <= i < variants.len(),
        forall|k: int| 0 <= k < i ==> #[trigger] variants[k] != variants[i],
    ensures
        selector_for(title, key, variants, variants[i]).cursor == i,
        selector_for(title, key, variants, variants[i]).filter.len() == 0,
        selector_for(title, key, variants, variants[i]).variants == variants,
{
    lemma_place_of(variants, 0, i);
}

proof fn lemma_place_of(variants: Seq<Seq<char>>, from: int, i: int)
    requires
        0 <= from <= i < variants.len(),
        forall|k: int| 0 <= k < i ==> #[trigger] variants[k] != variants[i],
    ensures
        exact_variant(variants, variants[i], from) == Some(i),
    decreases i - from,
{
    if from < i {
        lemma_place_of(variants, from + 1, i);
    }
}

/// A new profile starts without a name, a renamed one with its own and a copy with that
/// of the profile it is made from.
pub proof fn law_prompts_start_with_a_name(name: Seq<char>)
    ensures
        new_profile_prompt().buffer.len() == 0 && new_profile_prompt().kind is NewProfile,
        rename_prompt(name).buffer == name && rename_prompt(name).kind
            == PromptKindView::RenameProfile(name),
        duplicate_prompt(name).buffer == name + " copy"@ && duplicate_prompt(name).kind
            == PromptKindView::DuplicateProfile(name),
        new_profile_prompt().error is None && rename_prompt(name).error is None
            && duplicate_prompt(name).error is None,
{
}

/// The ends of a number's range are those of the selected option for the selected model,
/// and only the options have them.
pub proof fn law_ends_are_those_of_the_option<B: RuntimeBackend>(option: OptionItemView, b: &B, m: &Model, spec: SpecView, dir: int)
    requires
        spec_at(b.dialect().table(), option.key) == Some(spec),
    ensures
        extreme_here(Pane::Options, option, Some(b), Some(m), dir) == b.kind_for(
            spec,
            m@,
        ).extreme(dir),
        extreme_here(Pane::Profile, option, Some(b), Some(m), dir) is None,
        extreme_here(Pane::Model, option, Some(b), Some(m), dir) is None,
        extreme_here(Pane::Runtime, option, Some(b), Some(m), dir) is None,
{
}

/// Stepping changes the devices anywhere and the other options only in their pane.
pub proof fn law_options_are_stepped_in_their_pane<B: RuntimeBackend>(option: OptionItemView, b: &B, m: &Model, dir: int, float: FloatStep, spec: SpecView)
    ensures
        option.key != "device"@ ==> stepped(
            Pane::Profile,
            option,
            Some(b),
            Some(m),
            dir,
            float,
        ) is None,
        option.key == "device"@ ==> stepped(Pane::Options, option, Some(b), Some(m), dir, float)
            == Some(next_device(b.descriptor_view().devices, option.value, dir)),
        option.key != "device"@ && spec_at(b.dialect().table(), option.key) == Some(spec)
            ==> stepped(Pane::Options, option, Some(b), Some(m), dir, float) == bumped(
            b.dialect(),
            b.dialect().table(),
            spec,
            b.kind_for(spec, m@),
            option.value,
            dir,
            float_outcome(b.kind_for(spec, m@), float),
        ),
{
}

} // verus!
