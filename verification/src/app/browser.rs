//! The browser: what its panes hold, how the selection and the focus move, and
//! what follows from a selection.

use vstd::prelude::*;
use crate::app::catalog;
use crate::app::catalog::{
    route_to, shown_children, step_views, CatalogRoute, RouteView, Step, StepView,
};
use crate::app::panes::{at_top, moved, Pane, PaneList};
use crate::config::Defaults;
use crate::discovery::online::catalog::hub_place;
use crate::discovery::online::{HUGGINGFACE, ONLINE};
use crate::domain::options::{FloatReading, SpecView};
use crate::domain::{
    copy_models, option_views, profile_views, views, Model, ModelView, OptionItem,
    OptionItemView, Profile, ProfileView,
};
use crate::profiles;
use crate::profiles::store::{ProfileStore, StoreView};
use crate::profiles::templates::names_of;
use crate::profiles::{layered_value, layers, lists_profiles, resolved_items, Layers};
use crate::runtime::backend::Backend;
use crate::runtime::RuntimeBackend;
use crate::text;
use crate::text::strs;

verus! {

// --- the state ---------------------------------------------------------------

/// A list with its selection.
pub struct ListView<T> {
    pub items: Seq<T>,
    pub cursor: Option<usize>,
}

impl<T> ListView<T> {
    /// The selected entry.
    pub open spec fn chosen(self) -> Option<T> {
        match self.cursor {
            Some(i) => if i < self.items.len() {
                Some(self.items[i as int])
            } else {
                None
            },
            None => None,
        }
    }

    /// The list with the selection moved.
    pub open spec fn stepped(self, delta: int) -> ListView<T> {
        if self.items.len() == 0 {
            self
        } else {
            ListView {
                cursor: Some(moved(self.cursor, delta, self.items.len() as int) as usize),
                ..self
            }
        }
    }

    /// The list with its first entry selected.
    pub open spec fn first(self) -> ListView<T> {
        ListView { cursor: at_top(self.items.len() as int), ..self }
    }

    /// The list with its last entry selected.
    pub open spec fn last(self) -> ListView<T> {
        if self.items.len() == 0 {
            self
        } else {
            ListView { cursor: Some((self.items.len() - 1) as usize), ..self }
        }
    }
}

/// A list that was just filled.
pub open spec fn fresh<T>(items: Seq<T>) -> ListView<T> {
    ListView { items, cursor: at_top(items.len() as int) }
}

/// What the browser shows: the panes with their selections, the folder of the
/// catalog, and the folders that lead to it.
#[derive(Debug)]
pub struct BrowserState {
    pub focus: Pane,
    pub runtimes: PaneList<Backend>,
    pub models: PaneList<Model>,
    /// What the selected folder holds.
    pub catalog_preview: Vec<Model>,
    pub profiles: PaneList<Profile>,
    pub options: PaneList<OptionItem>,
    pub catalog_prefix: Vec<String>,
    pub catalog_history: Vec<Step>,
}

pub struct BrowserView {
    pub focus: Pane,
    pub runtimes: ListView<Backend>,
    pub models: ListView<ModelView>,
    pub preview: Seq<ModelView>,
    pub profiles: ListView<ProfileView>,
    pub options: ListView<OptionItemView>,
    pub prefix: Seq<Seq<char>>,
    pub history: Seq<StepView>,
}

impl View for BrowserState {
    type V = BrowserView;

    open spec fn view(&self) -> BrowserView {
        BrowserView {
            focus: self.focus,
            runtimes: ListView { items: self.runtimes.items@, cursor: self.runtimes.state.cursor },
            models: ListView { items: views(self.models.items@), cursor: self.models.state.cursor },
            preview: views(self.catalog_preview@),
            profiles: ListView {
                items: profile_views(self.profiles.items@),
                cursor: self.profiles.state.cursor,
            },
            options: ListView {
                items: option_views(self.options.items@),
                cursor: self.options.state.cursor,
            },
            prefix: strs(self.catalog_prefix@),
            history: step_views(self.catalog_history@),
        }
    }
}

impl BrowserView {
    /// The selected entry, where it is a model.
    pub open spec fn model(self) -> Option<ModelView> {
        match self.models.chosen() {
            Some(m) => if m.is_model() {
                Some(m)
            } else {
                None
            },
            None => None,
        }
    }

    /// The browser in the selected folder, where it can be entered.
    pub open spec fn entered(self) -> Option<BrowserView> {
        match self.models.chosen() {
            Some(m) => if m.is_catalog_dir() && self.preview.len() > 0 {
                Some(
                    BrowserView {
                        history: self.history.push(
                            StepView {
                                items: self.models.items,
                                selected: self.models.cursor,
                                prefix: self.prefix,
                            },
                        ),
                        prefix: m.catalog_path,
                        models: fresh(self.preview),
                        ..self
                    },
                )
            } else {
                None
            },
            None => None,
        }
    }

    /// The browser in the folder above, where there is one.
    pub open spec fn left(self) -> Option<BrowserView> {
        if self.history.len() == 0 {
            None
        } else {
            let step = self.history.last();
            Some(
                BrowserView {
                    history: self.history.drop_last(),
                    prefix: step.prefix,
                    models: ListView { items: step.items, cursor: step.selected },
                    ..self
                },
            )
        }
    }

    /// The browser with the selection of the focused pane moved.
    pub open spec fn stepped(self, delta: int) -> BrowserView {
        match self.focus {
            Pane::Runtime => BrowserView { runtimes: self.runtimes.stepped(delta), ..self },
            Pane::Model => BrowserView { models: self.models.stepped(delta), ..self },
            Pane::Profile => BrowserView { profiles: self.profiles.stepped(delta), ..self },
            Pane::Options => BrowserView { options: self.options.stepped(delta), ..self },
        }
    }

    /// The browser with the first entry of the focused pane selected.
    pub open spec fn at_first(self) -> BrowserView {
        match self.focus {
            Pane::Runtime => BrowserView { runtimes: self.runtimes.first(), ..self },
            Pane::Model => BrowserView { models: self.models.first(), ..self },
            Pane::Profile => BrowserView { profiles: self.profiles.first(), ..self },
            Pane::Options => BrowserView { options: self.options.first(), ..self },
        }
    }

    /// The browser with the last entry of the focused pane selected.
    pub open spec fn at_last(self) -> BrowserView {
        match self.focus {
            Pane::Runtime => BrowserView { runtimes: self.runtimes.last(), ..self },
            Pane::Model => BrowserView { models: self.models.last(), ..self },
            Pane::Profile => BrowserView { profiles: self.profiles.last(), ..self },
            Pane::Options => BrowserView { options: self.options.last(), ..self },
        }
    }

    /// Whether the pane to the right of the focus has nothing to show.
    pub open spec fn nothing_right(self) -> bool {
        match self.focus {
            Pane::Runtime => self.models.items.len() == 0,
            Pane::Model => if self.model() is Some {
                self.profiles.items.len() == 0
            } else {
                self.preview.len() == 0
            },
            Pane::Profile => self.options.items.len() == 0,
            Pane::Options => true,
        }
    }

    /// The browser with the focus one pane to the right.
    pub open spec fn focused_right(self) -> BrowserView {
        BrowserView {
            focus: match self.focus {
                Pane::Runtime => Pane::Model,
                Pane::Model => Pane::Profile,
                _ => Pane::Options,
            },
            ..self
        }
    }

    /// What entering the selection leads to: a folder opens, and everything else
    /// moves the focus to the right where there is something.
    pub open spec fn went_in(self) -> BrowserView {
        if self.focus == Pane::Model && self.models.chosen() is Some
            && self.models.chosen()->0.is_catalog_dir() {
            match self.entered() {
                Some(b) => b,
                None => self,
            }
        } else if self.focus == Pane::Model {
            if self.models.chosen() is Some && self.profiles.items.len() > 0 {
                self.focused_right()
            } else {
                self
            }
        } else if self.focus == Pane::Options || self.nothing_right() {
            self
        } else {
            self.focused_right()
        }
    }

    /// What going back leads to: out of a folder, and from the topmost one to the
    /// pane on the left.
    pub open spec fn went_back(self) -> BrowserView {
        if self.focus == Pane::Model {
            match self.left() {
                Some(b) => b,
                None => BrowserView { focus: Pane::Runtime, ..self },
            }
        } else {
            BrowserView {
                focus: match self.focus {
                    Pane::Options => Pane::Profile,
                    Pane::Profile => Pane::Model,
                    _ => Pane::Runtime,
                },
                ..self
            }
        }
    }
}

// --- moving about ------------------------------------------------------------

impl BrowserState {
    /// A browser of the given runtimes, with nothing else in it yet.
    pub fn new(runtimes: Vec<Backend>) -> (r: BrowserState)
        ensures
            r@ == (BrowserView {
                focus: Pane::Runtime,
                runtimes: fresh(runtimes@),
                models: fresh(Seq::<ModelView>::empty()),
                preview: Seq::<ModelView>::empty(),
                profiles: fresh(Seq::<ProfileView>::empty()),
                options: fresh(Seq::<OptionItemView>::empty()),
                prefix: Seq::<Seq<char>>::empty(),
                history: Seq::<StepView>::empty(),
            }),
    {
        let b = BrowserState {
            focus: Pane::Runtime,
            runtimes: PaneList::new(runtimes),
            models: PaneList::new(Vec::new()),
            catalog_preview: Vec::new(),
            profiles: PaneList::new(Vec::new()),
            options: PaneList::new(Vec::new()),
            catalog_prefix: Vec::new(),
            catalog_history: Vec::new(),
        };
        assert(b@.models.items =~= Seq::<ModelView>::empty());
        assert(b@.preview =~= Seq::<ModelView>::empty());
        assert(b@.profiles.items =~= Seq::<ProfileView>::empty());
        assert(b@.options.items =~= Seq::<OptionItemView>::empty());
        assert(b@.prefix =~= Seq::<Seq<char>>::empty());
        assert(b@.history =~= Seq::<StepView>::empty());
        b
    }

    /// The selected entry of the catalog, where it is a model.
    pub fn selected_model(&self) -> (r: Option<&Model>)
        ensures
            match r {
                Some(m) => self@.model() == Some(m@) && self.models.chosen() == Some(*m),
                None => self@.model() is None,
            },
    {
        assert(views(self.models.items@).len() == self.models.items@.len());
        match self.models.selected() {
            Some(m) => {
                assert(self@.models.chosen() == Some(m@));
                if m.is_model() {
                    Some(m)
                } else {
                    None
                }
            },
            None => None,
        }
    }

    /// Opens the selected folder, where it holds something.
    pub fn enter_directory(&mut self) -> (r: bool)
        ensures
            r == (old(self)@.entered() is Some),
            final(self)@ == (match old(self)@.entered() {
                Some(b) => b,
                None => old(self)@,
            }),
    {
        let ghost before = self@;
        assert(views(self.models.items@).len() == self.models.items@.len());
        let prefix = match self.models.selected() {
            None => return false,
            Some(m) => {
                assert(self@.models.chosen() == Some(m@));
                if !m.is_catalog_dir() || self.catalog_preview.len() == 0 {
                    assert(views(self.catalog_preview@).len() == self.catalog_preview@.len());
                    return false;
                }
                text::copy_all(&m.catalog_path)
            },
        };
        assert(views(self.catalog_preview@).len() == self.catalog_preview@.len());
        let step = Step {
            items: copy_models(&self.models.items),
            selected: self.models.state.selected(),
            prefix: text::copy_all(&self.catalog_prefix),
        };
        let ghost view = step@;
        self.catalog_history.push(step);
        assert(step_views(self.catalog_history@) =~= before.history.push(view));
        self.catalog_prefix = prefix;
        let items = copy_models(&self.catalog_preview);
        assert(views(items@).len() == items@.len());
        self.models.replace(items);
        true
    }

    /// Goes back to the folder above, with what was selected there.
    pub fn back_directory(&mut self) -> (r: bool)
        ensures
            r == (old(self)@.left() is Some),
            final(self)@ == (match old(self)@.left() {
                Some(b) => b,
                None => old(self)@,
            }),
    {
        let ghost before = self@;
        let ghost past = self.catalog_history@;
        assert(step_views(self.catalog_history@).len() == self.catalog_history@.len());
        match self.catalog_history.pop() {
            None => false,
            Some(step) => {
                assert(step@ == before.history.last());
                assert(step_views(self.catalog_history@) =~= before.history.drop_last());
                let Step { items, selected, prefix } = step;
                self.catalog_prefix = prefix;
                self.models.replace(items);
                self.models.state.select(selected);
                true
            },
        }
    }

    /// Moves the selection of the focused pane.
    pub fn move_selection(&mut self, delta: isize)
        ensures
            final(self)@ == old(self)@.stepped(delta as int),
    {
        assert(self@.models.items.len() == self.models.items@.len());
        assert(self@.profiles.items.len() == self.profiles.items@.len());
        assert(self@.options.items.len() == self.options.items@.len());
        match self.focus {
            Pane::Runtime => self.runtimes.move_by(delta),
            Pane::Model => self.models.move_by(delta),
            Pane::Profile => self.profiles.move_by(delta),
            Pane::Options => self.options.move_by(delta),
        }
    }

    /// Selects the first entry of the focused pane.
    pub fn select_first(&mut self)
        ensures
            final(self)@ == old(self)@.at_first(),
    {
        assert(self@.models.items.len() == self.models.items@.len());
        assert(self@.profiles.items.len() == self.profiles.items@.len());
        assert(self@.options.items.len() == self.options.items@.len());
        match self.focus {
            Pane::Runtime => self.runtimes.select_first(),
            Pane::Model => self.models.select_first(),
            Pane::Profile => self.profiles.select_first(),
            Pane::Options => self.options.select_first(),
        }
    }

    /// Selects the last entry of the focused pane.
    pub fn select_last(&mut self)
        ensures
            final(self)@ == old(self)@.at_last(),
    {
        assert(self@.models.items.len() == self.models.items@.len());
        assert(self@.profiles.items.len() == self.profiles.items@.len());
        assert(self@.options.items.len() == self.options.items@.len());
        match self.focus {
            Pane::Runtime => self.runtimes.select_last(),
            Pane::Model => self.models.select_last(),
            Pane::Profile => self.profiles.select_last(),
            Pane::Options => self.options.select_last(),
        }
    }

    /// Whether the pane to the right of the focus has nothing to show.
    pub fn preview_is_empty(&self) -> (r: bool)
        ensures
            r == self@.nothing_right(),
    {
        assert(self@.models.items.len() == self.models.items@.len());
        assert(self@.preview.len() == self.catalog_preview@.len());
        assert(self@.profiles.items.len() == self.profiles.items@.len());
        assert(self@.options.items.len() == self.options.items@.len());
        match self.focus {
            Pane::Runtime => self.models.is_empty(),
            Pane::Model => if self.selected_model().is_some() {
                self.profiles.is_empty()
            } else {
                self.catalog_preview.len() == 0
            },
            Pane::Profile => self.options.is_empty(),
            Pane::Options => true,
        }
    }

    /// Enters the selection: a folder opens, everything else moves the focus to
    /// the right. Gives whether a folder was opened.
    pub fn enter(&mut self) -> (r: bool)
        ensures
            final(self)@ == old(self)@.went_in(),
            r == (old(self)@.focus == Pane::Model && old(self)@.entered() is Some),
    {
        assert(self@.models.items.len() == self.models.items@.len());
        assert(self@.profiles.items.len() == self.profiles.items@.len());
        if self.focus == Pane::Model {
            let folder = match self.models.selected() {
                None => return false,
                Some(m) => {
                    assert(self@.models.chosen() == Some(m@));
                    m.is_catalog_dir()
                },
            };
            if folder {
                return self.enter_directory();
            }
            if !self.profiles.is_empty() {
                self.focus = Pane::Profile;
            }
            return false;
        }
        if self.focus != Pane::Options && !self.preview_is_empty() {
            self.focus = self.focus.next();
        }
        false
    }

    /// Goes back: out of a folder, or one pane to the left. Gives whether a folder
    /// was left.
    pub fn go_back(&mut self) -> (r: bool)
        ensures
            final(self)@ == old(self)@.went_back(),
            r == (old(self)@.focus == Pane::Model && old(self)@.left() is Some),
    {
        if self.focus == Pane::Model {
            if self.back_directory() {
                return true;
            }
            self.focus = Pane::Runtime;
        } else {
            self.focus = self.focus.prev();
        }
        false
    }
}

// --- what follows from a selection -------------------------------------------

/// What the selected entry shows beside it: the contents of a folder.
pub open spec fn preview_of(source: Seq<ModelView>, chosen: Option<ModelView>) -> Seq<ModelView> {
    match chosen {
        Some(m) => if m.is_catalog_dir() {
            shown_children(source, m.catalog_path)
        } else {
            Seq::<ModelView>::empty()
        },
        None => Seq::<ModelView>::empty(),
    }
}

/// The browser at the top of the catalog, or with no catalog where no runtime is
/// selected.
pub open spec fn at_root(b: BrowserView, source: Seq<ModelView>) -> BrowserView {
    BrowserView {
        models: fresh(
            if b.runtimes.chosen() is Some {
                shown_children(source, Seq::<Seq<char>>::empty())
            } else {
                Seq::<ModelView>::empty()
            },
        ),
        prefix: Seq::<Seq<char>>::empty(),
        history: Seq::<StepView>::empty(),
        ..b
    }
}

/// Whether a list holds the profiles of the selected model.
pub open spec fn holds_profiles(list: Seq<ProfileView>, runtime: Option<Backend>, model: Option<ModelView>, store: StoreView) -> bool {
    match (runtime, model) {
        (Some(b), Some(m)) => exists|own: Seq<Seq<char>>| #[trigger]
            lists_profiles(
                list,
                names_of(b.template_table()),
                own,
                store,
                b.descriptor_view().name,
                m.profile_key(),
            ),
        _ => list.len() == 0,
    }
}

/// What a resolution of the selected profile starts from.
pub open spec fn layers_at(b: BrowserView, store: StoreView, defaults: Defaults) -> Option<Layers> {
    match (b.model(), b.profiles.chosen()) {
        (Some(m), Some(p)) => Some(
            Layers {
                model: m,
                profile: p.name,
                store,
                host: defaults.host@,
                port: defaults.port,
            },
        ),
        _ => None,
    }
}

/// The options of the selected profile.
pub open spec fn options_at(b: BrowserView, store: StoreView, defaults: Defaults, readings: Seq<FloatReading>) -> Seq<OptionItemView> {
    match (b.runtimes.chosen(), layers_at(b, store, defaults)) {
        (Some(backend), Some(l)) => resolved_items(&backend, l, readings),
        _ => Seq::<OptionItemView>::empty(),
    }
}

impl BrowserState {
    /// Fills the catalog's pane from the top.
    pub fn rebuild_models(&mut self, source: &Vec<Model>)
        ensures
            final(self)@ == at_root(old(self)@, views(source@)),
    {
        self.catalog_history = Vec::new();
        self.catalog_prefix = Vec::new();
        assert(step_views(self.catalog_history@) =~= Seq::<StepView>::empty());
        assert(strs(self.catalog_prefix@) =~= Seq::<Seq<char>>::empty());
        let models = if self.runtimes.selected().is_some() {
            catalog::catalog_children(source, &self.catalog_prefix)
        } else {
            let none: Vec<Model> = Vec::new();
            assert(views(none@) =~= Seq::<ModelView>::empty());
            none
        };
        assert(views(models@).len() == models@.len());
        self.models.replace(models);
    }

    /// Fills what follows from the selected entry: the preview of a folder, and
    /// the profiles of a model.
    pub fn rebuild_profiles(&mut self, source: &Vec<Model>, store: &ProfileStore)
        requires
            store.wf(),
        ensures
            final(self)@.preview == preview_of(views(source@), old(self)@.models.chosen()),
            final(self)@.profiles == fresh(final(self)@.profiles.items),
            holds_profiles(
                final(self)@.profiles.items,
                old(self)@.runtimes.chosen(),
                old(self)@.model(),
                store@,
            ),
            final(self)@ == (BrowserView {
                preview: final(self)@.preview,
                profiles: final(self)@.profiles,
                ..old(self)@
            }),
    {
        let ghost before = self@;
        assert(self@.models.items.len() == self.models.items@.len());
        let preview = match self.models.selected() {
            Some(m) => {
                assert(before.models.chosen() == Some(m@));
                if m.is_catalog_dir() {
                    catalog::catalog_children(source, &m.catalog_path)
                } else {
                    let none: Vec<Model> = Vec::new();
                    assert(views(none@) =~= Seq::<ModelView>::empty());
                    none
                }
            },
            None => {
                let none: Vec<Model> = Vec::new();
                assert(views(none@) =~= Seq::<ModelView>::empty());
                none
            },
        };
        let list = match (self.runtimes.selected(), self.selected_model()) {
            (Some(backend), Some(m)) => profiles::list_profiles(backend, m, store),
            _ => Vec::new(),
        };
        assert(profile_views(list@).len() == list@.len());
        self.catalog_preview = preview;
        self.profiles.replace(list);
    }

    /// The values of the selected profile's options before they are validated, in
    /// the order of the options: the texts whose readings as floating-point
    /// numbers are needed to fill the options.
    pub fn option_texts(&self, store: &ProfileStore, defaults: &Defaults) -> (r: Vec<String>)
        requires
            store.wf(),
        ensures
            strs(r@) == (match (self@.runtimes.chosen(), layers_at(self@, store@, *defaults)) {
                (Some(backend), Some(l)) => backend.dialect().table().map_values(
                    |s: SpecView| layered_value(&backend, s, l),
                ),
                _ => Seq::<Seq<char>>::empty(),
            }),
    {
        assert(self@.profiles.items.len() == self.profiles.items@.len());
        match (self.runtimes.selected(), self.selected_model(), self.profiles.selected()) {
            (Some(backend), Some(m), Some(p)) => {
                assert(self@.profiles.chosen() == Some(p@));
                let ghost l = layers(*m, p.name@, store@, *defaults);
                assert(layers_at(self@, store@, *defaults) == Some(l));
                assert(self@.runtimes.chosen() == Some(*backend));
                profiles::layered_values(backend, m, p.name.as_str(), store, defaults)
            },
            _ => {
                let none: Vec<String> = Vec::new();
                assert(strs(none@) =~= Seq::<Seq<char>>::empty());
                none
            },
        }
    }

    /// Fills the options of the selected profile. `readings` says of each of the
    /// texts of [`BrowserState::option_texts`] how it compares as a number.
    pub fn rebuild_options(&mut self, store: &ProfileStore, defaults: &Defaults, readings: &Vec<FloatReading>)
        requires
            store.wf(),
        ensures
            final(self)@ == (BrowserView {
                options: fresh(options_at(old(self)@, store@, *defaults, readings@)),
                ..old(self)@
            }),
    {
        let ghost before = self@;
        assert(self@.profiles.items.len() == self.profiles.items@.len());
        let options = match (
            self.runtimes.selected(),
            self.selected_model(),
            self.profiles.selected(),
        ) {
            (Some(backend), Some(m), Some(p)) => {
                assert(before.profiles.chosen() == Some(p@));
                let ghost l = layers(*m, p.name@, store@, *defaults);
                assert(layers_at(before, store@, *defaults) == Some(l));
                assert(before.runtimes.chosen() == Some(*backend));
                profiles::resolve_options(backend, m, p, store, defaults, readings)
            },
            _ => {
                let none: Vec<OptionItem> = Vec::new();
                assert(option_views(none@) =~= Seq::<OptionItemView>::empty());
                none
            },
        };
        assert(option_views(options@) == options_at(before, store@, *defaults, readings@));
        assert(option_views(options@).len() == options@.len());
        self.options.replace(options);
    }

    /// Fills the panes to the right of a pane whose selection changed, all but the
    /// options, which need readings: the catalog after a runtime, the preview and
    /// the profiles after either.
    pub fn rebuild_below(&mut self, changed: Pane, source: &Vec<Model>, store: &ProfileStore)
        requires
            store.wf(),
        ensures
            ({
                let start = if changed == Pane::Runtime {
                    at_root(old(self)@, views(source@))
                } else {
                    old(self)@
                };
                if changed == Pane::Profile || changed == Pane::Options {
                    final(self)@ == start
                } else {
                    &&& final(self)@.preview == preview_of(views(source@), start.models.chosen())
                    &&& final(self)@.profiles == fresh(final(self)@.profiles.items)
                    &&& holds_profiles(
                        final(self)@.profiles.items,
                        start.runtimes.chosen(),
                        start.model(),
                        store@,
                    )
                    &&& final(self)@ == (BrowserView {
                        preview: final(self)@.preview,
                        profiles: final(self)@.profiles,
                        ..start
                    })
                }
            }),
    {
        match changed {
            Pane::Runtime => {
                self.rebuild_models(source);
                self.rebuild_profiles(source, store);
            },
            Pane::Model => self.rebuild_profiles(source, store),
            _ => {},
        }
    }
}

/// The first profile of a name, from `from` on.
pub open spec fn profile_named(profiles: Seq<ProfileView>, name: Seq<char>, from: int) -> Option<int>
    decreases profiles.len() - from,
{
    if from < 0 || from >= profiles.len() {
        None
    } else if profiles[from].name == name {
        Some(from)
    } else {
        profile_named(profiles, name, from + 1)
    }
}

impl BrowserState {
    /// Selects the profile of a name. Gives whether there is one.
    pub fn select_profile(&mut self, name: &str) -> (r: bool)
        ensures
            ({
                let at = profile_named(old(self)@.profiles.items, name@, 0);
                &&& r == (at is Some)
                &&& final(self)@ == (if r {
                    BrowserView {
                        profiles: ListView {
                            cursor: Some(at->0 as usize),
                            ..old(self)@.profiles
                        },
                        ..old(self)@
                    }
                } else {
                    old(self)@
                })
            }),
    {
        let ghost all = profile_views(self.profiles.items@);
        let mut i: usize = 0;
        while i < self.profiles.items.len()
            invariant
                i <= self.profiles.items.len(),
                *self == *old(self),
                all == profile_views(self.profiles.items@),
                profile_named(all, name@, 0) == profile_named(all, name@, i as int),
            decreases self.profiles.items.len() - i,
        {
            assert(all[i as int] == self.profiles.items@[i as int]@);
            if text::same(self.profiles.items[i].name.as_str(), name) {
                self.profiles.state.select(Some(i));
                return true;
            }
            i += 1;
        }
        false
    }
}

// --- going to an entry -------------------------------------------------------

/// The browser on an entry that a way leads to.
pub open spec fn on_route(b: BrowserView, route: RouteView) -> BrowserView {
    BrowserView {
        models: ListView { items: route.items, cursor: Some(route.selected as usize) },
        prefix: route.prefix,
        history: route.history,
        ..b
    }
}

/// The first entry with an identity, from `from` on.
pub open spec fn entry_of(models: Seq<ModelView>, id: Seq<char>, from: int) -> Option<int>
    decreases models.len() - from,
{
    if from < 0 || from >= models.len() {
        None
    } else if models[from].id == id {
        Some(from)
    } else {
        entry_of(models, id, from + 1)
    }
}

/// The way to the entry of an identity.
pub open spec fn route_of(source: Seq<ModelView>, id: Seq<char>) -> Option<RouteView> {
    match entry_of(source, id, 0) {
        Some(i) => route_to(source, source[i].catalog_path),
        None => None,
    }
}

/// The browser on the entry of an identity, where there is a way to it.
pub open spec fn jumped(b: BrowserView, source: Seq<ModelView>, id: Seq<char>) -> Option<BrowserView> {
    match route_of(source, id) {
        Some(route) => Some(BrowserView { focus: Pane::Model, ..on_route(b, route) }),
        None => None,
    }
}

/// The way to the deepest folder of a path that still exists, at most `depth`
/// deep.
pub open spec fn deepest(source: Seq<ModelView>, path: Seq<Seq<char>>, depth: nat) -> Option<RouteView>
    decreases depth,
{
    if depth == 0 {
        None
    } else {
        match route_to(source, path.take(depth as int)) {
            Some(route) => Some(route),
            None => deepest(source, path, (depth - 1) as nat),
        }
    }
}

/// The position of the first entry with an identity.
pub fn find_entry(models: &Vec<Model>, id: &str) -> (r: Option<usize>)
    ensures
        match r {
            Some(i) => i < models.len() && entry_of(views(models@), id@, 0) == Some(i as int),
            None => entry_of(views(models@), id@, 0) is None,
        },
{
    let ghost all = views(models@);
    let mut i: usize = 0;
    while i < models.len()
        invariant
            i <= models.len(),
            all == views(models@),
            entry_of(all, id@, 0) == entry_of(all, id@, i as int),
        decreases models.len() - i,
    {
        assert(all[i as int] == models@[i as int]@);
        if text::same(models[i].id.as_str(), id) {
            return Some(i);
        }
        i += 1;
    }
    None
}

fn first_components(path: &Vec<String>, n: usize) -> (r: Vec<String>)
    requires
        n <= path@.len(),
    ensures
        strs(r@) == strs(path@).take(n as int),
{
    let ghost all = strs(path@);
    let mut out: Vec<String> = Vec::new();
    let mut i: usize = 0;
    while i < n
        invariant
            i <= n <= path@.len(),
            all == strs(path@),
            out@.len() == i,
            forall|j: int| 0 <= j < i ==> (#[trigger] out@[j])@ == all[j],
        decreases n - i,
    {
        out.push(path[i].clone());
        i += 1;
    }
    assert(strs(out@) =~= all.take(n as int));
    out
}

/// The cursor on the entry of an identity, or on the first.
pub open spec fn cursor_on(items: Seq<ModelView>, id: Option<Seq<char>>) -> Option<usize> {
    if items.len() == 0 {
        None
    } else {
        match id {
            Some(id) => match entry_of(items, id, 0) {
                Some(i) => Some(i as usize),
                None => Some(0),
            },
            None => Some(0),
        }
    }
}

/// The identity of the selected entry.
pub open spec fn chosen_id(b: BrowserView) -> Option<Seq<char>> {
    match b.models.chosen() {
        Some(m) => Some(m.id),
        None => None,
    }
}

impl BrowserState {
    /// Goes to an entry that a way leads to.
    pub fn apply_catalog_route(&mut self, route: CatalogRoute)
        ensures
            final(self)@ == on_route(old(self)@, route@),
    {
        let CatalogRoute { items, selected, prefix, history } = route;
        self.catalog_prefix = prefix;
        self.catalog_history = history;
        self.models.items = items;
        self.models.state.select(Some(selected));
    }

    /// Goes to the entry of an identity, if the whole way to it exists.
    pub fn jump_to_model(&mut self, source: &Vec<Model>, id: &str) -> (r: bool)
        ensures
            r == (jumped(old(self)@, views(source@), id@) is Some),
            final(self)@ == (match jumped(old(self)@, views(source@), id@) {
                Some(b) => b,
                None => old(self)@,
            }),
    {
        let i = match find_entry(source, id) {
            Some(i) => i,
            None => return false,
        };
        assert(views(source@)[i as int] == source@[i as int]@);
        match catalog::catalog_route(source, &source[i].catalog_path) {
            Some(route) => {
                self.focus = Pane::Model;
                self.apply_catalog_route(route);
                true
            },
            None => false,
        }
    }

    /// Goes to the deepest folder of a path that still exists. Gives whether there
    /// is one; it is selected and not yet entered.
    fn select_deepest(&mut self, source: &Vec<Model>, prefix: &Vec<String>) -> (r: bool)
        ensures
            ({
                let route = deepest(views(source@), strs(prefix@), prefix@.len());
                &&& r == (route is Some)
                &&& final(self)@ == (match route {
                    Some(route) => on_route(old(self)@, route),
                    None => old(self)@,
                })
            }),
    {
        let ghost all = views(source@);
        let ghost path = strs(prefix@);
        let mut depth: usize = prefix.len();
        while depth > 0
            invariant
                depth <= prefix.len(),
                all == views(source@),
                path == strs(prefix@),
                *self == *old(self),
                deepest(all, path, prefix@.len()) == deepest(all, path, depth as nat),
            decreases depth,
        {
            let part = first_components(prefix, depth);
            if let Some(route) = catalog::catalog_route(source, &part) {
                self.apply_catalog_route(route);
                return true;
            }
            depth -= 1;
        }
        false
    }

    /// Fills the catalog's pane again, with the same entry selected where it is
    /// still there.
    pub fn reselect_current_catalog(&mut self, source: &Vec<Model>)
        ensures
            ({
                let items = shown_children(views(source@), old(self)@.prefix);
                final(self)@ == (BrowserView {
                    models: ListView { items, cursor: cursor_on(items, chosen_id(old(self)@)) },
                    ..old(self)@
                })
            }),
    {
        assert(self@.models.items.len() == self.models.items@.len());
        let ghost before = self@;
        let items = catalog::catalog_children(source, &self.catalog_prefix);
        assert(views(items@).len() == items@.len());
        let at: usize = match self.models.selected() {
            Some(m) => {
                assert(before.models.chosen() == Some(m@));
                match find_entry(&items, m.id.as_str()) {
                    Some(i) => i,
                    None => 0,
                }
            },
            None => 0,
        };
        let cursor = if items.len() == 0 {
            None
        } else {
            Some(at)
        };
        self.models.items = items;
        self.models.state.select(cursor);
    }
}

/// The browser inside the deepest folder of a path that still exists, whatever pane
/// has the focus; on the folder, where it holds nothing.
pub open spec fn inside_prefix(b: BrowserView, source: Seq<ModelView>, prefix: Seq<Seq<char>>) -> BrowserView {
    match deepest(source, prefix, prefix.len()) {
        None => b,
        Some(route) => {
            let on = on_route(b, route);
            let with = BrowserView { preview: preview_of(source, on.models.chosen()), ..on };
            match with.entered() {
                Some(inside) => inside,
                None => with,
            }
        },
    }
}

/// The browser where it was before its catalog was arranged anew: on the same
/// model, else inside the deepest folder that is still there.
pub open spec fn back_in_place(b: BrowserView, source: Seq<ModelView>, selection: Option<Seq<char>>, prefix: Seq<Seq<char>>) -> BrowserView {
    if selection is Some && jumped(b, source, selection->0) is Some {
        jumped(b, source, selection->0)->0
    } else {
        inside_prefix(b, source, prefix)
    }
}

/// Whether two browsers are at the same place: the same folder with the same
/// entries and selection, the same way to it, the same focus, and the same options.
pub open spec fn same_place(a: BrowserView, b: BrowserView) -> bool {
    &&& a.focus == b.focus
    &&& a.runtimes == b.runtimes
    &&& a.models == b.models
    &&& a.prefix == b.prefix
    &&& a.history == b.history
    &&& a.options == b.options
}

/// Whether what follows from the selected entry is filled.
pub open spec fn follows(b: BrowserView, source: Seq<ModelView>, store: StoreView) -> bool {
    &&& b.preview == preview_of(source, b.models.chosen())
    &&& b.profiles == fresh(b.profiles.items)
    &&& holds_profiles(b.profiles.items, b.runtimes.chosen(), b.model(), store)
}

/// The first entry at a place, from `from` on.
pub open spec fn entry_at(models: Seq<ModelView>, path: Seq<Seq<char>>, from: int) -> Option<int>
    decreases models.len() - from,
{
    if from < 0 || from >= models.len() {
        None
    } else if models[from].catalog_path == path {
        Some(from)
    } else {
        entry_at(models, path, from + 1)
    }
}

/// The first runtime that offers the tree of the Hub, from `from` on.
pub open spec fn browsing_runtime(runtimes: Seq<Backend>, from: int) -> Option<int>
    decreases runtimes.len() - from,
{
    if from < 0 || from >= runtimes.len() {
        None
    } else if runtimes[from].browse_spec() {
        Some(from)
    } else {
        browsing_runtime(runtimes, from + 1)
    }
}

/// The browser with the runtime selected that offers the tree of the Hub.
pub open spec fn on_browsing_runtime(b: BrowserView) -> BrowserView {
    match browsing_runtime(b.runtimes.items, 0) {
        Some(i) => BrowserView {
            runtimes: ListView { cursor: Some(i as usize), ..b.runtimes },
            ..b
        },
        None => b,
    }
}

/// The browser in the folder of the repositories, where it is in the catalog.
pub open spec fn on_repositories(b: BrowserView, source: Seq<ModelView>) -> Option<BrowserView> {
    let top = Seq::<Seq<char>>::empty();
    let online = seq![ONLINE@];
    let root = shown_children(source, top);
    let below = shown_children(source, online);
    match (entry_at(root, online, 0), entry_at(below, hub_place(), 0)) {
        (Some(i), Some(j)) => Some(
            BrowserView {
                focus: Pane::Model,
                models: fresh(shown_children(source, hub_place())),
                prefix: hub_place(),
                history: seq![
                    StepView { items: root, selected: Some(i as usize), prefix: top },
                    StepView { items: below, selected: Some(j as usize), prefix: online },
                ],
                ..b
            },
        ),
        _ => None,
    }
}

fn find_place(models: &Vec<Model>, path: &Vec<String>) -> (r: Option<usize>)
    ensures
        match r {
            Some(i) => i < models.len() && entry_at(views(models@), strs(path@), 0) == Some(
                i as int,
            ),
            None => entry_at(views(models@), strs(path@), 0) is None,
        },
{
    let ghost all = views(models@);
    let ghost goal = strs(path@);
    let mut i: usize = 0;
    while i < models.len()
        invariant
            i <= models.len(),
            all == views(models@),
            goal == strs(path@),
            entry_at(all, goal, 0) == entry_at(all, goal, i as int),
        decreases models.len() - i,
    {
        assert(all[i as int] == models@[i as int]@);
        if text::same_list(&models[i].catalog_path, path) {
            return Some(i);
        }
        i += 1;
    }
    None
}

fn find_browsing_runtime(runtimes: &Vec<Backend>) -> (r: Option<usize>)
    ensures
        match r {
            Some(i) => i < runtimes.len() && browsing_runtime(runtimes@, 0) == Some(i as int),
            None => browsing_runtime(runtimes@, 0) is None,
        },
{
    let mut i: usize = 0;
    while i < runtimes.len()
        invariant
            i <= runtimes.len(),
            browsing_runtime(runtimes@, 0) == browsing_runtime(runtimes@, i as int),
        decreases runtimes.len() - i,
    {
        if runtimes[i].supports_online_browse() {
            return Some(i);
        }
        i += 1;
    }
    None
}

impl BrowserState {
    /// Moves the browser inside the deepest folder of a path that still exists. Gives
    /// whether there is one.
    pub fn descend_to_prefix(&mut self, source: &Vec<Model>, store: &ProfileStore, prefix: &Vec<String>) -> (r: bool)
        requires
            store.wf(),
        ensures
            r == (deepest(views(source@), strs(prefix@), prefix@.len()) is Some),
            if r {
                same_place(final(self)@, inside_prefix(old(self)@, views(source@), strs(prefix@)))
                    && follows(final(self)@, views(source@), store@)
            } else {
                final(self)@ == old(self)@
            },
    {
        assert(strs(prefix@).len() == prefix@.len());
        if !self.select_deepest(source, prefix) {
            return false;
        }
        self.rebuild_below(Pane::Model, source, store);
        if self.enter_directory() {
            self.rebuild_below(Pane::Model, source, store);
        }
        true
    }

    /// Puts the browser back where it was after its catalog was arranged anew: on
    /// the same model, else inside the deepest folder that is still there, else where
    /// it is.
    pub fn restore_catalog_position(&mut self, source: &Vec<Model>, store: &ProfileStore, selection: &Option<String>, prefix: &Vec<String>)
        requires
            store.wf(),
        ensures
            ({
                let found = selection is Some && jumped(
                    old(self)@,
                    views(source@),
                    selection->0@,
                ) is Some;
                if found || deepest(views(source@), strs(prefix@), prefix@.len()) is Some {
                    same_place(
                        final(self)@,
                        back_in_place(
                            old(self)@,
                            views(source@),
                            text::opt(*selection),
                            strs(prefix@),
                        ),
                    ) && follows(final(self)@, views(source@), store@)
                } else {
                    final(self)@ == old(self)@
                }
            }),
    {
        if let Some(id) = selection {
            if self.jump_to_model(source, id.as_str()) {
                self.rebuild_below(Pane::Model, source, store);
                return;
            }
        }
        let _descended = self.descend_to_prefix(source, store, prefix);
    }

    /// Goes to the folder of the repositories, on the runtime that offers it.
    /// Gives whether the folder is in the catalog.
    pub fn show_online_models_root(&mut self, source: &Vec<Model>) -> (r: bool)
        ensures
            ({
                let b = on_browsing_runtime(old(self)@);
                &&& r == (on_repositories(b, views(source@)) is Some)
                &&& final(self)@ == (match on_repositories(b, views(source@)) {
                    Some(there) => there,
                    None => b,
                })
            }),
    {
        if let Some(i) = find_browsing_runtime(&self.runtimes.items) {
            self.runtimes.state.select(Some(i));
        }
        let ghost b = self@;
        assert(b == on_browsing_runtime(old(self)@));
        let top: Vec<String> = Vec::new();
        let mut online: Vec<String> = Vec::new();
        online.push(text::copy(ONLINE));
        let mut hub: Vec<String> = Vec::new();
        hub.push(text::copy(ONLINE));
        hub.push(text::copy(HUGGINGFACE));
        assert(strs(top@) =~= Seq::<Seq<char>>::empty());
        assert(strs(online@) =~= seq![ONLINE@]);
        assert(strs(hub@) =~= hub_place());
        let root = catalog::catalog_children(source, &top);
        let below = catalog::catalog_children(source, &online);
        let i = match find_place(&root, &online) {
            Some(i) => i,
            None => return false,
        };
        let j = match find_place(&below, &hub) {
            Some(j) => j,
            None => return false,
        };
        let mut history: Vec<Step> = Vec::new();
        history.push(Step { items: root, selected: Some(i), prefix: top });
        history.push(Step { items: below, selected: Some(j), prefix: online });
        let items = catalog::catalog_children(source, &hub);
        assert(views(items@).len() == items@.len());
        self.catalog_history = history;
        self.catalog_prefix = hub;
        self.models.replace(items);
        self.focus = Pane::Model;
        assert(self@.history =~= on_repositories(b, views(source@))->0.history);
        true
    }
}

// --- laws --------------------------------------------------------------------

/// Leaving a folder undoes entering it: the entries, the selection and the place
/// are those from before.
pub proof fn law_back_undoes_enter(b: BrowserView)
    requires
        b.entered() is Some,
    ensures
        b.entered()->0.left() == Some(b),
{
    let inside = b.entered()->0;
    assert(inside.history.drop_last() =~= b.history);
}

/// An empty folder cannot be entered, and the topmost one cannot be left.
pub proof fn law_ends_of_the_tree_hold(b: BrowserView)
    ensures
        b.preview.len() == 0 ==> b.entered() is None,
        b.history.len() == 0 ==> b.left() is None,
{
}

/// The focus never goes to a pane that has nothing to show.
pub proof fn law_focus_stays_on_something(b: BrowserView)
    requires
        b.went_in().focus != b.focus,
    ensures
        b.went_in().focus == Pane::Model ==> b.models.items.len() > 0,
        b.went_in().focus == Pane::Profile ==> b.profiles.items.len() > 0,
        b.went_in().focus == Pane::Options ==> b.options.items.len() > 0,
{
}

/// Moving a selection changes nothing else, and stays in the list.
pub proof fn law_moving_keeps_the_rest(b: BrowserView, delta: int)
    ensures
        b.stepped(delta).prefix == b.prefix,
        b.stepped(delta).history == b.history,
        b.stepped(delta).focus == b.focus,
        b.focus == Pane::Model && b.models.items.len() > 0 && b.models.items.len() <= usize::MAX
            ==> b.stepped(delta).models.chosen() is Some,
{
}

// --- where the keys lead -----------------------------------------------------

/// Entering a folder shows what its preview showed, from its first entry on, and the
/// place is that of the folder.
pub proof fn law_entering_shows_the_preview(b: BrowserView, m: ModelView)
    requires
        b.focus == Pane::Model,
        b.models.chosen() == Some(m),
        m.is_catalog_dir(),
        b.preview.len() > 0,
    ensures
        b.went_in().models.items == b.preview,
        b.went_in().models.chosen() == Some(b.preview[0]),
        b.went_in().prefix == m.catalog_path,
        b.went_in().focus == Pane::Model,
        b.went_in().went_back() == b,
{
    law_back_undoes_enter(b);
}

/// Drilling in goes from the runtime to the catalog, from a model to its profiles and
/// from a profile to its options, where there are any; going back undoes it.
pub proof fn law_drilling_in_goes_right(b: BrowserView, m: ModelView)
    ensures
        b.focus == Pane::Runtime && b.models.items.len() > 0 ==> b.went_in() == (BrowserView {
            focus: Pane::Model,
            ..b
        }),
        b.focus == Pane::Model && b.models.chosen() == Some(m) && !m.is_catalog_dir()
            && b.profiles.items.len() > 0 ==> b.went_in() == (BrowserView {
            focus: Pane::Profile,
            ..b
        }),
        b.focus == Pane::Profile && b.options.items.len() > 0 ==> b.went_in() == (BrowserView {
            focus: Pane::Options,
            ..b
        }),
        b.focus == Pane::Options ==> b.went_in() == b,
        b.focus == Pane::Options ==> b.went_back() == (BrowserView { focus: Pane::Profile, ..b }),
        b.focus == Pane::Profile ==> b.went_back() == (BrowserView { focus: Pane::Model, ..b }),
        b.focus == Pane::Model && b.history.len() == 0 ==> b.went_back() == (BrowserView {
            focus: Pane::Runtime,
            ..b
        }),
{
}

/// The first and the last key go to the ends of a list, and a step to the entry beside.
pub proof fn law_keys_move_in_the_list<T>(l: ListView<T>, i: usize)
    requires
        l.cursor == Some(i),
        i < l.items.len() <= usize::MAX,
    ensures
        l.first().chosen() == Some(l.items[0]),
        l.last().chosen() == Some(l.items[l.items.len() - 1]),
        i + 1 < l.items.len() ==> l.stepped(1).chosen() == Some(l.items[i + 1]),
        i + 1 == l.items.len() ==> l.stepped(1).chosen() == l.chosen(),
        i > 0 ==> l.stepped(-1).chosen() == Some(l.items[i - 1]),
        i == 0 ==> l.stepped(-1).chosen() == l.chosen(),
        l.first().items == l.items && l.last().items == l.items && l.stepped(1).items == l.items,
{
}

/// The keys act on the focused list and on no other.
pub proof fn law_keys_act_on_the_focus(b: BrowserView, delta: int)
    ensures
        b.focus == Pane::Runtime ==> b.stepped(delta).runtimes == b.runtimes.stepped(delta)
            && b.at_first().runtimes == b.runtimes.first() && b.at_last().runtimes
            == b.runtimes.last(),
        b.focus == Pane::Model ==> b.stepped(delta).models == b.models.stepped(delta)
            && b.at_first().models == b.models.first() && b.at_last().models == b.models.last(),
        b.focus == Pane::Profile ==> b.stepped(delta).profiles == b.profiles.stepped(delta)
            && b.at_first().profiles == b.profiles.first() && b.at_last().profiles
            == b.profiles.last(),
        b.focus == Pane::Options ==> b.stepped(delta).options == b.options.stepped(delta)
            && b.at_first().options == b.options.first() && b.at_last().options
            == b.options.last(),
        b.focus != Pane::Options ==> b.stepped(delta).options == b.options,
        b.focus != Pane::Profile ==> b.stepped(delta).profiles == b.profiles,
        b.focus != Pane::Model ==> b.stepped(delta).models == b.models,
        b.focus != Pane::Runtime ==> b.stepped(delta).runtimes == b.runtimes,
{
}

proof fn lemma_entry_of(models: Seq<ModelView>, id: Seq<char>, from: int)
    requires
        0 <= from <= models.len(),
    ensures
        match entry_of(models, id, from) {
            Some(i) => from <= i < models.len() && models[i].id == id,
            None => forall|k: int| from <= k < models.len() ==> (#[trigger] models[k]).id != id,
        },
    decreases models.len() - from,
{
    if from < models.len() {
        lemma_entry_of(models, id, from + 1);
    }
}

/// A list that is filled anew keeps its selection where the entry is still there, and
/// else starts at the top.
pub proof fn law_the_selection_is_kept(items: Seq<ModelView>, id: Seq<char>, i: int)
    requires
        0 <= i < items.len() <= usize::MAX,
    ensures
        items[i].id == id ==> cursor_on(items, Some(id)) is Some && items[cursor_on(
            items,
            Some(id),
        )->0 as int].id == id,
        (forall|k: int| 0 <= k < items.len() ==> (#[trigger] items[k]).id != id) ==> cursor_on(
            items,
            Some(id),
        ) == Some(0usize),
{
    lemma_entry_of(items, id, 0);
}

/// A jump to a model leads to the place of an entry with its identity: the catalog has
/// the focus and the entry of that name is selected.
pub proof fn law_jumps_land_on_the_model(b: BrowserView, source: Seq<ModelView>, id: Seq<char>)
    requires
        jumped(b, source, id) is Some,
        forall|p: Seq<Seq<char>>| (#[trigger] shown_children(source, p)).len() <= usize::MAX,
    ensures
        ({
            let there = jumped(b, source, id)->0;
            &&& there.focus == Pane::Model
            &&& there.models.chosen() is Some
            &&& there.models.items == shown_children(source, there.prefix)
            &&& exists|k: int|
                0 <= k < source.len() && (#[trigger] source[k]).id == id
                    && there.models.chosen()->0.display_label() == source[k].catalog_path.last()
                    && there.history.len() == source[k].catalog_path.len() - 1
        }),
{
    lemma_entry_of(source, id, 0);
    let k = entry_of(source, id, 0)->0;
    catalog::law_ways_end_on_their_entry(source, source[k].catalog_path);
    let r = route_to(source, source[k].catalog_path)->0;
    assert(r.items == shown_children(source, r.prefix));
    assert(source[k].id == id);
}

proof fn lemma_browsing_runtime(runtimes: Seq<Backend>, from: int)
    requires
        0 <= from <= runtimes.len(),
    ensures
        match browsing_runtime(runtimes, from) {
            Some(i) => from <= i < runtimes.len() && runtimes[i].browse_spec(),
            None => forall|k: int|
                from <= k < runtimes.len() ==> !(#[trigger] runtimes[k]).browse_spec(),
        },
    decreases runtimes.len() - from,
{
    if from < runtimes.len() {
        lemma_browsing_runtime(runtimes, from + 1);
    }
}

/// The tree of the Hub is shown on a runtime that offers it, where there is one.
pub proof fn law_the_hub_is_shown_where_it_is_offered(b: BrowserView, i: int)
    requires
        0 <= i < b.runtimes.items.len() <= usize::MAX,
        b.runtimes.items[i].browse_spec(),
    ensures
        on_browsing_runtime(b).runtimes.chosen() is Some,
        on_browsing_runtime(b).runtimes.chosen()->0.browse_spec(),
{
    lemma_browsing_runtime(b.runtimes.items, 0);
}

/// The folder of the repositories is entered from the top: two steps back lead out of
/// it, by way of the online tree.
pub proof fn law_the_repositories_are_two_deep(b: BrowserView, source: Seq<ModelView>)
    requires
        on_repositories(b, source) is Some,
    ensures
        ({
            let there = on_repositories(b, source)->0;
            let online = there.went_back();
            let top = online.went_back();
            &&& there.focus == Pane::Model
            &&& there.prefix == seq!["online"@, "huggingface"@]
            &&& there.models.items == shown_children(source, seq!["online"@, "huggingface"@])
            &&& online.prefix == seq!["online"@]
            &&& online.models.items == shown_children(source, seq!["online"@])
            &&& top.prefix.len() == 0 && top.history.len() == 0
        }),
{
    let there = on_repositories(b, source)->0;
    assert(there.history.drop_last().len() == 1);
    assert(there.went_back().history.drop_last().len() == 0);
}

/// The options are those of the selected model and profile on the selected runtime, and
/// without any of the three there are none.
pub proof fn law_options_are_of_the_selection(b: BrowserView, store: StoreView, defaults: Defaults, readings: Seq<FloatReading>, backend: Backend, m: ModelView, p: ProfileView)
    ensures
        b.runtimes.chosen() == Some(backend) && b.model() == Some(m) && b.profiles.chosen() == Some(
            p,
        ) ==> options_at(b, store, defaults, readings) == resolved_items(
            &backend,
            (Layers {
                model: m,
                profile: p.name,
                store,
                host: defaults.host@,
                port: defaults.port,
            }),
            readings,
        ),
        b.runtimes.chosen() is None || b.model() is None || b.profiles.chosen() is None
            ==> options_at(b, store, defaults, readings).len() == 0,
{
}

/// Beside a folder stands what it holds, and beside anything else nothing.
pub proof fn law_folders_are_previewed(source: Seq<ModelView>, m: ModelView)
    ensures
        m.is_catalog_dir() ==> preview_of(source, Some(m)) == shown_children(
            source,
            m.catalog_path,
        ),
        !m.is_catalog_dir() ==> preview_of(source, Some(m)).len() == 0,
        preview_of(source, None).len() == 0,
{
}

/// The catalog of a runtime starts at its top, on its first entry, and without a runtime
/// there is none.
pub proof fn law_the_catalog_starts_at_the_top(b: BrowserView, source: Seq<ModelView>)
    ensures
        at_root(b, source).prefix.len() == 0,
        at_root(b, source).history.len() == 0,
        b.runtimes.chosen() is Some ==> at_root(b, source).models.items == shown_children(
            source,
            Seq::<Seq<char>>::empty(),
        ),
        b.runtimes.chosen() is None ==> at_root(b, source).models.items.len() == 0,
        at_root(b, source).models.items.len() > 0 ==> at_root(b, source).models.chosen() == Some(
            at_root(b, source).models.items[0],
        ),
{
}

/// A profile is found by its name: the first of that name, and none only where no
/// profile has it.
pub proof fn law_profiles_are_found_by_name(profiles: Seq<ProfileView>, name: Seq<char>, from: int)
    requires
        0 <= from <= profiles.len(),
    ensures
        match profile_named(profiles, name, from) {
            Some(i) => from <= i < profiles.len() && profiles[i].name == name && forall|k: int|
                from <= k < i ==> (#[trigger] profiles[k]).name != name,
            None => forall|k: int|
                from <= k < profiles.len() ==> (#[trigger] profiles[k]).name != name,
        },
    decreases profiles.len() - from,
{
    if from < profiles.len() {
        law_profiles_are_found_by_name(profiles, name, from + 1);
    }
}

/// Of a place that is gone, the deepest folder that is still there is taken: a way leads
/// to it, and none leads to any folder between.
pub proof fn law_the_deepest_folder_is_taken(source: Seq<ModelView>, path: Seq<Seq<char>>, depth: nat)
    requires
        depth <= path.len(),
    ensures
        match deepest(source, path, depth) {
            Some(route) => exists|k: int|
                1 <= k <= depth && #[trigger] route_to(source, path.take(k)) == Some(route)
                    && forall|j: int|
                    k < j <= depth ==> #[trigger] route_to(source, path.take(j)) is None,
            None => forall|k: int|
                1 <= k <= depth ==> #[trigger] route_to(source, path.take(k)) is None,
        },
    decreases depth,
{
    if depth > 0 {
        if route_to(source, path.take(depth as int)) is None {
            law_the_deepest_folder_is_taken(source, path, (depth - 1) as nat);
            if let Some(route) = deepest(source, path, depth) {
                let k = choose|k: int|
                    1 <= k <= depth - 1 && #[trigger] route_to(source, path.take(k)) == Some(route)
                        && forall|j: int|
                        k < j <= depth - 1 ==> #[trigger] route_to(source, path.take(j)) is None;
                assert forall|j: int| k < j <= depth implies #[trigger] route_to(
                    source,
                    path.take(j),
                ) is None by {}
                assert(route_to(source, path.take(k)) == Some(route));
            }
        } else {
            assert(route_to(source, path.take(depth as int)) == deepest(source, path, depth));
        }
    }
}

/// After a catalog was arranged anew, the browser is on the same model where a way still
/// leads to it.
pub proof fn law_the_model_is_found_again(b: BrowserView, source: Seq<ModelView>, id: Seq<char>, prefix: Seq<Seq<char>>)
    ensures
        jumped(b, source, id) is Some ==> back_in_place(b, source, Some(id), prefix) == jumped(
            b,
            source,
            id,
        )->0,
        jumped(b, source, id) is None && deepest(source, prefix, prefix.len()) is None
            ==> back_in_place(b, source, Some(id), prefix) == b,
{
}

} // verus!
