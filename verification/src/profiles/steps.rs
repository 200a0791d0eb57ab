//! Edits of the profile store that reach the disk, step by step: what to do on disk
//! next, and what the store holds after each outcome.

use vstd::prelude::*;
use crate::profiles::store::{
    deleted, key, key_view, rename_refusal, renamed, same_error, with_instance, without_instance,
    DeleteDisk, InstanceView, Key, KeyView, ProfileStore, Removed, RenameDisk, StoreError,
    StoreView,
};
use crate::text::opt;

verus! {

/// What an edit waits for.
#[derive(Debug, Clone, Copy, PartialEq, Eq, Structural)]
pub enum Stage {
    /// The file of the new instance.
    Writing,
    /// The common file, with the new instance in the store.
    Saving,
    /// The removal of the old instance's file.
    Unlinking,
    /// The common file, with the old instance out of the store.
    Leaving,
    Ended,
}

/// An edit under way: an instance that is new or changed, one that goes, or both
/// where a profile is renamed.
#[derive(Debug)]
pub struct Edit {
    pub new: Option<Key>,
    pub old: Option<Key>,
    pub stage: Stage,
    pub removed: Removed,
}

pub struct EditView {
    pub new: Option<KeyView>,
    pub old: Option<KeyView>,
    pub stage: Stage,
    pub instance: Option<InstanceView>,
    pub was_fallback: bool,
}

/// The view of an optional key.
pub open spec fn key_of(o: Option<Key>) -> Option<KeyView> {
    match o {
        Some(k) => Some(k@),
        None => None,
    }
}

impl View for Edit {
    type V = EditView;

    open spec fn view(&self) -> EditView {
        EditView {
            new: key_of(self.new),
            old: key_of(self.old),
            stage: self.stage,
            instance: match self.removed.instance {
                Some(i) => Some(i@),
                None => None,
            },
            was_fallback: self.removed.was_fallback,
        }
    }
}

/// What to do on disk next.
#[derive(Debug)]
pub enum Action {
    /// Write the file of an instance.
    Write(Key),
    /// Save the common file.
    Save,
    /// Remove the file of an instance.
    Unlink(Key),
    /// Nothing more: the edit is done, or failed for the given reason.
    End(Option<String>),
    Nothing,
}

pub enum ActionView {
    Write(KeyView),
    Save,
    Unlink(KeyView),
    End(Option<Seq<char>>),
    Nothing,
}

impl View for Action {
    type V = ActionView;

    open spec fn view(&self) -> ActionView {
        match self {
            Action::Write(k) => ActionView::Write(k@),
            Action::Save => ActionView::Save,
            Action::Unlink(k) => ActionView::Unlink(k@),
            Action::End(e) => ActionView::End(opt(*e)),
            Action::Nothing => ActionView::Nothing,
        }
    }
}

/// The store once it is known whether an instance's file was written.
pub open spec fn noted(store: StoreView, k: KeyView, written: bool) -> StoreView {
    StoreView {
        fallback: if written {
            store.fallback.remove(k)
        } else {
            store.fallback.insert(k)
        },
        ..store
    }
}

/// The store with an instance put back as it was.
pub open spec fn put_back(store: StoreView, k: KeyView, instance: Option<InstanceView>, was_fallback: bool) -> StoreView {
    StoreView {
        instances: match instance {
            Some(i) => store.instances.insert(k, i),
            None => store.instances,
        },
        model_dirs: store.model_dirs,
        fallback: if was_fallback {
            store.fallback.insert(k)
        } else {
            store.fallback
        },
    }
}

impl EditView {
    /// An edit that waits for something of an instance has that instance.
    pub open spec fn wf(self) -> bool {
        &&& (self.stage == Stage::Writing || self.stage == Stage::Saving) ==> self.new is Some
        &&& (self.stage == Stage::Unlinking || self.stage == Stage::Leaving) ==> self.old is Some
    }

    /// The edit at its end.
    pub open spec fn ended(self, error: Option<Seq<char>>) -> (EditView, ActionView) {
        (EditView { stage: Stage::Ended, ..self }, ActionView::End(error))
    }

    /// What follows on an outcome, `error` being why it failed: for the edit, for the
    /// store, and on disk. The new instance is durable before the old one's file
    /// goes; a renaming that cannot be saved takes the new instance back, and a
    /// removal that cannot be saved puts the old one back.
    pub open spec fn advanced(self, store: StoreView, error: Option<Seq<char>>) -> (EditView, StoreView, ActionView) {
        match self.stage {
            Stage::Writing => (
                EditView { stage: Stage::Saving, ..self },
                noted(store, self.new->0, error is None),
                ActionView::Save,
            ),
            Stage::Saving => match (error, self.old) {
                (None, Some(old)) => (
                    EditView { stage: Stage::Unlinking, ..self },
                    store,
                    ActionView::Unlink(old),
                ),
                (Some(_), Some(_)) => (
                    self.ended(error).0,
                    without_instance(store, self.new->0),
                    self.ended(error).1,
                ),
                (_, None) => (self.ended(error).0, store, self.ended(error).1),
            },
            Stage::Unlinking => match error {
                Some(_) => (self.ended(error).0, store, self.ended(error).1),
                None => (
                    EditView {
                        stage: Stage::Leaving,
                        instance: if store.instances.dom().contains(self.old->0) {
                            Some(store.instances[self.old->0])
                        } else {
                            None
                        },
                        was_fallback: store.fallback.contains(self.old->0),
                        ..self
                    },
                    without_instance(store, self.old->0),
                    ActionView::Save,
                ),
            },
            Stage::Leaving => (
                self.ended(error).0,
                match error {
                    Some(_) => put_back(store, self.old->0, self.instance, self.was_fallback),
                    None => store,
                },
                self.ended(error).1,
            ),
            Stage::Ended => (self, store, ActionView::Nothing),
        }
    }
}

fn nothing_removed() -> (r: Removed)
    ensures
        r.instance is None,
        !r.was_fallback,
{
    Removed { instance: None, was_fallback: false }
}

impl Edit {
    /// Whether the edit is sound: what it may put back has one value per option.
    pub open spec fn wf(self) -> bool {
        self@.wf() && (self.removed.instance is Some ==> self.removed.instance->0.values.wf())
    }

    /// An edit that changed an instance: its file is to be written.
    pub fn persist(k: &Key) -> (r: (Edit, Action))
        ensures
            r.0.wf(),
            r.0@ == (EditView {
                new: Some(k@),
                old: None,
                stage: Stage::Writing,
                instance: None,
                was_fallback: false,
            }),
            r.1@ == ActionView::Write(k@),
    {
        (
            Edit {
                new: Some(k.clone()),
                old: None,
                stage: Stage::Writing,
                removed: nothing_removed(),
            },
            Action::Write(k.clone()),
        )
    }

    /// An edit that deletes an instance: its file is to go first, so that a profile
    /// does not vanish only to come back.
    pub fn delete(k: &Key) -> (r: (Edit, Action))
        ensures
            r.0.wf(),
            r.0@ == (EditView {
                new: None,
                old: Some(k@),
                stage: Stage::Unlinking,
                instance: None,
                was_fallback: false,
            }),
            r.1@ == ActionView::Unlink(k@),
    {
        (
            Edit {
                new: None,
                old: Some(k.clone()),
                stage: Stage::Unlinking,
                removed: nothing_removed(),
            },
            Action::Unlink(k.clone()),
        )
    }

    /// An edit that renames a profile: the new instance is made, where that is
    /// allowed, and its file is to be written. Nothing is to be done where the names
    /// are the same.
    pub fn rename(store: &mut ProfileStore, from: &Key, to: &Key) -> (r: Result<(Edit, Action), StoreError>)
        requires
            old(store).wf(),
            from@.runtime == to@.runtime,
            from@.model == to@.model,
        ensures
            final(store).wf(),
            match (rename_refusal(old(store)@, from@, to@), r) {
                (Some(e), Err(error)) => same_error(error, e) && final(store)@ == old(store)@,
                (None, Ok((edit, action))) => edit.wf() && if from@ == to@ {
                    final(store)@ == old(store)@ && edit@.stage == Stage::Ended && action@
                        == ActionView::End(None)
                } else {
                    &&& final(store)@ == with_instance(
                        old(store)@,
                        to@,
                        old(store)@.instances[from@],
                        true,
                    )
                    &&& edit@ == (EditView {
                        new: Some(to@),
                        old: Some(from@),
                        stage: Stage::Writing,
                        instance: None,
                        was_fallback: false,
                    })
                    &&& action@ == ActionView::Write(to@)
                },
                _ => false,
            },
    {
        let begun = store.begin_rename(
            from.runtime.as_str(),
            from.model.as_str(),
            from.profile.as_str(),
            to.profile.as_str(),
            true,
        );
        assert(key_view(from.runtime@, from.model@, from.profile@) == from@);
        assert(key_view(from.runtime@, from.model@, to.profile@) == to@);
        match begun {
            Err(e) => Err(e),
            Ok(false) => Ok(
                (
                    Edit { new: None, old: None, stage: Stage::Ended, removed: nothing_removed() },
                    Action::End(None),
                ),
            ),
            Ok(true) => Ok(
                (
                    Edit {
                        new: Some(to.clone()),
                        old: Some(from.clone()),
                        stage: Stage::Writing,
                        removed: nothing_removed(),
                    },
                    Action::Write(to.clone()),
                ),
            ),
        }
    }

    fn end(&mut self, error: Option<String>) -> (r: Action)
        requires
            old(self).wf(),
        ensures
            final(self).wf(),
            (final(self)@, r@) == old(self)@.ended(opt(error)),
    {
        self.stage = Stage::Ended;
        Action::End(error)
    }

    /// Takes the outcome of the last action, `error` being why it failed, and says
    /// what to do on disk next.
    pub fn step(&mut self, store: &mut ProfileStore, error: Option<String>) -> (r: Action)
        requires
            old(self).wf(),
            old(store).wf(),
        ensures
            final(self).wf(),
            final(store).wf(),
            (final(self)@, final(store)@, r@) == old(self)@.advanced(old(store)@, opt(error)),
    {
        match self.stage {
            Stage::Writing => {
                if let Some(k) = &self.new {
                    store.note_written(k, error.is_none());
                }
                self.stage = Stage::Saving;
                Action::Save
            },
            Stage::Saving => {
                let next = match &self.old {
                    Some(k) => k.clone(),
                    None => return self.end(error),
                };
                if error.is_none() {
                    self.stage = Stage::Unlinking;
                    Action::Unlink(next)
                } else {
                    if let Some(k) = &self.new {
                        store.remove(k);
                    }
                    self.end(error)
                }
            },
            Stage::Unlinking => {
                if error.is_some() {
                    return self.end(error);
                }
                if let Some(k) = &self.old {
                    self.removed = store.remove(k);
                }
                self.stage = Stage::Leaving;
                Action::Save
            },
            Stage::Leaving => {
                if error.is_some() {
                    let mut back = nothing_removed();
                    if let Some(i) = &self.removed.instance {
                        back.instance = Some(i.clone());
                    }
                    back.was_fallback = self.removed.was_fallback;
                    if let Some(k) = &self.old {
                        store.restore(k, back);
                    }
                }
                self.end(error)
            },
            Stage::Ended => Action::Nothing,
        }
    }
}

fn ended_with(action: Action) -> (r: Result<(), StoreError>)
    ensures
        match action@ {
            ActionView::End(Some(e)) => r is Err && r->Err_0 is Io && r->Err_0->Io_0@ == e,
            _ => r is Ok,
        },
{
    match action {
        Action::End(Some(e)) => Err(StoreError::Io(e)),
        _ => Ok(()),
    }
}

fn copy_error(e: &Option<String>) -> (r: Option<String>)
    ensures
        opt(r) == opt(*e),
{
    match e {
        Some(s) => Some(s.clone()),
        None => None,
    }
}

impl ProfileStore {
    /// Deletes a profile, with what came of each step on disk: where its file or the
    /// common file stays as it was, so does the profile.
    pub fn delete(&mut self, runtime: &str, model: &str, profile: &str, disk: &DeleteDisk) -> (r: Result<(), StoreError>)
        requires
            old(self).wf(),
        ensures
            final(self).wf(),
            deleted(old(self)@, key_view(runtime@, model@, profile@), *disk, final(self)@, r),
    {
        let ghost start = self@;
        let (mut edit, _) = Edit::delete(&key(runtime, model, profile));
        let unlinked = edit.step(self, copy_error(&disk.unlink));
        if let Action::End(_) = &unlinked {
            return ended_with(unlinked);
        }
        let saved = edit.step(self, copy_error(&disk.legacy));
        proof {
            if disk.legacy is Some {
                assert(self@.instances =~= start.instances);
                assert(self@.fallback =~= start.fallback);
            }
        }
        ended_with(saved)
    }

    /// Renames a profile, with what came of each step on disk: the new name is
    /// durable before the old one goes. Where it cannot be made durable, the old
    /// profile stays alone; where the old one cannot be deleted, both stay.
    pub fn rename(&mut self, runtime: &str, model: &str, old_name: &str, new_name: &str, disk: &RenameDisk) -> (r: Result<(), StoreError>)
        requires
            old(self).wf(),
        ensures
            final(self).wf(),
            renamed(
                old(self)@,
                key_view(runtime@, model@, old_name@),
                key_view(runtime@, model@, new_name@),
                *disk,
                final(self)@,
                r,
            ),
    {
        let ghost start = self@;
        let from = key(runtime, model, old_name);
        let to = key(runtime, model, new_name);
        let (mut edit, first) = match Edit::rename(self, &from, &to) {
            Err(e) => return Err(e),
            Ok(begun) => begun,
        };
        if let Action::End(_) = &first {
            return Ok(());
        }
        let failed = if disk.written {
            None
        } else {
            Some(String::new())
        };
        edit.step(self, failed);
        let ghost both = with_instance(start, to@, start.instances[from@], disk.written);
        proof {
            assert(self@.fallback =~= both.fallback);
            assert(self@ == both);
        }
        let saved = edit.step(self, copy_error(&disk.legacy));
        if let Action::End(_) = &saved {
            return ended_with(saved);
        }
        let unlinked = edit.step(self, copy_error(&disk.delete.unlink));
        if let Action::End(_) = &unlinked {
            return ended_with(unlinked);
        }
        let left = edit.step(self, copy_error(&disk.delete.legacy));
        proof {
            if disk.delete.legacy is Some {
                assert(self@.instances =~= both.instances);
                assert(self@.fallback =~= both.fallback);
            }
        }
        ended_with(left)
    }
}

// --- laws --------------------------------------------------------------------

/// A step takes an instance out of the store in two cases only: the old one once its
/// file is gone, and the new one of a renaming that could not be saved.
pub proof fn law_steps_take_out_only_their_own(e: EditView, store: StoreView, error: Option<Seq<char>>, k: KeyView)
    requires
        e.wf(),
        store.instances.dom().contains(k),
        !e.advanced(store, error).1.instances.dom().contains(k),
    ensures
        (e.stage == Stage::Unlinking && e.old == Some(k) && error is None) || (e.stage
            == Stage::Saving && e.new == Some(k) && e.old is Some && error is Some),
{
}

/// An instance's file is removed only once the common file was saved with the new
/// instance in it, or where there is no new instance.
pub proof fn law_files_go_last(e: EditView, store: StoreView, error: Option<Seq<char>>)
    requires
        e.advanced(store, error).2 is Unlink,
    ensures
        e.stage == Stage::Saving && error is None && e.advanced(store, error).2 == ActionView::Unlink(
            e.old->0,
        ),
{
}

/// An edit comes to its end: after four outcomes nothing is left to do.
pub proof fn law_edits_end(e: EditView, a: StoreView, b: StoreView, c: StoreView, d: StoreView, w: Option<Seq<char>>, x: Option<Seq<char>>, y: Option<Seq<char>>, z: Option<Seq<char>>)
    ensures
        e.advanced(a, w).0.advanced(b, x).0.advanced(c, y).0.advanced(d, z).0.stage == Stage::Ended,
{
}

/// A change that goes well is written to its own file and leaves the common one; where
/// its file cannot be written it is kept in the common file, and where that fails too
/// the edit says why.
pub proof fn law_changes_are_written_or_kept(store: StoreView, k: KeyView, e: Seq<char>, f: Seq<char>)
    ensures
        ({
            let edit = EditView {
                new: Some(k),
                old: None,
                stage: Stage::Writing,
                instance: None,
                was_fallback: false,
            };
            let (a, s, save) = edit.advanced(store, None);
            let (b, t, again) = edit.advanced(store, Some(e));
            &&& save is Save && !s.fallback.contains(k) && s.instances == store.instances
            &&& again is Save && t.fallback.contains(k) && t.instances == store.instances
            &&& a.advanced(s, None).2 == ActionView::End(None)
            &&& b.advanced(t, None).2 == ActionView::End(None)
            &&& b.advanced(t, Some(f)).2 == ActionView::End(Some(f))
            &&& b.advanced(t, Some(f)).1 == t
        }),
{
}

/// A renaming that goes well ends with what the old name had under the new one alone,
/// and a deletion with nothing under the name; on disk the old file goes in between.
pub proof fn law_renamings_and_deletions_go_through(store: StoreView, from: KeyView, to: KeyView)
    requires
        store.instances.dom().contains(from),
        !store.instances.dom().contains(to),
    ensures
        ({
            let begun = with_instance(store, to, store.instances[from], true);
            let edit = EditView {
                new: Some(to),
                old: Some(from),
                stage: Stage::Writing,
                instance: None,
                was_fallback: false,
            };
            let (a, s, save) = edit.advanced(begun, None);
            let (b, t, unlink) = a.advanced(s, None);
            let (c, u, again) = b.advanced(t, None);
            let (d, v, end) = c.advanced(u, None);
            &&& save is Save && unlink == ActionView::Unlink(from) && again is Save
            &&& end == ActionView::End(None)
            &&& v.instances == store.instances.insert(to, store.instances[from]).remove(from)
        }),
        ({
            let edit = EditView {
                new: None,
                old: Some(from),
                stage: Stage::Unlinking,
                instance: None,
                was_fallback: false,
            };
            let (a, s, save) = edit.advanced(store, None);
            let (b, t, end) = a.advanced(s, None);
            &&& save is Save && end == ActionView::End(None)
            &&& t.instances == store.instances.remove(from)
        }),
{
}

/// A deletion that cannot be saved leaves the profile as it was.
pub proof fn law_failed_deletions_are_undone(store: StoreView, k: KeyView, e: Seq<char>)
    requires
        store.instances.dom().contains(k),
    ensures
        ({
            let edit = EditView {
                new: None,
                old: Some(k),
                stage: Stage::Unlinking,
                instance: None,
                was_fallback: false,
            };
            let (a, s, save) = edit.advanced(store, None);
            let (b, t, end) = a.advanced(s, Some(e));
            &&& t.instances == store.instances && t.fallback == store.fallback
            &&& end == ActionView::End(Some(e))
            &&& edit.advanced(store, Some(e)).1 == store
            &&& edit.advanced(store, Some(e)).2 == ActionView::End(Some(e))
        }),
{
    let s = without_instance(store, k);
    assert(s.instances.insert(k, store.instances[k]) =~= store.instances);
    if store.fallback.contains(k) {
        assert(s.fallback.insert(k) =~= store.fallback);
    } else {
        assert(s.fallback =~= store.fallback);
    }
}

} // verus!
