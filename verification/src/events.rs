//! What a workspace does when something happens in its project or to its window.

use crate::context::{AutosaveSetting, Context, ContextView, Effect, EffectView, WorktreeView};
use crate::error::Error;
use crate::path::{PathBuf, ProjectPath, ProjectPathView};
use crate::proto::PeerId;
use crate::serialized::{WindowBounds, WorkspaceId};
use crate::workspace::{deleted_entry_effects, pane_items, state, State, Workspace, WorkspaceView};
use vstd::prelude::*;

verus! {

/// What happens in the project of a workspace.
#[derive(Debug, PartialEq, Eq)]
pub enum ProjectEvent {
    RemoteIdChanged(Option<u64>),
    CollaboratorLeft(PeerId),
    WorktreeAdded,
    WorktreeRemoved(u64),
    DisconnectedFromHost,
    Closed,
    DeletedEntry(u64),
    Notification(String),
    Other,
}

#[verifier::ext_equal]
pub enum ProjectEventView {
    RemoteIdChanged(Option<u64>),
    CollaboratorLeft(PeerId),
    WorktreeAdded,
    WorktreeRemoved(u64),
    DisconnectedFromHost,
    Closed,
    DeletedEntry(u64),
    Notification(Seq<char>),
    Other,
}

impl View for ProjectEvent {
    type V = ProjectEventView;

    open spec fn view(&self) -> ProjectEventView {
        match *self {
            ProjectEvent::RemoteIdChanged(id) => ProjectEventView::RemoteIdChanged(id),
            ProjectEvent::CollaboratorLeft(peer_id) => ProjectEventView::CollaboratorLeft(peer_id),
            ProjectEvent::WorktreeAdded => ProjectEventView::WorktreeAdded,
            ProjectEvent::WorktreeRemoved(id) => ProjectEventView::WorktreeRemoved(id),
            ProjectEvent::DisconnectedFromHost => ProjectEventView::DisconnectedFromHost,
            ProjectEvent::Closed => ProjectEventView::Closed,
            ProjectEvent::DeletedEntry(entry) => ProjectEventView::DeletedEntry(entry),
            ProjectEvent::Notification(message) => ProjectEventView::Notification(message@),
            ProjectEvent::Other => ProjectEventView::Other,
        }
    }
}

/// Whether items are saved when the window is no longer active.
pub open spec fn saves_on_deactivation(autosave: AutosaveSetting) -> bool {
    autosave == AutosaveSetting::OnWindowChange || autosave == AutosaveSetting::OnFocusChange
}

/// What a pane is asked when the window is no longer active: its active item is told, and all
/// its items are saved where the settings say so.
pub open spec fn pane_deactivation(cx: ContextView, pane: u64) -> Seq<EffectView> {
    let told = match cx.pane(pane) {
        Some(pane) => match pane.active_item() {
            Some(item) => seq![EffectView::WorkspaceDeactivated(item)],
            None => Seq::empty(),
        },
        None => Seq::empty(),
    };
    if saves_on_deactivation(cx.autosave) {
        told + pane_items(cx, pane).map_values(|item: u64| EffectView::AutosaveItem(item))
    } else {
        told
    }
}

/// What all panes are asked when the window is no longer active.
pub open spec fn deactivation(cx: ContextView, panes: Seq<u64>) -> Seq<EffectView>
    decreases panes.len(),
{
    if panes.len() == 0 {
        Seq::empty()
    } else {
        deactivation(cx, panes.drop_last()) + pane_deactivation(cx, panes.last())
    }
}

/// The numbers of the worktrees that `chosen` picks, in order.
pub open spec fn worktree_ids(worktrees: Seq<WorktreeView>, chosen: spec_fn(WorktreeView) -> bool) -> Seq<u64>
    decreases worktrees.len(),
{
    if worktrees.len() == 0 {
        Seq::empty()
    } else {
        let before = worktree_ids(worktrees.drop_last(), chosen);
        if chosen(worktrees.last()) {
            before.push(worktrees.last().id)
        } else {
            before
        }
    }
}

/// The paths of all files, worktree by worktree.
pub open spec fn file_paths(worktrees: Seq<WorktreeView>) -> Seq<ProjectPathView>
    decreases worktrees.len(),
{
    if worktrees.len() == 0 {
        Seq::empty()
    } else {
        let last = worktrees.last();
        file_paths(worktrees.drop_last()) + Seq::new(
            last.files.len(),
            |i: int| ProjectPathView { worktree_id: last.id, path: last.files[i] },
        )
    }
}

impl State {
    /// What an event in the project leads to, before the workspace is shown again.
    pub open spec fn react_to_project(self, event: ProjectEventView) -> State {
        match event {
            ProjectEventView::RemoteIdChanged(_) => self.update_window_title(),
            ProjectEventView::CollaboratorLeft(peer_id) => self.collaborator_left(peer_id),
            ProjectEventView::WorktreeAdded => self.update_window_title().serialize_workspace(),
            ProjectEventView::WorktreeRemoved(_) => self.update_window_title().serialize_workspace(),
            ProjectEventView::DisconnectedFromHost => {
                let edited = self.update_window_edited();
                State { cx: edited.cx.blur(), ..edited }
            },
            ProjectEventView::Closed => self.emit(EffectView::RemoveWindow),
            ProjectEventView::DeletedEntry(entry) => State {
                cx: self.cx.emit_all(deleted_entry_effects(self.workspace.panes, entry)),
                ..self
            },
            ProjectEventView::Notification(message) => self.emit(
                EffectView::ShowNotification { id: 0, message },
            ),
            ProjectEventView::Other => self,
        }
    }

    pub open spec fn handle_project_event(self, event: ProjectEventView) -> State {
        self.react_to_project(event).notify()
    }

    /// An active window tells the followers what is active and is noted as used; otherwise
    /// the panes are told, and saved where the settings say so.
    pub open spec fn on_window_activation_changed(self) -> State {
        if self.cx.window_active {
            self.update_active_view_for_followers().emit(
                EffectView::UpdateTimestamp(self.workspace.database_id),
            )
        } else {
            State { cx: self.cx.emit_all(deactivation(self.cx, self.workspace.panes)), ..self }
        }
    }
}

/// What is asked for when a window has moved: its bounds are stored if its display is known.
pub open spec fn window_bounds_effects(id: WorkspaceId, stored: Option<(WindowBounds, u128)>) -> Seq<EffectView> {
    match stored {
        Some((bounds, display)) => seq![
            EffectView::SaveWindowBounds { id, bounds, display },
            EffectView::Notify,
        ],
        None => seq![EffectView::Notify],
    }
}

impl Workspace {
    /// The window has moved, or has another size. Its bounds come relative to the display that
    /// shows it, if there is one that can be told from others; only then they are stored.
    pub fn window_bounds_changed(&mut self, bounds: Option<(WindowBounds, u128)>, cx: &mut Context)
        ensures
            final(self)@ == old(self)@,
            final(cx)@ == old(cx)@.emit_all(
                window_bounds_effects(old(self)@.database_id, bounds),
            ),
    {
        if let Some((bounds, display)) = bounds {
            cx.emit(Effect::SaveWindowBounds { id: self.database_id, bounds, display });
        }
        cx.emit(Effect::Notify);
        assert(cx@.effects =~= old(cx)@.effects + window_bounds_effects(
            old(self)@.database_id,
            bounds,
        ));
    }

    fn entry_deleted(&self, entry: u64, cx: &mut Context)
        ensures
            final(cx)@ == old(cx)@.emit_all(deleted_entry_effects(self@.panes, entry)),
    {
        let mut i: usize = 0;
        while i < self.panes.len()
            invariant
                i <= self.panes.len(),
                cx@ == old(cx)@.emit_all(
                    deleted_entry_effects(self.panes@.take(i as int), entry),
                ),
            decreases self.panes.len() - i,
        {
            proof {
                assert(deleted_entry_effects(self.panes@.take(i + 1), entry)
                    =~= deleted_entry_effects(self.panes@.take(i as int), entry).push(
                    EffectView::HandleDeletedEntry { pane: self.panes@[i as int], entry },
                ));
            }
            cx.emit(Effect::HandleDeletedEntry { pane: self.panes[i], entry });
            i += 1;
        }
        assert(self.panes@.take(i as int) =~= self.panes@);
    }

    /// Something happened in the project.
    pub fn handle_project_event(&mut self, event: ProjectEvent, cx: &mut Context)
        ensures
            state(*final(self), *final(cx)) == state(*old(self), *old(cx)).handle_project_event(
                event@,
            ),
    {
        match event {
            ProjectEvent::RemoteIdChanged(_) => {
                self.update_window_title(cx);
            },
            ProjectEvent::CollaboratorLeft(peer_id) => {
                self.collaborator_left(peer_id, cx);
            },
            ProjectEvent::WorktreeAdded => {
                self.update_window_title(cx);
                self.serialize_workspace(cx);
            },
            ProjectEvent::WorktreeRemoved(_) => {
                self.update_window_title(cx);
                self.serialize_workspace(cx);
            },
            ProjectEvent::DisconnectedFromHost => {
                self.update_window_edited(cx);
                cx.blur();
            },
            ProjectEvent::Closed => {
                cx.emit(Effect::RemoveWindow);
            },
            ProjectEvent::DeletedEntry(entry) => {
                self.entry_deleted(entry, cx);
            },
            ProjectEvent::Notification(message) => {
                cx.emit(Effect::ShowNotification { id: 0, message });
            },
            ProjectEvent::Other => {},
        }
        cx.emit(Effect::Notify);
    }

    fn deactivate_pane(pane: u64, cx: &mut Context)
        ensures
            final(cx)@ == old(cx)@.emit_all(pane_deactivation(old(cx)@, pane)),
    {
        let mut items: Vec<u64> = Vec::new();
        let mut active_item: Option<u64> = None;
        if let Some(pane) = cx.pane(pane) {
            active_item = pane.active_item();
            items = pane.items.clone();
        }
        proof {
            assert(items@ =~= pane_items(cx@, pane));
        }
        if let Some(item) = active_item {
            cx.emit(Effect::WorkspaceDeactivated(item));
        }
        let ghost told = cx@;
        let saves = match cx.autosave {
            AutosaveSetting::OnWindowChange => true,
            AutosaveSetting::OnFocusChange => true,
            _ => false,
        };
        if saves {
            let ghost f = |item: u64| EffectView::AutosaveItem(item);
            let mut i: usize = 0;
            while i < items.len()
                invariant
                    i <= items.len(),
                    f == |item: u64| EffectView::AutosaveItem(item),
                    cx@ == told.emit_all(items@.take(i as int).map_values(f)),
                decreases items.len() - i,
            {
                proof {
                    assert(items@.take(i + 1).map_values(f) =~= items@.take(i as int).map_values(
                        f,
                    ).push(EffectView::AutosaveItem(items@[i as int])));
                }
                cx.emit(Effect::AutosaveItem(items[i]));
                i += 1;
            }
            assert(items@.take(i as int) =~= items@);
        }
        proof {
            assert(cx@.effects =~= old(cx)@.effects + pane_deactivation(old(cx)@, pane));
        }
    }

    /// The window became active, or is no longer active.
    pub fn on_window_activation_changed(&mut self, cx: &mut Context)
        ensures
            state(*final(self), *final(cx)) == state(
                *old(self),
                *old(cx),
            ).on_window_activation_changed(),
    {
        if cx.window_active {
            self.update_active_view_for_followers(cx);
            cx.emit(Effect::UpdateTimestamp(self.database_id));
        } else {
            let ghost before = cx@;
            let mut i: usize = 0;
            while i < self.panes.len()
                invariant
                    i <= self.panes.len(),
                    self@ == old(self)@,
                    cx@ =~= before.emit_all(deactivation(before, self.panes@.take(i as int))),
                decreases self.panes.len() - i,
            {
                proof {
                    assert(self.panes@.take(i + 1).drop_last() =~= self.panes@.take(i as int));
                    assert(pane_deactivation(cx@, self.panes@[i as int]) == pane_deactivation(
                        before,
                        self.panes@[i as int],
                    ));
                }
                Self::deactivate_pane(self.panes[i], cx);
                i += 1;
            }
            assert(self.panes@.take(i as int) =~= self.panes@);
        }
    }

    /// Adds an action to those that the workspace listens for.
    pub fn register_action(&mut self, action: u64)
        ensures
            final(self)@ == (WorkspaceView {
                workspace_actions: old(self)@.workspace_actions.push(action),
                ..old(self)@
            }),
    {
        self.workspace_actions.push(action);
    }

    /// The actions that the workspace listens for, in the order in which they were added.
    pub fn workspace_actions(&self) -> (actions: &Vec<u64>)
        ensures
            actions@ == self@.workspace_actions,
    {
        &self.workspace_actions
    }

    /// Shows a modal, or hides the one that is shown.
    pub fn toggle_modal(&mut self, modal: u64, cx: &mut Context)
        ensures
            state(*final(self), *final(cx)) == state(*old(self), *old(cx)).emit(
                EffectView::ToggleModal(modal),
            ),
    {
        cx.emit(Effect::ToggleModal(modal));
    }

    /// Whether the window may close: not yet, whether or not the application quits.
    pub fn prepare_to_close(&mut self, quitting: bool) -> (result: Result<bool, Error>)
        ensures
            final(self)@ == old(self)@,
            result == Ok::<bool, Error>(false),
    {
        Ok(false)
    }

    /// The numbers of the worktrees.
    pub fn worktrees(&self, cx: &Context) -> (ids: Vec<u64>)
        ensures
            ids@ == worktree_ids(cx@.project.worktrees, |w: WorktreeView| true),
    {
        let ghost chosen = |w: WorktreeView| true;
        let ghost worktrees = cx@.project.worktrees;
        let mut ids: Vec<u64> = Vec::new();
        let mut i: usize = 0;
        while i < cx.project.worktrees.len()
            invariant
                i <= cx.project.worktrees.len(),
                chosen == |w: WorktreeView| true,
                worktrees == cx@.project.worktrees,
                ids@ == worktree_ids(worktrees.take(i as int), chosen),
            decreases cx.project.worktrees.len() - i,
        {
            proof {
                assert(worktrees[i as int] == cx.project.worktrees@[i as int]@);
                assert(worktrees.take(i + 1).drop_last() =~= worktrees.take(i as int));
            }
            ids.push(cx.project.worktrees[i].id);
            i += 1;
        }
        assert(worktrees.take(i as int) =~= worktrees);
        ids
    }

    /// The numbers of the worktrees that are visible.
    pub fn visible_worktrees(&self, cx: &Context) -> (ids: Vec<u64>)
        ensures
            ids@ == worktree_ids(cx@.project.worktrees, |w: WorktreeView| w.visible),
    {
        let ghost chosen = |w: WorktreeView| w.visible;
        let ghost worktrees = cx@.project.worktrees;
        let mut ids: Vec<u64> = Vec::new();
        let mut i: usize = 0;
        while i < cx.project.worktrees.len()
            invariant
                i <= cx.project.worktrees.len(),
                chosen == |w: WorktreeView| w.visible,
                worktrees == cx@.project.worktrees,
                ids@ == worktree_ids(worktrees.take(i as int), chosen),
            decreases cx.project.worktrees.len() - i,
        {
            proof {
                assert(worktrees[i as int] == cx.project.worktrees@[i as int]@);
                assert(worktrees.take(i + 1).drop_last() =~= worktrees.take(i as int));
            }
            if cx.project.worktrees[i].visible {
                ids.push(cx.project.worktrees[i].id);
            }
            i += 1;
        }
        assert(worktrees.take(i as int) =~= worktrees);
        ids
    }

    /// The numbers of the worktrees whose scans are to be waited for, one after the other:
    /// the local ones.
    pub fn worktree_scans_complete(&self, cx: &Context) -> (ids: Vec<u64>)
        ensures
            ids@ == worktree_ids(cx@.project.worktrees, |w: WorktreeView| w.is_local),
    {
        let ghost chosen = |w: WorktreeView| w.is_local;
        let ghost worktrees = cx@.project.worktrees;
        let mut ids: Vec<u64> = Vec::new();
        let mut i: usize = 0;
        while i < cx.project.worktrees.len()
            invariant
                i <= cx.project.worktrees.len(),
                chosen == |w: WorktreeView| w.is_local,
                worktrees == cx@.project.worktrees,
                ids@ == worktree_ids(worktrees.take(i as int), chosen),
            decreases cx.project.worktrees.len() - i,
        {
            proof {
                assert(worktrees[i as int] == cx.project.worktrees@[i as int]@);
                assert(worktrees.take(i + 1).drop_last() =~= worktrees.take(i as int));
            }
            if cx.project.worktrees[i].is_local {
                ids.push(cx.project.worktrees[i].id);
            }
            i += 1;
        }
        assert(worktrees.take(i as int) =~= worktrees);
        ids
    }
}

/// A workspace that tells the files of its project.
pub trait WorkspaceHandle {
    /// The paths in the project of all its files.
    fn file_project_paths(&self, cx: &Context) -> (paths: Vec<ProjectPath>)
        ensures
            paths@.map_values(|p: ProjectPath| p@) == file_paths(cx@.project.worktrees),
    ;
}

impl WorkspaceHandle for Workspace {
    fn file_project_paths(&self, cx: &Context) -> (paths: Vec<ProjectPath>) {
        let ghost view = |p: ProjectPath| p@;
        let ghost worktrees = cx@.project.worktrees;
        let mut paths: Vec<ProjectPath> = Vec::new();
        let mut i: usize = 0;
        while i < cx.project.worktrees.len()
            invariant
                i <= cx.project.worktrees.len(),
                view == |p: ProjectPath| p@,
                worktrees == cx@.project.worktrees,
                paths@.map_values(view) =~= file_paths(worktrees.take(i as int)),
            decreases cx.project.worktrees.len() - i,
        {
            let worktree = &cx.project.worktrees[i];
            let ghost before = paths@;
            let ghost files = Seq::new(
                worktree@.files.len(),
                |k: int| ProjectPathView { worktree_id: worktree@.id, path: worktree@.files[k] },
            );
            proof {
                assert(worktrees[i as int] == worktree@);
                assert(worktrees.take(i + 1).drop_last() =~= worktrees.take(i as int));
            }
            let mut j: usize = 0;
            while j < worktree.files.len()
                invariant
                    j <= worktree.files.len(),
                    view == |p: ProjectPath| p@,
                    files == Seq::new(
                        worktree@.files.len(),
                        |k: int|
                            ProjectPathView { worktree_id: worktree@.id, path: worktree@.files[k] },
                    ),
                    paths@.map_values(view) =~= before.map_values(view) + files.take(j as int),
                decreases worktree.files.len() - j,
            {
                let path = ProjectPath {
                    worktree_id: worktree.id,
                    path: worktree.files[j].clone(),
                };
                proof {
                    assert(worktree@.files[j as int] == worktree.files@[j as int]@);
                    assert(path@ == files[j as int]);
                    assert(files.take(j + 1) =~= files.take(j as int).push(files[j as int]));
                    assert(paths@.push(path).map_values(view) =~= paths@.map_values(view).push(
                        path@,
                    ));
                }
                paths.push(path);
                j += 1;
            }
            assert(files.take(j as int) =~= files);
            i += 1;
        }
        assert(worktrees.take(i as int) =~= worktrees);
        paths
    }
}

/// Where the last workspace that was stored lies, if it could be read and there is one.
pub fn last_opened_workspace_paths(stored: Result<Option<Vec<PathBuf>>, Error>) -> (paths: Option<
    Vec<PathBuf>,
>)
    ensures
        paths == (match stored {
            Ok(paths) => paths,
            Err(_) => None,
        }),
{
    match stored {
        Ok(paths) => paths,
        Err(_) => None,
    }
}

proof fn lemma_deactivation(cx: ContextView, panes: Seq<u64>, effect: EffectView)
    ensures
        deactivation(cx, panes).contains(effect) <==> exists|i: int|
            0 <= i < panes.len() && pane_deactivation(cx, #[trigger] panes[i]).contains(effect),
    decreases panes.len(),
{
    let whole = deactivation(cx, panes);
    if panes.len() > 0 {
        let init = panes.drop_last();
        let n = panes.len() - 1;
        let before = deactivation(cx, init);
        let own = pane_deactivation(cx, panes.last());
        lemma_deactivation(cx, init, effect);
        assert(panes[n] == panes.last());
        if whole.contains(effect) {
            let j = whole.index_of(effect);
            if j < before.len() {
                assert(before[j] == effect);
                let i = choose|i: int|
                    0 <= i < init.len() && pane_deactivation(cx, #[trigger] init[i]).contains(
                        effect,
                    );
                assert(panes[i] == init[i]);
            } else {
                assert(own[j - before.len()] == effect);
            }
        }
        if exists|i: int|
            0 <= i < panes.len() && pane_deactivation(cx, #[trigger] panes[i]).contains(effect) {
            let i = choose|i: int|
                0 <= i < panes.len() && pane_deactivation(cx, #[trigger] panes[i]).contains(effect);
            if i < n {
                assert(init[i] == panes[i]);
                let j = before.index_of(effect);
                assert(whole[j] == effect);
            } else {
                let j = own.index_of(effect);
                assert(whole[before.len() + j] == effect);
            }
        }
    } else {
        assert(!whole.contains(effect));
    }
}

proof fn lemma_pane_deactivation(cx: ContextView, pane: u64, item: u64)
    ensures
        pane_deactivation(cx, pane).contains(EffectView::WorkspaceDeactivated(item)) <==> (cx.pane(
            pane,
        ) matches Some(found) && found.active_item() == Some(item)),
        pane_deactivation(cx, pane).contains(EffectView::AutosaveItem(item)) <==> (cx.autosave
            == AutosaveSetting::OnWindowChange || cx.autosave == AutosaveSetting::OnFocusChange) && (
        cx.pane(pane) matches Some(found) && found.items.contains(item)),
{
    let whole = pane_deactivation(cx, pane);
    let items = pane_items(cx, pane);
    let saved = items.map_values(|item: u64| EffectView::AutosaveItem(item));
    let told = match cx.pane(pane) {
        Some(pane) => match pane.active_item() {
            Some(item) => seq![EffectView::WorkspaceDeactivated(item)],
            None => Seq::empty(),
        },
        None => Seq::empty(),
    };
    if cx.pane(pane) matches Some(found) && found.active_item() == Some(item) {
        assert(whole[0] == EffectView::WorkspaceDeactivated(item));
    }
    if whole.contains(EffectView::WorkspaceDeactivated(item)) {
        let j = whole.index_of(EffectView::WorkspaceDeactivated(item));
        if j >= told.len() {
            assert(whole[j] == saved[j - told.len()]);
        }
    }
    if saves_on_deactivation(cx.autosave) && items.contains(item) {
        let k = items.index_of(item);
        assert(saved[k] == EffectView::AutosaveItem(item));
        assert(whole[told.len() + k] == saved[k]);
    }
    if whole.contains(EffectView::AutosaveItem(item)) {
        let j = whole.index_of(EffectView::AutosaveItem(item));
        if j >= told.len() {
            assert(whole[j] == saved[j - told.len()]);
            assert(items[j - told.len()] == item);
        }
    }
}

/// When the window is no longer active, the active item of every pane is told, and no other;
/// and where the settings say so every item of every pane is saved, and else none. When it is
/// active, it is noted as used.
pub proof fn law_window_activation(s: State, item: u64)
    ensures
        ({
            let t = s.on_window_activation_changed();
            let new = t.cx.effects.skip(s.cx.effects.len() as int);
            let panes = s.workspace.panes;
            &&& !s.cx.window_active ==> {
                &&& t.workspace == s.workspace
                &&& t.cx.effects.take(s.cx.effects.len() as int) == s.cx.effects
                &&& new.contains(EffectView::WorkspaceDeactivated(item)) <==> exists|i: int|
                    0 <= i < panes.len() && (s.cx.pane(#[trigger] panes[i]) matches Some(found)
                        && found.active_item() == Some(item))
                &&& new.contains(EffectView::AutosaveItem(item)) <==> (s.cx.autosave
                    == AutosaveSetting::OnWindowChange || s.cx.autosave
                    == AutosaveSetting::OnFocusChange) && exists|i: int|
                    0 <= i < panes.len() && (s.cx.pane(#[trigger] panes[i]) matches Some(found)
                        && found.items.contains(item))
            }
            &&& s.cx.window_active ==> t.cx.effects.last() == EffectView::UpdateTimestamp(
                s.workspace.database_id,
            ) && t.workspace == s.update_active_view_for_followers().workspace
        }),
{
    let t = s.on_window_activation_changed();
    let panes = s.workspace.panes;
    let new = deactivation(s.cx, panes);
    if !s.cx.window_active {
        assert(t.cx.effects.skip(s.cx.effects.len() as int) =~= new);
        assert(t.cx.effects.take(s.cx.effects.len() as int) =~= s.cx.effects);
        lemma_deactivation(s.cx, panes, EffectView::WorkspaceDeactivated(item));
        lemma_deactivation(s.cx, panes, EffectView::AutosaveItem(item));
        assert forall|i: int| 0 <= i < panes.len() implies (pane_deactivation(
            s.cx,
            #[trigger] panes[i],
        ).contains(EffectView::WorkspaceDeactivated(item)) <==> (s.cx.pane(panes[i]) matches Some(
            found,
        ) && found.active_item() == Some(item))) && (pane_deactivation(s.cx, panes[i]).contains(
            EffectView::AutosaveItem(item),
        ) <==> saves_on_deactivation(s.cx.autosave) && (s.cx.pane(panes[i]) matches Some(found)
            && found.items.contains(item))) by {
            lemma_pane_deactivation(s.cx, panes[i], item);
        }
    }
}

/// The numbers of the worktrees that are picked, in the order of the worktrees.
pub proof fn law_worktree_ids(worktrees: Seq<WorktreeView>, chosen: spec_fn(WorktreeView) -> bool)
    ensures
        worktree_ids(worktrees, chosen) == worktrees.filter(chosen).map_values(
            |w: WorktreeView| w.id,
        ),
    decreases worktrees.len(),
{
    reveal(Seq::filter);
    let id = |w: WorktreeView| w.id;
    if worktrees.len() > 0 {
        let init = worktrees.drop_last();
        law_worktree_ids(init, chosen);
        assert(init.filter(chosen).push(worktrees.last()).map_values(id) =~= init.filter(
            chosen,
        ).map_values(id).push(worktrees.last().id));
    } else {
        assert(worktree_ids(worktrees, chosen) =~= worktrees.filter(chosen).map_values(id));
    }
}

/// The paths in the project of its files are those of the files of all worktrees, each under
/// the number of its worktree.
pub proof fn law_file_paths(worktrees: Seq<WorktreeView>, path: ProjectPathView)
    ensures
        file_paths(worktrees).contains(path) <==> exists|i: int|
            0 <= i < worktrees.len() && (#[trigger] worktrees[i]).id == path.worktree_id
                && worktrees[i].files.contains(path.path),
    decreases worktrees.len(),
{
    let whole = file_paths(worktrees);
    if worktrees.len() > 0 {
        let init = worktrees.drop_last();
        let last = worktrees.last();
        let n = worktrees.len() - 1;
        let before = file_paths(init);
        let own = Seq::new(
            last.files.len(),
            |i: int| ProjectPathView { worktree_id: last.id, path: last.files[i] },
        );
        law_file_paths(init, path);
        assert(worktrees[n] == last);
        assert(whole == before + own);
        if whole.contains(path) {
            let j = whole.index_of(path);
            if j < before.len() {
                assert(before[j] == path);
                let i = choose|i: int|
                    0 <= i < init.len() && (#[trigger] init[i]).id == path.worktree_id
                        && init[i].files.contains(path.path);
                assert(worktrees[i] == init[i]);
            } else {
                assert(own[j - before.len()] == path);
                assert(last.files[j - before.len()] == path.path);
            }
        }
        if exists|i: int|
            0 <= i < worktrees.len() && (#[trigger] worktrees[i]).id == path.worktree_id
                && worktrees[i].files.contains(path.path) {
            let i = choose|i: int|
                0 <= i < worktrees.len() && (#[trigger] worktrees[i]).id == path.worktree_id
                    && worktrees[i].files.contains(path.path);
            if i < n {
                assert(init[i] == worktrees[i]);
                let j = before.index_of(path);
                assert(whole[j] == path);
            } else {
                let j = last.files.index_of(path.path);
                assert(own[j] == path);
                assert(whole[before.len() + j] == path);
            }
        }
    } else {
        assert(!whole.contains(path));
    }
}

/// What each event in the project leads to: everyone is told, the title follows the project, a
/// change of worktrees is stored, a deleted entry is told to every pane, a project that closed
/// takes its window with it, and a collaborator who left is followed no more.
pub proof fn law_project_events(s: State, event: ProjectEventView)
    ensures
        ({
            let t = s.handle_project_event(event);
            let effects = t.cx.effects.drop_last();
            &&& t.cx.effects.last() == EffectView::Notify
            &&& match event {
                ProjectEventView::RemoteIdChanged(_) => effects == s.update_window_title().cx.effects
                    && t.workspace == s.workspace,
                ProjectEventView::CollaboratorLeft(peer_id) => t.workspace == s.collaborator_left(
                    peer_id,
                ).workspace && effects == s.collaborator_left(peer_id).cx.effects,
                ProjectEventView::WorktreeAdded => effects
                    == s.update_window_title().serialize_workspace().cx.effects && t.workspace
                    == s.workspace,
                ProjectEventView::WorktreeRemoved(_) => effects
                    == s.update_window_title().serialize_workspace().cx.effects && t.workspace
                    == s.workspace,
                ProjectEventView::DisconnectedFromHost => effects == s.cx.effects.push(
                    EffectView::Blur,
                ) && t.workspace == s.update_window_edited().workspace && forall|i: int|
                    0 <= i < s.cx.panes.len() ==> !(#[trigger] t.cx.panes[i]).has_focus,
                ProjectEventView::Closed => effects == s.cx.effects.push(EffectView::RemoveWindow)
                    && t.workspace == s.workspace,
                ProjectEventView::DeletedEntry(entry) => effects == s.cx.effects
                    + s.workspace.panes.map_values(
                    |pane: u64| EffectView::HandleDeletedEntry { pane, entry },
                ) && t.workspace == s.workspace,
                ProjectEventView::Notification(message) => effects == s.cx.effects.push(
                    EffectView::ShowNotification { id: 0, message },
                ) && t.workspace == s.workspace,
                ProjectEventView::Other => effects == s.cx.effects && t.workspace == s.workspace,
            }
        }),
{
    let t = s.handle_project_event(event);
    assert(t.cx.effects.drop_last() =~= s.react_to_project(event).cx.effects);
}

/// The bounds of a window are stored under the number of its workspace exactly if the display
/// that shows it is known.
pub proof fn law_window_bounds(id: WorkspaceId, bounds: WindowBounds, display: u128)
    ensures
        window_bounds_effects(id, Some((bounds, display))) == seq![
            EffectView::SaveWindowBounds { id, bounds, display },
            EffectView::Notify,
        ],
        window_bounds_effects(id, None) == seq![EffectView::Notify],
{
}

} // verus!
