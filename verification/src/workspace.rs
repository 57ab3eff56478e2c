//! A workspace: the panes in its center, its docks, and what is shown of them.

use crate::context::{
    Context, ContextView, Effect, EffectView, Event, PaneView, Project, StatusBarSide, WorktreeView,
};
use crate::dock::{Dock, DockPosition, DockView};
use crate::leader_queue::{CurrentUpdate, QueuedUpdate};
use crate::pane_group::{MemberView, PaneGroup};
use crate::path::{copy_project_path, project_path_view, ProjectPath, ProjectPathView};
use crate::proto;
use crate::proto::PeerId;
use crate::serialize::{
    build_serialized_docks, build_serialized_pane_group, law_location, location, serialized_docks,
    serialized_group, visible_paths,
};
use crate::serialized::{SerializedWorkspace, SerializedWorkspaceView, WorkspaceId};
use crate::title::{build_window_title, shows_decoded_name, window_title};
use crate::view_id::ViewId;
use std::collections::HashMap;
use vstd::prelude::*;

verus! {

/// Whom a pane follows, which view of the leader is active, and the items that stand for the
/// leader's views.
#[derive(Debug, PartialEq, Eq)]
pub struct FollowerState {
    pub pane: u64,
    pub leader_id: PeerId,
    pub active_view_id: Option<ViewId>,
    pub items_by_leader_view_id: Vec<(ViewId, u64)>,
}

#[verifier::ext_equal]
pub struct FollowerStateView {
    pub pane: u64,
    pub leader_id: PeerId,
    pub active_view_id: Option<ViewId>,
    pub items_by_leader_view_id: Seq<(ViewId, u64)>,
}

impl View for FollowerState {
    type V = FollowerStateView;

    open spec fn view(&self) -> FollowerStateView {
        FollowerStateView {
            pane: self.pane,
            leader_id: self.leader_id,
            active_view_id: self.active_view_id,
            items_by_leader_view_id: self.items_by_leader_view_id@,
        }
    }
}

/// The views of a list of follower states.
pub open spec fn follower_views(states: Seq<FollowerState>) -> Seq<FollowerStateView> {
    states.map_values(|s: FollowerState| s@)
}

pub struct Workspace {
    pub weak_self: u64,
    pub workspace_actions: Vec<u64>,
    pub zoomed: Option<u64>,
    pub zoomed_position: Option<DockPosition>,
    pub center: PaneGroup,
    pub panes: Vec<u64>,
    pub panes_by_item: HashMap<u64, u64>,
    pub active_pane: u64,
    pub last_active_center_pane: Option<u64>,
    pub last_active_view_id: Option<proto::ViewId>,
    pub follower_states: Vec<FollowerState>,
    pub last_leaders_by_pane: HashMap<u64, PeerId>,
    /// The updates of leaders that wait, in the order in which they came.
    pub leader_updates: Vec<QueuedUpdate>,
    /// The update that has been started and has not come to its end.
    pub current_update: Option<CurrentUpdate>,
    pub window_edited: bool,
    pub active_call: Option<u64>,
    pub database_id: WorkspaceId,
}

#[verifier::ext_equal]
pub struct WorkspaceView {
    pub weak_self: u64,
    pub workspace_actions: Seq<u64>,
    pub zoomed: Option<u64>,
    pub zoomed_position: Option<DockPosition>,
    pub center: MemberView,
    pub panes: Seq<u64>,
    pub panes_by_item: Map<u64, u64>,
    pub active_pane: u64,
    pub last_active_center_pane: Option<u64>,
    pub last_active_view_id: Option<proto::ViewId>,
    pub follower_states: Seq<FollowerStateView>,
    pub last_leaders_by_pane: Map<u64, PeerId>,
    pub leader_updates: Seq<QueuedUpdate>,
    pub current_update: Option<CurrentUpdate>,
    pub window_edited: bool,
    pub active_call: Option<u64>,
    pub database_id: WorkspaceId,
}

impl View for Workspace {
    type V = WorkspaceView;

    open spec fn view(&self) -> WorkspaceView {
        WorkspaceView {
            weak_self: self.weak_self,
            workspace_actions: self.workspace_actions@,
            zoomed: self.zoomed,
            zoomed_position: self.zoomed_position,
            center: self.center@,
            panes: self.panes@,
            panes_by_item: self.panes_by_item@,
            active_pane: self.active_pane,
            last_active_center_pane: self.last_active_center_pane,
            last_active_view_id: self.last_active_view_id,
            follower_states: follower_views(self.follower_states@),
            last_leaders_by_pane: self.last_leaders_by_pane@,
            leader_updates: self.leader_updates@,
            current_update: self.current_update,
            window_edited: self.window_edited,
            active_call: self.active_call,
            database_id: self.database_id,
        }
    }
}

/// A workspace together with its surroundings.
#[verifier::ext_equal]
pub struct State {
    pub workspace: WorkspaceView,
    pub cx: ContextView,
}

pub open spec fn state(workspace: Workspace, cx: Context) -> State {
    State { workspace: workspace@, cx: cx@ }
}

/// The items of a pane.
pub open spec fn pane_items(cx: ContextView, pane: u64) -> Seq<u64> {
    match cx.pane(pane) {
        Some(pane) => pane.items,
        None => Seq::empty(),
    }
}

/// The items of some panes, pane by pane.
pub open spec fn items_of(cx: ContextView, panes: Seq<u64>) -> Seq<u64>
    decreases panes.len(),
{
    if panes.len() == 0 {
        Seq::empty()
    } else {
        items_of(cx, panes.drop_last()) + pane_items(cx, panes.last())
    }
}

/// Whether an item has changes that are not saved, or conflicts with what is saved.
pub open spec fn item_edited(cx: ContextView, item: u64) -> bool {
    match cx.item(item) {
        Some(item) => item.has_conflict || item.is_dirty,
        None => false,
    }
}

/// Whether a zoomed panel of a dock is in the way when `reveal` is to be seen.
pub open spec fn in_the_way(dock: DockView, reveal: Option<DockPosition>) -> bool {
    Some(dock.position) != reveal && match dock.active_panel() {
        Some(panel) => panel.zoomed,
        None => false,
    }
}

/// Whether such a panel has the focus too.
pub open spec fn focus_in_the_way(dock: DockView, reveal: Option<DockPosition>) -> bool {
    in_the_way(dock, reveal) && match dock.active_panel() {
        Some(panel) => panel.has_focus,
        None => false,
    }
}

/// The dock, closed if it is in the way.
pub open spec fn cleared(dock: DockView, reveal: Option<DockPosition>) -> DockView {
    if in_the_way(dock, reveal) {
        dock.set_open(false)
    } else {
        dock
    }
}

/// A dock that was just built.
pub open spec fn empty_dock(position: DockPosition) -> DockView {
    DockView { position, is_open: false, panels: Seq::empty(), active_panel_index: 0 }
}

/// The effects that tell each pane that an entry was deleted.
pub open spec fn deleted_entry_effects(panes: Seq<u64>, entry: u64) -> Seq<EffectView> {
    panes.map_values(|pane: u64| EffectView::HandleDeletedEntry { pane, entry })
}

impl State {
    pub open spec fn emit(self, effect: EffectView) -> State {
        State { cx: self.cx.emit(effect), ..self }
    }

    pub open spec fn notify(self) -> State {
        self.emit(EffectView::Notify)
    }

    pub open spec fn active_item(self) -> Option<u64> {
        match self.cx.pane(self.workspace.active_pane) {
            Some(pane) => pane.active_item(),
            None => None,
        }
    }

    pub open spec fn active_project_path(self) -> Option<ProjectPathView> {
        match self.active_item() {
            Some(id) => match self.cx.item(id) {
                Some(item) => item.project_path,
                None => None,
            },
            None => None,
        }
    }

    /// The workspace in stored form.
    pub open spec fn serialized(self) -> SerializedWorkspaceView {
        SerializedWorkspaceView {
            id: self.workspace.database_id,
            location: visible_paths(self.cx.project.worktrees),
            center_group: serialized_group(self.cx, self.workspace.center),
            bounds: None,
            display: None,
            docks: serialized_docks(self.cx),
        }
    }

    /// The workspace is stored if its project is local and lies somewhere.
    pub open spec fn serialize_workspace(self) -> State {
        if self.cx.project.is_local && visible_paths(self.cx.project.worktrees).len() > 0 {
            self.emit(EffectView::SaveWorkspace(self.serialized()))
        } else {
            self
        }
    }

    pub open spec fn update_window_title(self) -> State {
        self.emit(EffectView::SetWindowTitle(window_title(self.cx, self.active_project_path())))
    }

    pub open spec fn active_item_path_changed(self) -> State {
        self.emit(EffectView::SetActivePath(self.active_project_path())).update_window_title()
    }

    pub open spec fn has_edits(self) -> bool {
        let items = items_of(self.cx, self.workspace.panes);
        !self.cx.project.is_read_only && exists|i: int|
            0 <= i < items.len() && item_edited(self.cx, #[trigger] items[i])
    }

    pub open spec fn update_window_edited(self) -> State {
        State {
            workspace: WorkspaceView { window_edited: self.has_edits(), ..self.workspace },
            ..self
        }
    }

    pub open spec fn close_all_docks(self) -> State {
        State {
            cx: ContextView {
                left_dock: self.cx.left_dock.set_open(false),
                bottom_dock: self.cx.bottom_dock.set_open(false),
                right_dock: self.cx.right_dock.set_open(false),
                ..self.cx
            },
            ..self
        }.notify().serialize_workspace()
    }

    pub open spec fn zoom_out(self) -> State {
        let cx = self.cx.unzoom(self.workspace.panes, None);
        State {
            workspace: WorkspaceView { zoomed: None, zoomed_position: None, ..self.workspace },
            cx: ContextView {
                left_dock: cx.left_dock.zoom_out(),
                bottom_dock: cx.bottom_dock.zoom_out(),
                right_dock: cx.right_dock.zoom_out(),
                ..cx
            },
        }.notify()
    }

    /// Everything zoomed gives way, but for the dock to reveal, or for the active pane where
    /// no dock is to be revealed.
    pub open spec fn dismiss_zoomed_items_to_reveal(self, reveal: Option<DockPosition>) -> State {
        let spared = if reveal is Some {
            None
        } else {
            Some(self.workspace.active_pane)
        };
        let cx = self.cx.unzoom(self.workspace.panes, spared);
        let closed = ContextView {
            left_dock: cleared(cx.left_dock, reveal),
            right_dock: cleared(cx.right_dock, reveal),
            bottom_dock: cleared(cx.bottom_dock, reveal),
            ..cx
        };
        let focused = if focus_in_the_way(cx.left_dock, reveal) || focus_in_the_way(
            cx.right_dock,
            reveal,
        ) || focus_in_the_way(cx.bottom_dock, reveal) {
            closed.focus_workspace()
        } else {
            closed
        };
        let workspace = if self.workspace.zoomed_position != reveal {
            WorkspaceView { zoomed: None, zoomed_position: None, ..self.workspace }
        } else {
            self.workspace
        };
        State { workspace, cx: focused }.notify()
    }
}

/// A workspace that was just built, with one empty pane.
pub open spec fn new_workspace(workspace_id: WorkspaceId, weak_self: u64, pane: u64, call: Option<u64>) -> WorkspaceView {
    WorkspaceView {
        weak_self,
        workspace_actions: Seq::empty(),
        zoomed: None,
        zoomed_position: None,
        center: MemberView::Pane(pane),
        panes: seq![pane],
        panes_by_item: Map::empty(),
        active_pane: pane,
        last_active_center_pane: Some(pane),
        last_active_view_id: None,
        follower_states: Seq::empty(),
        last_leaders_by_pane: Map::empty(),
        leader_updates: Seq::empty(),
        current_update: None,
        window_edited: false,
        active_call: call,
        database_id: workspace_id,
    }
}

/// The surroundings of a workspace that was just built: its pane, its docks with their
/// buttons, the window in the store, and everyone told.
pub open spec fn new_context(cx: ContextView, weak_self: u64, window: u64) -> ContextView {
    let pane = cx.next_entity_id;
    let built = cx.build_pane().emit(EffectView::Emit(Event::PaneAdded(pane)));
    let docked = ContextView {
        store: built.store.with_workspace(window),
        left_dock: empty_dock(DockPosition::Left),
        bottom_dock: empty_dock(DockPosition::Bottom),
        right_dock: empty_dock(DockPosition::Right),
        ..built
    }.emit(EffectView::Emit(Event::WorkspaceCreated(weak_self))).emit(
        EffectView::SetStatusBarPane(pane),
    ).emit(
        EffectView::AddPanelButtons { side: StatusBarSide::Left, dock: DockPosition::Left },
    ).emit(
        EffectView::AddPanelButtons { side: StatusBarSide::Right, dock: DockPosition::Right },
    ).emit(
        EffectView::AddPanelButtons { side: StatusBarSide::Right, dock: DockPosition::Bottom },
    );
    let watched = if cx.active_call is Some {
        docked.emit(EffectView::WatchActiveCall)
    } else {
        docked
    };
    watched.emit(EffectView::DeferWindowTitle)
}

/// Closes a dock that is in the way; tells whether a panel in it had the focus.
fn clear_dock(dock: &mut Dock, reveal: Option<DockPosition>) -> (had_focus: bool)
    ensures
        final(dock)@ == cleared(old(dock)@, reveal),
        had_focus == focus_in_the_way(old(dock)@, reveal),
{
    if Some(dock.position) == reveal {
        return false;
    }
    let mut had_focus = false;
    let mut in_the_way = false;
    if let Some(panel) = dock.active_panel() {
        if panel.zoomed {
            in_the_way = true;
            had_focus = panel.has_focus;
        }
    }
    if in_the_way {
        dock.set_open(false);
    }
    had_focus
}

impl Workspace {
    /// Builds a workspace with one empty pane, in a window.
    pub fn new(workspace_id: WorkspaceId, weak_self: u64, window: u64, cx: &mut Context) -> (workspace:
        Workspace)
        requires
            old(cx).next_entity_id < u64::MAX,
        ensures
            workspace@ == new_workspace(
                workspace_id,
                weak_self,
                old(cx).next_entity_id,
                old(cx)@.call_id(),
            ),
            final(cx)@ == new_context(old(cx)@, weak_self, window),
    {
        let center_pane = cx.build_pane();
        cx.emit(Effect::Emit(Event::PaneAdded(center_pane)));
        cx.store.add_workspace(window);
        cx.emit(Effect::Emit(Event::WorkspaceCreated(weak_self)));
        cx.left_dock = Dock::new(DockPosition::Left);
        cx.bottom_dock = Dock::new(DockPosition::Bottom);
        cx.right_dock = Dock::new(DockPosition::Right);
        cx.emit(Effect::SetStatusBarPane(center_pane));
        cx.emit(Effect::AddPanelButtons { side: StatusBarSide::Left, dock: DockPosition::Left });
        cx.emit(Effect::AddPanelButtons { side: StatusBarSide::Right, dock: DockPosition::Right });
        cx.emit(Effect::AddPanelButtons { side: StatusBarSide::Right, dock: DockPosition::Bottom });
        let active_call = cx.call_id();
        if active_call.is_some() {
            cx.emit(Effect::WatchActiveCall);
        }
        cx.emit(Effect::DeferWindowTitle);
        let mut panes: Vec<u64> = Vec::new();
        panes.push(center_pane);
        let workspace = Workspace {
            weak_self,
            workspace_actions: Vec::new(),
            zoomed: None,
            zoomed_position: None,
            center: PaneGroup::new(center_pane),
            panes,
            panes_by_item: HashMap::new(),
            active_pane: center_pane,
            last_active_center_pane: Some(center_pane),
            last_active_view_id: None,
            follower_states: Vec::new(),
            last_leaders_by_pane: HashMap::new(),
            leader_updates: Vec::new(),
            current_update: None,
            window_edited: false,
            active_call,
            database_id: workspace_id,
        };
        assert(follower_views(workspace.follower_states@) =~= Seq::empty());
        workspace
    }

    pub fn weak_handle(&self) -> (handle: u64)
        ensures
            handle == self@.weak_self,
    {
        self.weak_self
    }

    pub fn left_dock<'a>(&self, cx: &'a Context) -> (dock: &'a Dock)
        ensures
            dock@ == cx@.left_dock,
    {
        &cx.left_dock
    }

    pub fn bottom_dock<'a>(&self, cx: &'a Context) -> (dock: &'a Dock)
        ensures
            dock@ == cx@.bottom_dock,
    {
        &cx.bottom_dock
    }

    pub fn right_dock<'a>(&self, cx: &'a Context) -> (dock: &'a Dock)
        ensures
            dock@ == cx@.right_dock,
    {
        &cx.right_dock
    }

    pub fn project<'a>(&self, cx: &'a Context) -> (project: &'a Project)
        ensures
            project@ == cx@.project,
    {
        &cx.project
    }

    pub fn database_id(&self) -> (id: WorkspaceId)
        ensures
            id == self@.database_id,
    {
        self.database_id
    }

    pub fn panes(&self) -> (panes: &Vec<u64>)
        ensures
            panes@ == self@.panes,
    {
        &self.panes
    }

    pub fn active_pane(&self) -> (pane: u64)
        ensures
            pane == self@.active_pane,
    {
        self.active_pane
    }

    /// The call that the workspace takes part in.
    pub fn active_call(&self) -> (call: Option<u64>)
        ensures
            call == self@.active_call,
    {
        self.active_call
    }

    /// The items of all panes, pane by pane.
    pub fn items(&self, cx: &Context) -> (items: Vec<u64>)
        ensures
            items@ == items_of(cx@, self@.panes),
    {
        let mut items: Vec<u64> = Vec::new();
        let mut i: usize = 0;
        while i < self.panes.len()
            invariant
                i <= self.panes.len(),
                items@ == items_of(cx@, self.panes@.take(i as int)),
            decreases self.panes.len() - i,
        {
            proof {
                assert(self.panes@.take(i + 1).drop_last() =~= self.panes@.take(i as int));
            }
            if let Some(pane) = cx.pane(self.panes[i]) {
                let ghost before = items@;
                let mut j: usize = 0;
                while j < pane.items.len()
                    invariant
                        j <= pane.items.len(),
                        items@ =~= before + pane.items@.take(j as int),
                    decreases pane.items.len() - j,
                {
                    items.push(pane.items[j]);
                    j += 1;
                }
                assert(pane.items@.take(j as int) =~= pane.items@);
            }
            i += 1;
        }
        assert(self.panes@.take(i as int) =~= self.panes@);
        items
    }

    pub fn active_item(&self, cx: &Context) -> (item: Option<u64>)
        ensures
            item == state(*self, *cx).active_item(),
    {
        match cx.pane(self.active_pane) {
            Some(pane) => pane.active_item(),
            None => None,
        }
    }

    /// The path in the project of the active item.
    pub fn active_project_path(&self, cx: &Context) -> (path: Option<ProjectPath>)
        ensures
            project_path_view(path) == state(*self, *cx).active_project_path(),
    {
        match self.active_item(cx) {
            Some(id) => match cx.item(id) {
                Some(item) => copy_project_path(&item.project_path),
                None => None,
            },
            None => None,
        }
    }

    /// Stores the workspace, if its project is local and lies somewhere.
    pub fn serialize_workspace(&self, cx: &mut Context)
        ensures
            state(*self, *final(cx)) == state(*self, *old(cx)).serialize_workspace(),
    {
        if let Some(location) = location(cx) {
            if location.len() > 0 {
                let center_group = build_serialized_pane_group(&self.center.root, cx);
                let docks = build_serialized_docks(cx);
                let serialized_workspace = SerializedWorkspace {
                    id: self.database_id,
                    location,
                    center_group,
                    bounds: None,
                    display: None,
                    docks,
                };
                cx.emit(Effect::SaveWorkspace(serialized_workspace));
            }
        }
    }

    /// Shows what is active in the title of the window. A last part of its path that is UTF-8 is
    /// shown as it is.
    pub fn update_window_title(&mut self, cx: &mut Context)
        ensures
            state(*final(self), *final(cx)) == state(*old(self), *old(cx)).update_window_title(),
            final(cx)@.effects.last() matches EffectView::SetWindowTitle(text)
                && shows_decoded_name(text, old(cx)@, state(*old(self), *old(cx)).active_project_path()),
    {
        let path = self.active_project_path(cx);
        let title = build_window_title(cx, &path);
        cx.emit(Effect::SetWindowTitle(title));
    }

    /// Tells the project and the title of the window that another path is active.
    pub fn active_item_path_changed(&mut self, cx: &mut Context)
        ensures
            state(*final(self), *final(cx)) == state(
                *old(self),
                *old(cx),
            ).active_item_path_changed(),
    {
        let active_entry = self.active_project_path(cx);
        cx.emit(Effect::SetActivePath(active_entry));
        self.update_window_title(cx);
    }

    /// Notes whether anything in the window has edits, which nothing in a read-only project
    /// has.
    pub fn update_window_edited(&mut self, cx: &Context)
        ensures
            state(*final(self), *cx) == state(*old(self), *cx).update_window_edited(),
    {
        let items = self.items(cx);
        let mut is_edited = false;
        if !cx.project.is_read_only {
            let mut i: usize = 0;
            while i < items.len()
                invariant
                    i <= items.len(),
                    is_edited <==> exists|j: int|
                        0 <= j < i && item_edited(cx@, #[trigger] items@[j]),
                decreases items.len() - i,
            {
                if let Some(item) = cx.item(items[i]) {
                    if item.has_conflict || item.is_dirty {
                        is_edited = true;
                        assert(item_edited(cx@, items@[i as int]));
                    }
                }
                i += 1;
            }
        }
        if is_edited != self.window_edited {
            self.window_edited = is_edited;
        }
    }

    /// Closes all docks.
    pub fn close_all_docks(&mut self, cx: &mut Context)
        ensures
            state(*final(self), *final(cx)) == state(*old(self), *old(cx)).close_all_docks(),
    {
        cx.left_dock.set_open(false);
        cx.bottom_dock.set_open(false);
        cx.right_dock.set_open(false);
        cx.emit(Effect::Notify);
        self.serialize_workspace(cx);
    }

    /// Takes the zoom of everything.
    pub fn zoom_out(&mut self, cx: &mut Context)
        ensures
            state(*final(self), *final(cx)) == state(*old(self), *old(cx)).zoom_out(),
    {
        cx.unzoom(&self.panes, None);
        cx.left_dock.zoom_out();
        cx.bottom_dock.zoom_out();
        cx.right_dock.zoom_out();
        self.zoomed = None;
        self.zoomed_position = None;
        cx.emit(Effect::Notify);
    }

    /// Makes way for a dock, or for the active pane where no dock is to be revealed.
    pub fn dismiss_zoomed_items_to_reveal(
        &mut self,
        dock_to_reveal: Option<DockPosition>,
        cx: &mut Context,
    )
        ensures
            state(*final(self), *final(cx)) == state(
                *old(self),
                *old(cx),
            ).dismiss_zoomed_items_to_reveal(dock_to_reveal),
    {
        let spared = if dock_to_reveal.is_some() {
            None
        } else {
            Some(self.active_pane)
        };
        cx.unzoom(&self.panes, spared);
        let left = clear_dock(&mut cx.left_dock, dock_to_reveal);
        let right = clear_dock(&mut cx.right_dock, dock_to_reveal);
        let bottom = clear_dock(&mut cx.bottom_dock, dock_to_reveal);
        if left || right || bottom {
            cx.focus_workspace();
        }
        if self.zoomed_position != dock_to_reveal {
            self.zoomed = None;
            self.zoomed_position = None;
        }
        cx.emit(Effect::Notify);
    }

    /// A dock has changed: the workspace is stored and shown again.
    pub fn dock_changed(&mut self, cx: &mut Context)
        ensures
            state(*final(self), *final(cx)) == state(
                *old(self),
                *old(cx),
            ).serialize_workspace().notify(),
    {
        self.serialize_workspace(cx);
        cx.emit(Effect::Notify);
    }
}

impl DockView {
    /// Whether a panel of the dock is zoomed.
    pub open spec fn has_zoomed(self) -> bool {
        exists|i: int| 0 <= i < self.panels.len() && (#[trigger] self.panels[i]).zoomed
    }
}

/// After zooming out no pane of the workspace is zoomed, and no panel.
pub proof fn law_zoom_out(s: State, i: int)
    requires
        0 <= i < s.cx.panes.len(),
        s.workspace.panes.contains(s.cx.panes[i].id),
    ensures
        !s.zoom_out().cx.panes[i].zoomed,
        !s.zoom_out().cx.left_dock.has_zoomed(),
        !s.zoom_out().cx.bottom_dock.has_zoomed(),
        !s.zoom_out().cx.right_dock.has_zoomed(),
        s.zoom_out().workspace.zoomed is None,
{
}

/// After making way for a dock, what is seen zoomed of the docks is in that dock alone; where
/// no dock is to be revealed, of the panes the active one alone can be zoomed.
pub proof fn law_dismiss(s: State, reveal: Option<DockPosition>, i: int)
    ensures
        ({
            let t = s.dismiss_zoomed_items_to_reveal(reveal);
            &&& s.cx.left_dock.position != DockPosition::Left || reveal == Some(
                DockPosition::Left,
            ) || !seen_zoomed(t.cx.left_dock)
            &&& s.cx.bottom_dock.position != DockPosition::Bottom || reveal == Some(
                DockPosition::Bottom,
            ) || !seen_zoomed(t.cx.bottom_dock)
            &&& s.cx.right_dock.position != DockPosition::Right || reveal == Some(
                DockPosition::Right,
            ) || !seen_zoomed(t.cx.right_dock)
            &&& t.workspace.zoomed_position is None || t.workspace.zoomed_position == reveal
            &&& 0 <= i < s.cx.panes.len() && s.workspace.panes.contains(s.cx.panes[i].id) && (
            reveal is Some || s.cx.panes[i].id != s.workspace.active_pane) ==> !t.cx.panes[i].zoomed
        }),
{
}

/// Whether a zoomed panel of a dock is seen.
pub open spec fn seen_zoomed(dock: DockView) -> bool {
    match dock.visible_panel() {
        Some(panel) => panel.zoomed,
        None => false,
    }
}

/// A workspace whose project lies nowhere, or elsewhere, is not stored.
pub proof fn law_stored_with_location_only(s: State)
    requires
        !s.cx.project.is_local || visible_paths(s.cx.project.worktrees).len() == 0,
    ensures
        s.serialize_workspace() == s,
{
}

/// Nothing in a read-only project counts as edited.
pub proof fn law_read_only_not_edited(s: State)
    requires
        s.cx.project.is_read_only,
    ensures
        !s.update_window_edited().workspace.window_edited,
{
}

proof fn lemma_items_of(cx: ContextView, panes: Seq<u64>, item: u64)
    ensures
        items_of(cx, panes).contains(item) <==> exists|i: int|
            0 <= i < panes.len() && (cx.pane(#[trigger] panes[i]) matches Some(pane)
                && pane.items.contains(item)),
    decreases panes.len(),
{
    let whole = items_of(cx, panes);
    if panes.len() > 0 {
        let init = panes.drop_last();
        let before = items_of(cx, init);
        let own = pane_items(cx, panes.last());
        let n = panes.len() - 1;
        lemma_items_of(cx, init, item);
        if whole.contains(item) {
            let k = whole.index_of(item);
            if k < before.len() {
                assert(before[k] == item);
                let i = choose|i: int|
                    0 <= i < init.len() && (cx.pane(#[trigger] init[i]) matches Some(pane)
                        && pane.items.contains(item));
                assert(panes[i] == init[i]);
            } else {
                assert(own[k - before.len()] == item);
                assert(panes[n] == panes.last());
            }
        }
        if exists|i: int|
            0 <= i < panes.len() && (cx.pane(#[trigger] panes[i]) matches Some(pane)
                && pane.items.contains(item)) {
            let i = choose|i: int|
                0 <= i < panes.len() && (cx.pane(#[trigger] panes[i]) matches Some(pane)
                    && pane.items.contains(item));
            if i < n {
                assert(init[i] == panes[i]);
                let k = before.index_of(item);
                assert(whole[k] == item);
            } else {
                let k = own.index_of(item);
                assert(whole[before.len() + k] == item);
            }
        }
    } else {
        assert(!whole.contains(item));
    }
}

/// The items of a workspace are those of all its panes.
pub proof fn law_items_of_all_panes(cx: ContextView, panes: Seq<u64>, item: u64)
    ensures
        items_of(cx, panes).contains(item) <==> exists|i: int|
            0 <= i < panes.len() && (cx.pane(#[trigger] panes[i]) matches Some(pane)
                && pane.items.contains(item)),
{
    lemma_items_of(cx, panes, item);
}

/// The window counts as edited exactly if the project can be written to and an item in some
/// pane has changes that are not saved or a conflict. Nothing else changes.
pub proof fn law_window_edited(s: State)
    ensures
        s.update_window_edited().workspace.window_edited <==> !s.cx.project.is_read_only && exists|
            i: int,
            item: u64,
        |
            0 <= i < s.workspace.panes.len() && (s.cx.pane(#[trigger] s.workspace.panes[i]) matches Some(pane)
                && pane.items.contains(item)) && (#[trigger] s.cx.item(item) matches Some(found) && (
            found.is_dirty || found.has_conflict)),
        s.update_window_edited() == (State {
            workspace: WorkspaceView {
                window_edited: s.update_window_edited().workspace.window_edited,
                ..s.workspace
            },
            ..s
        }),
{
    let items = items_of(s.cx, s.workspace.panes);
    if s.has_edits() {
        let k = choose|k: int| 0 <= k < items.len() && item_edited(s.cx, #[trigger] items[k]);
        assert(items.contains(items[k]));
        lemma_items_of(s.cx, s.workspace.panes, items[k]);
        let i = choose|i: int|
            0 <= i < s.workspace.panes.len() && (s.cx.pane(
                #[trigger] s.workspace.panes[i],
            ) matches Some(pane) && pane.items.contains(items[k]));
        assert(s.cx.item(items[k]) is Some);
    }
    if !s.cx.project.is_read_only && exists|i: int, item: u64|
        0 <= i < s.workspace.panes.len() && (s.cx.pane(#[trigger] s.workspace.panes[i]) matches Some(
            pane,
        ) && pane.items.contains(item)) && (#[trigger] s.cx.item(item) matches Some(found) && (
        found.is_dirty || found.has_conflict)) {
        let (i, item) = choose|i: int, item: u64|
            0 <= i < s.workspace.panes.len() && (s.cx.pane(
                #[trigger] s.workspace.panes[i],
            ) matches Some(pane) && pane.items.contains(item)) && (#[trigger] s.cx.item(
                item,
            ) matches Some(found) && (found.is_dirty || found.has_conflict));
        lemma_items_of(s.cx, s.workspace.panes, item);
        let k = items.index_of(item);
        assert(item_edited(s.cx, items[k]));
    }
}

/// A workspace whose project is local and lies somewhere is stored under its number, with the
/// paths of its visible worktrees in their order, the tree of its panes, and each dock open as
/// it is. Nothing else changes; and where the project is elsewhere or no worktree is visible,
/// nothing at all does.
pub proof fn law_workspace_is_stored(s: State)
    ensures
        ({
            let visible = s.cx.project.worktrees.filter(|w: WorktreeView| w.visible);
            let after = s.serialize_workspace();
            &&& after.workspace == s.workspace
            &&& s.cx.project.is_local && visible.len() > 0 ==> {
                &&& after.cx.effects.drop_last() == s.cx.effects
                &&& after.cx.effects.last() matches EffectView::SaveWorkspace(stored)
                &&& stored.id == s.workspace.database_id
                &&& stored.location == visible.map_values(|w: WorktreeView| w.abs_path)
                &&& stored.docks.left.visible == s.cx.left_dock.is_open
                &&& stored.docks.right.visible == s.cx.right_dock.is_open
                &&& stored.docks.bottom.visible == s.cx.bottom_dock.is_open
                &&& stored.docks == serialized_docks(s.cx)
                &&& stored.center_group == serialized_group(s.cx, s.workspace.center)
                &&& stored.bounds is None
                &&& stored.display is None
            }
            &&& !s.cx.project.is_local || visible.len() == 0 ==> after == s
        }),
{
    law_location(s.cx.project.worktrees);
    let after = s.serialize_workspace();
    assert(after == s || after.cx.effects.drop_last() =~= s.cx.effects);
}

/// The active item is the one at the active place of the active pane, and its path is the
/// active one. The window and the project are told of that path.
pub proof fn law_active_path(s: State)
    ensures
        s.active_item() is Some <==> (s.cx.pane(s.workspace.active_pane) matches Some(pane) && 0
            <= pane.active_item_index < pane.items.len()),
        s.active_item() matches Some(item) ==> (s.cx.pane(
            s.workspace.active_pane,
        )->Some_0.items[s.cx.pane(s.workspace.active_pane)->Some_0.active_item_index] == item),
        s.active_project_path() is Some <==> (s.active_item() matches Some(item) && s.cx.item(
            item,
        ) matches Some(found) && found.project_path is Some),
        s.active_project_path() is Some ==> s.active_project_path() == s.cx.item(
            s.active_item()->0,
        )->Some_0.project_path,
        s.active_item_path_changed().cx.effects.len() == s.cx.effects.len() + 2,
        s.active_item_path_changed().cx.effects[s.cx.effects.len() as int]
            == EffectView::SetActivePath(s.active_project_path()),
        s.active_item_path_changed().cx.effects.last() is SetWindowTitle,
        s.active_item_path_changed().workspace == s.workspace,
{
}

/// Closing the docks closes all three and changes nothing else of them.
pub proof fn law_docks_closed(s: State)
    ensures
        s.close_all_docks().cx.left_dock == (DockView { is_open: false, ..s.cx.left_dock }),
        s.close_all_docks().cx.right_dock == (DockView { is_open: false, ..s.cx.right_dock }),
        s.close_all_docks().cx.bottom_dock == (DockView { is_open: false, ..s.cx.bottom_dock }),
        s.close_all_docks().workspace == s.workspace,
{
}

/// Zooming out takes the zoom alone: the panes of others, and everything else of the panes and
/// of the panels, stay as they were.
pub proof fn law_zoom_out_keeps(s: State, i: int)
    ensures
        ({
            let after = s.zoom_out();
            &&& after.workspace == (WorkspaceView {
                zoomed: None,
                zoomed_position: None,
                ..s.workspace
            })
            &&& after.cx.panes.len() == s.cx.panes.len()
            &&& 0 <= i < s.cx.panes.len() ==> after.cx.panes[i] == (PaneView {
                zoomed: s.cx.panes[i].zoomed && !s.workspace.panes.contains(s.cx.panes[i].id),
                ..s.cx.panes[i]
            })
            &&& after.cx.left_dock.is_open == s.cx.left_dock.is_open
            &&& after.cx.right_dock.is_open == s.cx.right_dock.is_open
            &&& after.cx.bottom_dock.is_open == s.cx.bottom_dock.is_open
            &&& after.cx.effects == s.cx.effects.push(EffectView::Notify)
        }),
{
}

/// Making way closes a dock exactly if it is not the one to reveal and its active panel is
/// zoomed. Panes lose their zoom, but the active one where no dock is to be revealed. The focus
/// goes to the workspace exactly if it was in a dock that closed, and what the workspace notes
/// as zoomed is forgotten exactly if it is elsewhere.
pub proof fn law_dismiss_keeps(s: State, reveal: Option<DockPosition>, i: int)
    ensures
        ({
            let after = s.dismiss_zoomed_items_to_reveal(reveal);
            let closes = |dock: DockView|
                reveal != Some(dock.position) && 0 <= dock.active_panel_index < dock.panels.len()
                    && dock.panels[dock.active_panel_index].zoomed;
            let focused = |dock: DockView|
                closes(dock) && dock.panels[dock.active_panel_index].has_focus;
            &&& after.cx.left_dock.is_open == (s.cx.left_dock.is_open && !closes(s.cx.left_dock))
            &&& after.cx.right_dock.is_open == (s.cx.right_dock.is_open && !closes(
                s.cx.right_dock,
            ))
            &&& after.cx.bottom_dock.is_open == (s.cx.bottom_dock.is_open && !closes(
                s.cx.bottom_dock,
            ))
            &&& after.cx.effects == (if focused(s.cx.left_dock) || focused(s.cx.right_dock)
                || focused(s.cx.bottom_dock) {
                s.cx.effects.push(EffectView::FocusWorkspace).push(EffectView::Notify)
            } else {
                s.cx.effects.push(EffectView::Notify)
            })
            &&& 0 <= i < s.cx.panes.len() ==> after.cx.panes[i].zoomed == (
            s.cx.panes[i].zoomed && (!s.workspace.panes.contains(s.cx.panes[i].id) || (
            reveal is None && s.cx.panes[i].id == s.workspace.active_pane)))
            &&& after.workspace == (if s.workspace.zoomed_position == reveal {
                s.workspace
            } else {
                WorkspaceView { zoomed: None, zoomed_position: None, ..s.workspace }
            })
        }),
{
}

/// A workspace that was just built has one pane, new and empty, which is its center and its
/// active pane. It follows nobody, nothing in it is zoomed, and its docks are closed and empty,
/// each on its side. Its window is in the store, and everyone is told.
pub proof fn law_new_workspace(
    cx: ContextView,
    workspace_id: WorkspaceId,
    weak_self: u64,
    window: u64,
    call: Option<u64>,
)
    ensures
        ({
            let pane = cx.next_entity_id;
            let w = new_workspace(workspace_id, weak_self, pane, call);
            let after = new_context(cx, weak_self, window);
            &&& w.panes == seq![pane]
            &&& w.center == MemberView::Pane(pane)
            &&& w.active_pane == pane
            &&& w.last_active_center_pane == Some(pane)
            &&& w.follower_states.len() == 0
            &&& w.leader_updates.len() == 0
            &&& w.current_update is None
            &&& w.zoomed is None && w.zoomed_position is None
            &&& w.database_id == workspace_id
            &&& w.active_call == call
            &&& w.weak_self == weak_self
            &&& !w.window_edited
            &&& after.panes.len() == cx.panes.len() + 1
            &&& after.panes.last().id == pane
            &&& after.panes.last().items.len() == 0
            &&& !after.left_dock.is_open && after.left_dock.panels.len() == 0
                && after.left_dock.position == DockPosition::Left
            &&& !after.right_dock.is_open && after.right_dock.panels.len() == 0
                && after.right_dock.position == DockPosition::Right
            &&& !after.bottom_dock.is_open && after.bottom_dock.panels.len() == 0
                && after.bottom_dock.position == DockPosition::Bottom
            &&& after.store.workspaces.contains(window)
            &&& after.next_entity_id == (cx.next_entity_id + 1) as u64
            &&& after.effects.skip(cx.effects.len() as int) == seq![
                EffectView::BuildPane(pane),
                EffectView::Emit(Event::PaneAdded(pane)),
                EffectView::Emit(Event::WorkspaceCreated(weak_self)),
                EffectView::SetStatusBarPane(pane),
                EffectView::AddPanelButtons { side: StatusBarSide::Left, dock: DockPosition::Left },
                EffectView::AddPanelButtons {
                    side: StatusBarSide::Right,
                    dock: DockPosition::Right,
                },
                EffectView::AddPanelButtons {
                    side: StatusBarSide::Right,
                    dock: DockPosition::Bottom,
                },
            ] + (if cx.active_call is Some {
                seq![EffectView::WatchActiveCall]
            } else {
                Seq::empty()
            }).push(EffectView::DeferWindowTitle)
        }),
{
    let after = new_context(cx, weak_self, window);
    if !cx.store.workspaces.contains(window) {
        assert(after.store.workspaces.last() == window);
    }
}

} // verus!
