//! What a workspace sees of its surroundings, and what it asks of them.
//!
//! A `Context` holds, as plain values, the panes, items and docks of a window, its project
//! and the call we are in. Handles are numbers. What the workspace asks for is appended to
//! the list of effects, to be carried out in order.

use crate::dock::{text_view, Dock, DockPosition, DockView};
use crate::navigation::{entry_views, HistoryEntry, HistoryEntryView};
use crate::path::{path_views, project_path_view, ComponentView, PathBuf, ProjectPath, ProjectPathView};
use crate::proto;
use crate::proto::PeerId;
use crate::serialized::{
    SerializedWorkspace, SerializedWorkspaceView, WindowBounds, WorkspaceId,
};
use crate::store::{StoreView, WorkspaceStore};
use crate::view_id::ViewId;
use vstd::prelude::*;

verus! {

/// A pane: its items, which of them is active, how it is shown, and the steps of its history.
#[derive(Debug, PartialEq, Eq)]
pub struct Pane {
    pub id: u64,
    pub items: Vec<u64>,
    pub active_item_index: usize,
    pub zoomed: bool,
    pub has_focus: bool,
    pub history: Vec<HistoryEntry>,
}

#[verifier::ext_equal]
pub struct PaneView {
    pub id: u64,
    pub items: Seq<u64>,
    pub active_item_index: int,
    pub zoomed: bool,
    pub has_focus: bool,
    pub history: Seq<HistoryEntryView>,
}

impl View for Pane {
    type V = PaneView;

    open spec fn view(&self) -> PaneView {
        PaneView {
            id: self.id,
            items: self.items@,
            active_item_index: self.active_item_index as int,
            zoomed: self.zoomed,
            has_focus: self.has_focus,
            history: entry_views(self.history@),
        }
    }
}

/// The place of an item in a list of items, from `i` on.
pub open spec fn item_place(items: Seq<u64>, item: u64, i: int) -> Option<int>
    decreases items.len() - i,
{
    if i < 0 || i >= items.len() {
        None
    } else if items[i] == item {
        Some(i)
    } else {
        item_place(items, item, i + 1)
    }
}

impl PaneView {
    pub open spec fn active_item(self) -> Option<u64> {
        if 0 <= self.active_item_index < self.items.len() {
            Some(self.items[self.active_item_index])
        } else {
            None
        }
    }

    pub open spec fn index_for_item(self, item: u64) -> Option<int> {
        item_place(self.items, item, 0)
    }
}

impl Pane {
    pub fn active_item(&self) -> (item: Option<u64>)
        ensures
            item == self@.active_item(),
    {
        if self.active_item_index < self.items.len() {
            Some(self.items[self.active_item_index])
        } else {
            None
        }
    }

    /// The place of an item in the pane.
    pub fn index_for_item(&self, item: u64) -> (index: Option<usize>)
        ensures
            self@.index_for_item(item) == (match index {
                Some(index) => Some(index as int),
                None => None,
            }),
    {
        let mut i: usize = 0;
        while i < self.items.len()
            invariant
                i <= self.items.len(),
                item_place(self.items@, item, 0) == item_place(self.items@, item, i as int),
            decreases self.items.len() - i,
        {
            if self.items[i] == item {
                return Some(i);
            }
            i += 1;
        }
        None
    }
}

/// The part of an item that collaborators can follow. Its state is known by a number.
#[derive(Clone, Copy, Debug, PartialEq, Eq, Structural)]
pub struct Followable {
    pub is_project_item: bool,
    pub remote_id: Option<ViewId>,
    pub state: Option<u64>,
}

/// An item, as far as the workspace looks at it.
#[derive(Debug, PartialEq, Eq)]
pub struct Item {
    pub id: u64,
    pub serialized_item_kind: Option<String>,
    pub project_path: Option<ProjectPath>,
    pub is_dirty: bool,
    pub has_conflict: bool,
    pub followable: Option<Followable>,
}

#[verifier::ext_equal]
pub struct ItemView {
    pub id: u64,
    pub serialized_item_kind: Option<Seq<char>>,
    pub project_path: Option<ProjectPathView>,
    pub is_dirty: bool,
    pub has_conflict: bool,
    pub followable: Option<Followable>,
}

impl View for Item {
    type V = ItemView;

    open spec fn view(&self) -> ItemView {
        ItemView {
            id: self.id,
            serialized_item_kind: text_view(self.serialized_item_kind),
            project_path: project_path_view(self.project_path),
            is_dirty: self.is_dirty,
            has_conflict: self.has_conflict,
            followable: self.followable,
        }
    }
}

/// A directory that belongs to a project, with the files below it.
#[derive(Debug, PartialEq, Eq)]
pub struct Worktree {
    pub id: u64,
    pub root_name: String,
    pub abs_path: PathBuf,
    pub visible: bool,
    pub is_local: bool,
    pub files: Vec<PathBuf>,
}

#[verifier::ext_equal]
pub struct WorktreeView {
    pub id: u64,
    pub root_name: Seq<char>,
    pub abs_path: Seq<ComponentView>,
    pub visible: bool,
    pub is_local: bool,
    pub files: Seq<Seq<ComponentView>>,
}

impl View for Worktree {
    type V = WorktreeView;

    open spec fn view(&self) -> WorktreeView {
        WorktreeView {
            id: self.id,
            root_name: self.root_name@,
            abs_path: self.abs_path@,
            visible: self.visible,
            is_local: self.is_local,
            files: path_views(self.files@),
        }
    }
}

/// The project of a workspace.
#[derive(Debug, PartialEq, Eq)]
pub struct Project {
    pub is_local: bool,
    pub is_remote: bool,
    pub is_shared: bool,
    pub is_read_only: bool,
    pub remote_id: Option<u64>,
    pub worktrees: Vec<Worktree>,
    pub worktree_root_names: Vec<String>,
}

#[verifier::ext_equal]
pub struct ProjectView {
    pub is_local: bool,
    pub is_remote: bool,
    pub is_shared: bool,
    pub is_read_only: bool,
    pub remote_id: Option<u64>,
    pub worktrees: Seq<WorktreeView>,
    pub worktree_root_names: Seq<Seq<char>>,
}

/// The views of a list of strings.
pub open spec fn text_views(texts: Seq<String>) -> Seq<Seq<char>> {
    texts.map_values(|t: String| t@)
}

impl View for Project {
    type V = ProjectView;

    open spec fn view(&self) -> ProjectView {
        ProjectView {
            is_local: self.is_local,
            is_remote: self.is_remote,
            is_shared: self.is_shared,
            is_read_only: self.is_read_only,
            remote_id: self.remote_id,
            worktrees: self.worktrees@.map_values(|w: Worktree| w@),
            worktree_root_names: text_views(self.worktree_root_names@),
        }
    }
}

/// Where a participant of a call is.
#[derive(Clone, Copy, Debug, PartialEq, Eq, Structural)]
pub enum ParticipantLocation {
    SharedProject { project_id: u64 },
    UnsharedProject,
    External,
}

/// Someone else in a room.
#[derive(Clone, Copy, Debug, PartialEq, Eq, Structural)]
pub struct Participant {
    pub peer_id: PeerId,
    pub location: ParticipantLocation,
}

/// The room of a call.
#[derive(Debug, PartialEq, Eq)]
pub struct Room {
    pub id: u64,
    pub participants: Vec<Participant>,
}

#[verifier::ext_equal]
pub struct RoomView {
    pub id: u64,
    pub participants: Seq<Participant>,
}

impl View for Room {
    type V = RoomView;

    open spec fn view(&self) -> RoomView {
        RoomView { id: self.id, participants: self.participants@ }
    }
}

/// The first participant of a list who is the given collaborator, from `i` on.
pub open spec fn find_participant(
    participants: Seq<Participant>,
    peer_id: PeerId,
    i: int,
) -> Option<Participant>
    decreases participants.len() - i,
{
    if i < 0 || i >= participants.len() {
        None
    } else if participants[i].peer_id == peer_id {
        Some(participants[i])
    } else {
        find_participant(participants, peer_id, i + 1)
    }
}

impl Room {
    /// The first participant who is the given collaborator.
    pub fn participant(&self, peer_id: PeerId) -> (participant: Option<Participant>)
        ensures
            participant == find_participant(self@.participants, peer_id, 0),
    {
        let mut i: usize = 0;
        while i < self.participants.len()
            invariant
                i <= self.participants.len(),
                find_participant(self@.participants, peer_id, 0) == find_participant(
                    self@.participants,
                    peer_id,
                    i as int,
                ),
            decreases self.participants.len() - i,
        {
            if self.participants[i].peer_id == peer_id {
                return Some(self.participants[i]);
            }
            i += 1;
        }
        None
    }
}

/// The call that we can be in, with its room while we are.
#[derive(Debug, PartialEq, Eq)]
pub struct ActiveCall {
    pub id: u64,
    pub room: Option<Room>,
}

#[verifier::ext_equal]
pub struct ActiveCallView {
    pub id: u64,
    pub room: Option<RoomView>,
}

pub open spec fn room_view(room: Option<Room>) -> Option<RoomView> {
    match room {
        Some(room) => Some(room@),
        None => None,
    }
}

impl View for ActiveCall {
    type V = ActiveCallView;

    open spec fn view(&self) -> ActiveCallView {
        ActiveCallView { id: self.id, room: room_view(self.room) }
    }
}

pub open spec fn call_view(call: Option<ActiveCall>) -> Option<ActiveCallView> {
    match call {
        Some(call) => Some(call@),
        None => None,
    }
}

/// When items are saved without being asked.
#[derive(Clone, Copy, Debug, PartialEq, Eq, Structural)]
pub enum AutosaveSetting {
    Off,
    AfterDelay { milliseconds: u64 },
    OnFocusChange,
    OnWindowChange,
}

/// What a workspace tells those who observe it.
#[derive(Clone, Copy, Debug, PartialEq, Eq, Structural)]
pub enum Event {
    PaneAdded(u64),
    ContactRequestedJoin(u64),
    WorkspaceCreated(u64),
}

/// A workspace that was created, by its handle.
#[derive(Clone, Copy, Debug, PartialEq, Eq, Structural)]
pub struct WorkspaceCreated(pub u64);

/// The sides of the status bar.
#[derive(Clone, Copy, Debug, PartialEq, Eq, Structural)]
pub enum StatusBarSide {
    Left,
    Right,
}

/// What a workspace asks of its surroundings.
#[derive(Debug, PartialEq, Eq)]
#[allow(inconsistent_fields)]
pub enum Effect {
    /// Show the workspace again.
    Notify,
    /// Tell the observers of the workspace.
    Emit(Event),
    /// Build an empty pane under this number, and watch its events.
    BuildPane(u64),
    /// Put the buttons of a dock in the status bar.
    AddPanelButtons { side: StatusBarSide, dock: DockPosition },
    /// Compute the title of the window once everything is set up.
    DeferWindowTitle,
    /// Watch the events of the call that we are in.
    WatchActiveCall,
    /// Add an item to a pane.
    AddItem { pane: u64, item: u64, activate_pane: bool, focus_item: bool, index: Option<usize> },
    /// Take the item at a place out of a pane.
    RemoveItem { pane: u64, index: usize, activate_pane: bool },
    /// Activate the item at a place in a pane.
    ActivateItem { pane: u64, index: usize, activate_pane: bool, focus_item: bool },
    /// Tell an item that it has been added to a pane.
    AddedToPane { item: u64, pane: u64 },
    /// Move the focus to a pane.
    FocusPane(u64),
    /// Move the focus to the active item of a pane.
    FocusActiveItem(u64),
    /// Move the focus to the workspace itself.
    FocusWorkspace,
    /// Take the focus from the window.
    Blur,
    /// Close the window.
    RemoveWindow,
    /// Store the workspace as it is once the effects before this one are carried out.
    Serialize,
    /// Tell the status bar which pane is active.
    SetStatusBarPane(u64),
    /// Tell the project which path is active.
    SetActivePath(Option<ProjectPath>),
    /// Show a title on the window.
    SetWindowTitle(String),
    /// Store the workspace.
    SaveWorkspace(SerializedWorkspace),
    /// Store where the window of a workspace is, relative to the display that shows it.
    SaveWindowBounds { id: WorkspaceId, bounds: WindowBounds, display: u128 },
    /// Note in the store when the workspace was last used.
    UpdateTimestamp(WorkspaceId),
    /// Tell a pane that an entry of the project was deleted.
    HandleDeletedEntry { pane: u64, entry: u64 },
    /// Show a notification.
    ShowNotification { id: usize, message: String },
    /// Show a notification that can be clicked, unless it is shown already.
    ShowNotificationOnce { id: usize, message: String, click_message: String, url: String },
    /// Tell an item whom it follows.
    SetLeader { item: u64, leader_id: Option<PeerId> },
    /// Apply a change that a leader sent to an item.
    ApplyUpdate { item: u64, update: u64 },
    /// Tell the server that we stop following.
    SendUnfollow(proto::Unfollow),
    /// Send an update to followers.
    SendUpdateFollowers(proto::UpdateFollowers),
    /// An update from a leader waits to be processed.
    WakeLeaderUpdates,
    /// Tell an item that its workspace is no longer active.
    WorkspaceDeactivated(u64),
    /// Save an item.
    AutosaveItem(u64),
    /// Open a path of the project in a pane.
    OpenPath { path: ProjectPath, pane: u64, focus_item: bool },
    /// Build, under this number, the item that shows something of the project.
    BuildItem { item: u64, project_item: u64 },
    /// Show a modal, or hide the one that is shown.
    ToggleModal(u64),
}

#[allow(inconsistent_fields)]
#[verifier::ext_equal]
pub enum EffectView {
    Notify,
    Emit(Event),
    BuildPane(u64),
    AddPanelButtons { side: StatusBarSide, dock: DockPosition },
    DeferWindowTitle,
    WatchActiveCall,
    AddItem { pane: u64, item: u64, activate_pane: bool, focus_item: bool, index: Option<int> },
    RemoveItem { pane: u64, index: int, activate_pane: bool },
    ActivateItem { pane: u64, index: int, activate_pane: bool, focus_item: bool },
    AddedToPane { item: u64, pane: u64 },
    FocusPane(u64),
    FocusActiveItem(u64),
    FocusWorkspace,
    Blur,
    RemoveWindow,
    Serialize,
    SetStatusBarPane(u64),
    SetActivePath(Option<ProjectPathView>),
    SetWindowTitle(Seq<char>),
    SaveWorkspace(SerializedWorkspaceView),
    SaveWindowBounds { id: WorkspaceId, bounds: WindowBounds, display: u128 },
    UpdateTimestamp(WorkspaceId),
    HandleDeletedEntry { pane: u64, entry: u64 },
    ShowNotification { id: int, message: Seq<char> },
    ShowNotificationOnce { id: int, message: Seq<char>, click_message: Seq<char>, url: Seq<char> },
    SetLeader { item: u64, leader_id: Option<PeerId> },
    ApplyUpdate { item: u64, update: u64 },
    SendUnfollow(proto::Unfollow),
    SendUpdateFollowers(proto::UpdateFollowersView),
    WakeLeaderUpdates,
    WorkspaceDeactivated(u64),
    AutosaveItem(u64),
    OpenPath { path: ProjectPathView, pane: u64, focus_item: bool },
    BuildItem { item: u64, project_item: u64 },
    ToggleModal(u64),
}

pub open spec fn index_view(index: Option<usize>) -> Option<int> {
    match index {
        Some(index) => Some(index as int),
        None => None,
    }
}

impl View for Effect {
    type V = EffectView;

    open spec fn view(&self) -> EffectView {
        match *self {
            Effect::Notify => EffectView::Notify,
            Effect::Emit(event) => EffectView::Emit(event),
            Effect::BuildPane(pane) => EffectView::BuildPane(pane),
            Effect::AddPanelButtons { side, dock } => EffectView::AddPanelButtons { side, dock },
            Effect::DeferWindowTitle => EffectView::DeferWindowTitle,
            Effect::WatchActiveCall => EffectView::WatchActiveCall,
            Effect::AddItem { pane, item, activate_pane, focus_item, index } => EffectView::AddItem {
                pane,
                item,
                activate_pane,
                focus_item,
                index: index_view(index),
            },
            Effect::RemoveItem { pane, index, activate_pane } => EffectView::RemoveItem {
                pane,
                index: index as int,
                activate_pane,
            },
            Effect::ActivateItem { pane, index, activate_pane, focus_item } => EffectView::ActivateItem {
                pane,
                index: index as int,
                activate_pane,
                focus_item,
            },
            Effect::AddedToPane { item, pane } => EffectView::AddedToPane { item, pane },
            Effect::FocusPane(pane) => EffectView::FocusPane(pane),
            Effect::FocusActiveItem(pane) => EffectView::FocusActiveItem(pane),
            Effect::FocusWorkspace => EffectView::FocusWorkspace,
            Effect::Blur => EffectView::Blur,
            Effect::RemoveWindow => EffectView::RemoveWindow,
            Effect::Serialize => EffectView::Serialize,
            Effect::SetStatusBarPane(pane) => EffectView::SetStatusBarPane(pane),
            Effect::SetActivePath(path) => EffectView::SetActivePath(project_path_view(path)),
            Effect::SetWindowTitle(title) => EffectView::SetWindowTitle(title@),
            Effect::SaveWorkspace(workspace) => EffectView::SaveWorkspace(workspace@),
            Effect::SaveWindowBounds { id, bounds, display } => EffectView::SaveWindowBounds {
                id,
                bounds,
                display,
            },
            Effect::UpdateTimestamp(id) => EffectView::UpdateTimestamp(id),
            Effect::HandleDeletedEntry { pane, entry } => EffectView::HandleDeletedEntry {
                pane,
                entry,
            },
            Effect::ShowNotification { id, message } => EffectView::ShowNotification {
                id: id as int,
                message: message@,
            },
            Effect::ShowNotificationOnce { id, message, click_message, url } => EffectView::ShowNotificationOnce {
                id: id as int,
                message: message@,
                click_message: click_message@,
                url: url@,
            },
            Effect::SetLeader { item, leader_id } => EffectView::SetLeader { item, leader_id },
            Effect::ApplyUpdate { item, update } => EffectView::ApplyUpdate { item, update },
            Effect::SendUnfollow(message) => EffectView::SendUnfollow(message),
            Effect::SendUpdateFollowers(message) => EffectView::SendUpdateFollowers(message@),
            Effect::WakeLeaderUpdates => EffectView::WakeLeaderUpdates,
            Effect::WorkspaceDeactivated(item) => EffectView::WorkspaceDeactivated(item),
            Effect::AutosaveItem(item) => EffectView::AutosaveItem(item),
            Effect::OpenPath { path, pane, focus_item } => EffectView::OpenPath {
                path: path@,
                pane,
                focus_item,
            },
            Effect::BuildItem { item, project_item } => EffectView::BuildItem { item, project_item },
            Effect::ToggleModal(modal) => EffectView::ToggleModal(modal),
        }
    }
}

/// The surroundings of a workspace.
pub struct Context {
    pub panes: Vec<Pane>,
    pub items: Vec<Item>,
    pub left_dock: Dock,
    pub bottom_dock: Dock,
    pub right_dock: Dock,
    pub project: Project,
    pub active_call: Option<ActiveCall>,
    pub store: WorkspaceStore,
    pub window_active: bool,
    pub autosave: AutosaveSetting,
    pub next_entity_id: u64,
    pub effects: Vec<Effect>,
}

#[verifier::ext_equal]
pub struct ContextView {
    pub panes: Seq<PaneView>,
    pub items: Seq<ItemView>,
    pub left_dock: DockView,
    pub bottom_dock: DockView,
    pub right_dock: DockView,
    pub project: ProjectView,
    pub active_call: Option<ActiveCallView>,
    pub store: StoreView,
    pub window_active: bool,
    pub autosave: AutosaveSetting,
    pub next_entity_id: u64,
    pub effects: Seq<EffectView>,
}

pub open spec fn pane_views(panes: Seq<Pane>) -> Seq<PaneView> {
    panes.map_values(|p: Pane| p@)
}

pub open spec fn effect_views(effects: Seq<Effect>) -> Seq<EffectView> {
    effects.map_values(|e: Effect| e@)
}

impl View for Context {
    type V = ContextView;

    open spec fn view(&self) -> ContextView {
        ContextView {
            panes: pane_views(self.panes@),
            items: self.items@.map_values(|i: Item| i@),
            left_dock: self.left_dock@,
            bottom_dock: self.bottom_dock@,
            right_dock: self.right_dock@,
            project: self.project@,
            active_call: call_view(self.active_call),
            store: self.store@,
            window_active: self.window_active,
            autosave: self.autosave,
            next_entity_id: self.next_entity_id,
            effects: effect_views(self.effects@),
        }
    }
}

/// The first pane of a list with the given number, from `i` on.
pub open spec fn find_pane(panes: Seq<PaneView>, id: u64, i: int) -> Option<PaneView>
    decreases panes.len() - i,
{
    if i < 0 || i >= panes.len() {
        None
    } else if panes[i].id == id {
        Some(panes[i])
    } else {
        find_pane(panes, id, i + 1)
    }
}

/// The first item of a list with the given number, from `i` on.
pub open spec fn find_item(items: Seq<ItemView>, id: u64, i: int) -> Option<ItemView>
    decreases items.len() - i,
{
    if i < 0 || i >= items.len() {
        None
    } else if items[i].id == id {
        Some(items[i])
    } else {
        find_item(items, id, i + 1)
    }
}

/// The first worktree of a list with the given number, from `i` on.
pub open spec fn find_worktree(worktrees: Seq<WorktreeView>, id: u64, i: int) -> Option<WorktreeView>
    decreases worktrees.len() - i,
{
    if i < 0 || i >= worktrees.len() {
        None
    } else if worktrees[i].id == id {
        Some(worktrees[i])
    } else {
        find_worktree(worktrees, id, i + 1)
    }
}

/// A pane without items that was just built.
pub open spec fn empty_pane(id: u64) -> PaneView {
    PaneView {
        id,
        items: Seq::empty(),
        active_item_index: 0,
        zoomed: false,
        has_focus: false,
        history: Seq::empty(),
    }
}

impl ContextView {
    pub open spec fn emit(self, effect: EffectView) -> ContextView {
        ContextView { effects: self.effects.push(effect), ..self }
    }

    /// The context with effects asked for in the given order.
    pub open spec fn emit_all(self, effects: Seq<EffectView>) -> ContextView {
        ContextView { effects: self.effects + effects, ..self }
    }

    /// The context in which those of the given panes that are not spared are not zoomed.
    pub open spec fn unzoom(self, panes: Seq<u64>, spared: Option<u64>) -> ContextView {
        ContextView {
            panes: self.panes.map_values(
                |p: PaneView|
                    if panes.contains(p.id) && spared != Some(p.id) {
                        PaneView { zoomed: false, ..p }
                    } else {
                        p
                    },
            ),
            ..self
        }
    }

    pub open spec fn pane(self, id: u64) -> Option<PaneView> {
        find_pane(self.panes, id, 0)
    }

    pub open spec fn item(self, id: u64) -> Option<ItemView> {
        find_item(self.items, id, 0)
    }

    /// The room of a call, while we are in one.
    pub open spec fn room(self, call: Option<u64>) -> Option<RoomView> {
        match (call, self.active_call) {
            (Some(id), Some(active)) if active.id == id => active.room,
            _ => None,
        }
    }

    /// The call that we can be in.
    pub open spec fn call_id(self) -> Option<u64> {
        match self.active_call {
            Some(call) => Some(call.id),
            None => None,
        }
    }

    /// The number of the room of a call, while we are in one.
    pub open spec fn room_id(self, call: Option<u64>) -> Option<u64> {
        match self.room(call) {
            Some(room) => Some(room.id),
            None => None,
        }
    }

    pub open spec fn has_pane(self, id: u64) -> bool {
        self.pane(id) is Some
    }

    pub open spec fn set_zoomed(self, pane: u64, zoomed: bool) -> ContextView {
        ContextView {
            panes: self.panes.map_values(
                |p: PaneView|
                    if p.id == pane {
                        PaneView { zoomed, ..p }
                    } else {
                        p
                    },
            ),
            ..self
        }
    }

    /// The context in which the given pane has the focus, or nothing in the window has.
    pub open spec fn with_focus(self, pane: Option<u64>) -> ContextView {
        ContextView {
            panes: self.panes.map_values(
                |p: PaneView| PaneView { has_focus: Some(p.id) == pane, ..p },
            ),
            left_dock: self.left_dock.blur(),
            bottom_dock: self.bottom_dock.blur(),
            right_dock: self.right_dock.blur(),
            ..self
        }
    }

    pub open spec fn focus_pane(self, pane: u64) -> ContextView {
        self.with_focus(Some(pane)).emit(EffectView::FocusPane(pane))
    }

    pub open spec fn focus_workspace(self) -> ContextView {
        self.with_focus(None).emit(EffectView::FocusWorkspace)
    }

    pub open spec fn blur(self) -> ContextView {
        self.with_focus(None).emit(EffectView::Blur)
    }

    /// The context with one more pane, under the next free number.
    pub open spec fn build_pane(self) -> ContextView {
        ContextView {
            panes: self.panes.push(empty_pane(self.next_entity_id)),
            next_entity_id: (self.next_entity_id + 1) as u64,
            ..self
        }.emit(EffectView::BuildPane(self.next_entity_id))
    }

    /// The context that waits for an item under the next free number.
    pub open spec fn build_item(self, project_item: u64) -> ContextView {
        ContextView { next_entity_id: (self.next_entity_id + 1) as u64, ..self }.emit(
            EffectView::BuildItem { item: self.next_entity_id, project_item },
        )
    }

    /// Every pane has a number below the next free one.
    pub open spec fn fresh(self) -> bool {
        forall|i: int| 0 <= i < self.panes.len() ==> (#[trigger] self.panes[i]).id < self.next_entity_id
    }
}

impl Context {
    /// Asks for an effect.
    pub fn emit(&mut self, effect: Effect)
        ensures
            final(self)@ == old(self)@.emit(effect@),
    {
        self.effects.push(effect);
        assert(self@.effects =~= old(self)@.effects.push(effect@));
    }

    pub fn pane(&self, id: u64) -> (pane: Option<&Pane>)
        ensures
            match pane {
                Some(pane) => self@.pane(id) == Some(pane@),
                None => self@.pane(id) is None,
            },
    {
        let mut i: usize = 0;
        while i < self.panes.len()
            invariant
                i <= self.panes.len(),
                self@.pane(id) == find_pane(self@.panes, id, i as int),
            decreases self.panes.len() - i,
        {
            assert(self@.panes[i as int] == self.panes@[i as int]@);
            if self.panes[i].id == id {
                return Some(&self.panes[i]);
            }
            i += 1;
        }
        None
    }

    pub fn item(&self, id: u64) -> (item: Option<&Item>)
        ensures
            match item {
                Some(item) => self@.item(id) == Some(item@),
                None => self@.item(id) is None,
            },
    {
        let mut i: usize = 0;
        while i < self.items.len()
            invariant
                i <= self.items.len(),
                self@.item(id) == find_item(self@.items, id, i as int),
            decreases self.items.len() - i,
        {
            assert(self@.items[i as int] == self.items@[i as int]@);
            if self.items[i].id == id {
                return Some(&self.items[i]);
            }
            i += 1;
        }
        None
    }

    pub fn worktree(&self, id: u64) -> (worktree: Option<&Worktree>)
        ensures
            match worktree {
                Some(worktree) => find_worktree(self@.project.worktrees, id, 0) == Some(worktree@),
                None => find_worktree(self@.project.worktrees, id, 0) is None,
            },
    {
        let mut i: usize = 0;
        while i < self.project.worktrees.len()
            invariant
                i <= self.project.worktrees.len(),
                find_worktree(self@.project.worktrees, id, 0) == find_worktree(
                    self@.project.worktrees,
                    id,
                    i as int,
                ),
            decreases self.project.worktrees.len() - i,
        {
            assert(self@.project.worktrees[i as int] == self.project.worktrees@[i as int]@);
            if self.project.worktrees[i].id == id {
                return Some(&self.project.worktrees[i]);
            }
            i += 1;
        }
        None
    }

    /// Zooms a pane, or takes its zoom.
    pub fn set_zoomed(&mut self, pane: u64, zoomed: bool)
        ensures
            final(self)@ == old(self)@.set_zoomed(pane, zoomed),
    {
        let ghost before = *self;
        let ghost after = self@.set_zoomed(pane, zoomed);
        let mut i: usize = 0;
        while i < self.panes.len()
            invariant
                i <= self.panes.len(),
                after == before@.set_zoomed(pane, zoomed),
                before == *old(self),
                *self == (Context { panes: self.panes, ..before }),
                self.panes.len() == before.panes.len(),
                forall|j: int| 0 <= j < i ==> (#[trigger] self.panes@[j])@ == after.panes[j],
                forall|j: int|
                    i <= j < self.panes.len() ==> #[trigger] self.panes@[j] == before.panes@[j],
            decreases self.panes.len() - i,
        {
            assert(before@.panes[i as int] == before.panes@[i as int]@);
            if self.panes[i].id == pane {
                self.panes[i].zoomed = zoomed;
            }
            i += 1;
        }
        assert(self@.panes =~= after.panes);
        assert(self@ =~= after);
    }

    /// Takes the zoom of all the given panes but the spared one.
    pub fn unzoom(&mut self, panes: &Vec<u64>, spared: Option<u64>)
        ensures
            final(self)@ == old(self)@.unzoom(panes@, spared),
    {
        let ghost before = self@;
        let mut i: usize = 0;
        proof {
            assert(before.unzoom(panes@.take(0), spared) =~= before);
        }
        while i < panes.len()
            invariant
                i <= panes.len(),
                before == old(self)@,
                self@ == before.unzoom(panes@.take(i as int), spared),
            decreases panes.len() - i,
        {
            let pane = panes[i];
            let ghost done = self@;
            let ghost old_ids = panes@.take(i as int);
            let ghost new_ids = panes@.take(i + 1);
            if spared != Some(pane) {
                self.set_zoomed(pane, false);
            }
            proof {
                assert(new_ids =~= old_ids.push(pane));
                assert forall|id: u64| new_ids.contains(id) <==> old_ids.contains(id) || id
                    == pane by {
                    if old_ids.contains(id) {
                        let k = old_ids.index_of(id);
                        assert(new_ids[k] == id);
                    }
                    if id == pane {
                        assert(new_ids[i as int] == id);
                    }
                }
                assert(self@.panes =~= before.unzoom(new_ids, spared).panes);
            }
            i += 1;
        }
        assert(panes@.take(i as int) =~= panes@);
    }

    fn move_focus(&mut self, pane: Option<u64>)
        ensures
            final(self)@ == old(self)@.with_focus(pane),
    {
        let ghost before = *self;
        let ghost after = self@.with_focus(pane);
        let mut i: usize = 0;
        while i < self.panes.len()
            invariant
                i <= self.panes.len(),
                after == before@.with_focus(pane),
                before == *old(self),
                *self == (Context { panes: self.panes, ..before }),
                self.panes.len() == before.panes.len(),
                forall|j: int| 0 <= j < i ==> (#[trigger] self.panes@[j])@ == after.panes[j],
                forall|j: int|
                    i <= j < self.panes.len() ==> #[trigger] self.panes@[j] == before.panes@[j],
            decreases self.panes.len() - i,
        {
            assert(before@.panes[i as int] == before.panes@[i as int]@);
            let has_focus = Some(self.panes[i].id) == pane;
            self.panes[i].has_focus = has_focus;
            i += 1;
        }
        assert(self@.panes =~= after.panes);
        self.left_dock.blur();
        self.bottom_dock.blur();
        self.right_dock.blur();
        assert(self@ =~= after);
    }

    /// Moves the focus to a pane.
    pub fn focus_pane(&mut self, pane: u64)
        ensures
            final(self)@ == old(self)@.focus_pane(pane),
    {
        self.move_focus(Some(pane));
        self.emit(Effect::FocusPane(pane));
    }

    /// Moves the focus to the workspace itself.
    pub fn focus_workspace(&mut self)
        ensures
            final(self)@ == old(self)@.focus_workspace(),
    {
        self.move_focus(None);
        self.emit(Effect::FocusWorkspace);
    }

    /// Takes the focus from the window.
    pub fn blur(&mut self)
        ensures
            final(self)@ == old(self)@.blur(),
    {
        self.move_focus(None);
        self.emit(Effect::Blur);
    }

    /// Builds an empty pane.
    pub fn build_pane(&mut self) -> (id: u64)
        requires
            old(self).next_entity_id < u64::MAX,
        ensures
            id == old(self).next_entity_id,
            final(self)@ == old(self)@.build_pane(),
    {
        let ghost before = self@;
        let id = self.next_entity_id;
        self.next_entity_id = id + 1;
        let pane = Pane {
            id,
            items: Vec::new(),
            active_item_index: 0,
            zoomed: false,
            has_focus: false,
            history: Vec::new(),
        };
        assert(entry_views(pane.history@) =~= Seq::empty());
        self.panes.push(pane);
        assert(self@.panes =~= before.panes.push(empty_pane(id)));
        self.emit(Effect::BuildPane(id));
        id
    }

    /// Asks for the item that shows something of the project.
    pub fn build_item(&mut self, project_item: u64) -> (id: u64)
        requires
            old(self).next_entity_id < u64::MAX,
        ensures
            id == old(self).next_entity_id,
            final(self)@ == old(self)@.build_item(project_item),
    {
        let id = self.next_entity_id;
        self.next_entity_id = id + 1;
        self.emit(Effect::BuildItem { item: id, project_item });
        id
    }

    /// The call that we can be in.
    pub fn call_id(&self) -> (id: Option<u64>)
        ensures
            id == self@.call_id(),
    {
        match &self.active_call {
            Some(call) => Some(call.id),
            None => None,
        }
    }

    /// The room of a call, while we are in one.
    pub fn room(&self, call: Option<u64>) -> (room: Option<&Room>)
        ensures
            match room {
                Some(room) => self@.room(call) == Some(room@),
                None => self@.room(call) is None,
            },
    {
        match (call, &self.active_call) {
            (Some(id), Some(active)) => {
                if active.id == id {
                    match &active.room {
                        Some(room) => Some(room),
                        None => None,
                    }
                } else {
                    None
                }
            },
            _ => None,
        }
    }

    /// The number of the room of a call, while we are in one.
    pub fn room_id(&self, call: Option<u64>) -> (id: Option<u64>)
        ensures
            id == self@.room_id(call),
    {
        match self.room(call) {
            Some(room) => Some(room.id),
            None => None,
        }
    }
}

proof fn lemma_find_pane(panes: Seq<PaneView>, id: u64, i: int)
    requires
        0 <= i <= panes.len(),
    ensures
        match find_pane(panes, id, i) {
            Some(found) => exists|k: int|
                i <= k < panes.len() && (#[trigger] panes[k]) == found && found.id == id
                    && forall|j: int| i <= j < k ==> (#[trigger] panes[j]).id != id,
            None => forall|j: int| i <= j < panes.len() ==> (#[trigger] panes[j]).id != id,
        },
    decreases panes.len() - i,
{
    if i < panes.len() {
        if panes[i].id == id {
            assert(panes[i] == find_pane(panes, id, i)->0);
        } else {
            lemma_find_pane(panes, id, i + 1);
        }
    }
}

proof fn lemma_find_item(items: Seq<ItemView>, id: u64, i: int)
    requires
        0 <= i <= items.len(),
    ensures
        match find_item(items, id, i) {
            Some(found) => exists|k: int|
                i <= k < items.len() && (#[trigger] items[k]) == found && found.id == id
                    && forall|j: int| i <= j < k ==> (#[trigger] items[j]).id != id,
            None => forall|j: int| i <= j < items.len() ==> (#[trigger] items[j]).id != id,
        },
    decreases items.len() - i,
{
    if i < items.len() {
        if items[i].id == id {
            assert(items[i] == find_item(items, id, i)->0);
        } else {
            lemma_find_item(items, id, i + 1);
        }
    }
}

proof fn lemma_find_worktree(worktrees: Seq<WorktreeView>, id: u64, i: int)
    requires
        0 <= i <= worktrees.len(),
    ensures
        match find_worktree(worktrees, id, i) {
            Some(found) => exists|k: int|
                i <= k < worktrees.len() && (#[trigger] worktrees[k]) == found && found.id == id
                    && forall|j: int| i <= j < k ==> (#[trigger] worktrees[j]).id != id,
            None => forall|j: int| i <= j < worktrees.len() ==> (#[trigger] worktrees[j]).id != id,
        },
    decreases worktrees.len() - i,
{
    if i < worktrees.len() {
        if worktrees[i].id == id {
            assert(worktrees[i] == find_worktree(worktrees, id, i)->0);
        } else {
            lemma_find_worktree(worktrees, id, i + 1);
        }
    }
}

proof fn lemma_find_participant(participants: Seq<Participant>, peer_id: PeerId, i: int)
    requires
        0 <= i <= participants.len(),
    ensures
        match find_participant(participants, peer_id, i) {
            Some(found) => exists|k: int|
                i <= k < participants.len() && (#[trigger] participants[k]) == found && found.peer_id == peer_id
                    && forall|j: int| i <= j < k ==> (#[trigger] participants[j]).peer_id != peer_id,
            None => forall|j: int| i <= j < participants.len() ==> (#[trigger] participants[j]).peer_id != peer_id,
        },
    decreases participants.len() - i,
{
    if i < participants.len() {
        if participants[i].peer_id == peer_id {
            assert(participants[i] == find_participant(participants, peer_id, i)->0);
        } else {
            lemma_find_participant(participants, peer_id, i + 1);
        }
    }
}

/// The pane with a number is the first that has it, and there is none only if no pane has it.
pub proof fn law_pane_found(cx: ContextView, id: u64)
    ensures
        match cx.pane(id) {
            Some(found) => exists|k: int|
                0 <= k < cx.panes.len() && (#[trigger] cx.panes[k]) == found && found.id == id
                    && forall|j: int| 0 <= j < k ==> (#[trigger] cx.panes[j]).id != id,
            None => forall|j: int| 0 <= j < cx.panes.len() ==> (#[trigger] cx.panes[j]).id != id,
        },
        cx.has_pane(id) <==> exists|k: int|
            0 <= k < cx.panes.len() && (#[trigger] cx.panes[k]).id == id,
{
    lemma_find_pane(cx.panes, id, 0);
}

/// The item with a number is the first that has it, and there is none only if no item has it.
pub proof fn law_item_found(cx: ContextView, id: u64)
    ensures
        match cx.item(id) {
            Some(found) => exists|k: int|
                0 <= k < cx.items.len() && (#[trigger] cx.items[k]) == found && found.id == id
                    && forall|j: int| 0 <= j < k ==> (#[trigger] cx.items[j]).id != id,
            None => forall|j: int| 0 <= j < cx.items.len() ==> (#[trigger] cx.items[j]).id != id,
        },
{
    lemma_find_item(cx.items, id, 0);
}

/// The worktree with a number is the first that has it, and there is none only if none has it.
pub proof fn law_worktree_found(worktrees: Seq<WorktreeView>, id: u64)
    ensures
        match find_worktree(worktrees, id, 0) {
            Some(found) => exists|k: int|
                0 <= k < worktrees.len() && (#[trigger] worktrees[k]) == found && found.id == id
                    && forall|j: int| 0 <= j < k ==> (#[trigger] worktrees[j]).id != id,
            None => forall|j: int| 0 <= j < worktrees.len() ==> (#[trigger] worktrees[j]).id != id,
        },
{
    lemma_find_worktree(worktrees, id, 0);
}

/// A collaborator is found among the participants of a room exactly if they take part.
pub proof fn law_participant_found(participants: Seq<Participant>, peer_id: PeerId)
    ensures
        match find_participant(participants, peer_id, 0) {
            Some(found) => exists|k: int|
                0 <= k < participants.len() && (#[trigger] participants[k]) == found
                    && found.peer_id == peer_id && forall|j: int|
                    0 <= j < k ==> (#[trigger] participants[j]).peer_id != peer_id,
            None => forall|j: int|
                0 <= j < participants.len() ==> (#[trigger] participants[j]).peer_id != peer_id,
        },
{
    lemma_find_participant(participants, peer_id, 0);
}

proof fn lemma_item_place(items: Seq<u64>, item: u64, i: int)
    requires
        0 <= i <= items.len(),
    ensures
        match item_place(items, item, i) {
            Some(k) => i <= k < items.len() && items[k] == item && forall|j: int|
                i <= j < k ==> #[trigger] items[j] != item,
            None => forall|j: int| i <= j < items.len() ==> #[trigger] items[j] != item,
        },
    decreases items.len() - i,
{
    if i < items.len() && items[i] != item {
        lemma_item_place(items, item, i + 1);
    }
}

/// The place of an item in a pane is the first at which it stands; and the active item is the
/// one at the active place.
pub proof fn law_pane_items(pane: PaneView, item: u64)
    ensures
        match pane.index_for_item(item) {
            Some(k) => 0 <= k < pane.items.len() && pane.items[k] == item && forall|j: int|
                0 <= j < k ==> #[trigger] pane.items[j] != item,
            None => !pane.items.contains(item),
        },
        0 <= pane.active_item_index < pane.items.len() ==> pane.active_item() == Some(
            pane.items[pane.active_item_index as int],
        ),
        pane.active_item_index >= pane.items.len() ==> pane.active_item() is None,
{
    lemma_item_place(pane.items, item, 0);
}

/// Changing the zoom or the focus of panes changes nothing else of them: the zoom is set for
/// the given pane alone, taken from the given panes but the spared one, and the focus is with
/// the given pane alone.
pub proof fn law_panes_changed(
    cx: ContextView,
    pane: u64,
    zoomed: bool,
    panes: Seq<u64>,
    spared: Option<u64>,
    focused: Option<u64>,
    i: int,
)
    requires
        0 <= i < cx.panes.len(),
    ensures
        cx.set_zoomed(pane, zoomed).panes.len() == cx.panes.len(),
        cx.set_zoomed(pane, zoomed).panes[i] == (PaneView {
            zoomed: if cx.panes[i].id == pane {
                zoomed
            } else {
                cx.panes[i].zoomed
            },
            ..cx.panes[i]
        }),
        cx.unzoom(panes, spared).panes.len() == cx.panes.len(),
        cx.unzoom(panes, spared).panes[i] == (PaneView {
            zoomed: cx.panes[i].zoomed && (!panes.contains(cx.panes[i].id) || spared == Some(
                cx.panes[i].id,
            )),
            ..cx.panes[i]
        }),
        cx.with_focus(focused).panes.len() == cx.panes.len(),
        cx.with_focus(focused).panes[i] == (PaneView {
            has_focus: focused == Some(cx.panes[i].id),
            ..cx.panes[i]
        }),
{
}

/// When the focus goes to a pane, every panel loses it; and the same where nothing gets it.
pub proof fn law_panels_lose_focus(cx: ContextView, pane: Option<u64>, i: int)
    ensures
        ({
            let after = cx.with_focus(pane);
            &&& 0 <= i < cx.left_dock.panels.len() ==> !after.left_dock.panels[i].has_focus
            &&& 0 <= i < cx.right_dock.panels.len() ==> !after.right_dock.panels[i].has_focus
            &&& 0 <= i < cx.bottom_dock.panels.len() ==> !after.bottom_dock.panels[i].has_focus
            &&& after.left_dock.is_open == cx.left_dock.is_open
            &&& after.right_dock.is_open == cx.right_dock.is_open
            &&& after.bottom_dock.is_open == cx.bottom_dock.is_open
            &&& after.effects == cx.effects
        }),
        cx.focus_pane(pane->0).effects == cx.effects.push(EffectView::FocusPane(pane->0)),
        cx.focus_workspace().effects == cx.effects.push(EffectView::FocusWorkspace),
        cx.blur().effects == cx.effects.push(EffectView::Blur),
{
}

/// A pane that is built is new, empty, and found under its number; the others stay.
pub proof fn law_build_pane(cx: ContextView, id: u64)
    requires
        cx.fresh(),
        cx.next_entity_id < u64::MAX,
    ensures
        cx.build_pane().pane(cx.next_entity_id) matches Some(pane) && pane.id == cx.next_entity_id
            && pane.items.len() == 0 && pane.history.len() == 0 && !pane.zoomed && !pane.has_focus,
        id != cx.next_entity_id ==> cx.build_pane().pane(id) == cx.pane(id),
        cx.build_pane().next_entity_id == cx.next_entity_id + 1,
        cx.build_pane().effects == cx.effects.push(EffectView::BuildPane(cx.next_entity_id)),
        cx.build_pane().fresh(),
{
    lemma_pane_pushed(cx.panes, empty_pane(cx.next_entity_id), id, 0);
    lemma_pane_pushed(cx.panes, empty_pane(cx.next_entity_id), cx.next_entity_id, 0);
    lemma_find_pane(cx.panes, cx.next_entity_id, 0);
}

proof fn lemma_pane_pushed(panes: Seq<PaneView>, pane: PaneView, id: u64, i: int)
    requires
        0 <= i <= panes.len(),
    ensures
        find_pane(panes.push(pane), id, i) == (match find_pane(panes, id, i) {
            Some(found) => Some(found),
            None => if pane.id == id {
                Some(pane)
            } else {
                None
            },
        }),
    decreases panes.len() - i,
{
    if i < panes.len() {
        assert(panes.push(pane)[i] == panes[i]);
        lemma_pane_pushed(panes, pane, id, i + 1);
    } else {
        assert(panes.push(pane)[i] == pane);
        reveal_with_fuel(find_pane, 2);
    }
}

/// The room of a call is known only while that call is the one that we are in.
pub proof fn law_room(cx: ContextView, call: Option<u64>)
    ensures
        cx.room(call) is Some <==> (cx.active_call matches Some(active) && active.room is Some
            && call == Some(active.id)),
        cx.room(call) matches Some(room) ==> cx.active_call->Some_0.room == Some(room)
            && cx.room_id(call) == Some(room.id),
        cx.room(call) is None ==> cx.room_id(call) is None,
        cx.call_id() is Some <==> cx.active_call is Some,
        cx.active_call matches Some(active) ==> cx.call_id() == Some(active.id),
{
}

} // verus!
