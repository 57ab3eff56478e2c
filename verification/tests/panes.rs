use std::collections::HashMap;
use workspace::context::{
    ActiveCall, AutosaveSetting, Context, Effect, Event, Followable, Item, Pane, Project, Room,
    StatusBarSide, Worktree,
};
use workspace::dock::{Dock, DockData, DockPosition, DockStructure, Panel};
use workspace::error::Error;
use workspace::events::{ProjectEvent, WorkspaceHandle};
use workspace::load::RestoredCenter;
use workspace::pane_group::{Axis, Member, PaneAxis, PaneGroup, SplitDirection, FLEX_ONE};
use workspace::panes::{PaneEvent, SaveRequest};
use workspace::path::{Component, PathBuf, ProjectPath};
use workspace::proto::PeerId;
use workspace::serialized::{
    SerializedItem, SerializedPane, SerializedPaneGroup, SerializedWorkspace, WindowBounds,
};
use workspace::store::WorkspaceStore;
use workspace::view_id::ViewId;
use workspace::workspace::{FollowerState, Workspace};

fn path(names: &[&str]) -> PathBuf {
    let mut components = vec![Component::RootDir];
    for name in names {
        components.push(Component::Normal(name.as_bytes().to_vec()));
    }
    PathBuf { components }
}

fn below(names: &[&str]) -> PathBuf {
    PathBuf {
        components: names
            .iter()
            .map(|name| Component::Normal(name.as_bytes().to_vec()))
            .collect(),
    }
}

fn project_path(worktree_id: u64, names: &[&str]) -> ProjectPath {
    ProjectPath { worktree_id, path: below(names) }
}

fn item(id: u64, kind: Option<&str>, names: &[&str]) -> Item {
    Item {
        id,
        serialized_item_kind: kind.map(|k| k.to_string()),
        project_path: if names.is_empty() { None } else { Some(project_path(1, names)) },
        is_dirty: false,
        has_conflict: false,
        followable: None,
    }
}

fn context() -> Context {
    Context {
        panes: vec![],
        items: vec![],
        left_dock: Dock::new(DockPosition::Left),
        bottom_dock: Dock::new(DockPosition::Bottom),
        right_dock: Dock::new(DockPosition::Right),
        project: Project {
            is_local: true,
            is_remote: false,
            is_shared: false,
            is_read_only: false,
            remote_id: None,
            worktrees: vec![Worktree {
                id: 1,
                root_name: "root".to_string(),
                abs_path: path(&["root"]),
                visible: true,
                is_local: true,
                files: vec![below(&["a.txt"]), below(&["src", "b.rs"])],
            }],
            worktree_root_names: vec!["root".to_string()],
        },
        active_call: None,
        store: WorkspaceStore::new(),
        window_active: true,
        autosave: AutosaveSetting::Off,
        next_entity_id: 100,
        effects: vec![],
    }
}

fn workspace(cx: &mut Context) -> Workspace {
    let workspace = Workspace::new(7, 1, 2, cx);
    cx.effects.clear();
    workspace
}

fn fill(cx: &mut Context, pane: u64, items: &[u64], active: usize) {
    for p in cx.panes.iter_mut() {
        if p.id == pane {
            p.items = items.to_vec();
            p.active_item_index = active;
        }
    }
}

fn pane_mut(cx: &mut Context, pane: u64) -> &mut Pane {
    cx.panes.iter_mut().find(|p| p.id == pane).unwrap()
}

fn panel(id: u64, name: &str, zoomed: bool, has_focus: bool) -> Panel {
    Panel {
        id,
        persistent_name: name.to_string(),
        ui_name: name.to_string(),
        zoomed,
        has_focus,
    }
}

fn peer(id: u32) -> PeerId {
    PeerId { owner_id: 1, id }
}

#[test]
fn new_workspace_has_one_empty_pane() {
    let mut cx = context();
    cx.active_call = Some(ActiveCall { id: 40, room: None });
    let workspace = Workspace::new(7, 1, 2, &mut cx);
    assert_eq!(workspace.database_id(), 7);
    assert_eq!(workspace.weak_handle(), 1);
    assert_eq!(workspace.panes(), &vec![100]);
    assert_eq!(workspace.active_pane(), 100);
    assert_eq!(workspace.last_active_center_pane, Some(100));
    assert_eq!(workspace.active_call(), Some(40));
    assert_eq!(cx.next_entity_id, 101);
    assert_eq!(cx.store.workspaces, vec![2]);
    assert_eq!(
        cx.effects,
        vec![
            Effect::BuildPane(100),
            Effect::Emit(Event::PaneAdded(100)),
            Effect::Emit(Event::WorkspaceCreated(1)),
            Effect::SetStatusBarPane(100),
            Effect::AddPanelButtons { side: StatusBarSide::Left, dock: DockPosition::Left },
            Effect::AddPanelButtons { side: StatusBarSide::Right, dock: DockPosition::Right },
            Effect::AddPanelButtons { side: StatusBarSide::Right, dock: DockPosition::Bottom },
            Effect::WatchActiveCall,
            Effect::DeferWindowTitle,
        ]
    );
}

#[test]
fn new_workspace_without_a_call_watches_none() {
    let mut cx = context();
    let workspace = Workspace::new(7, 1, 2, &mut cx);
    assert_eq!(workspace.active_call(), None);
    assert!(!cx.effects.contains(&Effect::WatchActiveCall));
}

#[test]
fn split_pane_puts_the_new_pane_beside_the_old() {
    let mut cx = context();
    let mut workspace = workspace(&mut cx);
    let new_pane = workspace.split_pane(100, SplitDirection::Right, &mut cx);
    assert_eq!(new_pane, 101);
    assert_eq!(workspace.panes(), &vec![100, 101]);
    assert_eq!(
        workspace.center,
        PaneGroup {
            root: Member::Axis(PaneAxis {
                axis: Axis::Horizontal,
                members: vec![Member::Pane(100), Member::Pane(101)],
                flexes: vec![FLEX_ONE, FLEX_ONE],
            })
        }
    );
    assert_eq!(
        cx.effects,
        vec![Effect::BuildPane(101), Effect::Emit(Event::PaneAdded(101)), Effect::Notify]
    );
    let upper = workspace.split_pane(101, SplitDirection::Up, &mut cx);
    assert_eq!(
        workspace.center.root,
        Member::Axis(PaneAxis {
            axis: Axis::Horizontal,
            members: vec![
                Member::Pane(100),
                Member::Axis(PaneAxis {
                    axis: Axis::Vertical,
                    members: vec![Member::Pane(upper), Member::Pane(101)],
                    flexes: vec![FLEX_ONE, FLEX_ONE],
                }),
            ],
            flexes: vec![FLEX_ONE, FLEX_ONE],
        })
    );
}

#[test]
fn removing_a_pane_undoes_the_split() {
    let mut cx = context();
    let mut workspace = workspace(&mut cx);
    let new_pane = workspace.split_pane(100, SplitDirection::Down, &mut cx);
    workspace.panes_by_item.insert(5, new_pane);
    workspace.panes_by_item.insert(6, 100);
    workspace.last_leaders_by_pane.insert(new_pane, peer(3));
    workspace.last_active_center_pane = Some(new_pane);
    fill(&mut cx, new_pane, &[5], 0);
    cx.effects.clear();
    workspace.remove_pane(new_pane, &mut cx);
    assert_eq!(workspace.panes(), &vec![100]);
    assert_eq!(workspace.center.root, Member::Pane(100));
    assert_eq!(workspace.panes_by_item, HashMap::from([(6, 100)]));
    assert!(workspace.last_leaders_by_pane.is_empty());
    assert_eq!(workspace.last_active_center_pane, None);
    assert!(pane_mut(&mut cx, 100).has_focus);
    assert_eq!(cx.effects, vec![Effect::FocusPane(100), Effect::Notify, Effect::Notify]);
}

#[test]
fn the_only_pane_is_not_removed() {
    let mut cx = context();
    let mut workspace = workspace(&mut cx);
    workspace.remove_pane(100, &mut cx);
    assert_eq!(workspace.panes(), &vec![100]);
    assert_eq!(
        cx.effects,
        vec![Effect::SetActivePath(None), Effect::SetWindowTitle("root".to_string())]
    );
}

#[test]
fn pane_group_answers() {
    let mut group = PaneGroup::new(1);
    assert_eq!(group.split(9, 2, SplitDirection::Left), Err(Error::PaneNotFound));
    assert_eq!(group.remove(9), Ok(false));
    assert_eq!(group.split(1, 2, SplitDirection::Left), Ok(()));
    assert_eq!(group.split(1, 3, SplitDirection::Left), Ok(()));
    assert_eq!(
        group.root,
        Member::Axis(PaneAxis {
            axis: Axis::Horizontal,
            members: vec![Member::Pane(2), Member::Pane(3), Member::Pane(1)],
            flexes: vec![FLEX_ONE, FLEX_ONE, FLEX_ONE],
        })
    );
    assert_eq!(group.remove(9), Err(Error::PaneNotFound));
    assert_eq!(group.remove(3), Ok(true));
    assert_eq!(group.remove(2), Ok(true));
    assert_eq!(group.root, Member::Pane(1));
}

#[test]
fn a_tree_knows_its_panes() {
    let mut group = PaneGroup::new(1);
    assert_eq!(group.split(1, 2, SplitDirection::Down), Ok(()));
    assert_eq!(group.split(1, 3, SplitDirection::Right), Ok(()));
    assert_eq!(group.root.panes(), vec![1, 3, 2]);
    assert!(group.root.holds_pane(3));
    assert!(!group.root.holds_pane(4));
}

#[test]
fn remove_panes_takes_a_whole_tree() {
    let mut cx = context();
    let mut workspace = workspace(&mut cx);
    workspace.split_pane(100, SplitDirection::Right, &mut cx);
    workspace.split_pane(101, SplitDirection::Down, &mut cx);
    let extra = workspace.add_pane(&mut cx);
    cx.effects.clear();
    let old = std::mem::replace(&mut workspace.center, PaneGroup::new(extra));
    workspace.remove_panes(&old.root, &mut cx);
    assert_eq!(workspace.panes(), &vec![extra]);
    assert_eq!(
        cx.effects,
        vec![
            Effect::FocusPane(extra),
            Effect::Notify,
            Effect::FocusPane(extra),
            Effect::Notify,
            Effect::FocusPane(extra),
            Effect::Notify,
        ]
    );
}

#[test]
fn split_and_clone_needs_an_item_that_can_be_cloned() {
    let mut cx = context();
    let mut workspace = workspace(&mut cx);
    assert_eq!(workspace.split_and_clone(100, SplitDirection::Right, Some(9), &mut cx), None);
    assert_eq!(cx.effects, vec![]);
    fill(&mut cx, 100, &[5], 0);
    assert_eq!(workspace.split_and_clone(100, SplitDirection::Right, None, &mut cx), None);
    assert_eq!(cx.effects, vec![Effect::Notify]);
    cx.effects.clear();
    assert_eq!(
        workspace.split_and_clone(100, SplitDirection::Right, Some(9), &mut cx),
        Some(101)
    );
    assert_eq!(
        cx.effects,
        vec![
            Effect::BuildPane(101),
            Effect::Emit(Event::PaneAdded(101)),
            Effect::AddItem {
                pane: 101,
                item: 9,
                activate_pane: true,
                focus_item: true,
                index: None
            },
            Effect::Notify,
        ]
    );
}

#[test]
fn move_item_between_panes_and_within_one() {
    let mut cx = context();
    let mut workspace = workspace(&mut cx);
    workspace.split_pane(100, SplitDirection::Right, &mut cx);
    fill(&mut cx, 100, &[5, 6], 1);
    cx.effects.clear();
    workspace.move_item(100, 101, 9, 0, &mut cx);
    assert_eq!(cx.effects, vec![]);
    workspace.move_item(100, 101, 6, 3, &mut cx);
    assert_eq!(
        cx.effects,
        vec![
            Effect::RemoveItem { pane: 100, index: 1, activate_pane: false },
            Effect::AddItem {
                pane: 101,
                item: 6,
                activate_pane: true,
                focus_item: true,
                index: Some(3)
            },
            Effect::FocusPane(101),
        ]
    );
    cx.effects.clear();
    workspace.move_item(100, 100, 6, 0, &mut cx);
    assert_eq!(
        cx.effects,
        vec![
            Effect::AddItem {
                pane: 100,
                item: 6,
                activate_pane: true,
                focus_item: true,
                index: Some(0)
            },
            Effect::FocusPane(100),
        ]
    );
    assert!(pane_mut(&mut cx, 100).has_focus);
    assert!(!pane_mut(&mut cx, 101).has_focus);
}

#[test]
fn split_pane_with_item_moves_it() {
    let mut cx = context();
    let mut workspace = workspace(&mut cx);
    fill(&mut cx, 100, &[5], 0);
    workspace.split_pane_with_item(999, SplitDirection::Left, 100, 5, &mut cx);
    workspace.split_pane_with_item(100, SplitDirection::Left, 999, 5, &mut cx);
    assert_eq!(cx.effects, vec![]);
    workspace.split_pane_with_item(100, SplitDirection::Left, 100, 5, &mut cx);
    assert_eq!(workspace.panes(), &vec![100, 101]);
    assert_eq!(
        cx.effects[2],
        Effect::RemoveItem { pane: 100, index: 0, activate_pane: false }
    );
    assert_eq!(cx.effects.last(), Some(&Effect::Notify));
}

#[test]
fn split_pane_with_project_entry_opens_it() {
    let mut cx = context();
    let mut workspace = workspace(&mut cx);
    let path = project_path(1, &["a.txt"]);
    assert!(!workspace.split_pane_with_project_entry(
        999,
        SplitDirection::Right,
        Some(path.clone()),
        &mut cx
    ));
    assert_eq!(workspace.panes().len(), 1);
    assert!(!workspace.split_pane_with_project_entry(100, SplitDirection::Right, None, &mut cx));
    assert_eq!(workspace.panes().len(), 2);
    assert!(workspace.split_pane_with_project_entry(
        100,
        SplitDirection::Right,
        Some(path.clone()),
        &mut cx
    ));
    assert_eq!(
        cx.effects.last(),
        Some(&Effect::OpenPath { path, pane: 102, focus_item: true })
    );
}

#[test]
fn open_path_chooses_a_pane() {
    let mut cx = context();
    let mut workspace = workspace(&mut cx);
    workspace.split_pane(100, SplitDirection::Right, &mut cx);
    let path = project_path(1, &["a.txt"]);
    cx.effects.clear();
    workspace.open_path(path.clone(), Some(101), false, &mut cx);
    workspace.last_active_center_pane = Some(101);
    workspace.open_path(path.clone(), None, true, &mut cx);
    workspace.last_active_center_pane = None;
    workspace.open_path(path.clone(), None, true, &mut cx);
    assert_eq!(
        cx.effects,
        vec![
            Effect::OpenPath { path: path.clone(), pane: 101, focus_item: false },
            Effect::OpenPath { path: path.clone(), pane: 101, focus_item: true },
            Effect::OpenPath { path, pane: 100, focus_item: true },
        ]
    );
}

#[test]
fn activate_item_finds_the_first_pane() {
    let mut cx = context();
    let mut workspace = workspace(&mut cx);
    workspace.split_pane(100, SplitDirection::Right, &mut cx);
    fill(&mut cx, 101, &[5, 6], 0);
    cx.effects.clear();
    assert!(!workspace.activate_item(9, &mut cx));
    assert!(workspace.activate_item(6, &mut cx));
    assert_eq!(
        cx.effects,
        vec![Effect::ActivateItem { pane: 101, index: 1, activate_pane: true, focus_item: true }]
    );
}

#[test]
fn project_items_are_shown_once() {
    let mut cx = context();
    let mut workspace = workspace(&mut cx);
    fill(&mut cx, 100, &[5], 0);
    assert_eq!(workspace.open_project_item(70, Some(5), &mut cx), 5);
    assert_eq!(
        cx.effects,
        vec![Effect::ActivateItem { pane: 100, index: 0, activate_pane: true, focus_item: true }]
    );
    cx.effects.clear();
    assert_eq!(workspace.open_project_item(71, None, &mut cx), 101);
    assert_eq!(
        cx.effects,
        vec![
            Effect::BuildItem { item: 101, project_item: 71 },
            Effect::AddItem {
                pane: 100,
                item: 101,
                activate_pane: true,
                focus_item: true,
                index: None
            },
        ]
    );
    assert_eq!(workspace.split_project_item(72, None, &mut cx), 102);
    assert_eq!(workspace.panes(), &vec![100, 103]);
    assert_eq!(
        cx.effects.last(),
        Some(&Effect::AddItem {
            pane: 103,
            item: 102,
            activate_pane: true,
            focus_item: true,
            index: None
        })
    );
    assert_eq!(workspace.split_project_item(72, Some(5), &mut cx), 5);
    assert_eq!(workspace.panes(), &vec![100, 103]);
}

#[test]
fn saving_needs_an_active_item() {
    let mut cx = context();
    let workspace = workspace(&mut cx);
    assert_eq!(workspace.save_active_item(&cx), None);
    fill(&mut cx, 100, &[5, 6], 1);
    assert_eq!(
        workspace.save_active_item(&cx),
        Some(SaveRequest { pane: 100, item_index: 1, item: 6 })
    );
    assert_eq!(workspace.active_item(&cx), Some(6));
    assert_eq!(workspace.items(&cx), vec![5, 6]);
}

#[test]
fn the_title_names_the_active_file() {
    let mut cx = context();
    let mut workspace = workspace(&mut cx);
    cx.items.push(item(5, None, &["src", "b.rs"]));
    fill(&mut cx, 100, &[5], 0);
    workspace.active_item_path_changed(&mut cx);
    assert_eq!(
        cx.effects,
        vec![
            Effect::SetActivePath(Some(project_path(1, &["src", "b.rs"]))),
            Effect::SetWindowTitle("b.rs — root".to_string()),
        ]
    );
}

#[test]
fn window_is_edited_while_an_item_is() {
    let mut cx = context();
    let mut workspace = workspace(&mut cx);
    cx.items.push(item(5, None, &[]));
    fill(&mut cx, 100, &[5], 0);
    workspace.update_window_edited(&cx);
    assert!(!workspace.window_edited);
    cx.items[0].is_dirty = true;
    workspace.update_window_edited(&cx);
    assert!(workspace.window_edited);
    cx.items[0].is_dirty = false;
    cx.items[0].has_conflict = true;
    workspace.update_window_edited(&cx);
    assert!(workspace.window_edited);
    cx.project.is_read_only = true;
    workspace.update_window_edited(&cx);
    assert!(!workspace.window_edited);
}

#[test]
fn the_workspace_is_stored_as_it_is_shown() {
    let mut cx = context();
    let mut workspace = workspace(&mut cx);
    workspace.split_pane(100, SplitDirection::Right, &mut cx);
    cx.items.push(item(5, Some("Editor"), &["a.txt"]));
    cx.items.push(item(6, None, &[]));
    cx.items.push(item(8, Some("Terminal"), &[]));
    fill(&mut cx, 100, &[5, 6, 8], 2);
    pane_mut(&mut cx, 101).has_focus = true;
    cx.left_dock.panels.push(panel(1, "Files", true, false));
    cx.left_dock.is_open = true;
    cx.effects.clear();
    workspace.serialize_workspace(&mut cx);
    let expected = SerializedWorkspace {
        id: 7,
        location: vec![path(&["root"])],
        center_group: SerializedPaneGroup::Group {
            axis: Axis::Horizontal,
            flexes: Some(vec![FLEX_ONE, FLEX_ONE]),
            children: vec![
                SerializedPaneGroup::Pane(SerializedPane {
                    children: vec![
                        SerializedItem { kind: "Editor".to_string(), item_id: 5, active: false },
                        SerializedItem { kind: "Terminal".to_string(), item_id: 8, active: true },
                    ],
                    active: false,
                }),
                SerializedPaneGroup::Pane(SerializedPane { children: vec![], active: true }),
            ],
        },
        bounds: None,
        display: None,
        docks: DockStructure {
            left: DockData {
                visible: true,
                active_panel: Some("Files".to_string()),
                zoom: true,
            },
            right: DockData { visible: false, active_panel: None, zoom: false },
            bottom: DockData { visible: false, active_panel: None, zoom: false },
        },
    };
    assert_eq!(cx.effects, vec![Effect::SaveWorkspace(expected)]);
}

#[test]
fn a_workspace_without_a_location_is_not_stored() {
    let mut cx = context();
    let workspace = workspace(&mut cx);
    cx.project.worktrees[0].visible = false;
    workspace.serialize_workspace(&mut cx);
    assert_eq!(cx.effects, vec![]);
    cx.project.worktrees[0].visible = true;
    cx.project.is_local = false;
    workspace.serialize_workspace(&mut cx);
    assert_eq!(cx.effects, vec![]);
}

#[test]
fn zoom_out_takes_every_zoom() {
    let mut cx = context();
    let mut workspace = workspace(&mut cx);
    workspace.split_pane(100, SplitDirection::Right, &mut cx);
    pane_mut(&mut cx, 101).zoomed = true;
    cx.right_dock.panels.push(panel(1, "Chat", true, false));
    workspace.zoomed = Some(101);
    workspace.zoomed_position = Some(DockPosition::Right);
    cx.effects.clear();
    workspace.zoom_out(&mut cx);
    assert!(!pane_mut(&mut cx, 101).zoomed);
    assert!(!cx.right_dock.panels[0].zoomed);
    assert_eq!(workspace.zoomed, None);
    assert_eq!(workspace.zoomed_position, None);
    assert_eq!(cx.effects, vec![Effect::Notify]);
}

#[test]
fn docks_make_way_for_the_center() {
    let mut cx = context();
    let mut workspace = workspace(&mut cx);
    workspace.split_pane(100, SplitDirection::Right, &mut cx);
    pane_mut(&mut cx, 100).zoomed = true;
    pane_mut(&mut cx, 101).zoomed = true;
    cx.left_dock.panels.push(panel(1, "Files", true, true));
    cx.left_dock.is_open = true;
    cx.bottom_dock.panels.push(panel(2, "Terminal", false, false));
    cx.bottom_dock.is_open = true;
    workspace.zoomed = Some(1);
    workspace.zoomed_position = Some(DockPosition::Left);
    cx.effects.clear();
    workspace.dismiss_zoomed_items_to_reveal(None, &mut cx);
    assert!(pane_mut(&mut cx, 100).zoomed);
    assert!(!pane_mut(&mut cx, 101).zoomed);
    assert!(!cx.left_dock.is_open);
    assert!(cx.bottom_dock.is_open);
    assert_eq!(workspace.zoomed, None);
    assert_eq!(cx.effects, vec![Effect::FocusWorkspace, Effect::Notify]);
    assert!(!cx.left_dock.panels[0].has_focus);
}

#[test]
fn a_dock_that_is_revealed_stays() {
    let mut cx = context();
    let mut workspace = workspace(&mut cx);
    pane_mut(&mut cx, 100).zoomed = true;
    cx.left_dock.panels.push(panel(1, "Files", true, false));
    cx.left_dock.is_open = true;
    workspace.zoomed = Some(1);
    workspace.zoomed_position = Some(DockPosition::Left);
    workspace.dismiss_zoomed_items_to_reveal(Some(DockPosition::Left), &mut cx);
    assert!(!pane_mut(&mut cx, 100).zoomed);
    assert!(cx.left_dock.is_open);
    assert_eq!(workspace.zoomed, Some(1));
    assert_eq!(cx.effects, vec![Effect::Notify]);
}

#[test]
fn close_all_docks_stores_the_workspace() {
    let mut cx = context();
    let mut workspace = workspace(&mut cx);
    cx.left_dock.is_open = true;
    cx.right_dock.is_open = true;
    cx.bottom_dock.is_open = true;
    workspace.close_all_docks(&mut cx);
    assert!(!workspace.left_dock(&cx).is_open);
    assert!(!workspace.right_dock(&cx).is_open);
    assert!(!workspace.bottom_dock(&cx).is_open);
    assert_eq!(cx.effects.len(), 2);
    assert_eq!(cx.effects[0], Effect::Notify);
    assert!(matches!(cx.effects[1], Effect::SaveWorkspace(_)));
}

#[test]
fn dock_changes_are_stored() {
    let mut cx = context();
    let mut workspace = workspace(&mut cx);
    workspace.dock_changed(&mut cx);
    assert!(matches!(cx.effects[0], Effect::SaveWorkspace(_)));
    assert_eq!(cx.effects[1], Effect::Notify);
}

#[test]
fn a_focused_pane_becomes_active() {
    let mut cx = context();
    let mut workspace = workspace(&mut cx);
    workspace.split_pane(100, SplitDirection::Right, &mut cx);
    pane_mut(&mut cx, 101).has_focus = true;
    pane_mut(&mut cx, 101).zoomed = true;
    cx.effects.clear();
    workspace.handle_pane_event(101, PaneEvent::Focus, &mut cx);
    assert_eq!(workspace.active_pane(), 101);
    assert_eq!(workspace.last_active_center_pane, Some(101));
    assert_eq!(workspace.zoomed, Some(101));
    assert_eq!(
        cx.effects,
        vec![
            Effect::SetStatusBarPane(101),
            Effect::SetActivePath(None),
            Effect::SetWindowTitle("root".to_string()),
            Effect::Notify,
            Effect::Notify,
            Effect::Serialize,
        ]
    );
}

#[test]
fn pane_events_lead_to_what_they_ask_for() {
    let mut cx = context();
    let mut workspace = workspace(&mut cx);
    cx.items.push(item(5, None, &["a.txt"]));
    fill(&mut cx, 100, &[5], 0);
    workspace.handle_pane_event(100, PaneEvent::AddItem { item: 5 }, &mut cx);
    assert_eq!(cx.effects, vec![Effect::AddedToPane { item: 5, pane: 100 }, Effect::Serialize]);
    cx.effects.clear();
    workspace.handle_pane_event(
        100,
        PaneEvent::Split { direction: SplitDirection::Right, cloned: Some(50) },
        &mut cx,
    );
    assert_eq!(workspace.panes(), &vec![100, 101]);
    cx.effects.clear();
    workspace.handle_pane_event(101, PaneEvent::Remove, &mut cx);
    assert_eq!(workspace.panes(), &vec![100]);
    assert_eq!(cx.effects.last(), Some(&Effect::Serialize));
    cx.effects.clear();
    cx.items[0].is_dirty = true;
    workspace.handle_pane_event(100, PaneEvent::ChangeItemTitle, &mut cx);
    assert!(workspace.window_edited);
    assert_eq!(
        cx.effects,
        vec![
            Effect::SetActivePath(Some(project_path(1, &["a.txt"]))),
            Effect::SetWindowTitle("a.txt — root".to_string()),
            Effect::Serialize,
        ]
    );
}

#[test]
fn a_removed_item_is_forgotten_by_its_own_pane_only() {
    let mut cx = context();
    let mut workspace = workspace(&mut cx);
    workspace.panes_by_item.insert(5, 100);
    workspace.handle_pane_event(101, PaneEvent::RemoveItem { item_id: 5 }, &mut cx);
    assert_eq!(workspace.panes_by_item.len(), 1);
    workspace.handle_pane_event(100, PaneEvent::RemoveItem { item_id: 5 }, &mut cx);
    assert!(workspace.panes_by_item.is_empty());
}

#[test]
fn zooming_a_pane_in_and_out() {
    let mut cx = context();
    let mut workspace = workspace(&mut cx);
    workspace.handle_pane_event(999, PaneEvent::ZoomIn, &mut cx);
    assert_eq!(cx.effects, vec![Effect::Serialize]);
    workspace.handle_pane_event(100, PaneEvent::ZoomIn, &mut cx);
    assert!(pane_mut(&mut cx, 100).zoomed);
    assert_eq!(workspace.zoomed, None);
    pane_mut(&mut cx, 100).has_focus = true;
    workspace.handle_pane_event(100, PaneEvent::ZoomIn, &mut cx);
    assert_eq!(workspace.zoomed, Some(100));
    workspace.handle_pane_event(100, PaneEvent::ZoomOut, &mut cx);
    assert!(!pane_mut(&mut cx, 100).zoomed);
    assert_eq!(workspace.zoomed, None);
    workspace.zoomed = Some(1);
    workspace.zoomed_position = Some(DockPosition::Left);
    workspace.handle_pane_event(100, PaneEvent::ZoomOut, &mut cx);
    assert_eq!(workspace.zoomed, Some(1));
}

#[test]
fn a_local_activation_ends_following() {
    let mut cx = context();
    let mut workspace = workspace(&mut cx);
    for local in [false, true] {
        workspace.follower_states = vec![FollowerState {
            pane: 100,
            leader_id: peer(3),
            active_view_id: None,
            items_by_leader_view_id: vec![(ViewId { creator: peer(3), id: 1 }, 5)],
        }];
        workspace.handle_pane_event(100, PaneEvent::ActivateItem { local }, &mut cx);
        assert_eq!(workspace.follower_states.is_empty(), local);
    }
    assert!(cx.effects.contains(&Effect::SetLeader { item: 5, leader_id: None }));
}

#[test]
fn project_events_lead_to_what_they_ask_for() {
    let mut cx = context();
    let mut workspace = workspace(&mut cx);
    workspace.handle_project_event(ProjectEvent::RemoteIdChanged(Some(3)), &mut cx);
    assert_eq!(
        cx.effects,
        vec![Effect::SetWindowTitle("root".to_string()), Effect::Notify]
    );
    for event in [ProjectEvent::WorktreeAdded, ProjectEvent::WorktreeRemoved(1)] {
        cx.effects.clear();
        workspace.handle_project_event(event, &mut cx);
        assert_eq!(cx.effects.len(), 3);
        assert!(matches!(cx.effects[1], Effect::SaveWorkspace(_)));
    }
    cx.effects.clear();
    pane_mut(&mut cx, 100).has_focus = true;
    workspace.handle_project_event(ProjectEvent::DisconnectedFromHost, &mut cx);
    assert_eq!(cx.effects, vec![Effect::Blur, Effect::Notify]);
    assert!(!pane_mut(&mut cx, 100).has_focus);
    cx.effects.clear();
    workspace.handle_project_event(ProjectEvent::Closed, &mut cx);
    workspace.handle_project_event(ProjectEvent::DeletedEntry(8), &mut cx);
    workspace.handle_project_event(ProjectEvent::Notification("hello".to_string()), &mut cx);
    workspace.handle_project_event(ProjectEvent::Other, &mut cx);
    assert_eq!(
        cx.effects,
        vec![
            Effect::RemoveWindow,
            Effect::Notify,
            Effect::HandleDeletedEntry { pane: 100, entry: 8 },
            Effect::Notify,
            Effect::ShowNotification { id: 0, message: "hello".to_string() },
            Effect::Notify,
            Effect::Notify,
        ]
    );
}

#[test]
fn a_window_that_is_left_tells_and_saves_its_items() {
    let mut cx = context();
    let mut workspace = workspace(&mut cx);
    fill(&mut cx, 100, &[5, 6], 1);
    cx.window_active = false;
    workspace.on_window_activation_changed(&mut cx);
    assert_eq!(cx.effects, vec![Effect::WorkspaceDeactivated(6)]);
    for autosave in [AutosaveSetting::OnWindowChange, AutosaveSetting::OnFocusChange] {
        cx.effects.clear();
        cx.autosave = autosave;
        workspace.on_window_activation_changed(&mut cx);
        assert_eq!(
            cx.effects,
            vec![
                Effect::WorkspaceDeactivated(6),
                Effect::AutosaveItem(5),
                Effect::AutosaveItem(6),
            ]
        );
    }
    cx.effects.clear();
    cx.window_active = true;
    workspace.on_window_activation_changed(&mut cx);
    assert_eq!(cx.effects, vec![Effect::UpdateTimestamp(7)]);
}

#[test]
fn window_bounds_are_stored_with_their_display() {
    let mut cx = context();
    let mut workspace = workspace(&mut cx);
    workspace.window_bounds_changed(None, &mut cx);
    workspace.window_bounds_changed(Some((WindowBounds::Maximized, 9)), &mut cx);
    assert_eq!(
        cx.effects,
        vec![
            Effect::Notify,
            Effect::SaveWindowBounds { id: 7, bounds: WindowBounds::Maximized, display: 9 },
            Effect::Notify,
        ]
    );
}

#[test]
fn actions_and_modals() {
    let mut cx = context();
    let mut workspace = workspace(&mut cx);
    workspace.register_action(4);
    workspace.register_action(3);
    assert_eq!(workspace.workspace_actions(), &vec![4, 3]);
    workspace.toggle_modal(11, &mut cx);
    assert_eq!(cx.effects, vec![Effect::ToggleModal(11)]);
    assert_eq!(workspace.prepare_to_close(true), Ok(false));
}

#[test]
fn worktrees_and_files() {
    let mut cx = context();
    let workspace = workspace(&mut cx);
    cx.project.worktrees.push(Worktree {
        id: 2,
        root_name: "lib".to_string(),
        abs_path: path(&["lib"]),
        visible: false,
        is_local: false,
        files: vec![below(&["c.rs"])],
    });
    assert_eq!(workspace.worktrees(&cx), vec![1, 2]);
    assert_eq!(workspace.visible_worktrees(&cx), vec![1]);
    assert_eq!(workspace.worktree_scans_complete(&cx), vec![1]);
    assert_eq!(
        workspace.file_project_paths(&cx),
        vec![
            project_path(1, &["a.txt"]),
            project_path(1, &["src", "b.rs"]),
            project_path(2, &["c.rs"]),
        ]
    );
    assert_eq!(workspace.project(&cx).worktrees.len(), 2);
}

#[test]
fn restoring_swaps_the_center() {
    let mut cx = context();
    let mut workspace = workspace(&mut cx);
    let restored = workspace.add_pane(&mut cx);
    cx.left_dock.panels.push(panel(1, "Files", false, false));
    cx.left_dock.panels.push(panel(2, "Outline", false, false));
    cx.effects.clear();
    let docks = DockStructure {
        left: DockData { visible: true, active_panel: Some("Outline".to_string()), zoom: true },
        right: DockData { visible: true, active_panel: Some("Gone".to_string()), zoom: true },
        bottom: DockData { visible: false, active_panel: None, zoom: false },
    };
    workspace.restore(Some(Member::Pane(restored)), &docks, &mut cx);
    assert_eq!(workspace.panes(), &vec![restored]);
    assert_eq!(workspace.center.root, Member::Pane(restored));
    assert!(cx.left_dock.is_open);
    assert_eq!(cx.left_dock.active_panel_index, 1);
    assert!(cx.left_dock.panels[1].zoomed);
    assert!(!cx.left_dock.panels[0].zoomed);
    assert!(cx.right_dock.is_open);
    assert_eq!(
        cx.effects,
        vec![
            Effect::FocusPane(restored),
            Effect::Notify,
            Effect::Notify,
            Effect::Serialize,
        ]
    );
}

#[test]
fn loading_tells_which_paths_came_back() {
    let mut cx = context();
    let mut workspace = workspace(&mut cx);
    let pane = workspace.add_pane(&mut cx);
    cx.items.push(item(5, Some("Editor"), &["a.txt"]));
    let closed = || DockData { visible: false, active_panel: None, zoom: false };
    let docks = DockStructure { left: closed(), right: closed(), bottom: closed() };
    let restored =
        Some(RestoredCenter { root: Member::Pane(pane), items: vec![Some(5), None] });
    let paths = vec![Some(project_path(1, &["b.txt"])), Some(project_path(1, &["a.txt"]))];
    assert_eq!(workspace.load_workspace(&docks, restored, &paths, &mut cx), vec![None, Some(5)]);
    assert_eq!(workspace.panes(), &vec![pane]);
    assert_eq!(workspace.load_workspace(&docks, None, &paths, &mut cx), vec![None, None]);
    assert_eq!(workspace.panes(), &vec![pane]);
}

#[test]
fn restoring_without_a_tree_keeps_the_center() {
    let mut cx = context();
    let mut workspace = workspace(&mut cx);
    let closed = DockData { visible: false, active_panel: None, zoom: false };
    let docks = DockStructure {
        left: DockData { visible: true, active_panel: None, zoom: false },
        right: DockData { visible: false, active_panel: None, zoom: false },
        bottom: closed,
    };
    workspace.restore(None, &docks, &mut cx);
    assert_eq!(workspace.panes(), &vec![100]);
    assert!(cx.left_dock.is_open);
    assert_eq!(cx.effects, vec![Effect::Notify, Effect::Serialize]);
}

#[test]
fn a_dock_comes_back_as_it_was_stored() {
    let mut saved = Dock::new(DockPosition::Bottom);
    saved.panels.push(panel(1, "Terminal", false, false));
    saved.panels.push(panel(2, "Search", true, false));
    saved.activate_panel(1);
    saved.set_open(true);
    let data = saved.data();
    let mut target = Dock::new(DockPosition::Bottom);
    target.panels.push(panel(1, "Terminal", false, false));
    target.panels.push(panel(2, "Search", false, false));
    target.restore(&data);
    assert_eq!(target.data(), data);
    assert_eq!(target.panel_index_for_ui_name(&"Search".to_string()), Some(1));
    assert_eq!(target.panel_index_for_ui_name(&"None".to_string()), None);
}

#[test]
fn followable_items_need_no_call() {
    let mut cx = context();
    let mut workspace = workspace(&mut cx);
    cx.items.push(item(5, None, &[]));
    cx.items[0].followable = Some(Followable {
        is_project_item: true,
        remote_id: Some(ViewId { creator: peer(1), id: 9 }),
        state: Some(3),
    });
    fill(&mut cx, 100, &[5], 0);
    pane_mut(&mut cx, 100).has_focus = true;
    cx.active_call = Some(ActiveCall { id: 40, room: Some(Room { id: 1, participants: vec![] }) });
    workspace.on_window_activation_changed(&mut cx);
    assert!(workspace.last_active_view_id.is_some());
    assert_eq!(cx.effects, vec![Effect::UpdateTimestamp(7)]);
}
