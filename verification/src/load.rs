//! Bringing a stored workspace back.

use crate::context::{Context, ContextView, Effect, EffectView};
use crate::dock::{
    law_dock_round_trip, panel_place, DockDataView, DockStructure, DockStructureView, DockView,
    PanelView,
};
use crate::pane_group::{Member, MemberView, PaneGroup};
use crate::panes::{has_outside, lemma_force_remove_panes};
use crate::path::{project_path_view, ProjectPath, ProjectPathView};
use crate::serialize::serialized_docks;
use crate::workspace::{state, State, Workspace, WorkspaceView};
use vstd::prelude::*;

verus! {

/// The path in the project of an item.
pub open spec fn path_of_item(cx: ContextView, item: u64) -> Option<ProjectPathView> {
    match cx.item(item) {
        Some(item) => item.project_path,
        None => None,
    }
}

/// The last item of a list that shows the given path.
pub open spec fn last_with_path(cx: ContextView, items: Seq<Option<u64>>, path: ProjectPathView) -> Option<u64>
    decreases items.len(),
{
    if items.len() == 0 {
        None
    } else {
        match items.last() {
            Some(item) if path_of_item(cx, item) == Some(path) => Some(item),
            _ => last_with_path(cx, items.drop_last(), path),
        }
    }
}

/// The views of a list of optional paths.
pub open spec fn optional_paths(paths: Seq<Option<ProjectPath>>) -> Seq<Option<ProjectPathView>> {
    paths.map_values(|p: Option<ProjectPath>| project_path_view(p))
}

/// Whether the path at place `i` is the first of its kind.
pub open spec fn first_of_kind(paths: Seq<Option<ProjectPathView>>, i: int) -> bool {
    forall|j: int| 0 <= j < i ==> #[trigger] paths[j] != paths[i]
}

/// For each path the restored item that shows it, each item for the first path only.
pub open spec fn opened_items(
    cx: ContextView,
    items: Seq<Option<u64>>,
    paths: Seq<Option<ProjectPathView>>,
) -> Seq<Option<u64>> {
    Seq::new(
        paths.len(),
        |i: int|
            match paths[i] {
                Some(path) if first_of_kind(paths, i) => last_with_path(cx, items, path),
                _ => None,
            },
    )
}

impl State {
    /// The restored tree takes the place of the center, whose panes go; the docks are as they
    /// were stored; and the workspace is stored again.
    pub open spec fn restore(self, center: Option<MemberView>, docks: DockStructureView) -> State {
        let centered = match center {
            Some(center) => State {
                workspace: WorkspaceView { center, ..self.workspace },
                ..self
            }.force_remove_panes(self.workspace.center.leaves()),
            None => self,
        };
        State {
            cx: ContextView {
                left_dock: centered.cx.left_dock.restore(docks.left),
                right_dock: centered.cx.right_dock.restore(docks.right),
                bottom_dock: centered.cx.bottom_dock.restore(docks.bottom),
                ..centered.cx
            },
            ..centered
        }.notify().emit(EffectView::Serialize)
    }
}

pub open spec fn optional_member(member: Option<Member>) -> Option<MemberView> {
    match member {
        Some(member) => Some(member@),
        None => None,
    }
}

/// What came back of the center of a stored workspace: its tree, whose panes have been added
/// to the workspace, and what was made of its items.
pub struct RestoredCenter {
    pub root: Member,
    pub items: Vec<Option<u64>>,
}

pub open spec fn restored_root(restored: Option<RestoredCenter>) -> Option<MemberView> {
    match restored {
        Some(restored) => Some(restored.root@),
        None => None,
    }
}

pub open spec fn restored_items(restored: Option<RestoredCenter>) -> Seq<Option<u64>> {
    match restored {
        Some(restored) => restored.items@,
        None => Seq::empty(),
    }
}

fn same_optional_path(a: &Option<ProjectPath>, b: &Option<ProjectPath>) -> (same: bool)
    ensures
        same == (project_path_view(*a) == project_path_view(*b)),
{
    match (a, b) {
        (Some(a), Some(b)) => a.same(b),
        (None, None) => true,
        _ => false,
    }
}

fn is_first_of_kind(paths: &Vec<Option<ProjectPath>>, i: usize) -> (first: bool)
    requires
        i < paths.len(),
    ensures
        first == first_of_kind(optional_paths(paths@), i as int),
{
    let mut j: usize = 0;
    while j < i
        invariant
            j <= i < paths.len(),
            forall|k: int|
                0 <= k < j ==> #[trigger] optional_paths(paths@)[k] != optional_paths(
                    paths@,
                )[i as int],
        decreases i - j,
    {
        if same_optional_path(&paths[j], &paths[i]) {
            assert(optional_paths(paths@)[j as int] == optional_paths(paths@)[i as int]);
            return false;
        }
        j += 1;
    }
    true
}

fn find_last_with_path(items: &Vec<Option<u64>>, path: &ProjectPath, cx: &Context) -> (item: Option<u64>)
    ensures
        item == last_with_path(cx@, items@, path@),
{
    let mut n: usize = items.len();
    assert(items@.take(n as int) =~= items@);
    while n > 0
        invariant
            n <= items.len(),
            last_with_path(cx@, items@, path@) == last_with_path(
                cx@,
                items@.take(n as int),
                path@,
            ),
        decreases n,
    {
        proof {
            assert(items@.take(n as int).drop_last() =~= items@.take(n - 1));
        }
        if let Some(id) = items[n - 1] {
            if let Some(item) = cx.item(id) {
                if let Some(item_path) = &item.project_path {
                    if item_path.same(path) {
                        return Some(id);
                    }
                }
            }
        }
        n -= 1;
    }
    None
}

/// For each path the restored item that shows it.
pub fn match_opened_items(items: &Vec<Option<u64>>, paths_to_open: &Vec<Option<ProjectPath>>, cx: &Context) -> (opened:
    Vec<Option<u64>>)
    ensures
        opened@ == opened_items(cx@, items@, optional_paths(paths_to_open@)),
{
    let ghost paths = optional_paths(paths_to_open@);
    let mut opened: Vec<Option<u64>> = Vec::new();
    let mut i: usize = 0;
    while i < paths_to_open.len()
        invariant
            i <= paths_to_open.len(),
            paths == optional_paths(paths_to_open@),
            opened@ =~= opened_items(cx@, items@, paths).take(i as int),
        decreases paths_to_open.len() - i,
    {
        let mut item: Option<u64> = None;
        if let Some(path) = &paths_to_open[i] {
            if is_first_of_kind(paths_to_open, i) {
                item = find_last_with_path(items, path, cx);
            }
        }
        proof {
            assert(paths[i as int] == project_path_view(paths_to_open@[i as int]));
            assert(item == opened_items(cx@, items@, paths)[i as int]);
        }
        opened.push(item);
        i += 1;
    }
    opened
}

impl Workspace {
    /// Puts a restored tree in the place of the center, if there is one, and the docks as
    /// they were stored. The panes of the restored tree are panes of the workspace already.
    pub fn restore(&mut self, center_group: Option<Member>, docks: &DockStructure, cx: &mut Context)
        requires
            center_group is Some ==> has_outside(old(self)@.panes, old(self)@.center.leaves()),
        ensures
            state(*final(self), *final(cx)) == state(*old(self), *old(cx)).restore(
                optional_member(center_group),
                docks@,
            ),
    {
        if let Some(root) = center_group {
            let mut center = PaneGroup::with_root(root);
            std::mem::swap(&mut self.center, &mut center);
            self.remove_panes(&center.root, cx);
        }
        cx.left_dock.restore(&docks.left);
        cx.right_dock.restore(&docks.right);
        cx.bottom_dock.restore(&docks.bottom);
        cx.emit(Effect::Notify);
        cx.emit(Effect::Serialize);
    }
}

impl Workspace {
    /// Brings a stored workspace back: its center, if anything came back of that, and its
    /// docks. Tells for each path to open the item that came back for it.
    pub fn load_workspace(
        &mut self,
        docks: &DockStructure,
        restored: Option<RestoredCenter>,
        paths_to_open: &Vec<Option<ProjectPath>>,
        cx: &mut Context,
    ) -> (opened: Vec<Option<u64>>)
        requires
            restored is Some ==> has_outside(old(self)@.panes, old(self)@.center.leaves()),
        ensures
            opened@ == opened_items(
                old(cx)@,
                restored_items(restored),
                optional_paths(paths_to_open@),
            ),
            state(*final(self), *final(cx)) == state(*old(self), *old(cx)).restore(
                restored_root(restored),
                docks@,
            ),
    {
        let mut center_group: Option<Member> = None;
        let mut center_items: Vec<Option<u64>> = Vec::new();
        if let Some(restored) = restored {
            center_group = Some(restored.root);
            center_items = restored.items;
        }
        let opened = match_opened_items(&center_items, paths_to_open, cx);
        self.restore(center_group, docks, cx);
        opened
    }
}

proof fn lemma_last_with_path(cx: ContextView, items: Seq<Option<u64>>, path: ProjectPathView)
    ensures
        match last_with_path(cx, items, path) {
            Some(item) => items.contains(Some(item)) && path_of_item(cx, item) == Some(path),
            None => true,
        },
    decreases items.len(),
{
    if items.len() > 0 {
        lemma_last_with_path(cx, items.drop_last(), path);
        assert(items[items.len() - 1] == items.last());
        if let Some(item) = last_with_path(cx, items.drop_last(), path) {
            let k = items.drop_last().index_of(Some(item));
            if items.drop_last().contains(Some(item)) {
                assert(items[k] == Some(item));
            }
        }
    }
}

/// An opened item is one that was restored, and it shows the path that it is opened for.
pub proof fn law_opened_items(
    cx: ContextView,
    items: Seq<Option<u64>>,
    paths: Seq<Option<ProjectPathView>>,
    i: int,
)
    requires
        0 <= i < paths.len(),
    ensures
        opened_items(cx, items, paths).len() == paths.len(),
        match opened_items(cx, items, paths)[i] {
            Some(item) => items.contains(Some(item)) && path_of_item(cx, item) == paths[i],
            None => true,
        },
{
    if let Some(path) = paths[i] {
        lemma_last_with_path(cx, items, path);
    }
}

/// No restored item is opened for two paths.
pub proof fn law_opened_once(
    cx: ContextView,
    items: Seq<Option<u64>>,
    paths: Seq<Option<ProjectPathView>>,
    i: int,
    j: int,
)
    requires
        0 <= i < j < paths.len(),
        opened_items(cx, items, paths)[i] is Some,
    ensures
        opened_items(cx, items, paths)[j] != opened_items(cx, items, paths)[i],
{
    law_opened_items(cx, items, paths, i);
    law_opened_items(cx, items, paths, j);
    if opened_items(cx, items, paths)[j] == opened_items(cx, items, paths)[i] {
        assert(paths[i] == paths[j]);
        assert(first_of_kind(paths, j));
    }
}

/// Whether a dock has the panels of another, under their names, and shows one of its panels if
/// it has any.
pub open spec fn same_panels(saved: DockView, target: DockView) -> bool {
    &&& saved.panels.len() == target.panels.len()
    &&& saved.panels.len() > 0 ==> 0 <= saved.active_panel_index < saved.panels.len()
    &&& forall|i: int|
        0 <= i < saved.panels.len() ==> (#[trigger] saved.panels[i]).persistent_name
            == target.panels[i].persistent_name
    &&& forall|i: int|
        0 <= i < target.panels.len() ==> (#[trigger] target.panels[i]).ui_name
            == target.panels[i].persistent_name
}

proof fn lemma_force_remove_keeps(s: State, panes: Seq<u64>)
    ensures
        ({
            let after = s.force_remove_panes(panes);
            &&& after.workspace.center == s.workspace.center
            &&& after.workspace.follower_states == s.workspace.follower_states
            &&& after.workspace.database_id == s.workspace.database_id
            &&& same_but_focus(s.cx.left_dock, after.cx.left_dock)
            &&& same_but_focus(s.cx.right_dock, after.cx.right_dock)
            &&& same_but_focus(s.cx.bottom_dock, after.cx.bottom_dock)
            &&& after.cx.items == s.cx.items
            &&& after.cx.project == s.cx.project
        }),
    decreases panes.len(),
{
    if panes.len() > 0 {
        lemma_force_remove_keeps(s, panes.drop_last());
    }
}

/// Whether two docks are the same, but for which panel has the focus.
pub open spec fn same_but_focus(a: DockView, b: DockView) -> bool {
    &&& a.position == b.position
    &&& a.is_open == b.is_open
    &&& a.active_panel_index == b.active_panel_index
    &&& a.panels.len() == b.panels.len()
    &&& forall|i: int|
        0 <= i < a.panels.len() ==> (#[trigger] b.panels[i]) == (PanelView {
            has_focus: b.panels[i].has_focus,
            ..a.panels[i]
        })
}

/// A dock into which data is read may be blurred before or after.
proof fn lemma_restore_blurred(a: DockView, b: DockView, data: DockDataView, i: int)
    requires
        same_but_focus(a, b),
        0 <= i <= a.panels.len(),
    ensures
        data.active_panel matches Some(name) ==> panel_place(a.panels, name, i) == panel_place(
            b.panels,
            name,
            i,
        ),
        i == 0 ==> same_but_focus(a.restore(data), b.restore(data)),
    decreases a.panels.len() - i,
{
    if i < a.panels.len() {
        assert(b.panels[i].ui_name == a.panels[i].ui_name);
        lemma_restore_blurred(a, b, data, i + 1);
    }
    if i == 0 {
        let x = a.restore(data);
        let y = b.restore(data);
        assert forall|j: int| 0 <= j < x.panels.len() implies (#[trigger] y.panels[j]) == (
        PanelView { has_focus: y.panels[j].has_focus, ..x.panels[j] }) by {
            assert(b.panels[j] == (PanelView { has_focus: b.panels[j].has_focus, ..a.panels[j] }));
        }
    }
}

/// Bringing a stored workspace back opens or closes each dock as was stored of it, and reads
/// its data into it. The restored tree is the center, and of the panes of the workspace those
/// stay that the old center did not hold; without a restored tree the center and the panes stay.
/// At last the workspace is stored again.
pub proof fn law_restore(s: State, center: Option<MemberView>, docks: DockStructureView, pane: u64)
    ensures
        ({
            let after = s.restore(center, docks);
            &&& after.cx.left_dock.is_open == docks.left.visible
            &&& after.cx.right_dock.is_open == docks.right.visible
            &&& after.cx.bottom_dock.is_open == docks.bottom.visible
            &&& same_but_focus(s.cx.left_dock.restore(docks.left), after.cx.left_dock)
            &&& same_but_focus(s.cx.right_dock.restore(docks.right), after.cx.right_dock)
            &&& same_but_focus(s.cx.bottom_dock.restore(docks.bottom), after.cx.bottom_dock)
            &&& after.workspace.center == (match center {
                Some(center) => center,
                None => s.workspace.center,
            })
            &&& after.workspace.panes.contains(pane) <==> s.workspace.panes.contains(pane) && (
            center is None || !s.workspace.center.leaves().contains(pane))
            &&& after.workspace.follower_states == s.workspace.follower_states
            &&& after.workspace.database_id == s.workspace.database_id
            &&& after.cx.items == s.cx.items
            &&& after.cx.project == s.cx.project
            &&& after.cx.effects.len() > 1
            &&& after.cx.effects.last() == EffectView::Serialize
        }),
{
    let centered = match center {
        Some(center) => {
            let changed = State {
                workspace: WorkspaceView { center, ..s.workspace },
                ..s
            };
            let removed = s.workspace.center.leaves();
            lemma_force_remove_keeps(changed, removed);
            lemma_force_remove_panes(changed, removed);
            changed.force_remove_panes(removed)
        },
        None => s,
    };
    lemma_restore_blurred(s.cx.left_dock, centered.cx.left_dock, docks.left, 0);
    lemma_restore_blurred(s.cx.right_dock, centered.cx.right_dock, docks.right, 0);
    lemma_restore_blurred(s.cx.bottom_dock, centered.cx.bottom_dock, docks.bottom, 0);
}

/// The docks come back as they were stored: what is stored of the docks of `s`, brought back in
/// a workspace whose docks have the same panels, is stored again as the same.
pub proof fn law_docks_round_trip(s: State, t: State, center: Option<MemberView>)
    requires
        same_panels(s.cx.left_dock, t.cx.left_dock),
        same_panels(s.cx.right_dock, t.cx.right_dock),
        same_panels(s.cx.bottom_dock, t.cx.bottom_dock),
    ensures
        serialized_docks(t.restore(center, serialized_docks(s.cx)).cx) == serialized_docks(s.cx),
{
    law_restore(t, center, serialized_docks(s.cx), 0);
    law_dock_round_trip(s.cx.left_dock, t.cx.left_dock);
    law_dock_round_trip(s.cx.right_dock, t.cx.right_dock);
    law_dock_round_trip(s.cx.bottom_dock, t.cx.bottom_dock);
    let after = t.restore(center, serialized_docks(s.cx)).cx;
    lemma_same_data(t.cx.left_dock.restore(s.cx.left_dock.data()), after.left_dock);
    lemma_same_data(t.cx.right_dock.restore(s.cx.right_dock.data()), after.right_dock);
    lemma_same_data(t.cx.bottom_dock.restore(s.cx.bottom_dock.data()), after.bottom_dock);
}

proof fn lemma_same_data(a: DockView, b: DockView)
    requires
        same_but_focus(a, b),
    ensures
        a.data() == b.data(),
{
    let i = a.active_panel_index;
    if 0 <= i < a.panels.len() {
        assert(b.panels[i] == (PanelView { has_focus: b.panels[i].has_focus, ..a.panels[i] }));
    }
}

proof fn lemma_last_with_path_found(
    cx: ContextView,
    items: Seq<Option<u64>>,
    path: ProjectPathView,
    k: int,
)
    requires
        0 <= k < items.len(),
        items[k] matches Some(item) && path_of_item(cx, item) == Some(path),
        forall|j: int|
            k < j < items.len() ==> ((#[trigger] items[j]) matches Some(item) ==> path_of_item(
                cx,
                item,
            ) != Some(path)),
    ensures
        last_with_path(cx, items, path) == items[k],
    decreases items.len(),
{
    if k < items.len() - 1 {
        assert(items.last() == items[items.len() - 1]);
        assert forall|j: int| k < j < items.drop_last().len() implies ((
        #[trigger] items.drop_last()[j]) matches Some(item) ==> path_of_item(cx, item) != Some(
            path,
        )) by {
            assert(items[j] == items.drop_last()[j]);
        }
        lemma_last_with_path_found(cx, items.drop_last(), path, k);
    }
}

/// A path that was not listed before gets the item that was restored for it, the last of
/// several; so nothing is opened a second time that came back.
pub proof fn law_restored_item_is_opened(
    cx: ContextView,
    items: Seq<Option<u64>>,
    paths: Seq<Option<ProjectPathView>>,
    i: int,
    k: int,
)
    requires
        0 <= i < paths.len(),
        forall|j: int| 0 <= j < i ==> #[trigger] paths[j] != paths[i],
        paths[i] is Some,
        0 <= k < items.len(),
        items[k] matches Some(item) && cx.item(item) matches Some(found) && found.project_path
            == paths[i],
        forall|j: int|
            k < j < items.len() ==> ((#[trigger] items[j]) matches Some(item) ==> path_of_item(
                cx,
                item,
            ) != paths[i]),
    ensures
        opened_items(cx, items, paths)[i] == items[k],
{
    lemma_last_with_path_found(cx, items, paths[i]->0, k);
}

/// The path of an item is the one that the project knows for it.
pub proof fn law_path_of_item(cx: ContextView, item: u64)
    ensures
        path_of_item(cx, item) is Some <==> (cx.item(item) matches Some(found)
            && found.project_path is Some),
        cx.item(item) matches Some(found) ==> path_of_item(cx, item) == found.project_path,
{
}

} // verus!
