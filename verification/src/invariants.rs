//! What every operation on a workspace keeps.

use crate::context::{ContextView, EffectView};
use crate::dock::{DockPosition, DockStructureView};
use crate::error::Error;
use crate::events::ProjectEventView;
use crate::following::{
    law_collaborator_left, law_unfollow, lemma_state_place, state_place, unique_panes, with_active_view, CallEvent,
};
use crate::pane_group::{
    first_at, law_remove_leaves, law_remove_undoes_split, law_remove_well_formed, law_split_leaves, law_split_well_formed,
    lemma_leaves_nonempty, MemberView, SplitDirection,
};
use crate::panes::{has_outside, lemma_panes_without, panes_without, PaneEvent};
use crate::path::ProjectPathView;
use crate::proto;
use crate::proto::PeerId;
use crate::serialized::WorkspaceId;
use crate::view_id::{view_id_from_proto, ViewId};
use crate::workspace::{new_context, new_workspace, FollowerStateView, State, WorkspaceView};
use vstd::prelude::*;

verus! {

/// The panes of a list all have numbers below the given one.
pub open spec fn all_below(panes: Seq<u64>, next: u64) -> bool {
    forall|i: int| 0 <= i < panes.len() ==> #[trigger] panes[i] < next
}

impl State {
    /// The panes of the workspace are those of its center, each once; the center is well
    /// formed; new panes get new numbers; and each pane follows at most one leader.
    pub open spec fn well_formed(self) -> bool {
        &&& self.workspace.center.well_formed()
        &&& self.workspace.panes.no_duplicates()
        &&& self.workspace.panes.to_multiset() == self.workspace.center.leaves().to_multiset()
        &&& all_below(self.workspace.panes, self.cx.next_entity_id)
        &&& self.cx.fresh()
        &&& unique_panes(self.workspace.follower_states)
    }

    /// The two states have the same panes and the same center, and nothing else that
    /// well-formedness speaks of has changed.
    pub open spec fn same_layout(self, other: State) -> bool {
        &&& self.workspace.center == other.workspace.center
        &&& self.workspace.panes == other.workspace.panes
        &&& self.cx.next_entity_id <= other.cx.next_entity_id
        &&& self.cx.fresh() ==> other.cx.fresh()
        &&& unique_panes(self.workspace.follower_states) ==> unique_panes(
            other.workspace.follower_states,
        )
    }
}

proof fn lemma_same_layout(s: State, t: State)
    requires
        s.well_formed(),
        s.same_layout(t),
    ensures
        t.well_formed(),
{
}

/// The panes of a well-formed workspace are those that its center holds.
pub proof fn law_panes_are_in_center(s: State, pane: u64)
    requires
        s.well_formed(),
    ensures
        s.workspace.panes.contains(pane) <==> s.workspace.center.holds(pane),
        s.workspace.panes.len() > 0,
{
    broadcast use vstd::seq_lib::group_to_multiset_ensures;

    let panes = s.workspace.panes;
    let leaves = s.workspace.center.leaves();
    assert(panes.to_multiset().count(pane) == leaves.to_multiset().count(pane));
    lemma_leaves_nonempty(s.workspace.center);
    assert(panes.to_multiset().len() == leaves.to_multiset().len());
}

/// A workspace starts out well formed.
pub proof fn law_new_well_formed(
    cx: ContextView,
    workspace_id: WorkspaceId,
    weak_self: u64,
    window: u64,
)
    requires
        cx.fresh(),
        cx.next_entity_id < u64::MAX,
    ensures
        (State {
            workspace: new_workspace(workspace_id, weak_self, cx.next_entity_id, cx.call_id()),
            cx: new_context(cx, weak_self, window),
        }).well_formed(),
{
    let s = State {
        workspace: new_workspace(workspace_id, weak_self, cx.next_entity_id, cx.call_id()),
        cx: new_context(cx, weak_self, window),
    };
    assert(s.workspace.center.leaves() =~= s.workspace.panes);
    assert forall|i: int| 0 <= i < s.cx.panes.len() implies (#[trigger] s.cx.panes[i]).id
        < s.cx.next_entity_id by {
        if i < cx.panes.len() {
            assert(s.cx.panes[i] == cx.panes[i]);
        }
    }
}

/// A pane that was added and then put beside another in the center.
proof fn lemma_add_and_split(s: State, t: State, pane: u64, direction: SplitDirection)
    requires
        s.well_formed(),
        s.workspace.center.holds(pane),
        s.cx.next_entity_id < u64::MAX,
        t.workspace.center == s.workspace.center.split(pane, s.cx.next_entity_id, direction),
        t.workspace.panes == s.workspace.panes.push(s.cx.next_entity_id),
        t.workspace.follower_states == s.workspace.follower_states,
        t.cx.next_entity_id == s.cx.next_entity_id + 1,
        t.cx.fresh(),
    ensures
        t.well_formed(),
{
    broadcast use vstd::seq_lib::group_to_multiset_ensures;

    let new_pane = s.cx.next_entity_id;
    let panes = s.workspace.panes;
    let leaves = s.workspace.center.leaves();
    law_split_well_formed(s.workspace.center, pane, new_pane, direction);
    law_split_leaves(s.workspace.center, pane, new_pane, direction);
    let k = choose|k: int|
        #[trigger] first_at(leaves, pane, k) && leaves.insert(
            if direction.spec_increasing() {
                k + 1
            } else {
                k
            },
            new_pane,
        ) == t.workspace.center.leaves();
    let at = if direction.spec_increasing() {
        k + 1
    } else {
        k
    };
    assert(leaves.insert(at, new_pane).to_multiset() =~= leaves.to_multiset().insert(new_pane));
    assert(panes.push(new_pane).to_multiset() =~= panes.to_multiset().insert(new_pane));
    assert forall|i: int| 0 <= i < t.workspace.panes.len() implies #[trigger] t.workspace.panes[i]
        < t.cx.next_entity_id by {
        if i < panes.len() {
            assert(panes[i] < s.cx.next_entity_id);
        }
    }
    assert forall|i: int, j: int|
        0 <= i < t.workspace.panes.len() && 0 <= j < t.workspace.panes.len() && i
            != j implies t.workspace.panes[i] != t.workspace.panes[j] by {
        if i < panes.len() {
            assert(panes[i] < s.cx.next_entity_id);
        }
        if j < panes.len() {
            assert(panes[j] < s.cx.next_entity_id);
        }
    }
}

proof fn lemma_add_pane_fresh(s: State)
    requires
        s.cx.fresh(),
        s.cx.next_entity_id < u64::MAX,
    ensures
        s.add_pane().cx.fresh(),
{
    let cx = s.add_pane().cx;
    assert forall|i: int| 0 <= i < cx.panes.len() implies (#[trigger] cx.panes[i]).id
        < cx.next_entity_id by {
        if i < s.cx.panes.len() {
            assert(cx.panes[i] == s.cx.panes[i]);
        }
    }
}

/// Splitting a pane of a well-formed workspace keeps it well formed, and the new pane is in
/// its center.
pub proof fn law_split_pane(s: State, pane: u64, direction: SplitDirection)
    requires
        s.well_formed(),
        s.workspace.center.holds(pane),
        s.cx.next_entity_id < u64::MAX,
    ensures
        s.split_pane(pane, direction).well_formed(),
        s.split_pane(pane, direction).workspace.center.holds(s.cx.next_entity_id),
{
    let t = s.split_pane(pane, direction);
    lemma_add_pane_fresh(s);
    assert(t.cx.panes == s.add_pane().cx.panes);
    lemma_add_and_split(s, t, pane, direction);
    assert(t.workspace.panes[s.workspace.panes.len() as int] == s.cx.next_entity_id);
    law_panes_are_in_center(t, s.cx.next_entity_id);
}

/// Splitting the active pane for an item keeps a workspace well formed.
pub proof fn law_split_item(s: State, direction: SplitDirection, item: u64)
    requires
        s.well_formed(),
        s.workspace.center.holds(s.workspace.active_pane),
        s.cx.next_entity_id < u64::MAX,
    ensures
        s.split_item(direction, item).well_formed(),
{
    law_split_pane(s, s.workspace.active_pane, direction);
    lemma_same_layout(
        s.split_pane(s.workspace.active_pane, direction),
        s.split_item(direction, item),
    );
}

/// Splitting a pane for a clone keeps a workspace well formed.
pub proof fn law_split_and_clone(s: State, pane: u64, direction: SplitDirection, cloned: Option<u64>)
    requires
        s.well_formed(),
        s.clones(pane, cloned) ==> s.workspace.center.holds(pane) && s.cx.next_entity_id < u64::MAX,
    ensures
        s.split_and_clone(pane, direction, cloned).well_formed(),
{
    let t = s.split_and_clone(pane, direction, cloned);
    if s.clones(pane, cloned) {
        lemma_add_pane_fresh(s);
        assert(t.cx.panes == s.add_pane().cx.panes);
        lemma_add_and_split(s, t, pane, direction);
    } else {
        lemma_same_layout(s, t);
    }
}

proof fn lemma_focus_fresh(cx: ContextView, pane: Option<u64>)
    ensures
        cx.fresh() <==> cx.with_focus(pane).fresh(),
{
    let after = cx.with_focus(pane);
    assert forall|i: int| 0 <= i < cx.panes.len() implies #[trigger] after.panes[i].id
        == cx.panes[i].id by {}
    if after.fresh() {
        assert forall|i: int| 0 <= i < cx.panes.len() implies (#[trigger] cx.panes[i]).id
            < cx.next_entity_id by {
            assert(after.panes[i].id < after.next_entity_id);
        }
    }
}

proof fn lemma_move_item_layout(s: State, source: u64, destination: u64, item: u64, index: int)
    ensures
        s.same_layout(s.move_item(source, destination, item, index)),
        s.move_item(source, destination, item, index).workspace == s.workspace,
        s.move_item(source, destination, item, index).cx.next_entity_id == s.cx.next_entity_id,
{
    let t = s.move_item(source, destination, item, index);
    lemma_focus_fresh(s.cx, Some(destination));
    if t != s {
        assert(t.cx.panes == s.cx.with_focus(Some(destination)).panes);
    }
}

/// Splitting a pane for an item of another keeps a workspace well formed.
pub proof fn law_split_pane_with_item(
    s: State,
    pane: u64,
    direction: SplitDirection,
    from: u64,
    item: u64,
)
    requires
        s.well_formed(),
        s.cx.has_pane(pane) && s.cx.has_pane(from) ==> s.workspace.center.holds(pane)
            && s.cx.next_entity_id < u64::MAX,
    ensures
        s.split_pane_with_item(pane, direction, from, item).well_formed(),
{
    if s.cx.has_pane(pane) && s.cx.has_pane(from) {
        let t = s.split_pane_with_item(pane, direction, from, item);
        lemma_add_pane_fresh(s);
        lemma_move_item_layout(s.add_pane(), from, s.cx.next_entity_id, item, 0);
        let moved = s.add_pane().move_item(from, s.cx.next_entity_id, item, 0);
        assert(t.cx.panes == moved.cx.panes);
        lemma_add_and_split(s, t, pane, direction);
    }
}

/// Splitting a pane for an entry of the project keeps a workspace well formed.
pub proof fn law_split_pane_with_project_entry(
    s: State,
    pane: u64,
    direction: SplitDirection,
    path: Option<ProjectPathView>,
)
    requires
        s.well_formed(),
        s.cx.has_pane(pane) ==> s.workspace.center.holds(pane) && s.cx.next_entity_id < u64::MAX,
    ensures
        s.split_pane_with_project_entry(pane, direction, path).well_formed(),
{
    if s.cx.has_pane(pane) {
        let t = s.split_pane_with_project_entry(pane, direction, path);
        lemma_add_pane_fresh(s);
        assert(t.cx.panes == s.add_pane().cx.panes);
        lemma_add_and_split(s, t, pane, direction);
    }
}

proof fn lemma_without_multiset(panes: Seq<u64>, pane: u64)
    requires
        panes.no_duplicates(),
    ensures
        panes_without(panes, pane).no_duplicates(),
        panes_without(panes, pane).to_multiset() == panes.to_multiset().remove(pane),
    decreases panes.len(),
{
    broadcast use vstd::seq_lib::group_to_multiset_ensures;

    if panes.len() > 0 {
        let init = panes.drop_last();
        let last = panes.last();
        let before = panes_without(init, pane);
        let after = panes_without(panes, pane);
        assert(panes =~= init.push(last));
        assert(init.no_duplicates());
        assert(!init.contains(last)) by {
            if init.contains(last) {
                let k = init.index_of(last);
                assert(panes[k] == panes[panes.len() - 1]);
            }
        }
        lemma_without_multiset(init, pane);
        lemma_panes_without(init, pane);
        assert(panes.to_multiset() =~= init.to_multiset().insert(last));
        if last == pane {
            assert(init.to_multiset().count(pane) == 0);
            assert(after.to_multiset() =~= panes.to_multiset().remove(pane));
        } else {
            assert(after.to_multiset() =~= before.to_multiset().insert(last));
            assert(after.to_multiset() =~= panes.to_multiset().remove(pane));
            assert(!before.contains(last));
            assert forall|i: int, j: int|
                0 <= i < after.len() && 0 <= j < after.len() && i != j implies after[i]
                != after[j] by {
                if i < before.len() && j < before.len() {
                    assert(before[i] != before[j]);
                } else if i < before.len() {
                    assert(before.contains(before[i]));
                } else {
                    assert(before.contains(before[j]));
                }
            }
        }
    } else {
        assert(panes.to_multiset().remove(pane) =~= panes.to_multiset());
    }
}

/// A pane of a well-formed workspace can be taken out.
pub proof fn law_removable(s: State, pane: u64)
    requires
        s.well_formed(),
        s.workspace.center.holds(pane),
    ensures
        s.removable(pane),
{
    broadcast use vstd::seq_lib::group_to_multiset_ensures;

    let center = s.workspace.center;
    let panes = s.workspace.panes;
    if center is Axis {
        law_remove_well_formed(center, pane);
        law_remove_leaves(center, pane);
        let leaves = center.leaves();
        let k = choose|k: int|
            #[trigger] first_at(leaves, pane, k) && leaves.remove(k) == center.remove(pane).leaves();
        lemma_leaves_nonempty(center.remove(pane));
        assert(leaves.len() >= 2);
        assert(panes.to_multiset().len() == leaves.to_multiset().len());
        assert(panes.len() >= 2);
        assert(panes[0] != panes[1]);
        if panes[0] == pane {
            assert(panes[1] != pane);
        }
    }
}

proof fn lemma_all_below_without(panes: Seq<u64>, pane: u64, next: u64)
    requires
        all_below(panes, next),
    ensures
        all_below(panes_without(panes, pane), next),
{
    lemma_panes_without(panes, pane);
    let rest = panes_without(panes, pane);
    assert forall|i: int| 0 <= i < rest.len() implies #[trigger] rest[i] < next by {
        assert(rest.contains(rest[i]));
        let k = panes.index_of(rest[i]);
        assert(panes[k] < next);
    }
}

proof fn lemma_unfollow_layout(s: State, pane: u64)
    ensures
        s.same_layout(s.unfollow(pane)),
        s.unfollow(pane).cx.panes == s.cx.panes,
{
    if unique_panes(s.workspace.follower_states) {
        law_unfollow(s, pane, pane);
    }
}

/// Taking a pane out keeps a workspace well formed; and unless it was the only one, the pane
/// is no longer in its center.
pub proof fn law_remove_pane(s: State, pane: u64)
    requires
        s.well_formed(),
        s.removable(pane),
    ensures
        s.remove_pane(pane).well_formed(),
        s.workspace.center is Axis ==> !s.remove_pane(pane).workspace.center.holds(pane),
{
    broadcast use vstd::seq_lib::group_to_multiset_ensures;

    let t = s.remove_pane(pane);
    let center = s.workspace.center;
    if center is Axis {
        let taken = State {
            workspace: WorkspaceView { center: center.remove(pane), ..s.workspace },
            ..s
        };
        let forced = taken.force_remove_pane(pane);
        lemma_focus_fresh(s.cx, Some(panes_without(s.workspace.panes, pane).last()));
        assert(forced.cx.panes == s.cx.with_focus(
            Some(panes_without(s.workspace.panes, pane).last()),
        ).panes);
        law_remove_well_formed(center, pane);
        law_remove_leaves(center, pane);
        let leaves = center.leaves();
        let k = choose|k: int|
            #[trigger] first_at(leaves, pane, k) && leaves.remove(k) == center.remove(pane).leaves();
        assert(leaves[k] == pane);
        assert(leaves.remove(k).to_multiset() =~= leaves.to_multiset().remove(pane));
        lemma_without_multiset(s.workspace.panes, pane);
        lemma_all_below_without(s.workspace.panes, pane, s.cx.next_entity_id);
        assert(forced.well_formed());
        lemma_unfollow_layout(forced, pane);
        lemma_same_layout(forced, forced.unfollow(pane));
        lemma_same_layout(forced.unfollow(pane), t);
        lemma_panes_without(s.workspace.panes, pane);
        law_panes_are_in_center(t, pane);
    } else {
        lemma_same_layout(s, t);
    }
}

proof fn lemma_unzoom_fresh(cx: ContextView, panes: Seq<u64>, spared: Option<u64>)
    requires
        cx.fresh(),
    ensures
        cx.unzoom(panes, spared).fresh(),
{
    let after = cx.unzoom(panes, spared);
    assert forall|i: int| 0 <= i < after.panes.len() implies (#[trigger] after.panes[i]).id
        < after.next_entity_id by {
        assert(after.panes[i].id == cx.panes[i].id);
    }
}

proof fn lemma_set_zoomed_fresh(cx: ContextView, pane: u64, zoomed: bool)
    requires
        cx.fresh(),
    ensures
        cx.set_zoomed(pane, zoomed).fresh(),
{
    let after = cx.set_zoomed(pane, zoomed);
    assert forall|i: int| 0 <= i < after.panes.len() implies (#[trigger] after.panes[i]).id
        < after.next_entity_id by {
        assert(after.panes[i].id == cx.panes[i].id);
    }
}

/// Zooming out, and making way for what is to be seen, keep a workspace well formed.
pub proof fn law_zoom_keeps(s: State, reveal: Option<DockPosition>)
    requires
        s.well_formed(),
    ensures
        s.zoom_out().well_formed(),
        s.dismiss_zoomed_items_to_reveal(reveal).well_formed(),
{
    lemma_unzoom_fresh(s.cx, s.workspace.panes, None);
    assert(s.zoom_out().cx.panes == s.cx.unzoom(s.workspace.panes, None).panes);
    lemma_same_layout(s, s.zoom_out());
    let spared = if reveal is Some {
        None
    } else {
        Some(s.workspace.active_pane)
    };
    let cx = s.cx.unzoom(s.workspace.panes, spared);
    lemma_unzoom_fresh(s.cx, s.workspace.panes, spared);
    lemma_focus_fresh(cx, None);
    let t = s.dismiss_zoomed_items_to_reveal(reveal);
    assert(t.cx.panes == cx.panes || t.cx.panes == cx.with_focus(None).panes);
    lemma_same_layout(s, t);
}

/// A pane that gets the focus leaves a workspace well formed.
pub proof fn law_focus_keeps(s: State, pane: u64)
    requires
        s.well_formed(),
    ensures
        s.handle_pane_focused(pane).well_formed(),
{
    let t = s.handle_pane_focused(pane);
    let active = if s.workspace.active_pane != pane {
        let changed = State {
            workspace: WorkspaceView { active_pane: pane, ..s.workspace },
            ..s
        }.emit(EffectView::SetStatusBarPane(pane)).active_item_path_changed();
        State {
            workspace: WorkspaceView { last_active_center_pane: Some(pane), ..changed.workspace },
            ..changed
        }
    } else {
        s
    };
    lemma_same_layout(s, active);
    law_zoom_keeps(active, None);
    lemma_same_layout(active.dismiss_zoomed_items_to_reveal(None), t);
}

/// Whatever happens in a pane, the workspace stays well formed.
pub proof fn law_pane_event_keeps(s: State, pane: u64, event: PaneEvent)
    requires
        s.well_formed(),
        s.admits(pane, event),
    ensures
        s.handle_pane_event(pane, event).well_formed(),
{
    let t = s.react_to_pane(pane, event);
    match event {
        PaneEvent::Split { direction, cloned } => {
            law_split_and_clone(s, pane, direction, cloned);
        },
        PaneEvent::Remove => {
            law_remove_pane(s, pane);
        },
        PaneEvent::ActivateItem { .. } => {
            lemma_unfollow_layout(s, pane);
            lemma_same_layout(s, t);
        },
        PaneEvent::Focus => {
            law_focus_keeps(s, pane);
        },
        PaneEvent::ZoomIn => {
            lemma_set_zoomed_fresh(s.cx, pane, true);
            lemma_same_layout(s, t);
        },
        PaneEvent::ZoomOut => {
            lemma_set_zoomed_fresh(s.cx, pane, false);
            lemma_same_layout(s, t);
        },
        _ => {
            lemma_same_layout(s, t);
        },
    }
    lemma_same_layout(t, s.handle_pane_event(pane, event));
}

/// In a well-formed workspace what happens in a pane of the center can always be dealt with,
/// as long as there are numbers for new panes.
pub proof fn law_events_admitted(s: State, pane: u64, event: PaneEvent)
    requires
        s.well_formed(),
        s.workspace.center.holds(pane),
        s.cx.next_entity_id < u64::MAX,
    ensures
        s.admits(pane, event),
{
    if event is Remove {
        law_removable(s, pane);
    }
}

/// Whatever happens in the project, the workspace stays well formed.
pub proof fn law_project_event_keeps(s: State, event: ProjectEventView)
    requires
        s.well_formed(),
    ensures
        s.handle_project_event(event).well_formed(),
{
    let t = s.handle_project_event(event);
    match event {
        ProjectEventView::CollaboratorLeft(peer_id) => {
            law_collaborator_left(s, peer_id, 0);
        },
        ProjectEventView::DisconnectedFromHost => {
            lemma_focus_fresh(s.cx, None);
            assert(t.cx.panes == s.cx.with_focus(None).panes);
        },
        _ => {},
    }
    lemma_same_layout(s, t);
}

/// What leaders and followers send, and what happens in the call, leaves the workspace well
/// formed.
pub proof fn law_following_keeps(
    s: State,
    pane: u64,
    leader_id: PeerId,
    variant: Option<proto::Variant>,
    added: Seq<(ViewId, u64)>,
    event: CallEvent,
    outcome: Result<(), Error>,
)
    requires
        s.well_formed(),
    ensures
        s.unfollow(pane).well_formed(),
        s.handle_update_followers(leader_id, variant).well_formed(),
        s.start_leader_update().well_formed(),
        s.finish_leader_update(outcome).well_formed(),
        s.handle_follow().well_formed(),
        s.update_active_view_for_followers().well_formed(),
        s.process_leader_update(leader_id, variant).well_formed(),
        s.add_leader_items(leader_id, pane, added).well_formed(),
        s.on_active_call_event(event).well_formed(),
        s.on_window_activation_changed().well_formed(),
{
    lemma_unfollow_layout(s, pane);
    lemma_same_layout(s, s.unfollow(pane));
    lemma_same_layout(s, s.handle_update_followers(leader_id, variant));
    if s.can_start_update() {
        let update = s.workspace.leader_updates[0];
        lemma_leader_update_layout(s.without_first_update(), update.leader_id, update.variant);
    }
    lemma_same_layout(s, s.start_leader_update());
    lemma_same_layout(s, s.finish_leader_update(outcome));
    lemma_same_layout(s, s.handle_follow());
    lemma_same_layout(s, s.update_active_view_for_followers());
    lemma_leader_update_layout(s, leader_id, variant);
    lemma_same_layout(s, s.process_leader_update(leader_id, variant));
    lemma_added_items_layout(s, leader_id, pane, added);
    lemma_same_layout(s, s.add_leader_items(leader_id, pane, added));
    lemma_same_layout(s, s.on_active_call_event(event));
    lemma_same_layout(s, s.on_window_activation_changed());
}

proof fn lemma_active_view_unique(
    states: Seq<FollowerStateView>,
    leader_id: PeerId,
    id: Option<ViewId>,
)
    requires
        unique_panes(states),
    ensures
        unique_panes(with_active_view(states, leader_id, id)),
{
    let after = with_active_view(states, leader_id, id);
    assert forall|i: int, j: int| 0 <= i < j < after.len() implies (#[trigger] after[i]).pane != (
    #[trigger] after[j]).pane by {
        assert(after[i].pane == states[i].pane);
        assert(after[j].pane == states[j].pane);
    }
}

proof fn lemma_leader_update_layout(s: State, leader_id: PeerId, variant: Option<proto::Variant>)
    requires
        unique_panes(s.workspace.follower_states),
    ensures
        s.same_layout(s.process_leader_update(leader_id, variant)),
{
    let states = s.workspace.follower_states;
    if let Some(proto::Variant::UpdateActiveView(update)) = variant {
        lemma_active_view_unique(states, leader_id, None);
        if let Some(id) = update.id {
            if let Ok(id) = view_id_from_proto(id) {
                lemma_active_view_unique(states, leader_id, Some(id));
            }
        }
    }
}

proof fn lemma_added_items_layout(s: State, leader_id: PeerId, pane: u64, added: Seq<(ViewId, u64)>)
    requires
        unique_panes(s.workspace.follower_states),
    ensures
        s.same_layout(s.add_leader_items(leader_id, pane, added)),
{
    let states = s.workspace.follower_states;
    let after = s.add_leader_items(leader_id, pane, added).workspace.follower_states;
    lemma_state_place(states, pane, 0);
    if let Some(k) = state_place(states, pane, 0) {
        assert forall|i: int, j: int| 0 <= i < j < after.len() implies (#[trigger] after[i]).pane
            != (#[trigger] after[j]).pane by {
            assert(after[i].pane == states[i].pane);
            assert(after[j].pane == states[j].pane);
        }
    }
}

proof fn lemma_force_remove_layout(s: State, removed: Seq<u64>)
    requires
        s.workspace.panes.no_duplicates(),
        all_below(s.workspace.panes, s.cx.next_entity_id),
        s.cx.fresh(),
    ensures
        ({
            let t = s.force_remove_panes(removed);
            &&& t.workspace.center == s.workspace.center
            &&& t.workspace.follower_states == s.workspace.follower_states
            &&& t.cx.next_entity_id == s.cx.next_entity_id
            &&& t.cx.fresh()
            &&& t.workspace.panes.no_duplicates()
            &&& all_below(t.workspace.panes, t.cx.next_entity_id)
            &&& forall|p: u64| #[trigger]
                t.workspace.panes.to_multiset().count(p) == (if removed.contains(p) {
                    0
                } else {
                    s.workspace.panes.to_multiset().count(p)
                })
        }),
    decreases removed.len(),
{
    broadcast use vstd::seq_lib::group_to_multiset_ensures;

    if removed.len() > 0 {
        let init = removed.drop_last();
        let last = removed.last();
        lemma_force_remove_layout(s, init);
        let before = s.force_remove_panes(init);
        let t = s.force_remove_panes(removed);
        let panes = before.workspace.panes;
        lemma_without_multiset(panes, last);
        lemma_all_below_without(panes, last, before.cx.next_entity_id);
        lemma_focus_fresh(before.cx, Some(panes_without(panes, last).last()));
        assert(t.cx.panes == before.cx.with_focus(Some(panes_without(panes, last).last())).panes);
        panes.lemma_multiset_has_no_duplicates();
        assert forall|p: u64| #[trigger]
            t.workspace.panes.to_multiset().count(p) == (if removed.contains(p) {
                0
            } else {
                s.workspace.panes.to_multiset().count(p)
            }) by {
            assert(removed.contains(p) <==> init.contains(p) || p == last) by {
                if init.contains(p) {
                    let k = init.index_of(p);
                    assert(removed[k] == p);
                }
                if removed.contains(p) {
                    let k = removed.index_of(p);
                    if k < init.len() {
                        assert(init[k] == p);
                    }
                }
                assert(removed[removed.len() - 1] == last);
            }
            assert(panes.to_multiset().count(p) <= 1) by {
                if panes.to_multiset().count(p) > 0 {
                    assert(panes.to_multiset().contains(p));
                }
            }
        }
    }
}

/// A workspace that holds the panes of its center and those of a restored tree, each once, is
/// well formed once the tree has taken the place of the center.
pub proof fn law_restore_well_formed(s: State, center: MemberView, docks: DockStructureView)
    requires
        center.well_formed(),
        s.workspace.panes.no_duplicates(),
        s.workspace.panes.to_multiset() == s.workspace.center.leaves().to_multiset().add(
            center.leaves().to_multiset(),
        ),
        all_below(s.workspace.panes, s.cx.next_entity_id),
        s.cx.fresh(),
        unique_panes(s.workspace.follower_states),
    ensures
        has_outside(s.workspace.panes, s.workspace.center.leaves()),
        s.restore(Some(center), docks).well_formed(),
{
    broadcast use vstd::seq_lib::group_to_multiset_ensures;

    let panes = s.workspace.panes;
    let old_leaves = s.workspace.center.leaves();
    let new_leaves = center.leaves();
    panes.lemma_multiset_has_no_duplicates();
    assert forall|p: u64| panes.to_multiset().count(p) <= 1 by {
        if panes.to_multiset().count(p) > 0 {
            assert(panes.to_multiset().contains(p));
        }
    }
    lemma_leaves_nonempty(center);
    let first = new_leaves[0];
    assert(new_leaves.contains(first));
    assert(panes.to_multiset().count(first) >= 1);
    assert(old_leaves.to_multiset().count(first) == 0);
    assert(!old_leaves.contains(first));
    assert(panes.contains(first));
    let k = panes.index_of(first);
    assert(!old_leaves.contains(panes[k]));
    let swapped = State { workspace: WorkspaceView { center, ..s.workspace }, ..s };
    lemma_force_remove_layout(swapped, old_leaves);
    let cleared = swapped.force_remove_panes(old_leaves);
    assert(cleared.workspace.panes.to_multiset() =~= new_leaves.to_multiset()) by {
        assert forall|p: u64| #[trigger]
            cleared.workspace.panes.to_multiset().count(p) == new_leaves.to_multiset().count(p) by {
            assert(panes.to_multiset().count(p) == old_leaves.to_multiset().count(p)
                + new_leaves.to_multiset().count(p));
            if old_leaves.contains(p) {
                assert(old_leaves.to_multiset().count(p) >= 1);
            } else {
                assert(old_leaves.to_multiset().count(p) == 0);
            }
        }
    }
    let t = s.restore(Some(center), docks);
    assert(t.cx.panes == cleared.cx.panes);
    lemma_same_layout(cleared, t);
}

proof fn lemma_without_absent(panes: Seq<u64>, pane: u64)
    requires
        !panes.contains(pane),
    ensures
        panes_without(panes, pane) == panes,
    decreases panes.len(),
{
    if panes.len() > 0 {
        let init = panes.drop_last();
        assert(panes[panes.len() - 1] == panes.last());
        assert(!init.contains(pane)) by {
            if init.contains(pane) {
                let k = init.index_of(pane);
                assert(panes[k] == pane);
            }
        }
        lemma_without_absent(init, pane);
        assert(panes =~= init.push(panes.last()));
    } else {
        assert(panes_without(panes, pane) =~= panes);
    }
}

/// Taking out a pane that was just split off leaves the panes of the workspace, and those of
/// its center, as they were.
pub proof fn law_remove_undoes_split_pane(s: State, pane: u64, direction: SplitDirection)
    requires
        s.well_formed(),
        s.workspace.center.holds(pane),
        s.cx.next_entity_id < u64::MAX,
    ensures
        ({
            let split = s.split_pane(pane, direction);
            let after = split.remove_pane(s.cx.next_entity_id);
            &&& split.removable(s.cx.next_entity_id)
            &&& after.workspace.panes == s.workspace.panes
            &&& after.workspace.center.leaves() == s.workspace.center.leaves()
        }),
{
    let new_pane = s.cx.next_entity_id;
    let split = s.split_pane(pane, direction);
    law_split_pane(s, pane, direction);
    law_removable(split, new_pane);
    law_panes_are_in_center(s, new_pane);
    assert(!s.workspace.panes.contains(new_pane));
    law_remove_undoes_split(s.workspace.center, pane, new_pane, direction);
    lemma_without_absent(s.workspace.panes, new_pane);
    assert(split.workspace.panes.drop_last() =~= s.workspace.panes);
    assert(panes_without(split.workspace.panes, new_pane) == s.workspace.panes);
}

/// What is done with items leaves the workspace well formed.
pub proof fn law_items_keep(
    s: State,
    source: u64,
    destination: u64,
    item: u64,
    index: int,
    project_item: u64,
)
    requires
        s.well_formed(),
        s.cx.next_entity_id < u64::MAX,
    ensures
        s.activate_item(item).well_formed(),
        s.add_item_to(destination, item, Some(index)).well_formed(),
        s.move_item(source, destination, item, index).well_formed(),
        (State { cx: s.cx.build_item(project_item), ..s }).well_formed(),
{
    lemma_same_layout(s, s.activate_item(item));
    lemma_same_layout(s, s.add_item_to(destination, item, Some(index)));
    lemma_move_item_layout(s, source, destination, item, index);
    lemma_same_layout(s, s.move_item(source, destination, item, index));
    lemma_same_layout(s, State { cx: s.cx.build_item(project_item), ..s });
}

/// Storing and telling what is shown leaves the workspace well formed.
pub proof fn law_showing_keeps(s: State)
    requires
        s.well_formed(),
    ensures
        s.serialize_workspace().well_formed(),
        s.active_item_path_changed().well_formed(),
        s.update_window_edited().well_formed(),
        s.close_all_docks().well_formed(),
{
    lemma_same_layout(s, s.serialize_workspace());
    lemma_same_layout(s, s.active_item_path_changed());
    lemma_same_layout(s, s.update_window_edited());
    lemma_same_layout(s, s.close_all_docks());
}

} // verus!
