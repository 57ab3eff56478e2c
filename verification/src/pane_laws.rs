//! What the operations on panes come to: where items and the focus go, and what is told.

use crate::context::{ContextView, EffectView, Event};
use crate::pane_group::SplitDirection;
use crate::panes::{find_item_in, panes_without, PaneEvent};
use crate::path::ProjectPathView;
use crate::workspace::{item_edited, items_of, State, WorkspaceView};
use vstd::prelude::*;

verus! {

/// A pane that is added is a new one, behind the others, and everyone is told.
pub proof fn law_pane_added(s: State)
    ensures
        ({
            let t = s.add_pane();
            let pane = s.cx.next_entity_id;
            &&& t.workspace == (WorkspaceView {
                panes: s.workspace.panes.push(pane),
                ..s.workspace
            })
            &&& t.cx.effects == s.cx.effects.push(EffectView::BuildPane(pane)).push(
                EffectView::Emit(Event::PaneAdded(pane)),
            )
            &&& t.cx.panes.len() == s.cx.panes.len() + 1
            &&& t.cx.panes.last().id == pane
            &&& t.cx.panes.last().items.len() == 0
        }),
{
}

/// A split gives a new pane that the center holds in place of none: it has the next free
/// number, and what else the workspace notes stays, the active pane among it. An item that is
/// split off goes to the new pane, and a pane without an active item is not split.
pub proof fn law_split_gives_new_pane(
    s: State,
    pane: u64,
    direction: SplitDirection,
    item: u64,
    cloned: Option<u64>,
)
    ensures
        ({
            let new_pane = s.cx.next_entity_id;
            let t = s.split_pane(pane, direction);
            &&& t.workspace == (WorkspaceView {
                panes: s.workspace.panes.push(new_pane),
                center: s.workspace.center.split(pane, new_pane, direction),
                ..s.workspace
            })
            &&& t.cx.effects == s.add_pane().cx.effects.push(EffectView::Notify)
            &&& s.split_item(direction, item).workspace == s.split_pane(
                s.workspace.active_pane,
                direction,
            ).workspace
            &&& s.split_item(direction, item).cx.effects.last() == EffectView::AddItem {
                pane: new_pane,
                item,
                activate_pane: true,
                focus_item: true,
                index: None,
            }
        }),
        ({
            let active = s.cx.pane(pane) matches Some(found) && 0 <= found.active_item_index
                < found.items.len();
            let t = s.split_and_clone(pane, direction, cloned);
            &&& s.clones(pane, cloned) <==> active && cloned is Some
            &&& !active ==> t == s
            &&& active && cloned is None ==> t == s.notify()
            &&& active && cloned is Some ==> {
                &&& t.workspace == s.split_pane(pane, direction).workspace
                &&& t.cx.effects == s.add_pane().cx.effects.push(
                    EffectView::AddItem {
                        pane: s.cx.next_entity_id,
                        item: cloned->0,
                        activate_pane: true,
                        focus_item: true,
                        index: None,
                    },
                ).push(EffectView::Notify)
            }
        }),
{
}

/// An item that is moved is taken from its place in the pane that it comes from, unless it stays
/// in that pane; it is added to the other at the given place, and that pane has the focus. An
/// item that is not in the pane is not moved.
pub proof fn law_item_moved(s: State, source: u64, destination: u64, item: u64, index: int)
    ensures
        ({
            let t = s.move_item(source, destination, item, index);
            let add = EffectView::AddItem {
                pane: destination,
                item,
                activate_pane: true,
                focus_item: true,
                index: Some(index),
            };
            &&& t.workspace == s.workspace
            &&& match s.cx.pane(source) {
                Some(found) => match found.index_for_item(item) {
                    Some(place) => t.cx.effects == (if source == destination {
                        s.cx.effects.push(add).push(EffectView::FocusPane(destination))
                    } else {
                        s.cx.effects.push(
                            EffectView::RemoveItem {
                                pane: source,
                                index: place,
                                activate_pane: false,
                            },
                        ).push(add).push(EffectView::FocusPane(destination))
                    }),
                    None => t == s,
                },
                None => t == s,
            }
            &&& t != s ==> forall|i: int|
                0 <= i < s.cx.panes.len() ==> (#[trigger] t.cx.panes[i]).has_focus == (
                s.cx.panes[i].id == destination)
        }),
{
}

/// An item that goes to a new pane beside another: the pane is split off and the item moved to
/// its start. Where either pane is gone nothing happens.
pub proof fn law_split_with_item(
    s: State,
    pane: u64,
    direction: SplitDirection,
    from: u64,
    item: u64,
)
    ensures
        ({
            let t = s.split_pane_with_item(pane, direction, from, item);
            let new_pane = s.cx.next_entity_id;
            &&& s.cx.pane(pane) is Some && s.cx.pane(from) is Some ==> {
                &&& t.workspace == s.split_pane(pane, direction).workspace
                &&& t.cx.effects == s.add_pane().move_item(from, new_pane, item, 0).cx.effects.push(
                    EffectView::Notify,
                )
            }
            &&& s.cx.pane(pane) is None || s.cx.pane(from) is None ==> t == s
        }),
{
}

/// A path that is opened in a new pane beside another is opened there, with the focus.
pub proof fn law_split_with_entry(
    s: State,
    pane: u64,
    direction: SplitDirection,
    path: Option<ProjectPathView>,
)
    ensures
        ({
            let t = s.split_pane_with_project_entry(pane, direction, path);
            let new_pane = s.cx.next_entity_id;
            &&& s.cx.pane(pane) is None ==> t == s
            &&& s.cx.pane(pane) is Some ==> {
                &&& t.workspace == s.split_pane(pane, direction).workspace
                &&& t.cx.effects == (match path {
                    Some(path) => s.add_pane().cx.effects.push(
                        EffectView::OpenPath { path, pane: new_pane, focus_item: true },
                    ),
                    None => s.add_pane().cx.effects,
                })
            }
        }),
{
}

/// A path is opened in the given pane; without one in the center pane that was active last; and
/// where none was, in the first pane.
pub proof fn law_pane_to_open_in(workspace: WorkspaceView, pane: Option<u64>)
    ensures
        pane matches Some(pane) ==> workspace.pane_to_open_in(Some(pane)) == pane,
        pane is None && workspace.last_active_center_pane is Some ==> Some(
            workspace.pane_to_open_in(pane),
        ) == workspace.last_active_center_pane,
        pane is None && workspace.last_active_center_pane is None && workspace.panes.len() > 0
            ==> workspace.pane_to_open_in(pane) == workspace.panes[0],
{
}

proof fn lemma_find_item_in(cx: ContextView, panes: Seq<u64>, item: u64, i: int)
    requires
        0 <= i <= panes.len(),
    ensures
        match find_item_in(cx, panes, item, i) {
            Some((pane, index)) => exists|k: int|
                i <= k < panes.len() && (#[trigger] panes[k]) == pane && (cx.pane(
                    pane,
                ) matches Some(found) && found.index_for_item(item) == Some(index)) && forall|j: int|
                    i <= j < k ==> !holds_item(cx, #[trigger] panes[j], item),
            None => forall|j: int|
                i <= j < panes.len() ==> !holds_item(cx, #[trigger] panes[j], item),
        },
    decreases panes.len() - i,
{
    if i < panes.len() {
        if holds_item(cx, panes[i], item) {
            assert(panes[i] == find_item_in(cx, panes, item, i)->Some_0.0);
        } else {
            lemma_find_item_in(cx, panes, item, i + 1);
        }
    }
}

/// Whether a pane is there and has an item.
pub open spec fn holds_item(cx: ContextView, pane: u64, item: u64) -> bool {
    cx.pane(pane) matches Some(found) && found.index_for_item(item) is Some
}

/// An item that is to be active is activated in the first pane that has it, at its place there,
/// with the focus; and nothing happens if no pane has it.
pub proof fn law_item_activated(s: State, item: u64)
    ensures
        ({
            let t = s.activate_item(item);
            let panes = s.workspace.panes;
            &&& t.workspace == s.workspace
            &&& (forall|j: int| 0 <= j < panes.len() ==> !holds_item(s.cx, #[trigger] panes[j], item))
                ==> t == s
            &&& forall|k: int|
                0 <= k < panes.len() && holds_item(s.cx, #[trigger] panes[k], item) && (forall|j: int|
                    0 <= j < k ==> !holds_item(s.cx, #[trigger] panes[j], item))
                    ==> t.cx.effects == s.cx.effects.push(
                    EffectView::ActivateItem {
                        pane: panes[k],
                        index: s.cx.pane(panes[k])->Some_0.index_for_item(item)->0,
                        activate_pane: true,
                        focus_item: true,
                    },
                )
        }),
{
    let panes = s.workspace.panes;
    lemma_find_item_in(s.cx, panes, item, 0);
    if let Some((pane, index)) = find_item_in(s.cx, panes, item, 0) {
        let m = choose|m: int|
            0 <= m < panes.len() && (#[trigger] panes[m]) == pane && (s.cx.pane(
                pane,
            ) matches Some(found) && found.index_for_item(item) == Some(index)) && forall|j: int|
                0 <= j < m ==> !holds_item(s.cx, #[trigger] panes[j], item);
        assert(holds_item(s.cx, panes[m], item));
        assert forall|k: int|
            0 <= k < panes.len() && holds_item(s.cx, #[trigger] panes[k], item) && (forall|j: int|
                0 <= j < k ==> !holds_item(
                    s.cx,
                    #[trigger] panes[j],
                    item,
                )) implies s.activate_item(item).cx.effects == s.cx.effects.push(
            EffectView::ActivateItem {
                pane: panes[k],
                index: s.cx.pane(panes[k])->Some_0.index_for_item(item)->0,
                activate_pane: true,
                focus_item: true,
            },
        ) by {
            assert(k == m);
        }
    }
}

proof fn lemma_panes_without(panes: Seq<u64>, pane: u64)
    ensures
        panes_without(panes, pane) == panes.filter(|p: u64| p != pane),
    decreases panes.len(),
{
    reveal(Seq::filter);
    if panes.len() > 0 {
        lemma_panes_without(panes.drop_last(), pane);
    } else {
        assert(panes_without(panes, pane) =~= panes.filter(|p: u64| p != pane));
    }
}

/// A pane that is taken out is no pane of the workspace any more: the others stay in their
/// order and the last of them has the focus. It is no longer the one that was active last.
pub proof fn law_pane_taken_out(s: State, pane: u64)
    ensures
        ({
            let rest = s.workspace.panes.filter(|p: u64| p != pane);
            let t = s.force_remove_pane(pane);
            &&& t.workspace == (WorkspaceView {
                panes: rest,
                last_active_center_pane: if s.workspace.last_active_center_pane == Some(pane) {
                    None
                } else {
                    s.workspace.last_active_center_pane
                },
                ..s.workspace
            })
            &&& t.cx.effects == s.cx.effects.push(EffectView::FocusPane(rest.last())).push(
                EffectView::Notify,
            )
            &&& forall|i: int|
                0 <= i < s.cx.panes.len() ==> (#[trigger] t.cx.panes[i]).has_focus == (
                s.cx.panes[i].id == rest.last())
        }),
{
    lemma_panes_without(s.workspace.panes, pane);
}

/// A pane that is removed from a split center: the center is without it, it is no pane of the
/// workspace any more and follows nobody, whom it followed last is forgotten, and its items are
/// no longer known to be in a pane. What is known of other panes and other items stays. The
/// only pane of the center is not removed.
pub proof fn law_pane_removed(s: State, pane: u64, other: u64, item: u64)
    ensures
        ({
            let t = s.remove_pane(pane);
            let items = match s.cx.pane(pane) {
                Some(found) => found.items,
                None => Seq::empty(),
            };
            &&& s.workspace.center is Axis ==> {
                &&& t.workspace.center == s.workspace.center.remove(pane)
                &&& t.workspace.panes == s.workspace.panes.filter(|p: u64| p != pane)
                &&& t.workspace.follower_states == s.unfollow(pane).workspace.follower_states
                &&& !t.workspace.last_leaders_by_pane.contains_key(pane)
                &&& other != pane ==> (t.workspace.last_leaders_by_pane.contains_key(other)
                    <==> s.workspace.last_leaders_by_pane.contains_key(other))
                &&& other != pane && s.workspace.last_leaders_by_pane.contains_key(other)
                    ==> t.workspace.last_leaders_by_pane[other]
                    == s.workspace.last_leaders_by_pane[other]
                &&& t.workspace.panes_by_item.contains_key(item)
                    <==> s.workspace.panes_by_item.contains_key(item) && !items.contains(item)
                &&& t.workspace.panes_by_item.contains_key(item) ==> t.workspace.panes_by_item[item]
                    == s.workspace.panes_by_item[item]
                &&& t.cx.effects.last() == EffectView::Notify
                &&& t.workspace.active_pane == s.workspace.active_pane
            }
            &&& s.workspace.center !is Axis ==> t == s.active_item_path_changed()
        }),
{
    lemma_panes_without(s.workspace.panes, pane);
}

/// A pane that got the focus is the active pane, and the one that was active last where another
/// was active before; what hides it makes way, and it counts as zoomed exactly if it is. The
/// followers have been told what is active then.
pub proof fn law_pane_focused(s: State, pane: u64)
    ensures
        ({
            let t = s.handle_pane_focused(pane);
            &&& t.workspace.active_pane == pane
            &&& s.workspace.active_pane != pane ==> t.workspace.last_active_center_pane == Some(
                pane,
            )
            &&& s.workspace.active_pane == pane ==> t.workspace.last_active_center_pane
                == s.workspace.last_active_center_pane
            &&& t.workspace.zoomed_position is None
            &&& t.workspace.zoomed == (if t.cx.pane(pane) matches Some(found) && found.zoomed {
                Some(pane)
            } else {
                None
            })
            &&& t.workspace.last_active_view_id == t.active_view_update().id
            &&& t.workspace.panes == s.workspace.panes
            &&& t.workspace.center == s.workspace.center
            &&& t.workspace.follower_states == s.workspace.follower_states
            &&& t.cx.effects.last() == EffectView::Notify
            &&& s.workspace.active_pane != pane ==> t.cx.effects[s.cx.effects.len() as int]
                == EffectView::SetStatusBarPane(pane)
            &&& t.cx.left_dock.is_open == s.dismiss_zoomed_items_to_reveal(
                None,
            ).cx.left_dock.is_open
            &&& t.cx.right_dock.is_open == s.dismiss_zoomed_items_to_reveal(
                None,
            ).cx.right_dock.is_open
            &&& t.cx.bottom_dock.is_open == s.dismiss_zoomed_items_to_reveal(
                None,
            ).cx.bottom_dock.is_open
            &&& forall|i: int|
                0 <= i < s.cx.panes.len() ==> (#[trigger] t.cx.panes[i]).zoomed == (
                s.cx.panes[i].zoomed && (s.cx.panes[i].id == pane || !s.workspace.panes.contains(
                    s.cx.panes[i].id,
                )))
        }),
{
}

/// Zooming in on the active pane zooms that pane alone, and the workspace notes it if it has
/// the focus; another pane is not zoomed in on. Zooming out of a pane takes its zoom, and what
/// the workspace notes as zoomed unless that is in a dock.
pub proof fn law_pane_zoomed(s: State, pane: u64, i: int)
    requires
        0 <= i < s.cx.panes.len(),
    ensures
        pane != s.workspace.active_pane ==> s.zoom_in(pane) == s,
        pane == s.workspace.active_pane ==> {
            let t = s.zoom_in(pane);
            let focused = s.cx.set_zoomed(pane, true).pane(pane) matches Some(found)
                && found.has_focus;
            &&& t.cx.panes[i].zoomed == (s.cx.panes[i].zoomed || s.cx.panes[i].id == pane)
            &&& t.workspace == (if focused {
                WorkspaceView { zoomed: Some(pane), zoomed_position: None, ..s.workspace }
            } else {
                s.workspace
            })
            &&& t.cx.effects == s.cx.effects.push(EffectView::Notify)
        },
        ({
            let t = s.zoom_pane_out(pane);
            &&& t.cx.panes[i].zoomed == (s.cx.panes[i].zoomed && s.cx.panes[i].id != pane)
            &&& t.workspace.zoomed == (if s.workspace.zoomed_position is Some {
                s.workspace.zoomed
            } else {
                None
            })
            &&& t.workspace == (WorkspaceView { zoomed: t.workspace.zoomed, ..s.workspace })
            &&& t.cx.effects == s.cx.effects.push(EffectView::Notify)
        }),
{
}

proof fn lemma_edits_same(s: State, t: State)
    requires
        s.workspace.panes == t.workspace.panes,
        s.cx.panes == t.cx.panes,
        s.cx.items == t.cx.items,
        s.cx.project == t.cx.project,
    ensures
        s.has_edits() == t.has_edits(),
{
    lemma_items_same(s.cx, t.cx, s.workspace.panes);
    let items = items_of(s.cx, s.workspace.panes);
    assert forall|i: int| 0 <= i < items.len() implies item_edited(s.cx, #[trigger] items[i])
        == item_edited(t.cx, items[i]) by {}
}

proof fn lemma_items_same(a: ContextView, b: ContextView, panes: Seq<u64>)
    requires
        a.panes == b.panes,
    ensures
        items_of(a, panes) == items_of(b, panes),
    decreases panes.len(),
{
    if panes.len() > 0 {
        lemma_items_same(a, b, panes.drop_last());
    }
}

/// What each event in a pane leads to. After every one the workspace is stored.
pub proof fn law_pane_events(s: State, pane: u64, event: PaneEvent)
    ensures
        ({
            let t = s.handle_pane_event(pane, event);
            let effects = t.cx.effects.drop_last();
            &&& t.cx.effects.last() == EffectView::Serialize
            &&& match event {
                PaneEvent::AddItem { item } => effects == s.cx.effects.push(
                    EffectView::AddedToPane { item, pane },
                ) && t.workspace == s.workspace,
                PaneEvent::Split { direction, cloned } => t == s.split_and_clone(
                    pane,
                    direction,
                    cloned,
                ).emit(EffectView::Serialize),
                PaneEvent::Remove => t == s.remove_pane(pane).emit(EffectView::Serialize),
                PaneEvent::ActivateItem { local } => {
                    &&& t.workspace.follower_states == (if local {
                        s.unfollow(pane).workspace.follower_states
                    } else {
                        s.workspace.follower_states
                    })
                    &&& pane != s.workspace.active_pane && !local ==> effects == s.cx.effects
                    &&& pane == s.workspace.active_pane ==> effects.last() is SetWindowTitle
                    &&& pane != s.workspace.active_pane && local ==> effects == s.unfollow(
                        pane,
                    ).cx.effects
                    &&& t.workspace == (WorkspaceView {
                        follower_states: t.workspace.follower_states,
                        ..s.workspace
                    })
                },
                PaneEvent::ChangeItemTitle => {
                    &&& t.workspace == s.update_window_edited().workspace
                    &&& pane == s.workspace.active_pane ==> effects.last() is SetWindowTitle
                    &&& pane != s.workspace.active_pane ==> effects == s.cx.effects
                },
                PaneEvent::RemoveItem { item_id } => {
                    let known = s.workspace.panes_by_item.contains_key(item_id)
                        && s.workspace.panes_by_item[item_id] == pane;
                    &&& t.workspace.window_edited == s.update_window_edited().workspace.window_edited
                    &&& known ==> t.workspace.panes_by_item
                        == s.workspace.panes_by_item.remove(item_id)
                    &&& !known ==> t.workspace.panes_by_item == s.workspace.panes_by_item
                    &&& effects == s.cx.effects
                },
                PaneEvent::Focus => t == s.handle_pane_focused(pane).emit(EffectView::Serialize),
                PaneEvent::ZoomIn => t == s.zoom_in(pane).emit(EffectView::Serialize),
                PaneEvent::ZoomOut => t == s.zoom_pane_out(pane).emit(EffectView::Serialize),
            }
        }),
{
    let t = s.handle_pane_event(pane, event);
    assert(t.cx.effects.drop_last() =~= s.react_to_pane(pane, event).cx.effects);
    lemma_edits_same(s, s.pane_changed(pane));
}

} // verus!
