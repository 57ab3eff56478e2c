//! What can be done with the panes of a workspace, and what happens in them.

use crate::context::{index_view, Context, ContextView, Effect, EffectView, Event};
use crate::pane_group::{
    group_removal, leaves_of, lemma_leaves_parts, lemma_leaves_through, lemma_member_view,
    member_views, Member, MemberView, SplitDirection,
};
use crate::path::{project_path_view, ProjectPath, ProjectPathView};
use crate::workspace::{pane_items, state, State, Workspace, WorkspaceView};
use vstd::prelude::*;

verus! {

/// The panes but for one.
pub open spec fn panes_without(panes: Seq<u64>, pane: u64) -> Seq<u64>
    decreases panes.len(),
{
    if panes.len() == 0 {
        Seq::empty()
    } else {
        let before = panes_without(panes.drop_last(), pane);
        if panes.last() == pane {
            before
        } else {
            before.push(panes.last())
        }
    }
}

/// The first pane of a list, from `i` on, that holds an item, and the place of the item in it.
pub open spec fn find_item_in(cx: ContextView, panes: Seq<u64>, item: u64, i: int) -> Option<(u64, int)>
    decreases panes.len() - i,
{
    if i < 0 || i >= panes.len() {
        None
    } else {
        match cx.pane(panes[i]) {
            Some(pane) => match pane.index_for_item(item) {
                Some(index) => Some((panes[i], index)),
                None => find_item_in(cx, panes, item, i + 1),
            },
            None => find_item_in(cx, panes, item, i + 1),
        }
    }
}

/// What happens in a pane. A split comes with the clone of the active item, where that can
/// be cloned.
#[derive(Clone, Copy, Debug, PartialEq, Eq, Structural)]
pub enum PaneEvent {
    AddItem { item: u64 },
    Split { direction: SplitDirection, cloned: Option<u64> },
    Remove,
    ActivateItem { local: bool },
    ChangeItemTitle,
    RemoveItem { item_id: u64 },
    Focus,
    ZoomIn,
    ZoomOut,
}

/// Which item is to be saved, and where it is.
#[derive(Clone, Copy, Debug, PartialEq, Eq, Structural)]
pub struct SaveRequest {
    pub pane: u64,
    pub item_index: usize,
    pub item: u64,
}

impl WorkspaceView {
    /// The pane that a path is opened in: the given one, else the last one that was active,
    /// else the first.
    pub open spec fn pane_to_open_in(self, pane: Option<u64>) -> u64 {
        match pane {
            Some(pane) => pane,
            None => match self.last_active_center_pane {
                Some(pane) => pane,
                None => self.panes.first(),
            },
        }
    }
}

impl State {
    pub open spec fn add_pane(self) -> State {
        let pane = self.cx.next_entity_id;
        State {
            workspace: WorkspaceView { panes: self.workspace.panes.push(pane), ..self.workspace },
            cx: self.cx.build_pane().emit(EffectView::Emit(Event::PaneAdded(pane))),
        }
    }

    pub open spec fn add_item_to(self, pane: u64, item: u64, index: Option<int>) -> State {
        self.emit(
            EffectView::AddItem { pane, item, activate_pane: true, focus_item: true, index },
        )
    }

    /// The center with a new pane beside the given one.
    pub open spec fn split_center(self, pane: u64, new_pane: u64, direction: SplitDirection) -> State {
        State {
            workspace: WorkspaceView {
                center: self.workspace.center.split(pane, new_pane, direction),
                ..self.workspace
            },
            ..self
        }
    }

    pub open spec fn split_pane(self, pane: u64, direction: SplitDirection) -> State {
        self.add_pane().split_center(pane, self.cx.next_entity_id, direction).notify()
    }

    pub open spec fn split_item(self, direction: SplitDirection, item: u64) -> State {
        self.split_pane(self.workspace.active_pane, direction).add_item_to(
            self.cx.next_entity_id,
            item,
            None,
        )
    }

    /// Whether splitting a pane gives a new one: it has an active item that can be cloned.
    pub open spec fn clones(self, pane: u64, cloned: Option<u64>) -> bool {
        cloned is Some && self.pane_active_item(pane) is Some
    }

    pub open spec fn pane_active_item(self, pane: u64) -> Option<u64> {
        match self.cx.pane(pane) {
            Some(pane) => pane.active_item(),
            None => None,
        }
    }

    pub open spec fn split_and_clone(self, pane: u64, direction: SplitDirection, cloned: Option<u64>) -> State {
        if self.pane_active_item(pane) is None {
            self
        } else {
            match cloned {
                Some(clone) => self.add_pane().add_item_to(
                    self.cx.next_entity_id,
                    clone,
                    None,
                ).split_center(pane, self.cx.next_entity_id, direction).notify(),
                None => self.notify(),
            }
        }
    }

    /// The item goes to another place, in the same pane or another, and that pane gets the
    /// focus. Nothing happens if the item is not where it is to come from.
    pub open spec fn move_item(self, source: u64, destination: u64, item: u64, index: int) -> State {
        let found = match self.cx.pane(source) {
            Some(pane) => pane.index_for_item(item),
            None => None,
        };
        match found {
            Some(item_ix) => {
                let taken = if source != destination {
                    self.emit(
                        EffectView::RemoveItem { pane: source, index: item_ix, activate_pane: false },
                    )
                } else {
                    self
                };
                let added = taken.add_item_to(destination, item, Some(index));
                State { cx: added.cx.focus_pane(destination), ..added }
            },
            None => self,
        }
    }

    pub open spec fn split_pane_with_item(
        self,
        pane: u64,
        direction: SplitDirection,
        from: u64,
        item: u64,
    ) -> State {
        if self.cx.has_pane(pane) && self.cx.has_pane(from) {
            self.add_pane().move_item(from, self.cx.next_entity_id, item, 0).split_center(
                pane,
                self.cx.next_entity_id,
                direction,
            ).notify()
        } else {
            self
        }
    }

    pub open spec fn open_path_in(self, path: ProjectPathView, pane: u64, focus_item: bool) -> State {
        self.emit(EffectView::OpenPath { path, pane, focus_item })
    }

    pub open spec fn split_pane_with_project_entry(
        self,
        pane: u64,
        direction: SplitDirection,
        path: Option<ProjectPathView>,
    ) -> State {
        if self.cx.has_pane(pane) {
            let new_pane = self.cx.next_entity_id;
            let split = self.add_pane().split_center(pane, new_pane, direction);
            match path {
                Some(path) => split.open_path_in(path, new_pane, true),
                None => split,
            }
        } else {
            self
        }
    }

    pub open spec fn activate_item(self, item: u64) -> State {
        match find_item_in(self.cx, self.workspace.panes, item, 0) {
            Some((pane, index)) => self.emit(
                EffectView::ActivateItem { pane, index, activate_pane: true, focus_item: true },
            ),
            None => self,
        }
    }

    /// The pane is no pane of the workspace any more, and the last one that is gets the focus.
    pub open spec fn force_remove_pane(self, pane: u64) -> State {
        let panes = panes_without(self.workspace.panes, pane);
        State {
            workspace: WorkspaceView {
                panes,
                last_active_center_pane: if self.workspace.last_active_center_pane == Some(pane) {
                    None
                } else {
                    self.workspace.last_active_center_pane
                },
                ..self.workspace
            },
            cx: self.cx.focus_pane(panes.last()),
        }.notify()
    }

    pub open spec fn force_remove_panes(self, panes: Seq<u64>) -> State
        decreases panes.len(),
    {
        if panes.len() == 0 {
            self
        } else {
            self.force_remove_panes(panes.drop_last()).force_remove_pane(panes.last())
        }
    }

    /// The pane leaves the center and everything that is noted of it is dropped, unless it is
    /// the only one.
    pub open spec fn remove_pane(self, pane: u64) -> State {
        if self.workspace.center is Axis {
            let removed = State {
                workspace: WorkspaceView {
                    center: self.workspace.center.remove(pane),
                    ..self.workspace
                },
                ..self
            }.force_remove_pane(pane).unfollow(pane);
            State {
                workspace: WorkspaceView {
                    last_leaders_by_pane: removed.workspace.last_leaders_by_pane.remove(pane),
                    panes_by_item: removed.workspace.panes_by_item.remove_keys(
                        pane_items(self.cx, pane).to_set(),
                    ),
                    ..removed.workspace
                },
                ..removed
            }.notify()
        } else {
            self.active_item_path_changed()
        }
    }

    /// A pane that got the focus is the active one, and what hides it makes way.
    pub open spec fn handle_pane_focused(self, pane: u64) -> State {
        let active = if self.workspace.active_pane != pane {
            let changed = State {
                workspace: WorkspaceView { active_pane: pane, ..self.workspace },
                ..self
            }.emit(EffectView::SetStatusBarPane(pane)).active_item_path_changed();
            State {
                workspace: WorkspaceView {
                    last_active_center_pane: Some(pane),
                    ..changed.workspace
                },
                ..changed
            }
        } else {
            self
        };
        let revealed = active.dismiss_zoomed_items_to_reveal(None);
        let zoomed = match revealed.cx.pane(pane) {
            Some(p) if p.zoomed => Some(pane),
            _ => None,
        };
        State {
            workspace: WorkspaceView { zoomed, zoomed_position: None, ..revealed.workspace },
            ..revealed
        }.update_active_view_for_followers().notify()
    }

    pub open spec fn zoom_in(self, pane: u64) -> State {
        if pane == self.workspace.active_pane {
            let cx = self.cx.set_zoomed(pane, true);
            let focused = match cx.pane(pane) {
                Some(pane) => pane.has_focus,
                None => false,
            };
            State {
                workspace: if focused {
                    WorkspaceView { zoomed: Some(pane), zoomed_position: None, ..self.workspace }
                } else {
                    self.workspace
                },
                cx,
            }.notify()
        } else {
            self
        }
    }

    pub open spec fn zoom_pane_out(self, pane: u64) -> State {
        State {
            workspace: WorkspaceView {
                zoomed: if self.workspace.zoomed_position is None {
                    None
                } else {
                    self.workspace.zoomed
                },
                ..self.workspace
            },
            cx: self.cx.set_zoomed(pane, false),
        }.notify()
    }

    /// An item has left a pane: it is no longer known to be there.
    pub open spec fn item_removed(self, pane: u64, item: u64) -> State {
        let edited = self.update_window_edited();
        let places = edited.workspace.panes_by_item;
        State {
            workspace: WorkspaceView {
                panes_by_item: if places.dom().contains(item) && places[item] == pane {
                    places.remove(item)
                } else {
                    places
                },
                ..edited.workspace
            },
            ..edited
        }
    }

    /// Another path may be active if what changed is in the active pane.
    pub open spec fn pane_changed(self, pane: u64) -> State {
        if pane == self.workspace.active_pane {
            self.active_item_path_changed()
        } else {
            self
        }
    }

    /// Another item of a pane is active; if that was our doing, the pane stops following.
    pub open spec fn item_activated(self, pane: u64, local: bool) -> State {
        if local {
            self.unfollow(pane).pane_changed(pane)
        } else {
            self.pane_changed(pane)
        }
    }

    /// What an event in a pane leads to, before the workspace is stored.
    pub open spec fn react_to_pane(self, pane: u64, event: PaneEvent) -> State {
        match event {
            PaneEvent::AddItem { item } => self.emit(EffectView::AddedToPane { item, pane }),
            PaneEvent::Split { direction, cloned } => self.split_and_clone(pane, direction, cloned),
            PaneEvent::Remove => self.remove_pane(pane),
            PaneEvent::ActivateItem { local } => self.item_activated(pane, local),
            PaneEvent::ChangeItemTitle => self.pane_changed(pane).update_window_edited(),
            PaneEvent::RemoveItem { item_id } => self.item_removed(pane, item_id),
            PaneEvent::Focus => self.handle_pane_focused(pane),
            PaneEvent::ZoomIn => self.zoom_in(pane),
            PaneEvent::ZoomOut => self.zoom_pane_out(pane),
        }
    }

    pub open spec fn handle_pane_event(self, pane: u64, event: PaneEvent) -> State {
        self.react_to_pane(pane, event).emit(EffectView::Serialize)
    }

    /// The pane can be taken out: it is in the center, and if it is not the only pane there,
    /// the workspace has another pane.
    pub open spec fn removable(self, pane: u64) -> bool {
        &&& group_removal(self.workspace.center, pane) is Ok
        &&& self.workspace.center is Axis ==> has_other(self.workspace.panes, pane)
    }

    /// What an event in a pane asks for can be done.
    pub open spec fn admits(self, pane: u64, event: PaneEvent) -> bool {
        match event {
            PaneEvent::Split { cloned, .. } => self.clones(pane, cloned) ==> {
                &&& self.workspace.center.holds(pane)
                &&& self.cx.next_entity_id < u64::MAX
            },
            PaneEvent::Remove => self.removable(pane),
            _ => true,
        }
    }
}

/// Whether there is a pane besides the given one.
pub open spec fn has_other(panes: Seq<u64>, pane: u64) -> bool {
    exists|i: int| 0 <= i < panes.len() && #[trigger] panes[i] != pane
}

/// Whether there is a pane that is not among `others`.
pub open spec fn has_outside(panes: Seq<u64>, others: Seq<u64>) -> bool {
    exists|i: int| 0 <= i < panes.len() && !others.contains(#[trigger] panes[i])
}

/// What is left of the panes is exactly those that are not the one taken out.
pub proof fn lemma_panes_without(panes: Seq<u64>, pane: u64)
    ensures
        forall|p: u64| #[trigger]
            panes_without(panes, pane).contains(p) <==> panes.contains(p) && p != pane,
        has_other(panes, pane) ==> panes_without(panes, pane).len() > 0,
    decreases panes.len(),
{
    let rest = panes_without(panes, pane);
    if panes.len() > 0 {
        let init = panes.drop_last();
        let before = panes_without(init, pane);
        lemma_panes_without(init, pane);
        assert forall|p: u64| #[trigger] rest.contains(p) <==> panes.contains(p) && p != pane by {
            if rest.contains(p) {
                let k = rest.index_of(p);
                if k < before.len() {
                    assert(before[k] == p);
                    assert(before.contains(p));
                    let j = init.index_of(p);
                    assert(panes[j] == p);
                } else {
                    assert(panes[panes.len() - 1] == p);
                }
            }
            if panes.contains(p) && p != pane {
                let k = panes.index_of(p);
                if k < init.len() {
                    assert(init[k] == p);
                    assert(before.contains(p));
                    let j = before.index_of(p);
                    assert(rest[j] == p);
                } else {
                    assert(rest[rest.len() - 1] == p);
                }
            }
        }
    }
    if has_other(panes, pane) {
        let i = choose|i: int| 0 <= i < panes.len() && #[trigger] panes[i] != pane;
        assert(panes.contains(panes[i]));
        assert(rest.contains(panes[i]));
    }
}

proof fn lemma_force_remove_concat(s: State, a: Seq<u64>, b: Seq<u64>)
    ensures
        s.force_remove_panes(a + b) == s.force_remove_panes(a).force_remove_panes(b),
    decreases b.len(),
{
    if b.len() == 0 {
        assert(a + b =~= a);
    } else {
        assert((a + b).drop_last() =~= a + b.drop_last());
        assert((a + b).last() == b.last());
        lemma_force_remove_concat(s, a, b.drop_last());
    }
}

/// The panes that are left when several were taken out.
pub proof fn lemma_force_remove_panes(s: State, removed: Seq<u64>)
    ensures
        forall|p: u64| #[trigger]
            s.force_remove_panes(removed).workspace.panes.contains(p)
                <==> s.workspace.panes.contains(p) && !removed.contains(p),
    decreases removed.len(),
{
    let after = s.force_remove_panes(removed).workspace.panes;
    if removed.len() > 0 {
        let init = removed.drop_last();
        lemma_force_remove_panes(s, init);
        let before = s.force_remove_panes(init).workspace.panes;
        lemma_panes_without(before, removed.last());
        assert forall|p: u64| #[trigger] after.contains(p) <==> s.workspace.panes.contains(p)
            && !removed.contains(p) by {
            assert(after == panes_without(before, removed.last()));
            if removed.contains(p) {
                let k = removed.index_of(p);
                if k < init.len() {
                    assert(init[k] == p);
                }
            }
            if init.contains(p) {
                let k = init.index_of(p);
                assert(removed[k] == p);
            }
            assert(removed[removed.len() - 1] == removed.last());
            assert(before.contains(p) <==> s.workspace.panes.contains(p) && !init.contains(p));
        }
    }
}

impl Workspace {
    /// Adds an empty pane, which is not in the center yet.
    pub fn add_pane(&mut self, cx: &mut Context) -> (pane: u64)
        requires
            old(cx).next_entity_id < u64::MAX,
        ensures
            state(*final(self), *final(cx)) == state(*old(self), *old(cx)).add_pane(),
            pane == old(cx).next_entity_id,
    {
        let pane = cx.build_pane();
        self.panes.push(pane);
        cx.emit(Effect::Emit(Event::PaneAdded(pane)));
        pane
    }

    fn add_item_to(&self, pane: u64, item: u64, index: Option<usize>, cx: &mut Context)
        ensures
            state(*self, *final(cx)) == state(*self, *old(cx)).add_item_to(
                pane,
                item,
                index_view(index),
            ),
    {
        cx.emit(
            Effect::AddItem { pane, item, activate_pane: true, focus_item: true, index },
        );
    }

    /// Adds an item to the active pane.
    pub fn add_item(&mut self, item: u64, cx: &mut Context)
        ensures
            state(*final(self), *final(cx)) == state(*old(self), *old(cx)).add_item_to(
                old(self)@.active_pane,
                item,
                None,
            ),
    {
        self.add_item_to(self.active_pane, item, None, cx);
    }

    fn split_center(&mut self, pane: u64, new_pane: u64, direction: SplitDirection)
        requires
            old(self)@.center.holds(pane),
        ensures
            final(self)@ == (WorkspaceView {
                center: old(self)@.center.split(pane, new_pane, direction),
                ..old(self)@
            }),
    {
        let result = self.center.split(pane, new_pane, direction);
        assert(result is Ok);
    }

    /// Splits a pane of the center, and gives the new pane beside it.
    pub fn split_pane(
        &mut self,
        pane_to_split: u64,
        split_direction: SplitDirection,
        cx: &mut Context,
    ) -> (new_pane: u64)
        requires
            old(self)@.center.holds(pane_to_split),
            old(cx).next_entity_id < u64::MAX,
        ensures
            state(*final(self), *final(cx)) == state(*old(self), *old(cx)).split_pane(
                pane_to_split,
                split_direction,
            ),
            new_pane == old(cx).next_entity_id,
    {
        let new_pane = self.add_pane(cx);
        self.split_center(pane_to_split, new_pane, split_direction);
        cx.emit(Effect::Notify);
        new_pane
    }

    /// Splits the active pane, and adds an item to the new one.
    pub fn split_item(&mut self, split_direction: SplitDirection, item: u64, cx: &mut Context)
        requires
            old(self)@.center.holds(old(self)@.active_pane),
            old(cx).next_entity_id < u64::MAX,
        ensures
            state(*final(self), *final(cx)) == state(*old(self), *old(cx)).split_item(
                split_direction,
                item,
            ),
    {
        let new_pane = self.split_pane(self.active_pane, split_direction, cx);
        self.add_item_to(new_pane, item, None, cx);
    }

    /// Splits a pane, and adds a clone of its active item to the new one. No pane is split
    /// that has no active item or one that cannot be cloned.
    pub fn split_and_clone(
        &mut self,
        pane: u64,
        direction: SplitDirection,
        cloned: Option<u64>,
        cx: &mut Context,
    ) -> (new_pane: Option<u64>)
        requires
            state(*old(self), *old(cx)).clones(pane, cloned) ==> old(self)@.center.holds(pane),
            state(*old(self), *old(cx)).clones(pane, cloned) ==> old(cx).next_entity_id < u64::MAX,
        ensures
            state(*final(self), *final(cx)) == state(*old(self), *old(cx)).split_and_clone(
                pane,
                direction,
                cloned,
            ),
            new_pane == (if state(*old(self), *old(cx)).clones(pane, cloned) {
                Some(old(cx).next_entity_id)
            } else {
                None
            }),
    {
        let active_item = match cx.pane(pane) {
            Some(pane) => pane.active_item(),
            None => None,
        };
        if active_item.is_none() {
            return None;
        }
        let mut maybe_pane_handle: Option<u64> = None;
        if let Some(clone) = cloned {
            let new_pane = self.add_pane(cx);
            self.add_item_to(new_pane, clone, None, cx);
            self.split_center(pane, new_pane, direction);
            maybe_pane_handle = Some(new_pane);
        }
        cx.emit(Effect::Notify);
        maybe_pane_handle
    }

    /// Moves an item to a place in a pane, which gets the focus. Does nothing if the item is
    /// not in the source.
    pub fn move_item(
        &mut self,
        source: u64,
        destination: u64,
        item_id_to_move: u64,
        destination_index: usize,
        cx: &mut Context,
    )
        ensures
            state(*final(self), *final(cx)) == state(*old(self), *old(cx)).move_item(
                source,
                destination,
                item_id_to_move,
                destination_index as int,
            ),
    {
        let item_ix = match cx.pane(source) {
            Some(pane) => pane.index_for_item(item_id_to_move),
            None => None,
        };
        let item_ix = match item_ix {
            Some(item_ix) => item_ix,
            None => {
                return;
            },
        };
        if source != destination {
            cx.emit(Effect::RemoveItem { pane: source, index: item_ix, activate_pane: false });
        }
        self.add_item_to(destination, item_id_to_move, Some(destination_index), cx);
        cx.focus_pane(destination);
    }

    /// Splits a pane, and moves an item of another pane to the new one. Does nothing if one
    /// of the two panes is gone.
    pub fn split_pane_with_item(
        &mut self,
        pane_to_split: u64,
        split_direction: SplitDirection,
        from: u64,
        item_id_to_move: u64,
        cx: &mut Context,
    )
        requires
            old(cx)@.has_pane(pane_to_split) && old(cx)@.has_pane(from) ==> {
                &&& old(self)@.center.holds(pane_to_split)
                &&& old(cx).next_entity_id < u64::MAX
            },
        ensures
            state(*final(self), *final(cx)) == state(*old(self), *old(cx)).split_pane_with_item(
                pane_to_split,
                split_direction,
                from,
                item_id_to_move,
            ),
    {
        if cx.pane(pane_to_split).is_none() {
            return;
        }
        if cx.pane(from).is_none() {
            return;
        }
        let new_pane = self.add_pane(cx);
        self.move_item(from, new_pane, item_id_to_move, 0, cx);
        self.split_center(pane_to_split, new_pane, split_direction);
        cx.emit(Effect::Notify);
    }

    /// The pane that a path is opened in: the given one, or the last one that was active, or
    /// the first.
    pub fn pane_to_open_in(&self, pane: Option<u64>) -> (chosen: u64)
        requires
            pane is Some || self@.last_active_center_pane is Some || self@.panes.len() > 0,
        ensures
            chosen == self@.pane_to_open_in(pane),
    {
        match pane {
            Some(pane) => pane,
            None => match self.last_active_center_pane {
                Some(pane) => pane,
                None => self.panes[0],
            },
        }
    }

    /// Opens a path of the project, in the given pane, or in the last one that was active, or
    /// in the first.
    pub fn open_path(
        &mut self,
        path: ProjectPath,
        pane: Option<u64>,
        focus_item: bool,
        cx: &mut Context,
    )
        requires
            pane is Some || old(self)@.last_active_center_pane is Some || old(self)@.panes.len() > 0,
        ensures
            state(*final(self), *final(cx)) == state(*old(self), *old(cx)).open_path_in(
                path@,
                old(self)@.pane_to_open_in(pane),
                focus_item,
            ),
    {
        let pane = self.pane_to_open_in(pane);
        cx.emit(Effect::OpenPath { path, pane, focus_item });
    }

    /// Splits a pane, and opens an entry of the project in the new one. The entry comes as
    /// its path, if it has one. Tells whether anything is opened; does nothing at all if the
    /// pane to split is gone.
    pub fn split_pane_with_project_entry(
        &mut self,
        pane_to_split: u64,
        split_direction: SplitDirection,
        path: Option<ProjectPath>,
        cx: &mut Context,
    ) -> (opening: bool)
        requires
            old(cx)@.has_pane(pane_to_split) ==> {
                &&& old(self)@.center.holds(pane_to_split)
                &&& old(cx).next_entity_id < u64::MAX
            },
        ensures
            state(*final(self), *final(cx)) == state(
                *old(self),
                *old(cx),
            ).split_pane_with_project_entry(
                pane_to_split,
                split_direction,
                project_path_view(path),
            ),
            opening == (old(cx)@.has_pane(pane_to_split) && path is Some),
    {
        if cx.pane(pane_to_split).is_none() {
            return false;
        }
        let new_pane = self.add_pane(cx);
        self.split_center(pane_to_split, new_pane, split_direction);
        match path {
            Some(path) => {
                self.open_path(path, Some(new_pane), true, cx);
                true
            },
            None => false,
        }
    }

    /// Activates an item in the first pane that holds it; tells whether any does.
    pub fn activate_item(&mut self, item: u64, cx: &mut Context) -> (found: bool)
        ensures
            state(*final(self), *final(cx)) == state(*old(self), *old(cx)).activate_item(item),
            found == (find_item_in(old(cx)@, old(self)@.panes, item, 0) is Some),
    {
        let mut i: usize = 0;
        while i < self.panes.len()
            invariant
                i <= self.panes.len(),
                self@ == old(self)@,
                cx@ == old(cx)@,
                find_item_in(cx@, self.panes@, item, 0) == find_item_in(
                    cx@,
                    self.panes@,
                    item,
                    i as int,
                ),
            decreases self.panes.len() - i,
        {
            let pane = self.panes[i];
            let index = match cx.pane(pane) {
                Some(pane) => pane.index_for_item(item),
                None => None,
            };
            if let Some(index) = index {
                cx.emit(
                    Effect::ActivateItem { pane, index, activate_pane: true, focus_item: true },
                );
                return true;
            }
            i += 1;
        }
        false
    }

    /// Shows something of the project: activates the item that shows it already, if there is
    /// one, else builds one and adds it to the active pane.
    pub fn open_project_item(&mut self, project_item: u64, existing: Option<u64>, cx: &mut Context) -> (item:
        u64)
        requires
            existing is None ==> old(cx).next_entity_id < u64::MAX,
        ensures
            match existing {
                Some(existing) => {
                    &&& item == existing
                    &&& state(*final(self), *final(cx)) == state(*old(self), *old(cx)).activate_item(
                        existing,
                    )
                },
                None => {
                    &&& item == old(cx).next_entity_id
                    &&& state(*final(self), *final(cx)) == (State {
                        cx: old(cx)@.build_item(project_item),
                        workspace: old(self)@,
                    }).add_item_to(old(self)@.active_pane, item, None)
                },
            },
    {
        if let Some(item) = existing {
            self.activate_item(item, cx);
            return item;
        }
        let item = cx.build_item(project_item);
        self.add_item(item, cx);
        item
    }

    /// Shows something of the project: activates the item that shows it already, if there is
    /// one, else builds one in a new pane to the right.
    pub fn split_project_item(&mut self, project_item: u64, existing: Option<u64>, cx: &mut Context) -> (item:
        u64)
        requires
            existing is None ==> {
                &&& old(self)@.center.holds(old(self)@.active_pane)
                &&& old(cx).next_entity_id < u64::MAX - 1
            },
        ensures
            match existing {
                Some(existing) => {
                    &&& item == existing
                    &&& state(*final(self), *final(cx)) == state(*old(self), *old(cx)).activate_item(
                        existing,
                    )
                },
                None => {
                    &&& item == old(cx).next_entity_id
                    &&& state(*final(self), *final(cx)) == (State {
                        cx: old(cx)@.build_item(project_item),
                        workspace: old(self)@,
                    }).split_item(SplitDirection::Right, item)
                },
            },
    {
        if let Some(item) = existing {
            self.activate_item(item, cx);
            return item;
        }
        let item = cx.build_item(project_item);
        self.split_item(SplitDirection::Right, item, cx);
        item
    }

    /// The active item and where it is, to be saved; none if nothing is active.
    pub fn save_active_item(&self, cx: &Context) -> (request: Option<SaveRequest>)
        ensures
            match request {
                Some(request) => {
                    &&& request.pane == self@.active_pane
                    &&& cx@.pane(self@.active_pane) matches Some(pane)
                    &&& request.item_index == pane.active_item_index
                    &&& pane.active_item() == Some(request.item)
                },
                None => state(*self, *cx).active_item() is None,
            },
    {
        match cx.pane(self.active_pane) {
            Some(pane) => match pane.active_item() {
                Some(item) => Some(
                    SaveRequest { pane: self.active_pane, item_index: pane.active_item_index, item },
                ),
                None => None,
            },
            None => None,
        }
    }

    /// Takes a pane from the list of panes; the last one that is left gets the focus.
    pub fn force_remove_pane(&mut self, pane: u64, cx: &mut Context)
        requires
            has_other(old(self)@.panes, pane),
        ensures
            state(*final(self), *final(cx)) == state(*old(self), *old(cx)).force_remove_pane(pane),
    {
        let ghost before = self.panes@;
        let mut panes: Vec<u64> = Vec::new();
        let mut i: usize = 0;
        while i < self.panes.len()
            invariant
                i <= self.panes.len(),
                *self == *old(self),
                before == self.panes@,
                panes@ == panes_without(before.take(i as int), pane),
            decreases self.panes.len() - i,
        {
            proof {
                assert(before.take(i + 1).drop_last() =~= before.take(i as int));
            }
            if self.panes[i] != pane {
                panes.push(self.panes[i]);
            }
            i += 1;
        }
        proof {
            assert(before.take(i as int) =~= before);
            lemma_panes_without(before, pane);
        }
        let last = panes[panes.len() - 1];
        self.panes = panes;
        cx.focus_pane(last);
        if self.last_active_center_pane == Some(pane) {
            self.last_active_center_pane = None;
        }
        cx.emit(Effect::Notify);
    }

    /// Takes all panes of a tree from the list of panes.
    pub fn remove_panes(&mut self, member: &Member, cx: &mut Context)
        requires
            has_outside(old(self)@.panes, member@.leaves()),
        ensures
            state(*final(self), *final(cx)) == state(*old(self), *old(cx)).force_remove_panes(
                member@.leaves(),
            ),
        decreases member@,
    {
        proof {
            lemma_member_view(*member);
        }
        match member {
            Member::Axis(axis) => {
                let ghost members = member_views(axis.members@);
                let ghost start = state(*self, *cx);
                let mut i: usize = 0;
                proof {
                    assert(members.take(0) =~= Seq::empty());
                }
                while i < axis.members.len()
                    invariant
                        i <= axis.members.len(),
                        *member == Member::Axis(*axis),
                        members == member_views(axis.members@),
                        start == state(*old(self), *old(cx)),
                        state(*self, *cx) == start.force_remove_panes(
                            leaves_of(members.take(i as int)),
                        ),
                        has_outside(start.workspace.panes, leaves_of(members)),
                    decreases axis.members.len() - i,
                {
                    proof {
                        lemma_member_view(*member);
                        assert(member@->members[i as int] == axis.members@[i as int]@);
                        assert(decreases_to!(member@ => member@->members[i as int]));
                        lemma_leaves_through(members, i as int);
                        lemma_force_remove_panes(start, leaves_of(members.take(i as int)));
                        lemma_outside(start, members, i as int);
                        lemma_force_remove_concat(
                            start,
                            leaves_of(members.take(i as int)),
                            members[i as int].leaves(),
                        );
                    }
                    self.remove_panes(&axis.members[i], cx);
                    i += 1;
                }
                assert(members.take(i as int) =~= members);
            },
            Member::Pane(pane) => {
                proof {
                    let s = state(*self, *cx);
                    assert(member@.leaves() =~= seq![*pane]);
                    let k = choose|k: int|
                        0 <= k < self@.panes.len() && !member@.leaves().contains(
                            #[trigger] self@.panes[k],
                        );
                    assert(member@.leaves()[0] == *pane);
                    assert(self@.panes[k] != *pane);
                    assert(member@.leaves().drop_last() =~= Seq::empty());
                    assert(s.force_remove_panes(Seq::empty()) == s);
                }
                self.force_remove_pane(*pane, cx);
            },
        }
    }

    fn forget_items(&mut self, items: &Vec<u64>)
        ensures
            final(self)@ == (WorkspaceView {
                panes_by_item: old(self)@.panes_by_item.remove_keys(items@.to_set()),
                ..old(self)@
            }),
    {
        broadcast use vstd::std_specs::hash::group_hash_axioms;

        let ghost before = *self;
        let mut i: usize = 0;
        proof {
            assert(items@.take(0).to_set() =~= Set::empty());
            assert(before@.panes_by_item.remove_keys(Set::empty()) =~= before@.panes_by_item);
        }
        while i < items.len()
            invariant
                i <= items.len(),
                before == *old(self),
                *self == (Workspace { panes_by_item: self.panes_by_item, ..before }),
                self@.panes_by_item == before@.panes_by_item.remove_keys(
                    items@.take(i as int).to_set(),
                ),
            decreases items.len() - i,
        {
            proof {
                assert(items@.take(i + 1) =~= items@.take(i as int).push(items@[i as int]));
                assert forall|x: u64| items@.take(i + 1).to_set().contains(x) <==> items@.take(
                    i as int,
                ).to_set().contains(x) || x == items@[i as int] by {
                    lemma_push_contains(items@.take(i as int), items@[i as int], x);
                }
            }
            self.panes_by_item.remove(&items[i]);
            proof {
                assert(self@.panes_by_item =~= before@.panes_by_item.remove_keys(
                    items@.take(i + 1).to_set(),
                ));
            }
            i += 1;
        }
        assert(items@.take(i as int) =~= items@);
    }

    /// Takes a pane out of the center, and drops what is noted of it. The only pane of the
    /// center stays.
    pub fn remove_pane(&mut self, pane: u64, cx: &mut Context)
        requires
            state(*old(self), *old(cx)).removable(pane),
        ensures
            state(*final(self), *final(cx)) == state(*old(self), *old(cx)).remove_pane(pane),
    {
        broadcast use vstd::std_specs::hash::group_hash_axioms;

        let items = match cx.pane(pane) {
            Some(pane) => pane.items.clone(),
            None => Vec::new(),
        };
        proof {
            assert(items@ =~= pane_items(cx@, pane));
        }
        let removed = match self.center.remove(pane) {
            Ok(removed) => removed,
            Err(_) => false,
        };
        if removed {
            self.force_remove_pane(pane, cx);
            self.unfollow(pane, cx);
            self.last_leaders_by_pane.remove(&pane);
            self.forget_items(&items);
            cx.emit(Effect::Notify);
        } else {
            self.active_item_path_changed(cx);
        }
    }

    /// A pane got the focus.
    pub fn handle_pane_focused(&mut self, pane: u64, cx: &mut Context)
        ensures
            state(*final(self), *final(cx)) == state(*old(self), *old(cx)).handle_pane_focused(
                pane,
            ),
    {
        if self.active_pane != pane {
            self.active_pane = pane;
            cx.emit(Effect::SetStatusBarPane(pane));
            self.active_item_path_changed(cx);
            self.last_active_center_pane = Some(pane);
        }
        self.dismiss_zoomed_items_to_reveal(None, cx);
        let is_zoomed = match cx.pane(pane) {
            Some(pane) => pane.zoomed,
            None => false,
        };
        if is_zoomed {
            self.zoomed = Some(pane);
        } else {
            self.zoomed = None;
        }
        self.zoomed_position = None;
        self.update_active_view_for_followers(cx);
        cx.emit(Effect::Notify);
    }

    fn item_removed(&mut self, pane: u64, item_id: u64, cx: &Context)
        ensures
            state(*final(self), *cx) == state(*old(self), *cx).item_removed(pane, item_id),
    {
        broadcast use vstd::std_specs::hash::group_hash_axioms;

        self.update_window_edited(cx);
        let known = match self.panes_by_item.get(&item_id) {
            Some(known) => *known == pane,
            None => false,
        };
        if known {
            self.panes_by_item.remove(&item_id);
        }
    }

    fn pane_changed(&mut self, pane: u64, cx: &mut Context)
        ensures
            state(*final(self), *final(cx)) == state(*old(self), *old(cx)).pane_changed(pane),
    {
        if pane == self.active_pane {
            self.active_item_path_changed(cx);
        }
    }

    fn item_activated(&mut self, pane: u64, local: bool, cx: &mut Context)
        ensures
            state(*final(self), *final(cx)) == state(*old(self), *old(cx)).item_activated(
                pane,
                local,
            ),
    {
        if local {
            self.unfollow(pane, cx);
        }
        self.pane_changed(pane, cx);
    }

    fn zoom_in(&mut self, pane: u64, cx: &mut Context)
        ensures
            state(*final(self), *final(cx)) == state(*old(self), *old(cx)).zoom_in(pane),
    {
        if pane == self.active_pane {
            cx.set_zoomed(pane, true);
            let has_focus = match cx.pane(pane) {
                Some(pane) => pane.has_focus,
                None => false,
            };
            if has_focus {
                self.zoomed = Some(pane);
                self.zoomed_position = None;
            }
            cx.emit(Effect::Notify);
        }
    }

    fn zoom_pane_out(&mut self, pane: u64, cx: &mut Context)
        ensures
            state(*final(self), *final(cx)) == state(*old(self), *old(cx)).zoom_pane_out(pane),
    {
        cx.set_zoomed(pane, false);
        if self.zoomed_position.is_none() {
            self.zoomed = None;
        }
        cx.emit(Effect::Notify);
    }

    fn react_to_pane(&mut self, pane: u64, event: PaneEvent, cx: &mut Context)
        requires
            state(*old(self), *old(cx)).admits(pane, event),
        ensures
            state(*final(self), *final(cx)) == state(*old(self), *old(cx)).react_to_pane(
                pane,
                event,
            ),
    {
        match event {
            PaneEvent::AddItem { item } => {
                cx.emit(Effect::AddedToPane { item, pane });
            },
            PaneEvent::Split { direction, cloned } => {
                self.split_and_clone(pane, direction, cloned, cx);
            },
            PaneEvent::Remove => {
                self.remove_pane(pane, cx);
            },
            PaneEvent::ActivateItem { local } => {
                self.item_activated(pane, local, cx);
            },
            PaneEvent::ChangeItemTitle => {
                self.pane_changed(pane, cx);
                self.update_window_edited(cx);
            },
            PaneEvent::RemoveItem { item_id } => {
                self.item_removed(pane, item_id, cx);
            },
            PaneEvent::Focus => {
                self.handle_pane_focused(pane, cx);
            },
            PaneEvent::ZoomIn => {
                self.zoom_in(pane, cx);
            },
            PaneEvent::ZoomOut => {
                self.zoom_pane_out(pane, cx);
            },
        }
    }

    /// Something happened in a pane.
    pub fn handle_pane_event(&mut self, pane: u64, event: PaneEvent, cx: &mut Context)
        requires
            state(*old(self), *old(cx)).admits(pane, event),
        ensures
            state(*final(self), *final(cx)) == state(*old(self), *old(cx)).handle_pane_event(
                pane,
                event,
            ),
    {
        self.react_to_pane(pane, event, cx);
        cx.emit(Effect::Serialize);
    }
}

proof fn lemma_push_contains(s: Seq<u64>, x: u64, y: u64)
    ensures
        s.push(x).contains(y) <==> s.contains(y) || y == x,
{
    if s.contains(y) {
        let k = s.index_of(y);
        assert(s.push(x)[k] == y);
    }
    assert(s.push(x)[s.len() as int] == x);
}

/// A pane outside of all members is there still when those before `i` are gone.
proof fn lemma_outside(s: State, members: Seq<MemberView>, i: int)
    requires
        0 <= i < members.len(),
        has_outside(s.workspace.panes, leaves_of(members)),
    ensures
        has_outside(
            s.force_remove_panes(leaves_of(members.take(i))).workspace.panes,
            members[i].leaves(),
        ),
{
    let panes = s.workspace.panes;
    let k = choose|k: int| 0 <= k < panes.len() && !leaves_of(members).contains(#[trigger] panes[k]);
    let pane = panes[k];
    let gone = leaves_of(members.take(i));
    let after = s.force_remove_panes(gone).workspace.panes;
    lemma_leaves_parts(members, i);
    let mine = members[i].leaves();
    let behind = leaves_of(members.skip(i + 1));
    let all = leaves_of(members);
    if gone.contains(pane) {
        let j = gone.index_of(pane);
        assert(all[j] == pane);
    }
    if mine.contains(pane) {
        let j = mine.index_of(pane);
        assert(all[gone.len() + j] == pane);
    }
    lemma_force_remove_panes(s, gone);
    assert(panes.contains(pane));
    assert(after.contains(pane));
    let j = after.index_of(pane);
    assert(after[j] == pane);
}

} // verus!
