//! Following collaborators, and being followed.

use crate::context::{
    find_participant, index_view, Context, ContextView, Effect, EffectView, Followable,
    Participant, ParticipantLocation,
};
use crate::error::Error;
use crate::proto;
use crate::proto::PeerId;
use crate::store::followers_message;
use crate::view_id::{view_id_from_proto, view_id_to_proto, ViewId};
use crate::workspace::{
    pane_items, state, FollowerState, FollowerStateView, State, Workspace,
    WorkspaceView,
};
use vstd::prelude::*;

verus! {

/// The place of the state of a pane, from `i` on.
pub open spec fn state_place(states: Seq<FollowerStateView>, pane: u64, i: int) -> Option<int>
    decreases states.len() - i,
{
    if i < 0 || i >= states.len() {
        None
    } else if states[i].pane == pane {
        Some(i)
    } else {
        state_place(states, pane, i + 1)
    }
}

/// The item that stands for a view, from place `i` on.
pub open spec fn leader_item(items: Seq<(ViewId, u64)>, id: ViewId, i: int) -> Option<u64>
    decreases items.len() - i,
{
    if i < 0 || i >= items.len() {
        None
    } else if items[i].0 == id {
        Some(items[i].1)
    } else {
        leader_item(items, id, i + 1)
    }
}

/// The place of a view among the items that stand for views, from `i` on.
pub open spec fn view_place(items: Seq<(ViewId, u64)>, id: ViewId, i: int) -> Option<int>
    decreases items.len() - i,
{
    if i < 0 || i >= items.len() {
        None
    } else if items[i].0 == id {
        Some(i)
    } else {
        view_place(items, id, i + 1)
    }
}

/// The items with one that stands for the given view, in place of another that did.
pub open spec fn with_leader_item(items: Seq<(ViewId, u64)>, id: ViewId, item: u64) -> Seq<(ViewId, u64)> {
    match view_place(items, id, 0) {
        Some(k) => items.update(k, (id, item)),
        None => items.push((id, item)),
    }
}

/// The effects that tell items whom they follow.
pub open spec fn leader_effects(items: Seq<(ViewId, u64)>, leader_id: Option<PeerId>) -> Seq<EffectView> {
    items.map_values(|i: (ViewId, u64)| EffectView::SetLeader { item: i.1, leader_id })
}

/// The states that follow someone else.
pub open spec fn states_without(states: Seq<FollowerStateView>, leader_id: PeerId) -> Seq<FollowerStateView>
    decreases states.len(),
{
    if states.len() == 0 {
        Seq::empty()
    } else {
        let before = states_without(states.drop_last(), leader_id);
        if states.last().leader_id == leader_id {
            before
        } else {
            before.push(states.last())
        }
    }
}

/// The effects that tell all items of a leader that they follow nobody.
pub open spec fn left_effects(states: Seq<FollowerStateView>, leader_id: PeerId) -> Seq<EffectView>
    decreases states.len(),
{
    if states.len() == 0 {
        Seq::empty()
    } else {
        let before = left_effects(states.drop_last(), leader_id);
        if states.last().leader_id == leader_id {
            before + leader_effects(states.last().items_by_leader_view_id, None)
        } else {
            before
        }
    }
}

/// The states in which another view of a leader is active.
pub open spec fn with_active_view(
    states: Seq<FollowerStateView>,
    leader_id: PeerId,
    active_view_id: Option<ViewId>,
) -> Seq<FollowerStateView> {
    states.map_values(
        |s: FollowerStateView|
            if s.leader_id == leader_id {
                FollowerStateView { active_view_id, ..s }
            } else {
                s
            },
    )
}

/// Whether any state follows the leader.
pub open spec fn follows(states: Seq<FollowerStateView>, leader_id: PeerId) -> bool {
    exists|i: int| 0 <= i < states.len() && (#[trigger] states[i]).leader_id == leader_id
}

/// The panes that follow a leader, in order.
pub open spec fn following_panes(states: Seq<FollowerStateView>, leader_id: PeerId) -> Seq<u64>
    decreases states.len(),
{
    if states.len() == 0 {
        Seq::empty()
    } else {
        let before = following_panes(states.drop_last(), leader_id);
        if states.last().leader_id == leader_id {
            before.push(states.last().pane)
        } else {
            before
        }
    }
}

/// The effects that apply a change of a view to the items that stand for it.
pub open spec fn update_effects(
    states: Seq<FollowerStateView>,
    leader_id: PeerId,
    id: ViewId,
    update: u64,
) -> Seq<EffectView>
    decreases states.len(),
{
    if states.len() == 0 {
        Seq::empty()
    } else {
        let before = update_effects(states.drop_last(), leader_id, id, update);
        match leader_item(states.last().items_by_leader_view_id, id, 0) {
            Some(item) if states.last().leader_id == leader_id => before.push(
                EffectView::ApplyUpdate { item, update },
            ),
            _ => before,
        }
    }
}

/// Whether a leader is in this application at all.
pub open spec fn in_this_app(location: ParticipantLocation) -> bool {
    location !is External
}

/// Whether a leader is in the project with the given id.
pub open spec fn in_this_project(location: ParticipantLocation, remote_id: Option<u64>) -> bool {
    match location {
        ParticipantLocation::SharedProject { project_id } => Some(project_id) == remote_id,
        _ => false,
    }
}

/// Whether an item belongs to the project.
pub open spec fn is_project_item(cx: ContextView, item: u64) -> bool {
    match cx.item(item) {
        Some(item) => match item.followable {
            Some(followable) => followable.is_project_item,
            None => false,
        },
        None => false,
    }
}

/// The item that a pane shows when its leader is at the given place.
pub open spec fn item_to_activate(
    cx: ContextView,
    follower: FollowerStateView,
    leader_id: PeerId,
    location: ParticipantLocation,
) -> Option<u64> {
    if follower.leader_id != leader_id || !in_this_app(location) {
        None
    } else {
        match follower.active_view_id {
            Some(id) => match leader_item(follower.items_by_leader_view_id, id, 0) {
                Some(item) if in_this_project(location, cx.project.remote_id) || !is_project_item(
                    cx,
                    item,
                ) => Some(item),
                _ => None,
            },
            None => None,
        }
    }
}

/// The effects that bring an item of a leader to the front of a pane.
pub open spec fn activation_effects(cx: ContextView, pane: u64, item: u64) -> Seq<EffectView> {
    let index = match cx.pane(pane) {
        Some(pane) => pane.index_for_item(item),
        None => None,
    };
    let shown = match index {
        Some(index) => EffectView::ActivateItem {
            pane,
            index,
            activate_pane: false,
            focus_item: false,
        },
        None => EffectView::AddItem {
            pane,
            item,
            activate_pane: false,
            focus_item: false,
            index: None,
        },
    };
    if (match cx.pane(pane) {
        Some(pane) => pane.has_focus,
        None => false,
    }) {
        seq![shown, EffectView::FocusActiveItem(pane)]
    } else {
        seq![shown]
    }
}

/// The effects that let all panes show what their leader shows.
pub open spec fn follow_effects(
    cx: ContextView,
    states: Seq<FollowerStateView>,
    leader_id: PeerId,
    location: ParticipantLocation,
) -> Seq<EffectView>
    decreases states.len(),
{
    if states.len() == 0 {
        Seq::empty()
    } else {
        let before = follow_effects(cx, states.drop_last(), leader_id, location);
        match item_to_activate(cx, states.last(), leader_id, location) {
            Some(item) => before + activation_effects(cx, states.last().pane, item),
            None => before,
        }
    }
}

/// The message about one item that a new follower gets, if the item can be followed from
/// where the follower is.
pub open spec fn item_message(
    cx: ContextView,
    item: u64,
    leader_id: Option<PeerId>,
    follower_project_id: Option<u64>,
) -> Option<proto::View> {
    match cx.item(item) {
        Some(item) => match item.followable {
            Some(followable) => {
                let project_id = cx.project.remote_id;
                let elsewhere = project_id is None || project_id != follower_project_id;
                match (followable.remote_id, followable.state) {
                    (Some(id), Some(variant)) if !(elsewhere && followable.is_project_item) => Some(
                        proto::View {
                            id: Some(view_id_to_proto(id)),
                            leader_id,
                            variant: Some(variant),
                        },
                    ),
                    _ => None,
                }
            },
            None => None,
        },
        None => None,
    }
}

/// The messages about the items of one pane.
pub open spec fn pane_messages(
    cx: ContextView,
    items: Seq<u64>,
    leader_id: Option<PeerId>,
    follower_project_id: Option<u64>,
) -> Seq<proto::View>
    decreases items.len(),
{
    if items.len() == 0 {
        Seq::empty()
    } else {
        let before = pane_messages(cx, items.drop_last(), leader_id, follower_project_id);
        match item_message(cx, items.last(), leader_id, follower_project_id) {
            Some(message) => before.push(message),
            None => before,
        }
    }
}

/// The messages about the items of some panes.
pub open spec fn view_messages(
    cx: ContextView,
    panes: Seq<u64>,
    states: Seq<FollowerStateView>,
    follower_project_id: Option<u64>,
) -> Seq<proto::View>
    decreases panes.len(),
{
    if panes.len() == 0 {
        Seq::empty()
    } else {
        view_messages(cx, panes.drop_last(), states, follower_project_id) + pane_messages(
            cx,
            pane_items(cx, panes.last()),
            leader_of(states, panes.last()),
            follower_project_id,
        )
    }
}

/// Whom a pane follows.
pub open spec fn leader_of(states: Seq<FollowerStateView>, pane: u64) -> Option<PeerId> {
    match state_place(states, pane, 0) {
        Some(k) => Some(states[k].leader_id),
        None => None,
    }
}

/// The items with several more that stand for views, one after the other.
pub open spec fn with_leader_items(
    items: Seq<(ViewId, u64)>,
    added: Seq<(ViewId, u64)>,
) -> Seq<(ViewId, u64)>
    decreases added.len(),
{
    if added.len() == 0 {
        items
    } else {
        with_leader_item(
            with_leader_items(items, added.drop_last()),
            added.last().0,
            added.last().1,
        )
    }
}

/// What happens next with an update of a leader.
#[derive(Clone, Copy, Debug, PartialEq, Eq, Structural)]
pub enum LeaderUpdate {
    /// The panes show what the leader shows.
    Finish,
    /// The same, once the items have applied the change.
    AwaitItems,
    /// The same, once the panes that follow the leader have an item for the view.
    AddView(proto::View),
}

impl State {
    pub open spec fn leader_for_pane(self, pane: u64) -> Option<PeerId> {
        leader_of(self.workspace.follower_states, pane)
    }

    /// The pane follows nobody. The server is told when no pane is left that follows, and
    /// only in a room; outside of one nothing more happens.
    pub open spec fn unfollow(self, pane: u64) -> State {
        match state_place(self.workspace.follower_states, pane, 0) {
            None => self,
            Some(k) => {
                let follower = self.workspace.follower_states[k];
                let rest = self.workspace.follower_states.remove(k);
                let released = State {
                    workspace: WorkspaceView { follower_states: rest, ..self.workspace },
                    cx: self.cx.emit_all(leader_effects(follower.items_by_leader_view_id, None)),
                };
                if rest.len() > 0 {
                    released.notify()
                } else {
                    match self.cx.room_id(self.workspace.active_call) {
                        Some(room_id) => released.emit(
                            EffectView::SendUnfollow(
                                proto::Unfollow {
                                    room_id,
                                    project_id: self.cx.project.remote_id,
                                    leader_id: Some(follower.leader_id),
                                },
                            ),
                        ).notify(),
                        None => released,
                    }
                }
            },
        }
    }

    /// Whom the pane followed, where that is told.
    pub open spec fn unfollowed(self, pane: u64) -> Option<PeerId> {
        match state_place(self.workspace.follower_states, pane, 0) {
            None => None,
            Some(k) => if self.workspace.follower_states.len() > 1 || self.cx.room_id(
                self.workspace.active_call,
            ) is Some {
                Some(self.workspace.follower_states[k].leader_id)
            } else {
                None
            },
        }
    }

    pub open spec fn collaborator_left(self, peer_id: PeerId) -> State {
        State {
            workspace: WorkspaceView {
                follower_states: states_without(self.workspace.follower_states, peer_id),
                ..self.workspace
            },
            cx: self.cx.emit_all(left_effects(self.workspace.follower_states, peer_id)),
        }.notify()
    }

    /// The id of the active item's view, if it can be followed.
    pub open spec fn active_view_id(self) -> Option<proto::ViewId> {
        match self.active_item() {
            Some(id) => match self.cx.item(id) {
                Some(item) => match item.followable {
                    Some(followable) => match followable.remote_id {
                        Some(id) => Some(view_id_to_proto(id)),
                        None => None,
                    },
                    None => None,
                },
                None => None,
            },
            None => None,
        }
    }

    pub open spec fn handle_follow(self) -> State {
        State {
            workspace: WorkspaceView {
                last_active_view_id: self.active_view_id(),
                ..self.workspace
            },
            ..self
        }.notify()
    }

    pub open spec fn follow_response(self, follower_project_id: Option<u64>) -> proto::FollowResponseView {
        proto::FollowResponseView {
            active_view_id: self.active_view_id(),
            views: view_messages(
                self.cx,
                self.workspace.panes,
                self.workspace.follower_states,
                follower_project_id,
            ),
        }
    }

    pub open spec fn update_followers(self, project_only: bool, update: proto::Variant) -> State {
        let project_id = if project_only {
            self.cx.project.remote_id
        } else {
            None
        };
        match followers_message(
            self.cx.store.followers,
            project_id,
            update,
            self.cx.room_id(self.cx.call_id()),
        ) {
            Some(message) => self.emit(EffectView::SendUpdateFollowers(message)),
            None => self,
        }
    }

    /// The active item, if the pane that holds it has the focus and it can be followed.
    pub open spec fn focused_followable(self) -> Option<Followable> {
        match self.cx.pane(self.workspace.active_pane) {
            Some(pane) if pane.has_focus => match self.active_item() {
                Some(id) => match self.cx.item(id) {
                    Some(item) => item.followable,
                    None => None,
                },
                None => None,
            },
            _ => None,
        }
    }

    pub open spec fn active_view_update(self) -> proto::UpdateActiveView {
        match self.focused_followable() {
            Some(followable) => proto::UpdateActiveView {
                id: match followable.remote_id {
                    Some(id) => Some(view_id_to_proto(id)),
                    None => None,
                },
                leader_id: self.leader_for_pane(self.workspace.active_pane),
            },
            None => proto::UpdateActiveView { id: None, leader_id: None },
        }
    }

    /// The followers are told which view is active, if that is another than the last time.
    pub open spec fn update_active_view_for_followers(self) -> State {
        let update = self.active_view_update();
        let project_only = match self.focused_followable() {
            Some(followable) => followable.is_project_item,
            None => true,
        };
        if update.id != self.workspace.last_active_view_id {
            State {
                workspace: WorkspaceView { last_active_view_id: update.id, ..self.workspace },
                ..self
            }.update_followers(project_only, proto::Variant::UpdateActiveView(update))
        } else {
            self
        }
    }

    pub open spec fn leader_updated(self, leader_id: PeerId) -> State {
        match self.cx.room(self.workspace.active_call) {
            Some(room) => match find_participant(room.participants, leader_id, 0) {
                Some(participant) => State {
                    cx: self.notify().cx.emit_all(
                        follow_effects(
                            self.cx,
                            self.workspace.follower_states,
                            leader_id,
                            participant.location,
                        ),
                    ),
                    ..self
                },
                None => self.notify(),
            },
            None => self.notify(),
        }
    }

    /// What an update of a leader leads to, or why it is refused.
    pub open spec fn leader_update(self, leader_id: PeerId, variant: Option<proto::Variant>) -> Result<
        LeaderUpdate,
        Error,
    > {
        let followed = follows(self.workspace.follower_states, leader_id);
        match variant {
            None => Err(Error::InvalidUpdate),
            Some(proto::Variant::UpdateActiveView(update)) => match update.id {
                Some(id) if followed && id.creator is None => Err(Error::MissingCreator),
                _ => Ok(LeaderUpdate::Finish),
            },
            Some(proto::Variant::UpdateView(update)) => match (update.variant, update.id) {
                (None, _) => Err(Error::MissingUpdateViewVariant),
                (_, None) => Err(Error::MissingUpdateViewId),
                (Some(_), Some(id)) => if followed && id.creator is None {
                    Err(Error::MissingCreator)
                } else {
                    Ok(LeaderUpdate::AwaitItems)
                },
            },
            Some(proto::Variant::CreateView(view)) => Ok(LeaderUpdate::AddView(view)),
        }
    }

    /// The states with another active view, and the items asked to apply a change; nothing
    /// where the update is refused.
    pub open spec fn process_leader_update(self, leader_id: PeerId, variant: Option<proto::Variant>) -> State {
        let states = self.workspace.follower_states;
        match variant {
            Some(proto::Variant::UpdateActiveView(update)) if follows(states, leader_id) => match update.id {
                Some(id) => match view_id_from_proto(id) {
                    Ok(id) => State {
                        workspace: WorkspaceView {
                            follower_states: with_active_view(states, leader_id, Some(id)),
                            ..self.workspace
                        },
                        ..self
                    },
                    Err(_) => self,
                },
                None => State {
                    workspace: WorkspaceView {
                        follower_states: with_active_view(states, leader_id, None),
                        ..self.workspace
                    },
                    ..self
                },
            },
            Some(proto::Variant::UpdateView(update)) if follows(states, leader_id) => match (
                update.variant,
                update.id,
            ) {
                (Some(change), Some(id)) => match view_id_from_proto(id) {
                    Ok(id) => State {
                        cx: self.cx.emit_all(update_effects(states, leader_id, id, change)),
                        ..self
                    },
                    Err(_) => self,
                },
                _ => self,
            },
            _ => self,
        }
    }

    /// A pane gets items that stand for views of its leader; nothing if it follows nobody.
    pub open spec fn add_leader_items(self, leader_id: PeerId, pane: u64, added: Seq<(ViewId, u64)>) -> State {
        match state_place(self.workspace.follower_states, pane, 0) {
            Some(k) => {
                let follower = self.workspace.follower_states[k];
                State {
                    workspace: WorkspaceView {
                        follower_states: self.workspace.follower_states.update(
                            k,
                            FollowerStateView {
                                items_by_leader_view_id: with_leader_items(
                                    follower.items_by_leader_view_id,
                                    added,
                                ),
                                ..follower
                            },
                        ),
                        ..self.workspace
                    },
                    cx: self.cx.emit_all(leader_effects(added, Some(leader_id))),
                }
            },
            None => self,
        }
    }
}

/// What happens in a call.
#[derive(Clone, Copy, Debug, PartialEq, Eq, Structural)]
pub enum CallEvent {
    ParticipantLocationChanged { participant_id: PeerId },
    RemoteVideoTracksChanged { participant_id: PeerId },
    Other,
}

impl State {
    /// A leader who is somewhere else, or shows something else, is followed there.
    pub open spec fn on_active_call_event(self, event: CallEvent) -> State {
        match event {
            CallEvent::ParticipantLocationChanged { participant_id } => self.leader_updated(
                participant_id,
            ),
            CallEvent::RemoteVideoTracksChanged { participant_id } => self.leader_updated(
                participant_id,
            ),
            CallEvent::Other => self,
        }
    }
}

impl FollowerState {
    /// The item that stands for a view of the leader.
    pub fn item_for_view(&self, id: ViewId) -> (item: Option<u64>)
        ensures
            item == leader_item(self@.items_by_leader_view_id, id, 0),
    {
        let mut i: usize = 0;
        while i < self.items_by_leader_view_id.len()
            invariant
                i <= self.items_by_leader_view_id.len(),
                leader_item(self@.items_by_leader_view_id, id, 0) == leader_item(
                    self@.items_by_leader_view_id,
                    id,
                    i as int,
                ),
            decreases self.items_by_leader_view_id.len() - i,
        {
            if self.items_by_leader_view_id[i].0 == id {
                return Some(self.items_by_leader_view_id[i].1);
            }
            i += 1;
        }
        None
    }

    /// Lets an item stand for a view of the leader.
    pub fn insert_item(&mut self, id: ViewId, item: u64)
        ensures
            final(self)@ == (FollowerStateView {
                items_by_leader_view_id: with_leader_item(
                    old(self)@.items_by_leader_view_id,
                    id,
                    item,
                ),
                ..old(self)@
            }),
    {
        let mut i: usize = 0;
        while i < self.items_by_leader_view_id.len()
            invariant
                i <= self.items_by_leader_view_id.len(),
                *self == *old(self),
                view_place(self.items_by_leader_view_id@, id, 0) == view_place(
                    self.items_by_leader_view_id@,
                    id,
                    i as int,
                ),
            decreases self.items_by_leader_view_id.len() - i,
        {
            if self.items_by_leader_view_id[i].0 == id {
                self.items_by_leader_view_id[i] = (id, item);
                return;
            }
            i += 1;
        }
        self.items_by_leader_view_id.push((id, item));
    }
}

impl Context {
    /// Tells items whom they follow.
    fn set_leaders(&mut self, items: &Vec<(ViewId, u64)>, leader_id: Option<PeerId>)
        ensures
            final(self)@ == old(self)@.emit_all(leader_effects(items@, leader_id)),
    {
        let mut i: usize = 0;
        while i < items.len()
            invariant
                i <= items.len(),
                self@ == old(self)@.emit_all(leader_effects(items@.take(i as int), leader_id)),
            decreases items.len() - i,
        {
            proof {
                assert(leader_effects(items@.take(i + 1), leader_id) =~= leader_effects(
                    items@.take(i as int),
                    leader_id,
                ).push(EffectView::SetLeader { item: items@[i as int].1, leader_id }));
            }
            self.emit(Effect::SetLeader { item: items[i].1, leader_id });
            i += 1;
        }
        assert(items@.take(i as int) =~= items@);
    }

    /// The message about one item that a new follower gets.
    fn item_message(
        &self,
        item: u64,
        leader_id: Option<PeerId>,
        follower_project_id: Option<u64>,
    ) -> (message: Option<proto::View>)
        ensures
            message == item_message(self@, item, leader_id, follower_project_id),
    {
        let followable = match self.item(item) {
            Some(item) => item.followable,
            None => None,
        };
        let followable = match followable {
            Some(followable) => followable,
            None => {
                return None;
            },
        };
        let project_id = self.project.remote_id;
        if (project_id.is_none() || project_id != follower_project_id)
            && followable.is_project_item {
            return None;
        }
        match (followable.remote_id, followable.state) {
            (Some(id), Some(variant)) => Some(
                proto::View { id: Some(id.to_proto()), leader_id, variant: Some(variant) },
            ),
            _ => None,
        }
    }
}

impl Workspace {
    /// The place of the state of a pane among the follower states.
    fn follower_state_index(&self, pane: u64) -> (index: Option<usize>)
        ensures
            state_place(self@.follower_states, pane, 0) == index_view(index),
            match index {
                Some(index) => index < self.follower_states.len(),
                None => true,
            },
    {
        let mut i: usize = 0;
        while i < self.follower_states.len()
            invariant
                i <= self.follower_states.len(),
                state_place(self@.follower_states, pane, 0) == state_place(
                    self@.follower_states,
                    pane,
                    i as int,
                ),
            decreases self.follower_states.len() - i,
        {
            if self.follower_states[i].pane == pane {
                return Some(i);
            }
            i += 1;
        }
        None
    }

    /// Whom a pane follows.
    pub fn leader_for_pane(&self, pane: u64) -> (leader_id: Option<PeerId>)
        ensures
            leader_id == leader_of(self@.follower_states, pane),
    {
        match self.follower_state_index(pane) {
            Some(index) => Some(self.follower_states[index].leader_id),
            None => None,
        }
    }

    /// Lets a pane stop following. Tells the server when no pane is left that follows; then
    /// the result is the leader only in a room.
    pub fn unfollow(&mut self, pane: u64, cx: &mut Context) -> (leader_id: Option<PeerId>)
        ensures
            state(*final(self), *final(cx)) == state(*old(self), *old(cx)).unfollow(pane),
            leader_id == state(*old(self), *old(cx)).unfollowed(pane),
    {
        let index = match self.follower_state_index(pane) {
            Some(index) => index,
            None => {
                return None;
            },
        };
        let follower = self.follower_states.remove(index);
        proof {
            assert(self@.follower_states =~= old(self)@.follower_states.remove(index as int));
        }
        let leader_id = follower.leader_id;
        cx.set_leaders(&follower.items_by_leader_view_id, None);
        if self.follower_states.len() == 0 {
            let project_id = cx.project.remote_id;
            let room_id = match cx.room_id(self.active_call) {
                Some(room_id) => room_id,
                None => {
                    return None;
                },
            };
            cx.emit(
                Effect::SendUnfollow(
                    proto::Unfollow { room_id, project_id, leader_id: Some(leader_id) },
                ),
            );
        }
        cx.emit(Effect::Notify);
        Some(leader_id)
    }

    /// Lets every pane that followed a collaborator stop.
    pub fn collaborator_left(&mut self, peer_id: PeerId, cx: &mut Context)
        ensures
            state(*final(self), *final(cx)) == state(*old(self), *old(cx)).collaborator_left(
                peer_id,
            ),
    {
        let ghost states = self@.follower_states;
        let ghost mut n: int = 0;
        let mut i: usize = 0;
        proof {
            assert(states.take(0) =~= Seq::empty());
            assert(states_without(states.take(0), peer_id) + states.skip(0) =~= states);
        }
        while i < self.follower_states.len()
            invariant
                i <= self.follower_states.len(),
                0 <= n <= states.len(),
                states == old(self)@.follower_states,
                self@ == (WorkspaceView {
                    follower_states: states_without(states.take(n), peer_id) + states.skip(n),
                    ..old(self)@
                }),
                states_without(states.take(n), peer_id).len() == i,
                cx@ == old(cx)@.emit_all(left_effects(states.take(n), peer_id)),
            decreases self.follower_states.len() - i,
        {
            proof {
                assert(states.take(n + 1).drop_last() =~= states.take(n));
                assert(self@.follower_states[i as int] == states[n]);
            }
            if self.follower_states[i].leader_id == peer_id {
                let ghost before = self@.follower_states;
                let follower = self.follower_states.remove(i);
                cx.set_leaders(&follower.items_by_leader_view_id, None);
                proof {
                    assert(self@.follower_states =~= before.remove(i as int));
                    assert(self@.follower_states =~= states_without(states.take(n + 1), peer_id)
                        + states.skip(n + 1));
                    assert(cx@.effects =~= old(cx)@.effects + left_effects(
                        states.take(n + 1),
                        peer_id,
                    ));
                }
            } else {
                proof {
                    assert(self@.follower_states =~= states_without(states.take(n + 1), peer_id)
                        + states.skip(n + 1));
                }
                i += 1;
            }
            proof {
                n = n + 1;
            }
        }
        proof {
            assert(self@.follower_states.len() == self.follower_states.len());
            assert(n == states.len());
            assert(states.take(n) =~= states);
            assert(states.skip(n) =~= Seq::empty());
        }
        cx.emit(Effect::Notify);
    }

    fn active_view_id(&self, cx: &Context) -> (id: Option<proto::ViewId>)
        ensures
            id == state(*self, *cx).active_view_id(),
    {
        match self.active_item(cx) {
            Some(item) => match cx.item(item) {
                Some(item) => match item.followable {
                    Some(followable) => match followable.remote_id {
                        Some(id) => Some(id.to_proto()),
                        None => None,
                    },
                    None => None,
                },
                None => None,
            },
            None => None,
        }
    }

    /// What a new follower is told: the active view, and the views of all items that can be
    /// followed from where the follower is.
    pub fn handle_follow(&mut self, follower_project_id: Option<u64>, cx: &mut Context) -> (response:
        proto::FollowResponse)
        ensures
            state(*final(self), *final(cx)) == state(*old(self), *old(cx)).handle_follow(),
            response@ == state(*old(self), *old(cx)).follow_response(follower_project_id),
    {
        let active_view_id = self.active_view_id(cx);
        let views = self.view_messages(follower_project_id, cx);
        cx.emit(Effect::Notify);
        self.last_active_view_id = active_view_id;
        proto::FollowResponse { active_view_id, views }
    }

    fn view_messages(&self, follower_project_id: Option<u64>, cx: &Context) -> (views: Vec<proto::View>)
        ensures
            views@ == view_messages(
                cx@,
                self@.panes,
                self@.follower_states,
                follower_project_id,
            ),
    {
        let mut views: Vec<proto::View> = Vec::new();
        let mut i: usize = 0;
        while i < self.panes.len()
            invariant
                i <= self.panes.len(),
                views@ == view_messages(
                    cx@,
                    self.panes@.take(i as int),
                    self@.follower_states,
                    follower_project_id,
                ),
            decreases self.panes.len() - i,
        {
            proof {
                assert(self.panes@.take(i + 1).drop_last() =~= self.panes@.take(i as int));
            }
            let leader_id = self.leader_for_pane(self.panes[i]);
            let ghost before = views@;
            if let Some(pane) = cx.pane(self.panes[i]) {
                let mut j: usize = 0;
                while j < pane.items.len()
                    invariant
                        j <= pane.items.len(),
                        views@ =~= before + pane_messages(
                            cx@,
                            pane.items@.take(j as int),
                            leader_id,
                            follower_project_id,
                        ),
                    decreases pane.items.len() - j,
                {
                    proof {
                        assert(pane.items@.take(j + 1).drop_last() =~= pane.items@.take(j as int));
                    }
                    let message = cx.item_message(pane.items[j], leader_id, follower_project_id);
                    if let Some(message) = message {
                        views.push(message);
                    }
                    j += 1;
                }
                assert(pane.items@.take(j as int) =~= pane.items@);
            }
            i += 1;
        }
        assert(self.panes@.take(i as int) =~= self.panes@);
        views
    }

    /// Tells the followers of the project, or all followers, about an update.
    pub fn update_followers(&self, project_only: bool, update: proto::Variant, cx: &mut Context)
        ensures
            state(*self, *final(cx)) == state(*self, *old(cx)).update_followers(
                project_only,
                update,
            ),
    {
        let project_id = if project_only {
            cx.project.remote_id
        } else {
            None
        };
        let room_id = cx.room_id(cx.call_id());
        let message = cx.store.update_followers(project_id, update, room_id);
        if let Some(message) = message {
            cx.emit(Effect::SendUpdateFollowers(message));
        }
    }

    /// Tells the followers which view is active, if that has changed.
    pub fn update_active_view_for_followers(&mut self, cx: &mut Context)
        ensures
            state(*final(self), *final(cx)) == state(
                *old(self),
                *old(cx),
            ).update_active_view_for_followers(),
    {
        let mut is_project_item = true;
        let mut update = proto::UpdateActiveView { id: None, leader_id: None };
        let has_focus = match cx.pane(self.active_pane) {
            Some(pane) => pane.has_focus,
            None => false,
        };
        if has_focus {
            if let Some(item) = self.active_item(cx) {
                if let Some(item) = cx.item(item) {
                    if let Some(followable) = item.followable {
                        is_project_item = followable.is_project_item;
                        update = proto::UpdateActiveView {
                            id: match followable.remote_id {
                                Some(id) => Some(id.to_proto()),
                                None => None,
                            },
                            leader_id: self.leader_for_pane(self.active_pane),
                        };
                    }
                }
            }
        }
        if update.id != self.last_active_view_id {
            self.last_active_view_id = update.id;
            self.update_followers(
                is_project_item,
                proto::Variant::UpdateActiveView(update),
                cx,
            );
        }
    }

    fn is_followed(&self, leader_id: PeerId) -> (followed: bool)
        ensures
            followed == follows(self@.follower_states, leader_id),
    {
        let mut i: usize = 0;
        while i < self.follower_states.len()
            invariant
                i <= self.follower_states.len(),
                forall|j: int|
                    0 <= j < i ==> (#[trigger] self@.follower_states[j]).leader_id != leader_id,
            decreases self.follower_states.len() - i,
        {
            if self.follower_states[i].leader_id == leader_id {
                assert(self@.follower_states[i as int].leader_id == leader_id);
                return true;
            }
            i += 1;
        }
        false
    }

    fn set_active_view(&mut self, leader_id: PeerId, active_view_id: Option<ViewId>)
        ensures
            final(self)@ == (WorkspaceView {
                follower_states: with_active_view(
                    old(self)@.follower_states,
                    leader_id,
                    active_view_id,
                ),
                ..old(self)@
            }),
    {
        let ghost before = *self;
        let ghost after = with_active_view(self@.follower_states, leader_id, active_view_id);
        let mut i: usize = 0;
        while i < self.follower_states.len()
            invariant
                i <= self.follower_states.len(),
                before == *old(self),
                after == with_active_view(before@.follower_states, leader_id, active_view_id),
                *self == (Workspace { follower_states: self.follower_states, ..before }),
                self.follower_states.len() == before.follower_states.len(),
                forall|j: int|
                    0 <= j < i ==> (#[trigger] self.follower_states@[j])@ == after[j],
                forall|j: int|
                    i <= j < self.follower_states.len() ==> #[trigger] self.follower_states@[j]
                        == before.follower_states@[j],
            decreases self.follower_states.len() - i,
        {
            assert(before@.follower_states[i as int] == before.follower_states@[i as int]@);
            if self.follower_states[i].leader_id == leader_id {
                self.follower_states[i].active_view_id = active_view_id;
            }
            i += 1;
        }
        assert(self@.follower_states =~= after);
    }

    fn apply_update(&self, leader_id: PeerId, id: ViewId, update: u64, cx: &mut Context)
        ensures
            final(cx)@ == old(cx)@.emit_all(
                update_effects(self@.follower_states, leader_id, id, update),
            ),
    {
        let ghost states = self@.follower_states;
        let mut i: usize = 0;
        while i < self.follower_states.len()
            invariant
                i <= self.follower_states.len(),
                states == self@.follower_states,
                cx@ =~= old(cx)@.emit_all(
                    update_effects(states.take(i as int), leader_id, id, update),
                ),
            decreases self.follower_states.len() - i,
        {
            proof {
                assert(states.take(i + 1).drop_last() =~= states.take(i as int));
                assert(states[i as int] == self.follower_states@[i as int]@);
            }
            if self.follower_states[i].leader_id == leader_id {
                if let Some(item) = self.follower_states[i].item_for_view(id) {
                    cx.emit(Effect::ApplyUpdate { item, update });
                }
            }
            i += 1;
        }
        assert(states.take(i as int) =~= states);
    }

    /// Processes an update of a leader up to what has to be waited for.
    pub fn process_leader_update(
        &mut self,
        leader_id: PeerId,
        variant: Option<proto::Variant>,
        cx: &mut Context,
    ) -> (result: Result<LeaderUpdate, Error>)
        ensures
            state(*final(self), *final(cx)) == state(*old(self), *old(cx)).process_leader_update(
                leader_id,
                variant,
            ),
            result == state(*old(self), *old(cx)).leader_update(leader_id, variant),
    {
        let followed = self.is_followed(leader_id);
        match variant {
            None => Err(Error::InvalidUpdate),
            Some(proto::Variant::UpdateActiveView(update)) => {
                if followed {
                    let active_view_id = match update.id {
                        Some(id) => match ViewId::from_proto(id) {
                            Ok(id) => Some(id),
                            Err(error) => {
                                return Err(error);
                            },
                        },
                        None => None,
                    };
                    self.set_active_view(leader_id, active_view_id);
                }
                Ok(LeaderUpdate::Finish)
            },
            Some(proto::Variant::UpdateView(update)) => {
                let change = match update.variant {
                    Some(change) => change,
                    None => {
                        return Err(Error::MissingUpdateViewVariant);
                    },
                };
                let id = match update.id {
                    Some(id) => id,
                    None => {
                        return Err(Error::MissingUpdateViewId);
                    },
                };
                if followed {
                    match ViewId::from_proto(id) {
                        Ok(id) => {
                            self.apply_update(leader_id, id, change, cx);
                        },
                        Err(error) => {
                            return Err(error);
                        },
                    }
                }
                Ok(LeaderUpdate::AwaitItems)
            },
            Some(proto::Variant::CreateView(view)) => Ok(LeaderUpdate::AddView(view)),
        }
    }

    /// The panes that follow a leader.
    pub fn panes_following(&self, leader_id: PeerId) -> (panes: Vec<u64>)
        ensures
            panes@ == following_panes(self@.follower_states, leader_id),
    {
        let ghost states = self@.follower_states;
        let mut panes: Vec<u64> = Vec::new();
        let mut i: usize = 0;
        while i < self.follower_states.len()
            invariant
                i <= self.follower_states.len(),
                states == self@.follower_states,
                panes@ == following_panes(states.take(i as int), leader_id),
            decreases self.follower_states.len() - i,
        {
            proof {
                assert(states.take(i + 1).drop_last() =~= states.take(i as int));
                assert(states[i as int] == self.follower_states@[i as int]@);
            }
            if self.follower_states[i].leader_id == leader_id {
                panes.push(self.follower_states[i].pane);
            }
            i += 1;
        }
        assert(states.take(i as int) =~= states);
        panes
    }

    fn show_leader_item(cx: &mut Context, pane_id: u64, item: u64)
        ensures
            final(cx)@ == old(cx)@.emit_all(activation_effects(old(cx)@, pane_id, item)),
    {
        let mut index: Option<usize> = None;
        let mut pane_was_focused = false;
        if let Some(pane) = cx.pane(pane_id) {
            pane_was_focused = pane.has_focus;
            index = pane.index_for_item(item);
        }
        match index {
            Some(index) => {
                cx.emit(
                    Effect::ActivateItem {
                        pane: pane_id,
                        index,
                        activate_pane: false,
                        focus_item: false,
                    },
                );
            },
            None => {
                cx.emit(
                    Effect::AddItem {
                        pane: pane_id,
                        item,
                        activate_pane: false,
                        focus_item: false,
                        index: None,
                    },
                );
            },
        }
        if pane_was_focused {
            cx.emit(Effect::FocusActiveItem(pane_id));
        }
        proof {
            assert(cx@.effects =~= old(cx)@.effects + activation_effects(
                old(cx)@,
                pane_id,
                item,
            ));
        }
    }

    fn item_to_activate(
        follower: &FollowerState,
        leader_id: PeerId,
        location: ParticipantLocation,
        cx: &Context,
    ) -> (item: Option<u64>)
        ensures
            item == item_to_activate(cx@, follower@, leader_id, location),
    {
        if follower.leader_id != leader_id {
            return None;
        }
        let leader_in_this_project = match location {
            ParticipantLocation::SharedProject { project_id } => Some(project_id)
                == cx.project.remote_id,
            ParticipantLocation::UnsharedProject => false,
            ParticipantLocation::External => {
                return None;
            },
        };
        let active_view_id = match follower.active_view_id {
            Some(id) => id,
            None => {
                return None;
            },
        };
        let item = match follower.item_for_view(active_view_id) {
            Some(item) => item,
            None => {
                return None;
            },
        };
        if leader_in_this_project {
            return Some(item);
        }
        let mut is_project_item = false;
        if let Some(item) = cx.item(item) {
            if let Some(followable) = item.followable {
                is_project_item = followable.is_project_item;
            }
        }
        if is_project_item {
            None
        } else {
            Some(item)
        }
    }

    /// Lets the panes that follow a leader show what the leader shows.
    pub fn leader_updated(&mut self, leader_id: PeerId, cx: &mut Context)
        ensures
            state(*final(self), *final(cx)) == state(*old(self), *old(cx)).leader_updated(
                leader_id,
            ),
    {
        let ghost before = cx@;
        cx.emit(Effect::Notify);
        let ghost notified = cx@;
        let mut participant: Option<Participant> = None;
        if let Some(room) = cx.room(self.active_call) {
            participant = room.participant(leader_id);
        }
        let location = match participant {
            Some(participant) => participant.location,
            None => {
                return;
            },
        };
        let ghost states = self@.follower_states;
        let mut i: usize = 0;
        proof {
            assert(cx@ =~= notified.emit_all(Seq::empty()));
        }
        while i < self.follower_states.len()
            invariant
                i <= self.follower_states.len(),
                states == self@.follower_states,
                self@ == old(self)@,
                notified == before.emit(EffectView::Notify),
                cx@ =~= notified.emit_all(
                    follow_effects(before, states.take(i as int), leader_id, location),
                ),
            decreases self.follower_states.len() - i,
        {
            proof {
                assert(states.take(i + 1).drop_last() =~= states.take(i as int));
                assert(states[i as int] == self.follower_states@[i as int]@);
            }
            let ghost shown = cx@;
            let item = Self::item_to_activate(&self.follower_states[i], leader_id, location, cx);
            if let Some(item) = item {
                let pane = self.follower_states[i].pane;
                Self::show_leader_item(cx, pane, item);
                proof {
                    assert(activation_effects(shown, pane, item) == activation_effects(
                        before,
                        pane,
                        item,
                    ));
                }
            }
            proof {
                assert(item == item_to_activate(before, states[i as int], leader_id, location));
            }
            i += 1;
        }
        assert(states.take(i as int) =~= states);
    }

    /// Something happened in the call that the workspace takes part in.
    pub fn on_active_call_event(&mut self, event: CallEvent, cx: &mut Context)
        ensures
            state(*final(self), *final(cx)) == state(*old(self), *old(cx)).on_active_call_event(
                event,
            ),
    {
        match event {
            CallEvent::ParticipantLocationChanged { participant_id } => {
                self.leader_updated(participant_id, cx);
            },
            CallEvent::RemoteVideoTracksChanged { participant_id } => {
                self.leader_updated(participant_id, cx);
            },
            CallEvent::Other => {},
        }
    }

    /// Gives a pane items that stand for views of its leader.
    pub fn add_leader_items(
        &mut self,
        leader_id: PeerId,
        pane: u64,
        added: &Vec<(ViewId, u64)>,
        cx: &mut Context,
    )
        ensures
            state(*final(self), *final(cx)) == state(*old(self), *old(cx)).add_leader_items(
                leader_id,
                pane,
                added@,
            ),
    {
        let index = match self.follower_state_index(pane) {
            Some(index) => index,
            None => {
                return;
            },
        };
        let ghost before = *self;
        let ghost old_follower = self@.follower_states[index as int];
        let mut i: usize = 0;
        proof {
            assert(self.follower_states@.update(index as int, self.follower_states@[index as int])
                =~= self.follower_states@);
        }
        while i < added.len()
            invariant
                i <= added.len(),
                index < self.follower_states.len(),
                before == *old(self),
                old_follower == before@.follower_states[index as int],
                index < before.follower_states.len(),
                self.follower_states@ == before.follower_states@.update(
                    index as int,
                    self.follower_states@[index as int],
                ),
                *self == (Workspace { follower_states: self.follower_states, ..before }),
                self.follower_states@[index as int]@ == (FollowerStateView {
                    items_by_leader_view_id: with_leader_items(
                        old_follower.items_by_leader_view_id,
                        added@.take(i as int),
                    ),
                    ..old_follower
                }),
            decreases added.len() - i,
        {
            proof {
                assert(added@.take(i + 1).drop_last() =~= added@.take(i as int));
            }
            self.follower_states[index].insert_item(added[i].0, added[i].1);
            i += 1;
        }
        cx.set_leaders(added, Some(leader_id));
        proof {
            assert(added@.take(i as int) =~= added@);
            let after = state(*old(self), *old(cx)).add_leader_items(leader_id, pane, added@);
            assert(self@.follower_states =~= after.workspace.follower_states);
            assert(self@ =~= after.workspace);
        }
    }
}

/// Each pane has at most one state.
pub open spec fn unique_panes(states: Seq<FollowerStateView>) -> bool {
    forall|i: int, j: int|
        0 <= i < j < states.len() ==> (#[trigger] states[i]).pane != (#[trigger] states[j]).pane
}

/// The place of the state of a pane is the first that is for that pane.
pub proof fn lemma_state_place(states: Seq<FollowerStateView>, pane: u64, i: int)
    requires
        0 <= i <= states.len(),
    ensures
        match state_place(states, pane, i) {
            Some(k) => i <= k < states.len() && states[k].pane == pane && forall|j: int|
                i <= j < k ==> (#[trigger] states[j]).pane != pane,
            None => forall|j: int| i <= j < states.len() ==> (#[trigger] states[j]).pane != pane,
        },
    decreases states.len() - i,
{
    if i < states.len() && states[i].pane != pane {
        lemma_state_place(states, pane, i + 1);
    }
}

/// Taking one state out does not change whom the other panes follow.
proof fn lemma_remove_state(states: Seq<FollowerStateView>, k: int, pane: u64)
    requires
        0 <= k < states.len(),
        unique_panes(states),
    ensures
        unique_panes(states.remove(k)),
        leader_of(states.remove(k), pane) == (if pane == states[k].pane {
            None
        } else {
            leader_of(states, pane)
        }),
{
    let rest = states.remove(k);
    assert forall|j: int| 0 <= j < rest.len() implies #[trigger] rest[j] == states[if j < k {
        j
    } else {
        j + 1
    }] by {}
    assert forall|i: int, j: int| 0 <= i < j < rest.len() implies (#[trigger] rest[i]).pane != (
    #[trigger] rest[j]).pane by {}
    lemma_state_place(states, pane, 0);
    lemma_state_place(rest, pane, 0);
    if let Some(p) = state_place(states, pane, 0) {
        if p != k {
            let q = if p < k {
                p
            } else {
                p - 1
            };
            assert(rest[q] == states[p]);
        }
    }
}

/// A pane that stops following has no leader, and every other pane keeps its own.
pub proof fn law_unfollow(s: State, pane: u64, other: u64)
    requires
        unique_panes(s.workspace.follower_states),
    ensures
        unique_panes(s.unfollow(pane).workspace.follower_states),
        s.unfollow(pane).leader_for_pane(pane) is None,
        other != pane ==> s.unfollow(pane).leader_for_pane(other) == s.leader_for_pane(other),
{
    let states = s.workspace.follower_states;
    lemma_state_place(states, pane, 0);
    if let Some(k) = state_place(states, pane, 0) {
        lemma_remove_state(states, k, pane);
        lemma_remove_state(states, k, other);
    }
}

proof fn lemma_states_without(states: Seq<FollowerStateView>, leader_id: PeerId, pane: u64)
    requires
        unique_panes(states),
    ensures
        unique_panes(states_without(states, leader_id)),
        forall|j: int|
            0 <= j < states_without(states, leader_id).len() ==> states.contains(
                #[trigger] states_without(states, leader_id)[j],
            ) && states_without(states, leader_id)[j].leader_id != leader_id,
        leader_of(states_without(states, leader_id), pane) == (if leader_of(states, pane) == Some(
            leader_id,
        ) {
            None
        } else {
            leader_of(states, pane)
        }),
    decreases states.len(),
{
    let rest = states_without(states, leader_id);
    lemma_state_place(states, pane, 0);
    lemma_state_place(rest, pane, 0);
    if states.len() > 0 {
        let init = states.drop_last();
        let before = states_without(init, leader_id);
        lemma_states_without(init, leader_id, pane);
        lemma_state_place(init, pane, 0);
        lemma_state_place(before, pane, 0);
        assert forall|j: int| 0 <= j < rest.len() implies states.contains(#[trigger] rest[j])
            && rest[j].leader_id != leader_id by {
            if j < before.len() {
                assert(rest[j] == before[j]);
                let k = init.index_of(before[j]);
                assert(states[k] == before[j]);
            } else {
                assert(states[states.len() - 1] == rest[j]);
            }
        }
        assert forall|i: int, j: int| 0 <= i < j < rest.len() implies (#[trigger] rest[i]).pane != (
        #[trigger] rest[j]).pane by {
            if j < before.len() {
                assert(rest[i] == before[i] && rest[j] == before[j]);
            } else {
                assert(rest[i] == before[i]);
                let k = init.index_of(before[i]);
                assert(states[k] == rest[i]);
                assert(rest[j] == states[states.len() - 1]);
            }
        }
        if states.last().pane == pane {
            assert forall|j: int| 0 <= j < init.len() implies (#[trigger] init[j]).pane != pane by {
                assert(states[j] == init[j]);
            }
            assert(state_place(init, pane, 0) is None);
            assert(state_place(states, pane, 0) == Some(states.len() - 1));
            if states.last().leader_id != leader_id {
                assert(rest[rest.len() - 1].pane == pane);
                assert forall|j: int| 0 <= j < before.len() implies (#[trigger] rest[j]).pane
                    != pane by {
                    let k = init.index_of(before[j]);
                    assert(init[k] == rest[j]);
                }
            } else {
                assert forall|j: int| 0 <= j < before.len() implies (#[trigger] rest[j]).pane
                    != pane by {
                    let k = init.index_of(before[j]);
                    assert(init[k] == rest[j]);
                }
            }
        } else {
            match state_place(init, pane, 0) {
                Some(k) => {
                    assert(states[k] == init[k]);
                    assert(state_place(states, pane, 0) == Some(k));
                },
                None => {
                    assert forall|j: int| 0 <= j < states.len() implies (#[trigger] states[j]).pane
                        != pane by {
                        if j < init.len() {
                            assert(states[j] == init[j]);
                        }
                    }
                },
            }
            match state_place(before, pane, 0) {
                Some(k) => {
                    assert(rest[k] == before[k]);
                    assert(state_place(rest, pane, 0) == Some(k));
                },
                None => {
                    assert forall|j: int| 0 <= j < rest.len() implies (#[trigger] rest[j]).pane
                        != pane by {
                        if j < before.len() {
                            assert(rest[j] == before[j]);
                        }
                    }
                },
            }
        }
    }
}

/// Once a collaborator has left, no pane follows them, and every other pane keeps its leader.
pub proof fn law_collaborator_left(s: State, peer_id: PeerId, pane: u64)
    requires
        unique_panes(s.workspace.follower_states),
    ensures
        unique_panes(s.collaborator_left(peer_id).workspace.follower_states),
        !follows(s.collaborator_left(peer_id).workspace.follower_states, peer_id),
        s.collaborator_left(peer_id).leader_for_pane(pane) == (if s.leader_for_pane(pane) == Some(
            peer_id,
        ) {
            None
        } else {
            s.leader_for_pane(pane)
        }),
{
    lemma_states_without(s.workspace.follower_states, peer_id, pane);
}

/// The followers are not told again of a view that they know to be active.
pub proof fn law_active_view_told_once(s: State)
    ensures
        s.update_active_view_for_followers().update_active_view_for_followers()
            == s.update_active_view_for_followers(),
{
}

/// A new follower who was told the active view of a focused pane is not told again.
pub proof fn law_follow_tells_active_view(s: State)
    requires
        s.cx.pane(s.workspace.active_pane) matches Some(pane) && pane.has_focus,
    ensures
        s.handle_follow().update_active_view_for_followers() == s.handle_follow(),
{
}

/// An update of a leader that is refused changes nothing.
pub proof fn law_refused_update(s: State, leader_id: PeerId, variant: Option<proto::Variant>)
    requires
        s.leader_update(leader_id, variant) is Err,
    ensures
        s.process_leader_update(leader_id, variant) == s,
{
}

/// An update of a leader whom nobody follows changes nothing.
pub proof fn law_update_of_stranger(s: State, leader_id: PeerId, variant: Option<proto::Variant>)
    requires
        !follows(s.workspace.follower_states, leader_id),
    ensures
        s.process_leader_update(leader_id, variant) == s,
{
}

pub proof fn lemma_view_place(items: Seq<(ViewId, u64)>, id: ViewId, i: int)
    requires
        0 <= i <= items.len(),
    ensures
        match view_place(items, id, i) {
            Some(k) => i <= k < items.len() && items[k].0 == id && leader_item(items, id, i) == Some(
                items[k].1,
            ) && forall|j: int| i <= j < k ==> (#[trigger] items[j]).0 != id,
            None => leader_item(items, id, i) is None && forall|j: int|
                i <= j < items.len() ==> (#[trigger] items[j]).0 != id,
        },
    decreases items.len() - i,
{
    if i < items.len() && items[i].0 != id {
        lemma_view_place(items, id, i + 1);
    }
}

/// An item that was made to stand for a view does so, and the other views keep theirs.
pub proof fn law_leader_item_found(items: Seq<(ViewId, u64)>, id: ViewId, item: u64, other: ViewId)
    ensures
        leader_item(with_leader_item(items, id, item), id, 0) == Some(item),
        other != id ==> leader_item(with_leader_item(items, id, item), other, 0) == leader_item(
            items,
            other,
            0,
        ),
{
    let after = with_leader_item(items, id, item);
    lemma_view_place(items, id, 0);
    lemma_view_place(after, id, 0);
    lemma_view_place(items, other, 0);
    lemma_view_place(after, other, 0);
    match view_place(items, id, 0) {
        Some(k) => {
            assert forall|j: int| 0 <= j < items.len() && j != k implies #[trigger] after[j]
                == items[j] by {}
            assert(after[k] == (id, item));
            if let Some(q) = view_place(items, other, 0) {
                assert(other != id ==> after[q] == items[q]);
            }
            if let Some(q) = view_place(after, other, 0) {
                assert(other != id ==> after[q] == items[q]);
            }
        },
        None => {
            assert forall|j: int| 0 <= j < items.len() implies #[trigger] after[j] == items[j] by {}
            assert(after[items.len() as int] == (id, item));
            if let Some(q) = view_place(items, other, 0) {
                assert(after[q] == items[q]);
            }
            if let Some(q) = view_place(after, other, 0) {
                assert(other != id ==> q < items.len());
                assert(other != id ==> after[q] == items[q]);
            }
        },
    }
}

} // verus!
