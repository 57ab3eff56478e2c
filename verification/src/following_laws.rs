//! What following comes to: whom an update of a leader reaches, and what is told to whom.

use crate::context::{
    find_participant, ContextView, EffectView, Participant, ParticipantLocation,
};
use crate::error::Error;
use crate::following::{
    activation_effects, follow_effects, following_panes, follows, item_message, item_to_activate,
    law_leader_item_found, leader_effects, leader_item, leader_of, left_effects, lemma_state_place,
    lemma_view_place, pane_messages, states_without, update_effects, view_messages,
    with_leader_items, LeaderUpdate,
};
use crate::proto;
use crate::proto::PeerId;
use crate::store::{law_recipients_in_order, Follower};
use crate::view_id::ViewId;
use crate::workspace::{pane_items, FollowerStateView, State, WorkspaceView};
use vstd::prelude::*;

verus! {

/// Another active view of a leader reaches the panes that follow that leader, and no others:
/// they have that view as the active one, with everything else as it was.
pub proof fn law_active_view_reaches_followers(
    s: State,
    leader_id: PeerId,
    update: proto::UpdateActiveView,
    i: int,
)
    requires
        s.leader_update(leader_id, Some(proto::Variant::UpdateActiveView(update))) is Ok,
        0 <= i < s.workspace.follower_states.len(),
    ensures
        ({
            let before = s.workspace.follower_states;
            let t = s.process_leader_update(
                leader_id,
                Some(proto::Variant::UpdateActiveView(update)),
            );
            let after = t.workspace.follower_states;
            &&& after.len() == before.len()
            &&& before[i].leader_id != leader_id ==> after[i] == before[i]
            &&& before[i].leader_id == leader_id ==> {
                &&& after[i].pane == before[i].pane
                &&& after[i].leader_id == leader_id
                &&& after[i].items_by_leader_view_id == before[i].items_by_leader_view_id
                &&& match update.id {
                    Some(id) => after[i].active_view_id matches Some(active) && id.creator == Some(
                        active.creator,
                    ) && id.id == active.id,
                    None => after[i].active_view_id is None,
                }
            }
            &&& t.workspace == (WorkspaceView { follower_states: after, ..s.workspace })
            &&& t.cx == s.cx
        }),
{
}

/// When an update of a leader is accepted, and what it then waits for. One without content is
/// refused; so is a change without content or without a view; and a view without a creator is
/// refused where a pane follows the leader.
pub proof fn law_update_accepted(s: State, leader_id: PeerId, variant: Option<proto::Variant>)
    ensures
        ({
            let states = s.workspace.follower_states;
            let followed = exists|i: int|
                0 <= i < states.len() && (#[trigger] states[i]).leader_id == leader_id;
            let result = s.leader_update(leader_id, variant);
            match variant {
                None => result == Err::<LeaderUpdate, Error>(Error::InvalidUpdate),
                Some(proto::Variant::UpdateActiveView(update)) => {
                    let nameless = update.id matches Some(id) && id.creator is None;
                    &&& followed && nameless ==> result == Err::<LeaderUpdate, Error>(
                        Error::MissingCreator,
                    )
                    &&& !followed || !nameless ==> result == Ok::<LeaderUpdate, Error>(
                        LeaderUpdate::Finish,
                    )
                },
                Some(proto::Variant::UpdateView(update)) => {
                    let nameless = update.id matches Some(id) && id.creator is None;
                    &&& update.variant is None ==> result == Err::<LeaderUpdate, Error>(
                        Error::MissingUpdateViewVariant,
                    )
                    &&& update.variant is Some && update.id is None ==> result == Err::<
                        LeaderUpdate,
                        Error,
                    >(Error::MissingUpdateViewId)
                    &&& update.variant is Some && followed && nameless ==> result == Err::<
                        LeaderUpdate,
                        Error,
                    >(Error::MissingCreator)
                    &&& update.variant is Some && update.id is Some && (!followed || !nameless)
                        ==> result == Ok::<LeaderUpdate, Error>(LeaderUpdate::AwaitItems)
                },
                Some(proto::Variant::CreateView(view)) => {
                    &&& result == Ok::<LeaderUpdate, Error>(LeaderUpdate::AddView(view))
                    &&& s.process_leader_update(leader_id, variant) == s
                },
            }
        }),
{
}

/// The item that stands for a view is that of the first pair with the view.
pub proof fn law_leader_item(items: Seq<(ViewId, u64)>, id: ViewId)
    ensures
        match leader_item(items, id, 0) {
            Some(item) => exists|k: int|
                0 <= k < items.len() && (#[trigger] items[k]) == (id, item) && forall|j: int|
                    0 <= j < k ==> (#[trigger] items[j]).0 != id,
            None => forall|j: int| 0 <= j < items.len() ==> (#[trigger] items[j]).0 != id,
        },
{
    lemma_view_place(items, id, 0);
}

proof fn lemma_update_effects(
    states: Seq<FollowerStateView>,
    leader_id: PeerId,
    id: ViewId,
    update: u64,
)
    ensures
        update_effects(states, leader_id, id, update) == states.filter(
            |s: FollowerStateView|
                s.leader_id == leader_id && leader_item(s.items_by_leader_view_id, id, 0) is Some,
        ).map_values(
            |s: FollowerStateView|
                EffectView::ApplyUpdate {
                    item: leader_item(s.items_by_leader_view_id, id, 0)->0,
                    update,
                },
        ),
    decreases states.len(),
{
    reveal(Seq::filter);
    let reached = |s: FollowerStateView|
        s.leader_id == leader_id && leader_item(s.items_by_leader_view_id, id, 0) is Some;
    let effect = |s: FollowerStateView|
        EffectView::ApplyUpdate {
            item: leader_item(s.items_by_leader_view_id, id, 0)->0,
            update,
        };
    if states.len() > 0 {
        let init = states.drop_last();
        lemma_update_effects(init, leader_id, id, update);
        assert(init.filter(reached).push(states.last()).map_values(effect) =~= init.filter(
            reached,
        ).map_values(effect).push(effect(states.last())));
    } else {
        assert(update_effects(states, leader_id, id, update) =~= states.filter(reached).map_values(
            effect,
        ));
    }
}

/// A change inside a view of a leader is applied to the item that stands for the view in each
/// pane that follows that leader and has one, in the order of the panes and to nothing else.
/// The workspace stays as it is.
pub proof fn law_change_reaches_items(
    s: State,
    leader_id: PeerId,
    message: proto::UpdateView,
    creator: PeerId,
)
    requires
        s.leader_update(leader_id, Some(proto::Variant::UpdateView(message))) is Ok,
        message.id matches Some(id) && id.creator == Some(creator),
    ensures
        ({
            let id = ViewId { creator, id: message.id->Some_0.id };
            let t = s.process_leader_update(leader_id, Some(proto::Variant::UpdateView(message)));
            &&& t.workspace == s.workspace
            &&& t.cx.effects == s.cx.effects + s.workspace.follower_states.filter(
                |s: FollowerStateView|
                    s.leader_id == leader_id && leader_item(
                        s.items_by_leader_view_id,
                        id,
                        0,
                    ) is Some,
            ).map_values(
                |s: FollowerStateView|
                    EffectView::ApplyUpdate {
                        item: leader_item(s.items_by_leader_view_id, id, 0)->0,
                        update: message.variant->0,
                    },
            )
        }),
{
    let id = ViewId { creator, id: message.id->Some_0.id };
    let states = s.workspace.follower_states;
    let t = s.process_leader_update(leader_id, Some(proto::Variant::UpdateView(message)));
    lemma_update_effects(states, leader_id, id, message.variant->0);
    if !follows(states, leader_id) {
        let reached = |s: FollowerStateView|
            s.leader_id == leader_id && leader_item(s.items_by_leader_view_id, id, 0) is Some;
        if states.filter(reached).len() > 0 {
            states.lemma_filter_pred(reached, 0);
            let first = states.filter(reached)[0];
            assert(states.filter(reached).contains(first));
            states.lemma_filter_contains_rev(reached, first);
            let k = states.index_of(first);
            assert(states[k].leader_id == leader_id);
        }
        assert(t.cx.effects =~= s.cx.effects + update_effects(
            states,
            leader_id,
            id,
            message.variant->0,
        ));
    }
}

/// The panes that follow a leader are those of all states with that leader, in their order.
pub proof fn law_following_panes(states: Seq<FollowerStateView>, leader_id: PeerId)
    ensures
        following_panes(states, leader_id) == states.filter(
            |s: FollowerStateView| s.leader_id == leader_id,
        ).map_values(|s: FollowerStateView| s.pane),
    decreases states.len(),
{
    reveal(Seq::filter);
    let led = |s: FollowerStateView| s.leader_id == leader_id;
    let pane = |s: FollowerStateView| s.pane;
    if states.len() > 0 {
        let init = states.drop_last();
        law_following_panes(init, leader_id);
        assert(init.filter(led).push(states.last()).map_values(pane) =~= init.filter(
            led,
        ).map_values(pane).push(states.last().pane));
    } else {
        assert(following_panes(states, leader_id) =~= states.filter(led).map_values(pane));
    }
}

/// Whom a pane follows is what its state says, and a pane without a state follows nobody.
pub proof fn law_leader_for_pane(s: State, pane: u64)
    ensures
        match s.leader_for_pane(pane) {
            Some(leader_id) => exists|k: int|
                0 <= k < s.workspace.follower_states.len() && (
                #[trigger] s.workspace.follower_states[k]).pane == pane
                    && s.workspace.follower_states[k].leader_id == leader_id && forall|j: int|
                    0 <= j < k ==> (#[trigger] s.workspace.follower_states[j]).pane != pane,
            None => forall|j: int|
                0 <= j < s.workspace.follower_states.len() ==> (
                #[trigger] s.workspace.follower_states[j]).pane != pane,
        },
{
    lemma_state_place(s.workspace.follower_states, pane, 0);
}

/// Whether a pane that follows is to show an item, while its leader is somewhere: the item
/// stands for the leader's active view, the leader is in the application, and the item can be
/// seen from where the leader is.
pub open spec fn is_to_show(
    cx: ContextView,
    follower: FollowerStateView,
    leader_id: PeerId,
    location: ParticipantLocation,
    item: u64,
) -> bool {
    &&& follower.leader_id == leader_id
    &&& location != ParticipantLocation::External
    &&& follower.active_view_id matches Some(id) && leader_item(
        follower.items_by_leader_view_id,
        id,
        0,
    ) == Some(item)
    &&& (location matches ParticipantLocation::SharedProject { project_id } && cx.project.remote_id
        == Some(project_id)) || !(cx.item(item) matches Some(found)
        && found.followable matches Some(followable) && followable.is_project_item)
}

/// Whether an effect shows an item in a pane, without moving the focus: the item is activated
/// where it stands in the pane, and added where it does not.
pub open spec fn shows(cx: ContextView, effect: EffectView, pane: u64, item: u64) -> bool {
    match cx.pane(pane) {
        Some(found) => match found.index_for_item(item) {
            Some(index) => effect == EffectView::ActivateItem {
                pane,
                index,
                activate_pane: false,
                focus_item: false,
            },
            None => effect == EffectView::AddItem {
                pane,
                item,
                activate_pane: false,
                focus_item: false,
                index: None,
            },
        },
        None => effect == EffectView::AddItem {
            pane,
            item,
            activate_pane: false,
            focus_item: false,
            index: None,
        },
    }
}

proof fn lemma_item_to_activate(
    cx: ContextView,
    follower: FollowerStateView,
    leader_id: PeerId,
    location: ParticipantLocation,
    item: u64,
)
    ensures
        item_to_activate(cx, follower, leader_id, location) == Some(item) <==> is_to_show(
            cx,
            follower,
            leader_id,
            location,
            item,
        ),
{
}

/// Whether some effects show an item in a pane, and bring the focus to it where the pane has it.
pub open spec fn are_showing(cx: ContextView, effects: Seq<EffectView>, pane: u64, item: u64) -> bool {
    &&& exists|j: int| 0 <= j < effects.len() && shows(cx, #[trigger] effects[j], pane, item)
    &&& cx_has_focus(cx, pane) ==> effects.contains(EffectView::FocusActiveItem(pane))
}

/// Whether an effect shows an item in a pane that is to show it, or brings the focus to it.
pub open spec fn is_called_for(
    cx: ContextView,
    states: Seq<FollowerStateView>,
    leader_id: PeerId,
    location: ParticipantLocation,
    effect: EffectView,
) -> bool {
    exists|i: int, item: u64|
        0 <= i < states.len() && #[trigger] is_to_show(cx, states[i], leader_id, location, item)
            && (shows(cx, effect, states[i].pane, item) || (effect == EffectView::FocusActiveItem(
            states[i].pane,
        ) && cx_has_focus(cx, states[i].pane)))
}

proof fn lemma_shown_before(
    cx: ContextView,
    before: Seq<EffectView>,
    own: Seq<EffectView>,
    pane: u64,
    item: u64,
)
    requires
        are_showing(cx, before, pane, item) || are_showing(cx, own, pane, item),
    ensures
        are_showing(cx, before + own, pane, item),
{
    let whole = before + own;
    let focus = EffectView::FocusActiveItem(pane);
    if are_showing(cx, before, pane, item) {
        let j = choose|j: int|
            0 <= j < before.len() && shows(cx, #[trigger] before[j], pane, item);
        assert(whole[j] == before[j]);
        if before.contains(focus) {
            let q = before.index_of(focus);
            assert(whole[q] == focus);
        }
    } else {
        let j = choose|j: int| 0 <= j < own.len() && shows(cx, #[trigger] own[j], pane, item);
        assert(whole[before.len() + j] == own[j]);
        if own.contains(focus) {
            let q = own.index_of(focus);
            assert(whole[before.len() + q] == focus);
        }
    }
}

proof fn lemma_shown(
    cx: ContextView,
    states: Seq<FollowerStateView>,
    leader_id: PeerId,
    location: ParticipantLocation,
    i: int,
    item: u64,
)
    requires
        0 <= i < states.len(),
        is_to_show(cx, states[i], leader_id, location, item),
    ensures
        are_showing(
            cx,
            follow_effects(cx, states, leader_id, location),
            states[i].pane,
            item,
        ),
    decreases states.len(),
{
    let init = states.drop_last();
    let last = states.last();
    let before = follow_effects(cx, init, leader_id, location);
    let pane = states[i].pane;
    if i < init.len() {
        assert(init[i] == states[i]);
        lemma_shown(cx, init, leader_id, location, i, item);
        match item_to_activate(cx, last, leader_id, location) {
            Some(other) => {
                lemma_shown_before(
                    cx,
                    before,
                    activation_effects(cx, last.pane, other),
                    pane,
                    item,
                );
            },
            None => {},
        }
    } else {
        lemma_item_to_activate(cx, last, leader_id, location, item);
        let own = activation_effects(cx, last.pane, item);
        assert(shows(cx, own[0], pane, item));
        if cx_has_focus(cx, pane) {
            assert(own[1] == EffectView::FocusActiveItem(pane));
        }
        lemma_shown_before(cx, before, own, pane, item);
    }
}

proof fn lemma_only_called_for(
    cx: ContextView,
    states: Seq<FollowerStateView>,
    leader_id: PeerId,
    location: ParticipantLocation,
    j: int,
)
    requires
        0 <= j < follow_effects(cx, states, leader_id, location).len(),
    ensures
        is_called_for(
            cx,
            states,
            leader_id,
            location,
            follow_effects(cx, states, leader_id, location)[j],
        ),
    decreases states.len(),
{
    let init = states.drop_last();
    let last = states.last();
    let n = states.len() - 1;
    let before = follow_effects(cx, init, leader_id, location);
    let effect = follow_effects(cx, states, leader_id, location)[j];
    if j < before.len() {
        lemma_only_called_for(cx, init, leader_id, location, j);
        let (i, item) = choose|i: int, item: u64|
            0 <= i < init.len() && #[trigger] is_to_show(cx, init[i], leader_id, location, item)
                && (shows(cx, effect, init[i].pane, item) || (effect
                == EffectView::FocusActiveItem(init[i].pane) && cx_has_focus(cx, init[i].pane)));
        assert(states[i] == init[i]);
        assert(is_to_show(cx, states[i], leader_id, location, item));
    } else {
        let item = item_to_activate(cx, last, leader_id, location)->0;
        lemma_item_to_activate(cx, last, leader_id, location, item);
        let own = activation_effects(cx, last.pane, item);
        assert(effect == own[j - before.len()]);
        assert(states[n] == last);
        assert(is_to_show(cx, states[n], leader_id, location, item));
    }
}

/// When something of a leader changed who takes part in the call: each pane that follows the
/// leader shows the item that stands for the leader's active view, where that can be seen; a
/// pane that has the focus keeps it in that item; and nothing happens in any other pane.
pub proof fn law_panes_show_leader(s: State, leader_id: PeerId, participant: Participant)
    requires
        s.cx.room(s.workspace.active_call) matches Some(room) && find_participant(
            room.participants,
            leader_id,
            0,
        ) == Some(participant),
    ensures
        ({
            let states = s.workspace.follower_states;
            let location = participant.location;
            let t = s.leader_updated(leader_id);
            let n = s.cx.effects.len() as int;
            let shown = t.cx.effects.skip(n + 1);
            &&& t.workspace == s.workspace
            &&& t.cx.effects.take(n + 1) == s.cx.effects.push(EffectView::Notify)
            &&& forall|i: int, item: u64|
                0 <= i < states.len() && #[trigger] is_to_show(
                    s.cx,
                    states[i],
                    leader_id,
                    location,
                    item,
                ) ==> are_showing(s.cx, shown, states[i].pane, item)
            &&& forall|j: int|
                0 <= j < shown.len() ==> is_called_for(
                    s.cx,
                    states,
                    leader_id,
                    location,
                    #[trigger] shown[j],
                )
        }),
{
    let states = s.workspace.follower_states;
    let location = participant.location;
    let t = s.leader_updated(leader_id);
    let n = s.cx.effects.len() as int;
    let new = follow_effects(s.cx, states, leader_id, location);
    assert(t.cx.effects == s.cx.effects.push(EffectView::Notify) + new);
    assert(t.cx.effects.take(n + 1) =~= s.cx.effects.push(EffectView::Notify));
    assert(t.cx.effects.skip(n + 1) =~= new);
    assert forall|i: int, item: u64|
        0 <= i < states.len() && #[trigger] is_to_show(
            s.cx,
            states[i],
            leader_id,
            location,
            item,
        ) implies are_showing(s.cx, new, states[i].pane, item) by {
        lemma_shown(s.cx, states, leader_id, location, i, item);
    }
    assert forall|j: int| 0 <= j < new.len() implies is_called_for(
        s.cx,
        states,
        leader_id,
        location,
        #[trigger] new[j],
    ) by {
        lemma_only_called_for(s.cx, states, leader_id, location, j);
    }
}

/// Whether a pane has the focus.
pub open spec fn cx_has_focus(cx: ContextView, pane: u64) -> bool {
    cx.pane(pane) matches Some(found) && found.has_focus
}

/// A leader who does not take part in the call that the workspace is in is not followed
/// anywhere. What happens in the call concerns the leader whom it is about.
pub proof fn law_absent_leader(s: State, leader_id: PeerId)
    ensures
        (match s.cx.room(s.workspace.active_call) {
            Some(room) => find_participant(room.participants, leader_id, 0) is None,
            None => true,
        }) ==> s.leader_updated(leader_id) == s.notify(),
{
}

proof fn lemma_states_without(states: Seq<FollowerStateView>, leader_id: PeerId)
    ensures
        states_without(states, leader_id) == states.filter(
            |s: FollowerStateView| s.leader_id != leader_id,
        ),
    decreases states.len(),
{
    reveal(Seq::filter);
    if states.len() > 0 {
        lemma_states_without(states.drop_last(), leader_id);
    } else {
        assert(states_without(states, leader_id) =~= states.filter(
            |s: FollowerStateView| s.leader_id != leader_id,
        ));
    }
}

proof fn lemma_left_effects(states: Seq<FollowerStateView>, leader_id: PeerId, item: u64)
    ensures
        left_effects(states, leader_id).contains(EffectView::SetLeader { item, leader_id: None })
            <==> exists|i: int, k: int|
            0 <= i < states.len() && states[i].leader_id == leader_id && 0 <= k
                < states[i].items_by_leader_view_id.len() && (
            #[trigger] states[i].items_by_leader_view_id[k]).1 == item,
        forall|j: int|
            0 <= j < left_effects(states, leader_id).len() ==> (#[trigger] left_effects(
                states,
                leader_id,
            )[j] matches EffectView::SetLeader { leader_id, .. } && leader_id is None),
    decreases states.len(),
{
    let effect = EffectView::SetLeader { item, leader_id: None };
    let whole = left_effects(states, leader_id);
    if states.len() > 0 {
        let init = states.drop_last();
        let last = states.last();
        let n = states.len() - 1;
        let before = left_effects(init, leader_id);
        let items = last.items_by_leader_view_id;
        let own = leader_effects(items, None);
        lemma_left_effects(init, leader_id, item);
        assert(states[n] == last);
        if whole.contains(effect) {
            let j = whole.index_of(effect);
            if j < before.len() {
                assert(before[j] == effect);
                let (i, k) = choose|i: int, k: int|
                    0 <= i < init.len() && init[i].leader_id == leader_id && 0 <= k
                        < init[i].items_by_leader_view_id.len() && (
                    #[trigger] init[i].items_by_leader_view_id[k]).1 == item;
                assert(states[i].items_by_leader_view_id[k].1 == item);
            } else {
                let k = j - before.len();
                assert(own[k] == effect);
                assert(states[n].items_by_leader_view_id[k].1 == item);
            }
        }
        if exists|i: int, k: int|
            0 <= i < states.len() && states[i].leader_id == leader_id && 0 <= k
                < states[i].items_by_leader_view_id.len() && (
            #[trigger] states[i].items_by_leader_view_id[k]).1 == item {
            let (i, k) = choose|i: int, k: int|
                0 <= i < states.len() && states[i].leader_id == leader_id && 0 <= k
                    < states[i].items_by_leader_view_id.len() && (
                #[trigger] states[i].items_by_leader_view_id[k]).1 == item;
            if i < n {
                assert(init[i].items_by_leader_view_id[k].1 == item);
                let j = before.index_of(effect);
                assert(whole[j] == effect);
            } else {
                assert(own[k] == effect);
                assert(whole[before.len() + k] == effect);
            }
        }
    } else {
        assert(!whole.contains(effect));
    }
}

/// When a collaborator leaves, the states of all others stay, in their order; and exactly the
/// items that stand for views of the one who left are told that they follow nobody.
pub proof fn law_items_released(s: State, peer_id: PeerId, item: u64)
    ensures
        ({
            let states = s.workspace.follower_states;
            let t = s.collaborator_left(peer_id);
            let new = t.cx.effects.skip(s.cx.effects.len() as int);
            &&& t.workspace == (WorkspaceView {
                follower_states: states.filter(|s: FollowerStateView| s.leader_id != peer_id),
                ..s.workspace
            })
            &&& t.cx.effects.take(s.cx.effects.len() as int) == s.cx.effects
            &&& t.cx.effects.last() == EffectView::Notify
            &&& new.contains(EffectView::SetLeader { item, leader_id: None }) <==> exists|
                i: int,
                k: int,
            |
                0 <= i < states.len() && states[i].leader_id == peer_id && 0 <= k
                    < states[i].items_by_leader_view_id.len() && (
                #[trigger] states[i].items_by_leader_view_id[k]).1 == item
        }),
{
    let states = s.workspace.follower_states;
    let t = s.collaborator_left(peer_id);
    let left = left_effects(states, peer_id);
    let new = t.cx.effects.skip(s.cx.effects.len() as int);
    let effect = EffectView::SetLeader { item, leader_id: None };
    lemma_states_without(states, peer_id);
    lemma_left_effects(states, peer_id, item);
    assert(t.cx.effects.take(s.cx.effects.len() as int) =~= s.cx.effects);
    assert(new =~= left.push(EffectView::Notify));
    if left.contains(effect) {
        let j = left.index_of(effect);
        assert(new[j] == effect);
    }
    if new.contains(effect) {
        let j = new.index_of(effect);
        assert(left[j] == effect);
    }
}

/// A pane that stops following: its state goes and the others stay in their order; the items
/// that stood for views of its leader are told, one after the other, that they follow nobody;
/// and then the server is told if it was the last state, we are in a room, and whom it followed.
pub proof fn law_unfollow_tells(s: State, pane: u64, k: int)
    requires
        0 <= k < s.workspace.follower_states.len(),
        s.workspace.follower_states[k].pane == pane,
        forall|j: int| 0 <= j < k ==> (#[trigger] s.workspace.follower_states[j]).pane != pane,
    ensures
        ({
            let states = s.workspace.follower_states;
            let items = states[k].items_by_leader_view_id;
            let released = items.map_values(
                |i: (ViewId, u64)| EffectView::SetLeader { item: i.1, leader_id: None },
            );
            let t = s.unfollow(pane);
            let room_id = s.cx.room_id(s.workspace.active_call);
            &&& t.workspace == (WorkspaceView { follower_states: states.remove(k), ..s.workspace })
            &&& states.len() > 1 ==> t.cx.effects == (s.cx.effects + released).push(
                EffectView::Notify,
            ) && s.unfollowed(pane) == Some(states[k].leader_id)
            &&& states.len() == 1 && room_id is None ==> t.cx.effects == s.cx.effects + released
                && s.unfollowed(pane) is None
            &&& states.len() == 1 && room_id is Some ==> t.cx.effects == (s.cx.effects
                + released).push(
                EffectView::SendUnfollow(
                    proto::Unfollow {
                        room_id: room_id->0,
                        project_id: s.cx.project.remote_id,
                        leader_id: Some(states[k].leader_id),
                    },
                ),
            ).push(EffectView::Notify) && s.unfollowed(pane) == Some(states[k].leader_id)
        }),
{
    lemma_state_place(s.workspace.follower_states, pane, 0);
}

/// A pane that follows nobody cannot stop following.
pub proof fn law_unfollow_nobody(s: State, pane: u64)
    requires
        forall|j: int|
            0 <= j < s.workspace.follower_states.len() ==> (
            #[trigger] s.workspace.follower_states[j]).pane != pane,
    ensures
        s.unfollow(pane) == s,
        s.unfollowed(pane) is None,
{
    lemma_state_place(s.workspace.follower_states, pane, 0);
}

/// Whether a new follower is told of an item: it can be followed, and if it belongs to the
/// project the follower is in that project and the project is shared.
pub open spec fn is_told_of(
    cx: ContextView,
    item: u64,
    leader_id: Option<PeerId>,
    follower_project_id: Option<u64>,
    view: proto::View,
) -> bool {
    &&& cx.item(item) matches Some(found)
    &&& found.followable matches Some(followable)
    &&& followable.remote_id matches Some(id)
    &&& followable.state is Some
    &&& view.id == Some(proto::ViewId { creator: Some(id.creator), id: id.id })
    &&& view.variant == followable.state
    &&& view.leader_id == leader_id
    &&& followable.is_project_item ==> cx.project.remote_id is Some && cx.project.remote_id
        == follower_project_id
}

proof fn lemma_item_message(
    cx: ContextView,
    item: u64,
    leader_id: Option<PeerId>,
    follower_project_id: Option<u64>,
    view: proto::View,
)
    ensures
        item_message(cx, item, leader_id, follower_project_id) == Some(view) <==> is_told_of(
            cx,
            item,
            leader_id,
            follower_project_id,
            view,
        ),
{
}

proof fn lemma_pane_messages(
    cx: ContextView,
    items: Seq<u64>,
    leader_id: Option<PeerId>,
    follower_project_id: Option<u64>,
    view: proto::View,
)
    ensures
        pane_messages(cx, items, leader_id, follower_project_id).contains(view) <==> exists|k: int|
            0 <= k < items.len() && is_told_of(
                cx,
                #[trigger] items[k],
                leader_id,
                follower_project_id,
                view,
            ),
    decreases items.len(),
{
    let whole = pane_messages(cx, items, leader_id, follower_project_id);
    if items.len() > 0 {
        let init = items.drop_last();
        let n = items.len() - 1;
        let before = pane_messages(cx, init, leader_id, follower_project_id);
        lemma_pane_messages(cx, init, leader_id, follower_project_id, view);
        lemma_item_message(cx, items.last(), leader_id, follower_project_id, view);
        if whole.contains(view) {
            let j = whole.index_of(view);
            if j < before.len() {
                assert(before[j] == view);
                let k = choose|k: int|
                    0 <= k < init.len() && is_told_of(
                        cx,
                        #[trigger] init[k],
                        leader_id,
                        follower_project_id,
                        view,
                    );
                assert(items[k] == init[k]);
            } else {
                assert(items[n] == items.last());
            }
        }
        if exists|k: int|
            0 <= k < items.len() && is_told_of(
                cx,
                #[trigger] items[k],
                leader_id,
                follower_project_id,
                view,
            ) {
            let k = choose|k: int|
                0 <= k < items.len() && is_told_of(
                    cx,
                    #[trigger] items[k],
                    leader_id,
                    follower_project_id,
                    view,
                );
            if k < n {
                assert(init[k] == items[k]);
                let j = before.index_of(view);
                assert(whole[j] == view);
            } else {
                assert(whole[before.len() as int] == view);
            }
        }
    } else {
        assert(!whole.contains(view));
    }
}

proof fn lemma_view_messages(
    cx: ContextView,
    panes: Seq<u64>,
    states: Seq<FollowerStateView>,
    follower_project_id: Option<u64>,
    view: proto::View,
)
    ensures
        view_messages(cx, panes, states, follower_project_id).contains(view) <==> exists|
            p: int,
            k: int,
        |
            0 <= p < panes.len() && 0 <= k < pane_items(cx, panes[p]).len() && is_told_of(
                cx,
                #[trigger] pane_items(cx, panes[p])[k],
                leader_of(states, panes[p]),
                follower_project_id,
                view,
            ),
    decreases panes.len(),
{
    let whole = view_messages(cx, panes, states, follower_project_id);
    if panes.len() > 0 {
        let init = panes.drop_last();
        let n = panes.len() - 1;
        let before = view_messages(cx, init, states, follower_project_id);
        let items = pane_items(cx, panes.last());
        let leader_id = leader_of(states, panes.last());
        let own = pane_messages(cx, items, leader_id, follower_project_id);
        lemma_view_messages(cx, init, states, follower_project_id, view);
        lemma_pane_messages(cx, items, leader_id, follower_project_id, view);
        assert(panes[n] == panes.last());
        if whole.contains(view) {
            let j = whole.index_of(view);
            if j < before.len() {
                assert(before[j] == view);
                let (p, k) = choose|p: int, k: int|
                    0 <= p < init.len() && 0 <= k < pane_items(cx, init[p]).len() && is_told_of(
                        cx,
                        #[trigger] pane_items(cx, init[p])[k],
                        leader_of(states, init[p]),
                        follower_project_id,
                        view,
                    );
                assert(panes[p] == init[p]);
                assert(pane_items(cx, panes[p])[k] == pane_items(cx, init[p])[k]);
            } else {
                assert(own[j - before.len()] == view);
                let k = choose|k: int|
                    0 <= k < items.len() && is_told_of(
                        cx,
                        #[trigger] items[k],
                        leader_id,
                        follower_project_id,
                        view,
                    );
                assert(pane_items(cx, panes[n])[k] == items[k]);
            }
        }
        if exists|p: int, k: int|
            0 <= p < panes.len() && 0 <= k < pane_items(cx, panes[p]).len() && is_told_of(
                cx,
                #[trigger] pane_items(cx, panes[p])[k],
                leader_of(states, panes[p]),
                follower_project_id,
                view,
            ) {
            let (p, k) = choose|p: int, k: int|
                0 <= p < panes.len() && 0 <= k < pane_items(cx, panes[p]).len() && is_told_of(
                    cx,
                    #[trigger] pane_items(cx, panes[p])[k],
                    leader_of(states, panes[p]),
                    follower_project_id,
                    view,
                );
            if p < n {
                assert(init[p] == panes[p]);
                assert(pane_items(cx, init[p])[k] == pane_items(cx, panes[p])[k]);
                let j = before.index_of(view);
                assert(whole[j] == view);
            } else {
                assert(items[k] == pane_items(cx, panes[p])[k]);
                let j = own.index_of(view);
                assert(whole[before.len() + j] == view);
            }
        }
    } else {
        assert(!whole.contains(view));
    }
}

/// A new follower is told of exactly the items in the panes of the workspace that can be
/// followed from where they are, each with whom its pane follows; and of the active view, which
/// is that of the active item if it can be followed. The workspace notes that view.
pub proof fn law_follow_response(s: State, follower_project_id: Option<u64>, view: proto::View)
    ensures
        ({
            let response = s.follow_response(follower_project_id);
            let panes = s.workspace.panes;
            &&& response.views.contains(view) <==> exists|p: int, k: int|
                0 <= p < panes.len() && 0 <= k < pane_items(s.cx, panes[p]).len() && is_told_of(
                    s.cx,
                    #[trigger] pane_items(s.cx, panes[p])[k],
                    s.leader_for_pane(panes[p]),
                    follower_project_id,
                    view,
                )
            &&& match response.active_view_id {
                Some(id) => s.active_item() matches Some(item) && s.cx.item(item) matches Some(
                    found,
                ) && found.followable matches Some(followable)
                    && followable.remote_id matches Some(remote_id) && id.creator == Some(
                    remote_id.creator,
                ) && id.id == remote_id.id,
                None => !(s.active_item() matches Some(item) && s.cx.item(item) matches Some(found)
                    && found.followable matches Some(followable)
                    && followable.remote_id is Some),
            }
            &&& s.handle_follow().workspace.last_active_view_id == response.active_view_id
        }),
{
    lemma_view_messages(
        s.cx,
        s.workspace.panes,
        s.workspace.follower_states,
        follower_project_id,
        view,
    );
}

/// The items of a pane, in their order; none of a pane that is gone.
pub proof fn law_pane_items_of(cx: ContextView, pane: u64)
    ensures
        cx.pane(pane) matches Some(found) ==> pane_items(cx, pane) == found.items,
        cx.pane(pane) is None ==> pane_items(cx, pane).len() == 0,
{
}

/// Followers are told which view is active when it is another than they were told last: that of
/// the active item, if its pane has the focus and it can be followed, and else none. The update
/// says whom the active pane follows.
pub proof fn law_active_view_told(s: State)
    ensures
        ({
            let t = s.update_active_view_for_followers();
            let update = s.active_view_update();
            &&& match update.id {
                Some(id) => cx_has_focus(s.cx, s.workspace.active_pane) && update.leader_id
                    == s.leader_for_pane(s.workspace.active_pane) && (
                s.active_item() matches Some(item) && s.cx.item(item) matches Some(found)
                    && found.followable matches Some(followable)
                    && followable.remote_id matches Some(remote_id) && id.creator == Some(
                    remote_id.creator,
                ) && id.id == remote_id.id),
                None => !cx_has_focus(s.cx, s.workspace.active_pane) || !(
                s.active_item() matches Some(item) && s.cx.item(item) matches Some(found)
                    && found.followable matches Some(followable)
                    && followable.remote_id is Some),
            }
            &&& t.workspace == (WorkspaceView { last_active_view_id: update.id, ..s.workspace })
            &&& update.id == s.workspace.last_active_view_id ==> t == s
        }),
{
}

proof fn lemma_with_leader_items(
    items: Seq<(ViewId, u64)>,
    added: Seq<(ViewId, u64)>,
    id: ViewId,
    k: int,
)
    ensures
        0 <= k < added.len() && added[k].0 == id && (forall|j: int|
            k < j < added.len() ==> (#[trigger] added[j]).0 != id) ==> leader_item(
            with_leader_items(items, added),
            id,
            0,
        ) == Some(added[k].1),
        (forall|j: int| 0 <= j < added.len() ==> (#[trigger] added[j]).0 != id) ==> leader_item(
            with_leader_items(items, added),
            id,
            0,
        ) == leader_item(items, id, 0),
    decreases added.len(),
{
    if added.len() > 0 {
        let init = added.drop_last();
        let last = added.last();
        let n = added.len() - 1;
        let before = with_leader_items(items, init);
        assert(added[n] == last);
        assert(forall|j: int| 0 <= j < n ==> #[trigger] added[j] == init[j]);
        law_leader_item_found(before, last.0, last.1, id);
        lemma_with_leader_items(items, init, id, k);
        if 0 <= k < n && added[k].0 == id && (forall|j: int|
            k < j < added.len() ==> (#[trigger] added[j]).0 != id) {
            assert(init[k].0 == id);
            assert forall|j: int| k < j < init.len() implies (#[trigger] init[j]).0 != id by {
                assert(added[j] == init[j]);
            }
        }
        if forall|j: int| 0 <= j < added.len() ==> (#[trigger] added[j]).0 != id {
            assert forall|j: int| 0 <= j < init.len() implies (#[trigger] init[j]).0 != id by {
                assert(added[j] == init[j]);
            }
        }
    }
}

/// A pane that gets items for views of its leader has them: the last one that was given for a
/// view stands for it, a view for which none was given keeps its item, and each is told whom it
/// follows. The other panes keep their states; and a pane that follows nobody gets nothing.
pub proof fn law_leader_items_added(
    s: State,
    leader_id: PeerId,
    pane: u64,
    added: Seq<(ViewId, u64)>,
    p: int,
    id: ViewId,
    k: int,
)
    requires
        0 <= p < s.workspace.follower_states.len(),
        s.workspace.follower_states[p].pane == pane,
        forall|j: int| 0 <= j < p ==> (#[trigger] s.workspace.follower_states[j]).pane != pane,
    ensures
        ({
            let t = s.add_leader_items(leader_id, pane, added);
            let before = s.workspace.follower_states;
            let after = t.workspace.follower_states;
            &&& after.len() == before.len()
            &&& forall|j: int|
                0 <= j < before.len() && j != p ==> #[trigger] after[j] == before[j]
            &&& after[p].pane == pane
            &&& after[p].leader_id == before[p].leader_id
            &&& after[p].active_view_id == before[p].active_view_id
            &&& 0 <= k < added.len() && added[k].0 == id && (forall|j: int|
                k < j < added.len() ==> (#[trigger] added[j]).0 != id) ==> leader_item(
                after[p].items_by_leader_view_id,
                id,
                0,
            ) == Some(added[k].1)
            &&& (forall|j: int| 0 <= j < added.len() ==> (#[trigger] added[j]).0 != id)
                ==> leader_item(after[p].items_by_leader_view_id, id, 0) == leader_item(
                before[p].items_by_leader_view_id,
                id,
                0,
            )
            &&& t.cx.effects == s.cx.effects + added.map_values(
                |i: (ViewId, u64)|
                    EffectView::SetLeader { item: i.1, leader_id: Some(leader_id) },
            )
        }),
{
    lemma_state_place(s.workspace.follower_states, pane, 0);
    lemma_with_leader_items(s.workspace.follower_states[p].items_by_leader_view_id, added, id, k);
}

/// Nothing is added to a pane that follows nobody.
pub proof fn law_no_items_for_others(
    s: State,
    leader_id: PeerId,
    pane: u64,
    added: Seq<(ViewId, u64)>,
)
    requires
        forall|j: int|
            0 <= j < s.workspace.follower_states.len() ==> (
            #[trigger] s.workspace.follower_states[j]).pane != pane,
    ensures
        s.add_leader_items(leader_id, pane, added) == s,
{
    lemma_state_place(s.workspace.follower_states, pane, 0);
}

/// What followers are told goes to those of the project, where it is about the project alone, and
/// else to all; it goes out exactly if we are in a room and there is anyone to tell. Followers
/// are told of an active view that belongs to the project as of something about the project
/// alone, and so they are that none is active.
pub proof fn law_update_followers(s: State, project_only: bool, update: proto::Variant)
    ensures
        ({
            let project_id = if project_only {
                s.cx.project.remote_id
            } else {
                None
            };
            let room_id = s.cx.room_id(s.cx.call_id());
            let told = s.cx.store.followers.filter(
                |f: Follower| project_id is None || f.project_id == project_id,
            ).map_values(|f: Follower| f.peer_id);
            let t = s.update_followers(project_only, update);
            &&& t.workspace == s.workspace
            &&& room_id is None || told.len() == 0 ==> t == s
            &&& room_id is Some && told.len() > 0 ==> t.cx.effects == s.cx.effects.push(
                EffectView::SendUpdateFollowers(
                    proto::UpdateFollowersView {
                        room_id: room_id->0,
                        project_id,
                        follower_ids: told,
                        variant: Some(update),
                    },
                ),
            )
        }),
        ({
            let item = match s.focused_followable() {
                Some(followable) => followable.is_project_item,
                None => true,
            };
            let told = State {
                workspace: WorkspaceView {
                    last_active_view_id: s.active_view_update().id,
                    ..s.workspace
                },
                ..s
            };
            s.active_view_update().id != s.workspace.last_active_view_id
                ==> s.update_active_view_for_followers() == told.update_followers(
                item,
                proto::Variant::UpdateActiveView(s.active_view_update()),
            )
        }),
{
    law_recipients_in_order(
        s.cx.store.followers,
        if project_only {
            s.cx.project.remote_id
        } else {
            None
        },
    );
}

} // verus!
