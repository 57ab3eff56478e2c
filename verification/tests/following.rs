use std::collections::HashMap;
use workspace::add_views::{zip_items, AddViews, AddViewsAction};
use workspace::context::{
    ActiveCall, AutosaveSetting, Context, Effect, Followable, Item, Pane, Participant,
    ParticipantLocation, Project, Room,
};
use workspace::dock::{Dock, DockPosition};
use workspace::error::Error;
use workspace::following::{CallEvent, LeaderUpdate};
use workspace::leader_queue::{CurrentUpdate, QueuedUpdate};
use workspace::pane_group::PaneGroup;
use workspace::proto;
use workspace::proto::PeerId;
use workspace::store::{UpdateTarget, WorkspaceResponse, WorkspaceStore};
use workspace::view_id::ViewId;
use workspace::workspace::{FollowerState, Workspace};

fn peer(id: u32) -> PeerId {
    PeerId { owner_id: 1, id }
}

fn view_id(id: u64) -> ViewId {
    ViewId { creator: peer(9), id }
}

fn wire_id(id: u64) -> proto::ViewId {
    proto::ViewId { creator: Some(peer(9)), id }
}

fn pane(id: u64, items: &[u64]) -> Pane {
    Pane {
        id,
        items: items.to_vec(),
        active_item_index: 0,
        zoomed: false,
        has_focus: false,
        history: vec![],
    }
}

fn item(id: u64, is_project_item: bool, remote: u64) -> Item {
    Item {
        id,
        serialized_item_kind: None,
        project_path: None,
        is_dirty: false,
        has_conflict: false,
        followable: Some(Followable {
            is_project_item,
            remote_id: Some(view_id(remote)),
            state: Some(1000 + remote),
        }),
    }
}

fn context(panes: Vec<Pane>, items: Vec<Item>) -> Context {
    Context {
        panes,
        items,
        left_dock: Dock::new(DockPosition::Left),
        bottom_dock: Dock::new(DockPosition::Bottom),
        right_dock: Dock::new(DockPosition::Right),
        project: Project {
            is_local: true,
            is_remote: false,
            is_shared: true,
            is_read_only: false,
            remote_id: Some(77),
            worktrees: vec![],
            worktree_root_names: vec![],
        },
        active_call: Some(ActiveCall {
            id: 40,
            room: Some(Room {
                id: 50,
                participants: vec![
                    Participant {
                        peer_id: peer(3),
                        location: ParticipantLocation::SharedProject { project_id: 77 },
                    },
                    Participant {
                        peer_id: peer(4),
                        location: ParticipantLocation::UnsharedProject,
                    },
                    Participant { peer_id: peer(5), location: ParticipantLocation::External },
                ],
            }),
        }),
        store: WorkspaceStore::new(),
        window_active: true,
        autosave: AutosaveSetting::Off,
        next_entity_id: 100,
        effects: vec![],
    }
}

fn workspace(panes: &[u64]) -> Workspace {
    Workspace {
        weak_self: 1,
        workspace_actions: vec![],
        zoomed: None,
        zoomed_position: None,
        center: PaneGroup::new(panes[0]),
        panes: panes.to_vec(),
        panes_by_item: HashMap::new(),
        active_pane: panes[0],
        last_active_center_pane: None,
        last_active_view_id: None,
        follower_states: vec![],
        last_leaders_by_pane: HashMap::new(),
        leader_updates: vec![],
        current_update: None,
        window_edited: false,
        active_call: Some(40),
        database_id: 7,
    }
}

fn follower(pane: u64, leader: u32, items: &[(u64, u64)]) -> FollowerState {
    FollowerState {
        pane,
        leader_id: peer(leader),
        active_view_id: None,
        items_by_leader_view_id: items.iter().map(|(v, i)| (view_id(*v), *i)).collect(),
    }
}

#[test]
fn view_ids_survive_the_wire() {
    let id = view_id(12);
    assert_eq!(ViewId::from_proto(id.to_proto()), Ok(id));
    assert_eq!(
        ViewId::from_proto(proto::ViewId { creator: None, id: 12 }),
        Err(Error::MissingCreator)
    );
}

#[test]
fn the_last_unfollow_tells_the_server() {
    let mut cx = context(vec![pane(1, &[]), pane(2, &[])], vec![]);
    let mut workspace = workspace(&[1, 2]);
    workspace.follower_states = vec![follower(1, 3, &[(8, 20)]), follower(2, 3, &[])];
    assert_eq!(workspace.leader_for_pane(1), Some(peer(3)));
    assert_eq!(workspace.unfollow(1, &mut cx), Some(peer(3)));
    assert_eq!(workspace.leader_for_pane(1), None);
    assert_eq!(workspace.leader_for_pane(2), Some(peer(3)));
    assert_eq!(
        cx.effects,
        vec![Effect::SetLeader { item: 20, leader_id: None }, Effect::Notify]
    );
    cx.effects.clear();
    assert_eq!(workspace.unfollow(2, &mut cx), Some(peer(3)));
    assert_eq!(
        cx.effects,
        vec![
            Effect::SendUnfollow(proto::Unfollow {
                room_id: 50,
                project_id: Some(77),
                leader_id: Some(peer(3)),
            }),
            Effect::Notify,
        ]
    );
    cx.effects.clear();
    assert_eq!(workspace.unfollow(2, &mut cx), None);
    assert_eq!(cx.effects, vec![]);
}

#[test]
fn unfollow_outside_of_a_room_ends_there() {
    let mut cx = context(vec![pane(1, &[])], vec![]);
    let mut workspace = workspace(&[1]);
    workspace.follower_states = vec![follower(1, 3, &[])];
    workspace.active_call = None;
    assert_eq!(workspace.unfollow(1, &mut cx), None);
    assert!(workspace.follower_states.is_empty());
    assert_eq!(cx.effects, vec![]);
}

#[test]
fn nobody_follows_a_collaborator_who_left() {
    let mut cx = context(vec![pane(1, &[]), pane(2, &[]), pane(3, &[])], vec![]);
    let mut workspace = workspace(&[1, 2, 3]);
    workspace.follower_states = vec![
        follower(1, 3, &[(8, 20)]),
        follower(2, 4, &[(8, 21)]),
        follower(3, 3, &[(8, 22), (9, 23)]),
    ];
    workspace.collaborator_left(peer(3), &mut cx);
    assert_eq!(workspace.leader_for_pane(1), None);
    assert_eq!(workspace.leader_for_pane(2), Some(peer(4)));
    assert_eq!(workspace.leader_for_pane(3), None);
    assert_eq!(
        cx.effects,
        vec![
            Effect::SetLeader { item: 20, leader_id: None },
            Effect::SetLeader { item: 22, leader_id: None },
            Effect::SetLeader { item: 23, leader_id: None },
            Effect::Notify,
        ]
    );
}

#[test]
fn a_new_follower_is_told_what_can_be_followed() {
    let mut cx =
        context(vec![pane(1, &[10, 11]), pane(2, &[12])], vec![
            item(10, true, 1),
            item(11, false, 2),
            item(12, false, 3),
        ]);
    cx.items[2].followable = Some(Followable {
        is_project_item: false,
        remote_id: Some(view_id(3)),
        state: None,
    });
    let mut workspace = workspace(&[1, 2]);
    workspace.follower_states = vec![follower(1, 4, &[])];
    let view = |id: u64| proto::View {
        id: Some(wire_id(id)),
        leader_id: Some(peer(4)),
        variant: Some(1000 + id),
    };
    let response = workspace.handle_follow(Some(77), &mut cx);
    assert_eq!(response.active_view_id, Some(wire_id(1)));
    assert_eq!(response.views, vec![view(1), view(2)]);
    assert_eq!(workspace.last_active_view_id, Some(wire_id(1)));
    assert_eq!(cx.effects, vec![Effect::Notify]);
    let response = workspace.handle_follow(None, &mut cx);
    assert_eq!(response.views, vec![view(2)]);
}

#[test]
fn followers_are_told_of_the_active_view_once() {
    let mut cx = context(vec![pane(1, &[10])], vec![item(10, true, 1)]);
    cx.panes[0].has_focus = true;
    let follow = proto::Follow { room_id: 50, project_id: Some(77), leader_id: None };
    assert!(cx.store.handle_follow(follow, Some(peer(6)), &vec![]).is_ok());
    let mut workspace = workspace(&[1]);
    workspace.update_active_view_for_followers(&mut cx);
    assert_eq!(
        cx.effects,
        vec![Effect::SendUpdateFollowers(proto::UpdateFollowers {
            room_id: 50,
            project_id: Some(77),
            follower_ids: vec![peer(6)],
            variant: Some(proto::Variant::UpdateActiveView(proto::UpdateActiveView {
                id: Some(wire_id(1)),
                leader_id: None,
            })),
        })]
    );
    cx.effects.clear();
    workspace.update_active_view_for_followers(&mut cx);
    assert_eq!(cx.effects, vec![]);
    cx.panes[0].has_focus = false;
    workspace.update_active_view_for_followers(&mut cx);
    assert_eq!(workspace.last_active_view_id, None);
    assert_eq!(cx.effects.len(), 1);
}

#[test]
fn leader_updates_are_refused_or_processed() {
    let mut cx = context(vec![pane(1, &[])], vec![]);
    let mut workspace = workspace(&[1]);
    workspace.follower_states = vec![follower(1, 3, &[(8, 20)])];
    let leader = peer(3);
    assert_eq!(
        workspace.process_leader_update(leader, None, &mut cx),
        Err(Error::InvalidUpdate)
    );
    let update = |id, variant| {
        Some(proto::Variant::UpdateView(proto::UpdateView { id, leader_id: None, variant }))
    };
    assert_eq!(
        workspace.process_leader_update(leader, update(None, None), &mut cx),
        Err(Error::MissingUpdateViewVariant)
    );
    assert_eq!(
        workspace.process_leader_update(leader, update(None, Some(5)), &mut cx),
        Err(Error::MissingUpdateViewId)
    );
    let nameless = proto::ViewId { creator: None, id: 8 };
    assert_eq!(
        workspace.process_leader_update(leader, update(Some(nameless), Some(5)), &mut cx),
        Err(Error::MissingCreator)
    );
    assert_eq!(
        workspace.process_leader_update(peer(4), update(Some(nameless), Some(5)), &mut cx),
        Ok(LeaderUpdate::AwaitItems)
    );
    assert_eq!(cx.effects, vec![]);
    assert_eq!(
        workspace.process_leader_update(leader, update(Some(wire_id(8)), Some(5)), &mut cx),
        Ok(LeaderUpdate::AwaitItems)
    );
    assert_eq!(cx.effects, vec![Effect::ApplyUpdate { item: 20, update: 5 }]);
    let activate =
        |id| Some(proto::Variant::UpdateActiveView(proto::UpdateActiveView { id, leader_id: None }));
    assert_eq!(
        workspace.process_leader_update(leader, activate(Some(nameless)), &mut cx),
        Err(Error::MissingCreator)
    );
    assert_eq!(
        workspace.process_leader_update(leader, activate(Some(wire_id(8))), &mut cx),
        Ok(LeaderUpdate::Finish)
    );
    assert_eq!(workspace.follower_states[0].active_view_id, Some(view_id(8)));
    assert_eq!(
        workspace.process_leader_update(leader, activate(None), &mut cx),
        Ok(LeaderUpdate::Finish)
    );
    assert_eq!(workspace.follower_states[0].active_view_id, None);
    let view = proto::View { id: None, leader_id: None, variant: None };
    assert_eq!(
        workspace.process_leader_update(leader, Some(proto::Variant::CreateView(view)), &mut cx),
        Ok(LeaderUpdate::AddView(view))
    );
    assert_eq!(workspace.panes_following(leader), vec![1]);
    assert_eq!(workspace.panes_following(peer(4)), Vec::<u64>::new());
}

fn message(variant: Option<proto::Variant>) -> proto::UpdateFollowers {
    proto::UpdateFollowers { room_id: 50, project_id: None, follower_ids: vec![], variant }
}

#[test]
fn leader_updates_wait_their_turn() {
    let mut cx = context(vec![pane(1, &[])], vec![]);
    let mut workspace = workspace(&[1]);
    let view = proto::View { id: None, leader_id: None, variant: Some(5) };
    let change = proto::UpdateView { id: Some(wire_id(8)), leader_id: None, variant: Some(6) };
    let active = proto::UpdateActiveView { id: None, leader_id: None };
    for (n, variant) in [
        (3, Some(proto::Variant::CreateView(view))),
        (4, None),
        (99, Some(proto::Variant::UpdateView(change))),
        (98, Some(proto::Variant::UpdateActiveView(active))),
    ] {
        workspace.handle_update_followers(peer(n), &message(variant), &mut cx);
    }
    assert_eq!(cx.effects.len(), 4);
    assert!(cx.effects.iter().all(|effect| *effect == Effect::WakeLeaderUpdates));
    assert_eq!(workspace.leader_updates.len(), 4);
    cx.effects.clear();

    assert_eq!(workspace.start_leader_update(&mut cx), Some(Ok(LeaderUpdate::AddView(view))));
    assert_eq!(
        workspace.current_update,
        Some(CurrentUpdate { leader_id: peer(3), step: LeaderUpdate::AddView(view) })
    );
    assert_eq!(workspace.start_leader_update(&mut cx), None);
    assert_eq!(workspace.leader_updates.len(), 3);
    workspace.finish_leader_update(Err(Error::Failed(1)), &mut cx);
    assert_eq!(workspace.current_update, None);
    assert_eq!(cx.effects, vec![]);

    assert_eq!(workspace.start_leader_update(&mut cx), Some(Err(Error::InvalidUpdate)));
    assert_eq!(workspace.current_update, None);
    assert_eq!(cx.effects, vec![]);

    assert_eq!(workspace.start_leader_update(&mut cx), Some(Ok(LeaderUpdate::AwaitItems)));
    assert_eq!(workspace.start_leader_update(&mut cx), None);
    workspace.finish_leader_update(Err(Error::Failed(2)), &mut cx);
    assert_eq!(cx.effects, vec![Effect::Notify]);

    assert_eq!(
        workspace.leader_updates,
        vec![QueuedUpdate {
            leader_id: peer(98),
            variant: Some(proto::Variant::UpdateActiveView(active))
        }]
    );
    assert_eq!(workspace.start_leader_update(&mut cx), Some(Ok(LeaderUpdate::Finish)));
    assert_eq!(workspace.current_update, None);
    assert_eq!(cx.effects, vec![Effect::Notify, Effect::Notify]);
    assert_eq!(workspace.start_leader_update(&mut cx), None);
    workspace.finish_leader_update(Ok(()), &mut cx);
    assert_eq!(cx.effects.len(), 2);
}

#[test]
fn a_view_that_was_added_is_shown() {
    let mut cx = context(vec![pane(1, &[])], vec![]);
    let mut workspace = workspace(&[1]);
    let view = proto::View { id: None, leader_id: None, variant: Some(5) };
    let update = message(Some(proto::Variant::CreateView(view)));
    workspace.handle_update_followers(peer(99), &update, &mut cx);
    cx.effects.clear();
    assert_eq!(workspace.start_leader_update(&mut cx), Some(Ok(LeaderUpdate::AddView(view))));
    workspace.finish_leader_update(Ok(()), &mut cx);
    assert_eq!(cx.effects, vec![Effect::Notify]);
    assert_eq!(workspace.current_update, None);
}

#[test]
fn panes_show_what_their_leader_shows() {
    let mut cx = context(vec![pane(1, &[20]), pane(2, &[])], vec![
        item(20, true, 1),
        item(21, true, 2),
    ]);
    cx.panes[1].has_focus = true;
    let mut workspace = workspace(&[1, 2]);
    workspace.follower_states = vec![follower(1, 3, &[(8, 20)]), follower(2, 3, &[(8, 21)])];
    workspace.follower_states[0].active_view_id = Some(view_id(8));
    workspace.follower_states[1].active_view_id = Some(view_id(8));
    workspace.leader_updated(peer(3), &mut cx);
    assert_eq!(
        cx.effects,
        vec![
            Effect::Notify,
            Effect::ActivateItem {
                pane: 1,
                index: 0,
                activate_pane: false,
                focus_item: false
            },
            Effect::AddItem {
                pane: 2,
                item: 21,
                activate_pane: false,
                focus_item: false,
                index: None
            },
            Effect::FocusActiveItem(2),
        ]
    );
}

#[test]
fn a_leader_elsewhere_is_followed_as_far_as_possible() {
    let mut cx =
        context(vec![pane(1, &[20]), pane(2, &[21])], vec![item(20, true, 1), item(21, false, 2)]);
    let mut workspace = workspace(&[1, 2]);
    for leader in [4, 5] {
        workspace.follower_states =
            vec![follower(1, leader, &[(8, 20)]), follower(2, leader, &[(8, 21)])];
        workspace.follower_states[0].active_view_id = Some(view_id(8));
        workspace.follower_states[1].active_view_id = Some(view_id(8));
        cx.effects.clear();
        workspace.on_active_call_event(
            CallEvent::ParticipantLocationChanged { participant_id: peer(leader) },
            &mut cx,
        );
        if leader == 4 {
            assert_eq!(
                cx.effects,
                vec![
                    Effect::Notify,
                    Effect::ActivateItem {
                        pane: 2,
                        index: 0,
                        activate_pane: false,
                        focus_item: false
                    },
                ]
            );
        } else {
            assert_eq!(cx.effects, vec![Effect::Notify]);
        }
    }
    cx.effects.clear();
    workspace.on_active_call_event(CallEvent::Other, &mut cx);
    assert_eq!(cx.effects, vec![]);
    workspace.leader_updated(peer(99), &mut cx);
    assert_eq!(cx.effects, vec![Effect::Notify]);
}

#[test]
fn items_stand_for_views() {
    let mut cx = context(vec![pane(1, &[])], vec![]);
    let mut workspace = workspace(&[1]);
    workspace.follower_states = vec![follower(1, 3, &[(8, 20)])];
    let added = vec![(view_id(9), 30), (view_id(8), 31)];
    workspace.add_leader_items(peer(3), 1, &added, &mut cx);
    assert_eq!(workspace.follower_states[0].item_for_view(view_id(8)), Some(31));
    assert_eq!(workspace.follower_states[0].item_for_view(view_id(9)), Some(30));
    assert_eq!(workspace.follower_states[0].item_for_view(view_id(7)), None);
    assert_eq!(
        cx.effects,
        vec![
            Effect::SetLeader { item: 30, leader_id: Some(peer(3)) },
            Effect::SetLeader { item: 31, leader_id: Some(peer(3)) },
        ]
    );
    cx.effects.clear();
    workspace.add_leader_items(peer(3), 2, &added, &mut cx);
    assert_eq!(cx.effects, vec![]);
}

#[test]
fn builders_are_tried_in_turn() {
    let views = vec![
        proto::View { id: None, leader_id: None, variant: None },
        proto::View { id: Some(wire_id(8)), leader_id: None, variant: Some(5) },
        proto::View { id: Some(wire_id(9)), leader_id: None, variant: Some(6) },
    ];
    let mut adding = AddViews::new(peer(3), vec![1, 2], views, 2);
    let build = |pane, id, variant, builder| AddViewsAction::Build {
        pane,
        id: view_id(id),
        variant,
        builder,
    };
    assert_eq!(adding.next(), build(1, 8, 5, 0));
    adding.built(None);
    assert_eq!(adding.next(), build(1, 8, 5, 1));
    adding.built(Some(70));
    assert_eq!(adding.next(), build(1, 9, 6, 0));
    adding.built(None);
    adding.built(None);
    assert_eq!(adding.next(), build(2, 8, 5, 0));
    adding.built(Some(71));
    adding.built(Some(72));
    assert_eq!(adding.next(), AddViewsAction::Join(1));
    assert_eq!(adding.tasks_for(1), vec![(view_id(8), 70)]);
    adding.pane_joined();
    assert_eq!(adding.next(), AddViewsAction::Join(2));
    assert_eq!(adding.tasks_for(2), vec![(view_id(8), 71), (view_id(9), 72)]);
    assert_eq!(
        zip_items(&adding.tasks_for(2), &vec![90, 91]),
        vec![(view_id(8), 90), (view_id(9), 91)]
    );
    adding.pane_joined();
    assert_eq!(adding.next(), AddViewsAction::Done);
    adding.fail(Error::WorkspaceDropped);
    assert_eq!(adding.next(), AddViewsAction::Fail(Error::WorkspaceDropped));
}

#[test]
fn a_pane_that_is_listed_twice_gets_the_later_items() {
    let view = proto::View { id: Some(wire_id(8)), leader_id: None, variant: Some(5) };
    let mut adding = AddViews::new(peer(3), vec![1, 2, 1], vec![view], 1);
    for task in [70, 71, 72] {
        adding.built(Some(task));
    }
    assert_eq!(adding.next(), AddViewsAction::Join(2));
    assert_eq!(adding.tasks_for(2), vec![(view_id(8), 71)]);
    adding.pane_joined();
    assert_eq!(adding.next(), AddViewsAction::Join(1));
    assert_eq!(adding.tasks_for(1), vec![(view_id(8), 72)]);
    adding.pane_joined();
    assert_eq!(adding.next(), AddViewsAction::Done);
    assert_eq!(adding.tasks_for(9), vec![]);
}

#[test]
fn views_that_are_not_in_order_stop_the_building() {
    let view = proto::View { id: Some(wire_id(8)), leader_id: None, variant: None };
    let adding = AddViews::new(peer(3), vec![1], vec![view], 1);
    assert_eq!(adding.next(), AddViewsAction::Fail(Error::MissingViewVariant));
    let nameless = proto::ViewId { creator: None, id: 8 };
    let view = proto::View { id: Some(nameless), leader_id: None, variant: Some(5) };
    let adding = AddViews::new(peer(3), vec![1], vec![view], 1);
    assert_eq!(adding.next(), AddViewsAction::Fail(Error::MissingCreator));
    let adding = AddViews::new(peer(3), vec![], vec![view], 1);
    assert_eq!(adding.next(), AddViewsAction::Done);
    let view = proto::View { id: Some(wire_id(8)), leader_id: None, variant: Some(5) };
    let adding = AddViews::new(peer(3), vec![1], vec![view], 0);
    assert_eq!(adding.next(), AddViewsAction::Join(1));
}

#[test]
fn followers_are_kept_in_order_and_once() {
    let mut store = WorkspaceStore::new();
    let follow = |project_id| proto::Follow { room_id: 1, project_id, leader_id: None };
    let unfollow = |project_id| proto::Unfollow { room_id: 1, project_id, leader_id: None };
    assert!(matches!(
        store.handle_follow(follow(None), None, &vec![]),
        Err(Error::MissingSender)
    ));
    for (project, who) in [(Some(7), 2), (None, 5), (Some(7), 1), (Some(7), 2), (Some(3), 9)] {
        assert!(store.handle_follow(follow(project), Some(peer(who)), &vec![]).is_ok());
    }
    let listed: Vec<_> = store.followers.iter().map(|f| (f.project_id, f.peer_id.id)).collect();
    assert_eq!(listed, vec![(None, 5), (Some(3), 9), (Some(7), 1), (Some(7), 2)]);
    let update = proto::Variant::CreateView(proto::View { id: None, leader_id: None, variant: None });
    let message = store.update_followers(Some(7), update, Some(1)).unwrap();
    assert_eq!(message.follower_ids, vec![peer(1), peer(2)]);
    let message = store.update_followers(None, update, Some(1)).unwrap();
    assert_eq!(message.follower_ids.len(), 4);
    assert_eq!(store.update_followers(Some(8), update, Some(1)), None);
    assert_eq!(store.update_followers(Some(7), update, None), None);
    assert_eq!(store.handle_unfollow(unfollow(Some(7)), None), Err(Error::MissingSender));
    assert_eq!(store.handle_unfollow(unfollow(Some(7)), Some(peer(1))), Ok(()));
    assert_eq!(store.handle_unfollow(unfollow(Some(7)), Some(peer(1))), Ok(()));
    assert_eq!(store.followers.len(), 3);
}

#[test]
fn the_active_project_decides_what_is_active() {
    let mut store = WorkspaceStore::new();
    let follow = proto::Follow { room_id: 1, project_id: None, leader_id: None };
    for window in [10, 1, 2, 3] {
        store.add_workspace(window);
    }
    let answer = |id, in_active_project| WorkspaceResponse {
        window: id,
        response: proto::FollowResponse {
            active_view_id: Some(wire_id(id)),
            views: vec![proto::View { id: Some(wire_id(id)), leader_id: None, variant: None }],
        },
        in_active_project,
    };
    let responses = vec![answer(1, false), answer(2, true), answer(3, false)];
    let merged = store.handle_follow(follow, Some(peer(1)), &responses).unwrap();
    assert_eq!(merged.active_view_id, Some(wire_id(2)));
    assert_eq!(merged.views.len(), 3);
    let responses = vec![answer(1, false), answer(3, false)];
    let merged = store.handle_follow(follow, Some(peer(1)), &responses).unwrap();
    assert_eq!(merged.active_view_id, Some(wire_id(1)));
}

#[test]
fn updates_go_to_the_windows_they_concern() {
    let mut store = WorkspaceStore::new();
    for window in [1, 2, 3, 1] {
        store.add_workspace(window);
    }
    let target = |window, open, remote_id| UpdateTarget { window, open, remote_id };
    let targets =
        vec![target(1, true, Some(7)), target(2, true, Some(8)), target(3, true, None)];
    let (windows, result) = store.handle_update_followers(Some(peer(1)), Some(7), &targets);
    assert_eq!((windows, result), (vec![1], Ok(())));
    let (windows, result) = store.handle_update_followers(Some(peer(1)), None, &targets);
    assert_eq!((windows, result), (vec![1, 2, 3], Ok(())));
    let (windows, result) = store.handle_update_followers(None, None, &targets);
    assert_eq!((windows, result), (vec![], Err(Error::MissingSender)));
    let targets = vec![target(1, true, None), target(2, false, None), target(3, true, None)];
    let (windows, result) = store.handle_update_followers(Some(peer(1)), None, &targets);
    assert_eq!((windows, result), (vec![1], Err(Error::WorkspaceDropped)));
    let targets = vec![target(1, true, None), target(3, true, None)];
    let (windows, result) = store.handle_update_followers(Some(peer(1)), None, &targets);
    assert_eq!((windows, result), (vec![1], Err(Error::WorkspaceDropped)));
}
