//! The messages that collaborators exchange about following each other.

use vstd::prelude::*;

verus! {

/// A connected collaborator.
#[derive(Clone, Copy, Debug, PartialEq, Eq, Structural)]
pub struct PeerId {
    pub owner_id: u32,
    pub id: u32,
}

/// The id of a view as it travels: its creator may be missing.
#[derive(Clone, Copy, Debug, PartialEq, Eq, Structural)]
pub struct ViewId {
    pub creator: Option<PeerId>,
    pub id: u64,
}

/// A view of a leader. Its state is known by a number.
#[derive(Clone, Copy, Debug, PartialEq, Eq, Structural)]
pub struct View {
    pub id: Option<ViewId>,
    pub leader_id: Option<PeerId>,
    pub variant: Option<u64>,
}

/// Which view of a leader is active now.
#[derive(Clone, Copy, Debug, PartialEq, Eq, Structural)]
pub struct UpdateActiveView {
    pub id: Option<ViewId>,
    pub leader_id: Option<PeerId>,
}

/// A change inside a view of a leader. The change is known by a number.
#[derive(Clone, Copy, Debug, PartialEq, Eq, Structural)]
pub struct UpdateView {
    pub id: Option<ViewId>,
    pub leader_id: Option<PeerId>,
    pub variant: Option<u64>,
}

/// What a leader tells the followers.
#[derive(Clone, Copy, Debug, PartialEq, Eq, Structural)]
pub enum Variant {
    UpdateActiveView(UpdateActiveView),
    UpdateView(UpdateView),
    CreateView(View),
}

/// A message from a leader to followers.
#[derive(Debug, PartialEq, Eq)]
pub struct UpdateFollowers {
    pub room_id: u64,
    pub project_id: Option<u64>,
    pub follower_ids: Vec<PeerId>,
    pub variant: Option<Variant>,
}

#[verifier::ext_equal]
pub struct UpdateFollowersView {
    pub room_id: u64,
    pub project_id: Option<u64>,
    pub follower_ids: Seq<PeerId>,
    pub variant: Option<Variant>,
}

impl vstd::view::View for UpdateFollowers {
    type V = UpdateFollowersView;

    open spec fn view(&self) -> UpdateFollowersView {
        UpdateFollowersView {
            room_id: self.room_id,
            project_id: self.project_id,
            follower_ids: self.follower_ids@,
            variant: self.variant,
        }
    }
}

/// Someone asks to follow, or to stop following.
#[derive(Clone, Copy, Debug, PartialEq, Eq, Structural)]
pub struct Follow {
    pub room_id: u64,
    pub project_id: Option<u64>,
    pub leader_id: Option<PeerId>,
}

/// We stop following a leader.
#[derive(Clone, Copy, Debug, PartialEq, Eq, Structural)]
pub struct Unfollow {
    pub room_id: u64,
    pub project_id: Option<u64>,
    pub leader_id: Option<PeerId>,
}

/// What a new follower is told: the active view, and all views.
#[derive(Debug, PartialEq, Eq)]
pub struct FollowResponse {
    pub active_view_id: Option<ViewId>,
    pub views: Vec<View>,
}

#[verifier::ext_equal]
pub struct FollowResponseView {
    pub active_view_id: Option<ViewId>,
    pub views: Seq<View>,
}

impl vstd::view::View for FollowResponse {
    type V = FollowResponseView;

    open spec fn view(&self) -> FollowResponseView {
        FollowResponseView { active_view_id: self.active_view_id, views: self.views@ }
    }
}

} // verus!
