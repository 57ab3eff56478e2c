//! The open workspaces and everyone who follows us.

use crate::error::Error;
use crate::proto;
use crate::proto::PeerId;
use vstd::prelude::*;

verus! {

/// Someone who follows us, in one project or in all of them.
#[derive(Clone, Copy, Debug, PartialEq, Eq, Structural)]
pub struct Follower {
    pub project_id: Option<u64>,
    pub peer_id: PeerId,
}

/// The order of collaborators.
pub open spec fn peer_less(a: PeerId, b: PeerId) -> bool {
    a.owner_id < b.owner_id || (a.owner_id == b.owner_id && a.id < b.id)
}

/// The order of project ids, no project before any.
pub open spec fn project_less(a: Option<u64>, b: Option<u64>) -> bool {
    match (a, b) {
        (None, Some(_)) => true,
        (Some(a), Some(b)) => a < b,
        _ => false,
    }
}

/// The order of followers: by project, then by collaborator.
pub open spec fn follower_less(a: Follower, b: Follower) -> bool {
    project_less(a.project_id, b.project_id) || (a.project_id == b.project_id && peer_less(
        a.peer_id,
        b.peer_id,
    ))
}

/// Each follower stands before every later one, so none is listed twice.
pub open spec fn strictly_sorted(followers: Seq<Follower>) -> bool {
    forall|i: int, j: int|
        0 <= i < j < followers.len() ==> follower_less(#[trigger] followers[i], #[trigger] followers[j])
}

/// The windows that show a workspace, and the followers in order.
#[derive(Debug, PartialEq, Eq)]
pub struct WorkspaceStore {
    pub workspaces: Vec<u64>,
    pub followers: Vec<Follower>,
}

#[verifier::ext_equal]
pub struct StoreView {
    pub workspaces: Seq<u64>,
    pub followers: Seq<Follower>,
}

impl View for WorkspaceStore {
    type V = StoreView;

    open spec fn view(&self) -> StoreView {
        StoreView { workspaces: self.workspaces@, followers: self.followers@ }
    }
}

impl StoreView {
    /// No window is listed twice, and the followers are in order.
    pub open spec fn well_formed(self) -> bool {
        self.workspaces.no_duplicates() && strictly_sorted(self.followers)
    }

    /// The store with one more window that shows a workspace.
    pub open spec fn with_workspace(self, window: u64) -> StoreView {
        if self.workspaces.contains(window) {
            self
        } else {
            StoreView { workspaces: self.workspaces.push(window), ..self }
        }
    }
}

/// The answer of the workspace in a window to a new follower, and whether its project is the
/// one that we are active in.
#[derive(Debug, PartialEq, Eq)]
pub struct WorkspaceResponse {
    pub window: u64,
    pub response: proto::FollowResponse,
    pub in_active_project: bool,
}

#[verifier::ext_equal]
pub struct WorkspaceResponseView {
    pub window: u64,
    pub response: proto::FollowResponseView,
    pub in_active_project: bool,
}

impl View for WorkspaceResponse {
    type V = WorkspaceResponseView;

    open spec fn view(&self) -> WorkspaceResponseView {
        WorkspaceResponseView {
            window: self.window,
            response: self.response@,
            in_active_project: self.in_active_project,
        }
    }
}

/// The views of a list of answers.
pub open spec fn response_views(responses: Seq<WorkspaceResponse>) -> Seq<WorkspaceResponseView> {
    responses.map_values(|r: WorkspaceResponse| r@)
}

/// The first answer, from `i` on, that came from a window.
pub open spec fn answer_of(responses: Seq<WorkspaceResponseView>, window: u64, i: int) -> Option<
    WorkspaceResponseView,
>
    decreases responses.len() - i,
{
    if i < 0 || i >= responses.len() {
        None
    } else if responses[i].window == window {
        Some(responses[i])
    } else {
        answer_of(responses, window, i + 1)
    }
}

/// The answers of those windows that answered, in the order of the windows.
pub open spec fn answers(windows: Seq<u64>, responses: Seq<WorkspaceResponseView>) -> Seq<
    WorkspaceResponseView,
>
    decreases windows.len(),
{
    if windows.len() == 0 {
        Seq::empty()
    } else {
        let before = answers(windows.drop_last(), responses);
        match answer_of(responses, windows.last(), 0) {
            Some(answer) => before.push(answer),
            None => before,
        }
    }
}

/// The answer that stands for the answers of all workspaces: all their views, and as the
/// active view the first there is, unless a workspace of the active project has one.
pub open spec fn merged_response(responses: Seq<WorkspaceResponseView>) -> proto::FollowResponseView
    decreases responses.len(),
{
    if responses.len() == 0 {
        proto::FollowResponseView { active_view_id: None, views: Seq::empty() }
    } else {
        let before = merged_response(responses.drop_last());
        let last = responses.last();
        proto::FollowResponseView {
            active_view_id: if last.response.active_view_id is Some && (before.active_view_id is None
                || last.in_active_project) {
                last.response.active_view_id
            } else {
                before.active_view_id
            },
            views: before.views + last.response.views,
        }
    }
}

/// The collaborators that an update goes to: those who follow the project, or everyone
/// where the update is not about a project.
pub open spec fn recipients(followers: Seq<Follower>, project_id: Option<u64>) -> Seq<PeerId>
    decreases followers.len(),
{
    if followers.len() == 0 {
        Seq::empty()
    } else {
        let before = recipients(followers.drop_last(), project_id);
        if project_id is None || followers.last().project_id == project_id {
            before.push(followers.last().peer_id)
        } else {
            before
        }
    }
}

/// The message that tells the followers about an update, if we are in a room and there is
/// anyone to tell.
pub open spec fn followers_message(
    followers: Seq<Follower>,
    project_id: Option<u64>,
    update: proto::Variant,
    room_id: Option<u64>,
) -> Option<proto::UpdateFollowersView> {
    let follower_ids = recipients(followers, project_id);
    match room_id {
        Some(room_id) if follower_ids.len() > 0 => Some(
            proto::UpdateFollowersView { room_id, project_id, follower_ids, variant: Some(update) },
        ),
        _ => None,
    }
}

/// A workspace that an update from a leader may concern.
#[derive(Clone, Copy, Debug, PartialEq, Eq, Structural)]
pub struct UpdateTarget {
    pub window: u64,
    pub open: bool,
    pub remote_id: Option<u64>,
}

/// An update concerns the workspaces of its project, or all where it names no project.
pub open spec fn update_concerns(project_id: Option<u64>, remote_id: Option<u64>) -> bool {
    project_id is None || project_id == remote_id
}

/// What the first target, from `i` on, says of a window. A window without a target is closed.
pub open spec fn target_of(targets: Seq<UpdateTarget>, window: u64, i: int) -> UpdateTarget
    decreases targets.len() - i,
{
    if i < 0 || i >= targets.len() {
        UpdateTarget { window, open: false, remote_id: None }
    } else if targets[i].window == window {
        targets[i]
    } else {
        target_of(targets, window, i + 1)
    }
}

/// What the targets say of each window.
pub open spec fn targets_of(windows: Seq<u64>, targets: Seq<UpdateTarget>) -> Seq<UpdateTarget> {
    windows.map_values(|window: u64| target_of(targets, window, 0))
}

/// The windows, among the first `n`, that an update is handed to.
pub open spec fn update_windows(
    targets: Seq<UpdateTarget>,
    project_id: Option<u64>,
    n: nat,
) -> Seq<u64>
    decreases n,
{
    if n == 0 || n > targets.len() {
        Seq::empty()
    } else {
        let before = update_windows(targets, project_id, (n - 1) as nat);
        if update_concerns(project_id, targets[n - 1].remote_id) {
            before.push(targets[n - 1].window)
        } else {
            before
        }
    }
}

/// How many workspaces are reached before one turns out to be closed.
pub open spec fn reached(targets: Seq<UpdateTarget>, i: nat) -> nat
    decreases targets.len() - i,
{
    if i >= targets.len() || !targets[i as int].open {
        i
    } else {
        reached(targets, i + 1)
    }
}

fn follower_before(a: &Follower, b: &Follower) -> (before: bool)
    ensures
        before == follower_less(*a, *b),
{
    match (a.project_id, b.project_id) {
        (None, Some(_)) => true,
        (Some(_), None) => false,
        (Some(x), Some(y)) => {
            if x != y {
                x < y
            } else {
                peer_before(a.peer_id, b.peer_id)
            }
        },
        (None, None) => peer_before(a.peer_id, b.peer_id),
    }
}

fn peer_before(a: PeerId, b: PeerId) -> (before: bool)
    ensures
        before == peer_less(a, b),
{
    a.owner_id < b.owner_id || (a.owner_id == b.owner_id && a.id < b.id)
}

/// The place of a follower in an ordered list: where it is, or where it belongs.
fn search(followers: &Vec<Follower>, follower: Follower) -> (place: Result<usize, usize>)
    requires
        strictly_sorted(followers@),
    ensures
        match place {
            Ok(i) => i < followers.len() && followers@[i as int] == follower,
            Err(i) => {
                &&& i <= followers.len()
                &&& forall|j: int| 0 <= j < i ==> follower_less(#[trigger] followers@[j], follower)
                &&& forall|j: int|
                    i <= j < followers.len() ==> follower_less(follower, #[trigger] followers@[j])
            },
        },
{
    let mut low: usize = 0;
    let mut high: usize = followers.len();
    while low < high
        invariant
            low <= high <= followers.len(),
            strictly_sorted(followers@),
            forall|j: int| 0 <= j < low ==> follower_less(#[trigger] followers@[j], follower),
            forall|j: int|
                high <= j < followers.len() ==> follower_less(follower, #[trigger] followers@[j]),
        decreases high - low,
    {
        let mid: usize = low + (high - low) / 2;
        if followers[mid] == follower {
            return Ok(mid);
        }
        if follower_before(&followers[mid], &follower) {
            assert forall|j: int| 0 <= j < mid + 1 implies follower_less(
                #[trigger] followers@[j],
                follower,
            ) by {
                if j < mid {
                    assert(follower_less(followers@[j], followers@[mid as int]));
                }
            }
            low = mid + 1;
        } else {
            assert forall|j: int| mid <= j < followers.len() implies follower_less(
                follower,
                #[trigger] followers@[j],
            ) by {
                if j > mid {
                    assert(follower_less(followers@[mid as int], followers@[j]));
                }
            }
            high = mid;
        }
    }
    Err(low)
}

proof fn lemma_insert_follower(followers: Seq<Follower>, i: int, follower: Follower)
    requires
        strictly_sorted(followers),
        0 <= i <= followers.len(),
        forall|j: int| 0 <= j < i ==> follower_less(#[trigger] followers[j], follower),
        forall|j: int| i <= j < followers.len() ==> follower_less(follower, #[trigger] followers[j]),
    ensures
        strictly_sorted(followers.insert(i, follower)),
        followers.insert(i, follower).to_set() == followers.to_set().insert(follower),
{
    let next = followers.insert(i, follower);
    assert forall|x: int, y: int| 0 <= x < y < next.len() implies follower_less(
        #[trigger] next[x],
        #[trigger] next[y],
    ) by {
        let fx = if x < i {
            x
        } else {
            x - 1
        };
        let fy = if y < i {
            y
        } else {
            y - 1
        };
        if x == i {
            assert(follower_less(follower, followers[fy]));
        } else if y == i {
            assert(follower_less(followers[fx], follower));
        } else {
            assert(follower_less(followers[fx], followers[fy]));
        }
    }
    assert forall|f: Follower| next.to_set().contains(f) <==> followers.to_set().insert(
        follower,
    ).contains(f) by {
        if next.contains(f) {
            let k = next.index_of(f);
            if k < i {
                assert(followers[k] == f);
            } else if k > i {
                assert(followers[k - 1] == f);
            }
        }
        if followers.contains(f) {
            let k = followers.index_of(f);
            if k < i {
                assert(next[k] == f);
            } else {
                assert(next[k + 1] == f);
            }
        }
        assert(next[i] == follower);
    }
    assert(next.to_set() =~= followers.to_set().insert(follower));
}

proof fn lemma_remove_follower(followers: Seq<Follower>, i: int)
    requires
        strictly_sorted(followers),
        0 <= i < followers.len(),
    ensures
        strictly_sorted(followers.remove(i)),
        followers.remove(i).to_set() == followers.to_set().remove(followers[i]),
{
    let next = followers.remove(i);
    let follower = followers[i];
    assert forall|x: int, y: int| 0 <= x < y < next.len() implies follower_less(
        #[trigger] next[x],
        #[trigger] next[y],
    ) by {
        let fx = if x < i {
            x
        } else {
            x + 1
        };
        let fy = if y < i {
            y
        } else {
            y + 1
        };
        assert(follower_less(followers[fx], followers[fy]));
    }
    assert forall|f: Follower| next.to_set().contains(f) <==> followers.to_set().remove(
        follower,
    ).contains(f) by {
        if next.contains(f) {
            let k = next.index_of(f);
            let fk = if k < i {
                k
            } else {
                k + 1
            };
            assert(followers[fk] == f);
            if fk < i {
                assert(follower_less(followers[fk], followers[i]));
            } else {
                assert(follower_less(followers[i], followers[fk]));
            }
        }
        if followers.contains(f) && f != follower {
            let k = followers.index_of(f);
            if k < i {
                assert(next[k] == f);
            } else {
                assert(next[k - 1] == f);
            }
        }
    }
    assert(next.to_set() =~= followers.to_set().remove(follower));
}

/// Two ordered lists of the same followers are the same list.
pub proof fn lemma_sorted_unique(a: Seq<Follower>, b: Seq<Follower>)
    requires
        strictly_sorted(a),
        strictly_sorted(b),
        a.to_set() == b.to_set(),
    ensures
        a == b,
    decreases a.len(),
{
    if a.len() == 0 {
        if b.len() > 0 {
            assert(b.to_set().contains(b[0]));
            assert(a.contains(b[0]));
        }
        assert(a =~= b);
    } else {
        assert(a.to_set().contains(a.last()));
        assert(b.contains(a.last()));
        let k = b.index_of(a.last());
        assert(b.to_set().contains(b.last()));
        assert(a.contains(b.last()));
        let m = a.index_of(b.last());
        if k < b.len() - 1 {
            assert(follower_less(b[k], b.last()));
            if m < a.len() - 1 {
                assert(follower_less(a[m], a.last()));
            }
        }
        assert(a.last() == b.last());
        lemma_remove_follower(a, a.len() - 1);
        lemma_remove_follower(b, b.len() - 1);
        assert(a.remove(a.len() - 1) =~= a.drop_last());
        assert(b.remove(b.len() - 1) =~= b.drop_last());
        lemma_sorted_unique(a.drop_last(), b.drop_last());
        assert(a =~= a.drop_last().push(a.last()));
        assert(b =~= b.drop_last().push(b.last()));
    }
}

impl WorkspaceStore {
    /// A store without workspaces and followers.
    pub fn new() -> (store: WorkspaceStore)
        ensures
            store@ == (StoreView { workspaces: Seq::empty(), followers: Seq::empty() }),
            store@.well_formed(),
    {
        WorkspaceStore { workspaces: Vec::new(), followers: Vec::new() }
    }

    /// Notes a window that shows a workspace.
    pub fn add_workspace(&mut self, window: u64)
        ensures
            final(self)@ == old(self)@.with_workspace(window),
            old(self)@.well_formed() ==> final(self)@.well_formed(),
    {
        let mut i: usize = 0;
        while i < self.workspaces.len()
            invariant
                i <= self.workspaces.len(),
                self@ == old(self)@,
                forall|j: int| 0 <= j < i ==> self.workspaces@[j] != window,
            decreases self.workspaces.len() - i,
        {
            if self.workspaces[i] == window {
                assert(self.workspaces@.contains(window));
                return;
            }
            i += 1;
        }
        self.workspaces.push(window);
    }

    /// The message that tells the followers of a project about an update, or all followers
    /// where no project is named. None if we are in no room or nobody is to be told.
    pub fn update_followers(
        &self,
        project_id: Option<u64>,
        update: proto::Variant,
        room_id: Option<u64>,
    ) -> (message: Option<proto::UpdateFollowers>)
        ensures
            match message {
                Some(message) => followers_message(
                    self@.followers,
                    project_id,
                    update,
                    room_id,
                ) == Some(message@),
                None => followers_message(self@.followers, project_id, update, room_id) is None,
            },
    {
        let room_id = match room_id {
            Some(room_id) => room_id,
            None => {
                return None;
            },
        };
        let mut follower_ids: Vec<PeerId> = Vec::new();
        let mut i: usize = 0;
        assert(self.followers@.take(0) =~= Seq::empty());
        while i < self.followers.len()
            invariant
                i <= self.followers.len(),
                follower_ids@ == recipients(self.followers@.take(i as int), project_id),
            decreases self.followers.len() - i,
        {
            let follower = self.followers[i];
            assert(self.followers@.take(i + 1).drop_last() =~= self.followers@.take(i as int));
            if project_id.is_none() || follower.project_id == project_id {
                follower_ids.push(follower.peer_id);
            }
            i += 1;
        }
        assert(self.followers@.take(i as int) =~= self.followers@);
        if follower_ids.len() == 0 {
            return None;
        }
        Some(proto::UpdateFollowers { room_id, project_id, follower_ids, variant: Some(update) })
    }

    /// Someone starts to follow: from now on updates go there, and the answer merges what
    /// those workspaces say that answered. Fails, and notes nobody, if the request names no
    /// sender.
    pub fn handle_follow(
        &mut self,
        request: proto::Follow,
        sender: Option<PeerId>,
        responses: &Vec<WorkspaceResponse>,
    ) -> (result: Result<proto::FollowResponse, Error>)
        requires
            old(self)@.well_formed(),
        ensures
            final(self)@.well_formed(),
            final(self)@.workspaces == old(self)@.workspaces,
            match sender {
                Some(peer_id) => {
                    &&& result matches Ok(response)
                    &&& response@ == merged_response(
                        answers(old(self)@.workspaces, response_views(responses@)),
                    )
                    &&& final(self)@.followers.to_set() == old(self)@.followers.to_set().insert(
                        Follower { project_id: request.project_id, peer_id },
                    )
                },
                None => {
                    &&& result matches Err(error)
                    &&& error == Error::MissingSender
                    &&& final(self)@ == old(self)@
                },
            },
    {
        let peer_id = match sender {
            Some(peer_id) => peer_id,
            None => {
                return Err(Error::MissingSender);
            },
        };
        let follower = Follower { project_id: request.project_id, peer_id };
        let response = self.merge_responses(responses);
        match search(&self.followers, follower) {
            Ok(i) => {
                assert(self.followers@[i as int] == follower);
                assert(self.followers@.to_set() =~= self.followers@.to_set().insert(follower));
            },
            Err(i) => {
                proof {
                    lemma_insert_follower(self.followers@, i as int, follower);
                }
                self.followers.insert(i, follower);
            },
        }
        Ok(response)
    }

    /// Someone stops following. Fails if the request names no sender.
    pub fn handle_unfollow(&mut self, request: proto::Unfollow, sender: Option<PeerId>) -> (result:
        Result<(), Error>)
        requires
            old(self)@.well_formed(),
        ensures
            final(self)@.well_formed(),
            final(self)@.workspaces == old(self)@.workspaces,
            match sender {
                Some(peer_id) => {
                    &&& result is Ok
                    &&& final(self)@.followers.to_set() == old(self)@.followers.to_set().remove(
                        Follower { project_id: request.project_id, peer_id },
                    )
                },
                None => {
                    &&& result == Err::<(), Error>(Error::MissingSender)
                    &&& final(self)@ == old(self)@
                },
            },
    {
        let peer_id = match sender {
            Some(peer_id) => peer_id,
            None => {
                return Err(Error::MissingSender);
            },
        };
        let follower = Follower { project_id: request.project_id, peer_id };
        match search(&self.followers, follower) {
            Ok(i) => {
                proof {
                    lemma_remove_follower(self.followers@, i as int);
                }
                self.followers.remove(i);
            },
            Err(i) => {
                assert(!self.followers@.contains(follower)) by {
                    if self.followers@.contains(follower) {
                        let k = self.followers@.index_of(follower);
                        if k < i {
                            assert(follower_less(self.followers@[k], follower));
                        } else {
                            assert(follower_less(follower, self.followers@[k]));
                        }
                    }
                }
                assert(self.followers@.to_set() =~= self.followers@.to_set().remove(follower));
            },
        }
        Ok(())
    }

    /// The windows that an update from a leader is handed to, in the order in which the
    /// workspaces are walked. The walk ends where a workspace turns out to be closed, and
    /// then fails. Fails at once if the update names no sender.
    pub fn handle_update_followers(
        &self,
        sender: Option<PeerId>,
        project_id: Option<u64>,
        targets: &Vec<UpdateTarget>,
    ) -> (outcome: (Vec<u64>, Result<(), Error>))
        ensures
            match sender {
                None => {
                    &&& outcome.0@ == Seq::<u64>::empty()
                    &&& outcome.1 == Err::<(), Error>(Error::MissingSender)
                },
                Some(_) => {
                    let walked = targets_of(self@.workspaces, targets@);
                    &&& outcome.0@ == update_windows(walked, project_id, reached(walked, 0))
                    &&& outcome.1 == (if reached(walked, 0) == walked.len() {
                        Ok(())
                    } else {
                        Err::<(), Error>(Error::WorkspaceDropped)
                    })
                },
            },
    {
        let mut windows: Vec<u64> = Vec::new();
        if sender.is_none() {
            return (windows, Err(Error::MissingSender));
        }
        let ghost walked = targets_of(self@.workspaces, targets@);
        let mut i: usize = 0;
        while i < self.workspaces.len()
            invariant
                i <= self.workspaces.len(),
                walked == targets_of(self@.workspaces, targets@),
                reached(walked, 0) == reached(walked, i as nat),
                windows@ == update_windows(walked, project_id, i as nat),
                sender is Some,
            decreases self.workspaces.len() - i,
        {
            let target = find_target(targets, self.workspaces[i]);
            assert(walked[i as int] == target);
            if !target.open {
                return (windows, Err(Error::WorkspaceDropped));
            }
            if project_id.is_none() || project_id == target.remote_id {
                windows.push(target.window);
            }
            i += 1;
        }
        (windows, Ok(()))
    }

    /// One answer for the answers of all workspaces.
    fn merge_responses(&self, responses: &Vec<WorkspaceResponse>) -> (response: proto::FollowResponse)
        ensures
            response@ == merged_response(answers(self@.workspaces, response_views(responses@))),
    {
        let ghost all = response_views(responses@);
        let ghost open = self@.workspaces;
        let mut active_view_id: Option<proto::ViewId> = None;
        let mut views: Vec<proto::View> = Vec::new();
        let mut i: usize = 0;
        assert(open.take(0) =~= Seq::empty());
        while i < self.workspaces.len()
            invariant
                i <= self.workspaces.len(),
                all == response_views(responses@),
                open == self@.workspaces,
                active_view_id == merged_response(answers(open.take(i as int), all)).active_view_id,
                views@ == merged_response(answers(open.take(i as int), all)).views,
            decreases self.workspaces.len() - i,
        {
            let ghost before_answers = answers(open.take(i as int), all);
            assert(open.take(i + 1).drop_last() =~= open.take(i as int));
            if let Some(k) = find_answer(responses, self.workspaces[i]) {
                let ghost before = views@;
                let response = &responses[k].response;
                proof {
                    assert(before_answers.push(responses@[k as int]@).drop_last()
                        =~= before_answers);
                }
                let mut j: usize = 0;
                while j < response.views.len()
                    invariant
                        j <= response.views.len(),
                        views@ == before + response.views@.take(j as int),
                    decreases response.views.len() - j,
                {
                    views.push(response.views[j]);
                    assert(before + response.views@.take(j + 1) =~= (before + response.views@.take(
                        j as int,
                    )).push(response.views@[j as int]));
                    j += 1;
                }
                assert(response.views@.take(j as int) =~= response.views@);
                if response.active_view_id.is_some() {
                    if active_view_id.is_none() || responses[k].in_active_project {
                        active_view_id = response.active_view_id;
                    }
                }
            }
            i += 1;
        }
        assert(open.take(i as int) =~= open);
        proto::FollowResponse { active_view_id, views }
    }
}

fn find_answer(responses: &Vec<WorkspaceResponse>, window: u64) -> (place: Option<usize>)
    ensures
        match place {
            Some(k) => k < responses.len() && answer_of(response_views(responses@), window, 0)
                == Some(responses@[k as int]@),
            None => answer_of(response_views(responses@), window, 0) is None,
        },
{
    let mut i: usize = 0;
    while i < responses.len()
        invariant
            i <= responses.len(),
            answer_of(response_views(responses@), window, 0) == answer_of(
                response_views(responses@),
                window,
                i as int,
            ),
        decreases responses.len() - i,
    {
        assert(response_views(responses@)[i as int] == responses@[i as int]@);
        if responses[i].window == window {
            return Some(i);
        }
        i += 1;
    }
    None
}

fn find_target(targets: &Vec<UpdateTarget>, window: u64) -> (target: UpdateTarget)
    ensures
        target == target_of(targets@, window, 0),
{
    let mut i: usize = 0;
    while i < targets.len()
        invariant
            i <= targets.len(),
            target_of(targets@, window, 0) == target_of(targets@, window, i as int),
        decreases targets.len() - i,
    {
        if targets[i].window == window {
            return targets[i];
        }
        i += 1;
    }
    UpdateTarget { window, open: false, remote_id: None }
}

/// Following and then unfollowing leaves the list of followers as it was, for someone who
/// did not follow before.
pub proof fn law_unfollow_undoes_follow(
    before: Seq<Follower>,
    following: Seq<Follower>,
    after: Seq<Follower>,
    follower: Follower,
)
    requires
        strictly_sorted(before),
        strictly_sorted(following),
        strictly_sorted(after),
        !before.contains(follower),
        following.to_set() == before.to_set().insert(follower),
        after.to_set() == following.to_set().remove(follower),
    ensures
        after == before,
{
    assert(after.to_set() =~= before.to_set());
    lemma_sorted_unique(after, before);
}

/// Following twice is the same as following once.
pub proof fn law_follow_idempotent(
    once: Seq<Follower>,
    twice: Seq<Follower>,
    follower: Follower,
)
    requires
        strictly_sorted(once),
        strictly_sorted(twice),
        once.contains(follower),
        twice.to_set() == once.to_set().insert(follower),
    ensures
        twice == once,
{
    assert(once.to_set().contains(follower));
    assert(twice.to_set() =~= once.to_set());
    lemma_sorted_unique(twice, once);
}

/// An update reaches exactly the collaborators who follow its project, or all followers
/// where it names no project.
pub proof fn law_recipients(followers: Seq<Follower>, project_id: Option<u64>, peer_id: PeerId)
    ensures
        recipients(followers, project_id).contains(peer_id) <==> exists|i: int|
            0 <= i < followers.len() && (#[trigger] followers[i]).peer_id == peer_id && (
            project_id is None || followers[i].project_id == project_id),
    decreases followers.len(),
{
    if followers.len() > 0 {
        let rest = followers.drop_last();
        let last = followers.last();
        let before = recipients(rest, project_id);
        law_recipients(rest, project_id, peer_id);
        if project_id is None || last.project_id == project_id {
            let all = before.push(last.peer_id);
            if all.contains(peer_id) {
                let k = all.index_of(peer_id);
                if k < before.len() {
                    assert(before[k] == peer_id);
                    let i = choose|i: int|
                        0 <= i < rest.len() && (#[trigger] rest[i]).peer_id == peer_id && (
                        project_id is None || rest[i].project_id == project_id);
                    assert(followers[i] == rest[i]);
                } else {
                    assert(followers[followers.len() - 1].peer_id == peer_id);
                }
            }
            if before.contains(peer_id) {
                let k = before.index_of(peer_id);
                assert(all[k] == peer_id);
            }
            assert(all[all.len() - 1] == last.peer_id);
        }
        if exists|i: int|
            0 <= i < followers.len() && (#[trigger] followers[i]).peer_id == peer_id && (
            project_id is None || followers[i].project_id == project_id) {
            let i = choose|i: int|
                0 <= i < followers.len() && (#[trigger] followers[i]).peer_id == peer_id && (
                project_id is None || followers[i].project_id == project_id);
            if i < rest.len() {
                assert(rest[i] == followers[i]);
            }
        }
        if before.contains(peer_id) {
            let i = choose|i: int|
                0 <= i < rest.len() && (#[trigger] rest[i]).peer_id == peer_id && (project_id is None
                    || rest[i].project_id == project_id);
            assert(followers[i] == rest[i]);
        }
    }
}

/// A workspace of the active project decides which view is active: the last such
/// workspace that has an active view.
pub proof fn law_active_project_decides(responses: Seq<WorkspaceResponseView>, i: int)
    requires
        0 <= i < responses.len(),
        responses[i].in_active_project,
        responses[i].response.active_view_id is Some,
        forall|j: int|
            i < j < responses.len() ==> !(#[trigger] responses[j]).in_active_project
                || responses[j].response.active_view_id is None,
    ensures
        merged_response(responses).active_view_id == responses[i].response.active_view_id,
    decreases responses.len(),
{
    let rest = responses.drop_last();
    if i < responses.len() - 1 {
        assert(rest[i] == responses[i]);
        assert forall|j: int| i < j < rest.len() implies !(#[trigger] rest[j]).in_active_project
            || rest[j].response.active_view_id is None by {
            assert(rest[j] == responses[j]);
        }
        law_active_project_decides(rest, i);
        assert(responses[responses.len() - 1] == responses.last());
    }
}

/// Where no workspace of the active project has an active view, the first workspace that
/// has one decides.
pub proof fn law_first_active_view_decides(responses: Seq<WorkspaceResponseView>, i: int)
    requires
        0 <= i < responses.len(),
        responses[i].response.active_view_id is Some,
        forall|j: int| 0 <= j < i ==> (#[trigger] responses[j]).response.active_view_id is None,
        forall|j: int|
            0 <= j < responses.len() ==> !(#[trigger] responses[j]).in_active_project
                || responses[j].response.active_view_id is None,
    ensures
        merged_response(responses).active_view_id == responses[i].response.active_view_id,
    decreases responses.len(),
{
    let rest = responses.drop_last();
    assert(responses[responses.len() - 1] == responses.last());
    assert forall|j: int| 0 <= j < rest.len() implies !(#[trigger] rest[j]).in_active_project
        || rest[j].response.active_view_id is None by {
        assert(rest[j] == responses[j]);
    }
    if i < responses.len() - 1 {
        assert(rest[i] == responses[i]);
        assert forall|j: int| 0 <= j < i implies (#[trigger] rest[j]).response.active_view_id is None by {
            assert(rest[j] == responses[j]);
        }
        law_first_active_view_decides(rest, i);
    } else {
        assert forall|j: int| 0 <= j < rest.len() implies (#[trigger]
        rest[j]).response.active_view_id is None by {
            assert(rest[j] == responses[j]);
        }
        lemma_no_active_view(rest);
    }
}

proof fn lemma_no_active_view(responses: Seq<WorkspaceResponseView>)
    requires
        forall|j: int|
            0 <= j < responses.len() ==> (#[trigger] responses[j]).response.active_view_id is None,
    ensures
        merged_response(responses).active_view_id is None,
    decreases responses.len(),
{
    if responses.len() > 0 {
        let rest = responses.drop_last();
        assert forall|j: int| 0 <= j < rest.len() implies (#[trigger]
        rest[j]).response.active_view_id is None by {
            assert(rest[j] == responses[j]);
        }
        lemma_no_active_view(rest);
        assert(responses[responses.len() - 1] == responses.last());
    }
}

/// Followers of no project stand before those of any; those of projects stand in the order of
/// the projects, and within one in the order of the collaborators. Of two different followers
/// one stands before the other, and none before itself.
pub proof fn law_follower_order(a: Follower, b: Follower, c: Follower)
    ensures
        a.project_id is None && b.project_id is Some ==> follower_less(a, b),
        a.project_id matches Some(x) ==> (b.project_id matches Some(y) ==> (x < y ==> follower_less(
            a,
            b,
        ))),
        a.project_id == b.project_id && a.peer_id.owner_id < b.peer_id.owner_id ==> follower_less(
            a,
            b,
        ),
        a.project_id == b.project_id && a.peer_id.owner_id == b.peer_id.owner_id && a.peer_id.id
            < b.peer_id.id ==> follower_less(a, b),
        !follower_less(a, a),
        a == b || follower_less(a, b) || follower_less(b, a),
        !(follower_less(a, b) && follower_less(b, a)),
        follower_less(a, b) && follower_less(b, c) ==> follower_less(a, c),
{
}

/// Followers that are in order are listed once.
pub proof fn law_followers_once(followers: Seq<Follower>)
    requires
        strictly_sorted(followers),
    ensures
        followers.no_duplicates(),
{
    assert forall|i: int, j: int| 0 <= i < j < followers.len() implies followers[i]
        != followers[j] by {
        assert(follower_less(followers[i], followers[j]));
    }
}

/// A window that is added is listed, once, behind those that were listed before.
pub proof fn law_workspace_added(store: StoreView, window: u64)
    requires
        store.workspaces.no_duplicates(),
    ensures
        store.with_workspace(window).workspaces.contains(window),
        store.with_workspace(window).workspaces.no_duplicates(),
        store.workspaces.is_prefix_of(store.with_workspace(window).workspaces),
        store.with_workspace(window).followers == store.followers,
        !store.workspaces.contains(window) ==> store.with_workspace(window).workspaces
            == store.workspaces.push(window),
{
    if !store.workspaces.contains(window) {
        assert(store.with_workspace(window).workspaces.last() == window);
    }
}

proof fn lemma_answer_of(responses: Seq<WorkspaceResponseView>, window: u64, i: int)
    requires
        0 <= i <= responses.len(),
    ensures
        match answer_of(responses, window, i) {
            Some(answer) => exists|k: int|
                i <= k < responses.len() && (#[trigger] responses[k]) == answer && answer.window
                    == window && forall|j: int|
                    i <= j < k ==> (#[trigger] responses[j]).window != window,
            None => forall|j: int|
                i <= j < responses.len() ==> (#[trigger] responses[j]).window != window,
        },
    decreases responses.len() - i,
{
    if i < responses.len() {
        if responses[i].window == window {
            assert(responses[i] == answer_of(responses, window, i)->0);
        } else {
            lemma_answer_of(responses, window, i + 1);
        }
    }
}

/// The answer of a window is the first that came from it; and the answers that count are those
/// of all windows that answered, in the order of the windows.
pub proof fn law_answers(windows: Seq<u64>, responses: Seq<WorkspaceResponseView>, window: u64)
    ensures
        match answer_of(responses, window, 0) {
            Some(answer) => exists|k: int|
                0 <= k < responses.len() && (#[trigger] responses[k]) == answer && answer.window
                    == window && forall|j: int|
                    0 <= j < k ==> (#[trigger] responses[j]).window != window,
            None => forall|j: int|
                0 <= j < responses.len() ==> (#[trigger] responses[j]).window != window,
        },
        answers(windows, responses) == windows.filter(
            |w: u64| answer_of(responses, w, 0) is Some,
        ).map_values(|w: u64| answer_of(responses, w, 0)->0),
    decreases windows.len(),
{
    reveal(Seq::filter);
    lemma_answer_of(responses, window, 0);
    let answered = |w: u64| answer_of(responses, w, 0) is Some;
    let answer = |w: u64| answer_of(responses, w, 0)->0;
    if windows.len() > 0 {
        let init = windows.drop_last();
        law_answers(init, responses, window);
        assert(init.filter(answered).push(windows.last()).map_values(answer) =~= init.filter(
            answered,
        ).map_values(answer).push(answer(windows.last())));
    } else {
        assert(answers(windows, responses) =~= windows.filter(answered).map_values(answer));
    }
}

/// The merged answer has the views of all answers, those of a later one behind those of an
/// earlier; it names an active view exactly if one of them does; and the answer to nobody is
/// empty.
pub proof fn law_merged_response(
    responses: Seq<WorkspaceResponseView>,
    last: WorkspaceResponseView,
    view: proto::View,
)
    ensures
        merged_response(responses.push(last)).views == merged_response(responses).views
            + last.response.views,
        merged_response(responses).views.contains(view) <==> exists|i: int|
            0 <= i < responses.len() && (#[trigger] responses[i]).response.views.contains(view),
        merged_response(responses).active_view_id is Some <==> exists|i: int|
            0 <= i < responses.len() && (#[trigger] responses[i]).response.active_view_id is Some,
        merged_response(Seq::empty()).views.len() == 0,
    decreases responses.len(),
{
    assert(responses.push(last).drop_last() =~= responses);
    let whole = merged_response(responses).views;
    if responses.len() > 0 {
        let init = responses.drop_last();
        let n = responses.len() - 1;
        let end = responses.last();
        let before = merged_response(init).views;
        law_merged_response(init, last, view);
        assert(responses[n] == end);
        if whole.contains(view) {
            let j = whole.index_of(view);
            if j < before.len() {
                assert(before[j] == view);
                let i = choose|i: int|
                    0 <= i < init.len() && (#[trigger] init[i]).response.views.contains(view);
                assert(responses[i] == init[i]);
            } else {
                assert(end.response.views[j - before.len()] == view);
            }
        }
        if exists|i: int|
            0 <= i < responses.len() && (#[trigger] responses[i]).response.views.contains(view) {
            let i = choose|i: int|
                0 <= i < responses.len() && (#[trigger] responses[i]).response.views.contains(view);
            if i < n {
                assert(init[i] == responses[i]);
                let j = before.index_of(view);
                assert(whole[j] == view);
            } else {
                let j = end.response.views.index_of(view);
                assert(whole[before.len() + j] == view);
            }
        }
        if merged_response(init).active_view_id is Some {
            let i = choose|i: int|
                0 <= i < init.len() && (#[trigger] init[i]).response.active_view_id is Some;
            assert(responses[i] == init[i]);
        }
        if exists|i: int|
            0 <= i < responses.len() && (#[trigger] responses[i]).response.active_view_id is Some {
            let i = choose|i: int|
                0 <= i < responses.len() && (
                #[trigger] responses[i]).response.active_view_id is Some;
            if i < n {
                assert(init[i] == responses[i]);
            }
        }
    } else {
        assert(!whole.contains(view));
    }
}

/// Those who are told are all followers whom an update concerns, in their order.
pub proof fn law_recipients_in_order(followers: Seq<Follower>, project_id: Option<u64>)
    ensures
        recipients(followers, project_id) == followers.filter(
            |f: Follower| project_id is None || f.project_id == project_id,
        ).map_values(|f: Follower| f.peer_id),
    decreases followers.len(),
{
    reveal(Seq::filter);
    let concerned = |f: Follower| project_id is None || f.project_id == project_id;
    let peer = |f: Follower| f.peer_id;
    if followers.len() > 0 {
        let init = followers.drop_last();
        law_recipients_in_order(init, project_id);
        assert(init.filter(concerned).push(followers.last()).map_values(peer) =~= init.filter(
            concerned,
        ).map_values(peer).push(followers.last().peer_id));
    } else {
        assert(recipients(followers, project_id) =~= followers.filter(concerned).map_values(peer));
    }
}

/// A message goes out exactly if we are in a room and someone is concerned. It names the room,
/// the project and the update, and goes to all who are concerned.
pub proof fn law_followers_message(
    followers: Seq<Follower>,
    project_id: Option<u64>,
    update: proto::Variant,
    room_id: Option<u64>,
)
    ensures
        followers_message(followers, project_id, update, room_id) is Some <==> room_id is Some
            && exists|i: int|
            0 <= i < followers.len() && (project_id is None || (
            #[trigger] followers[i]).project_id == project_id),
        followers_message(followers, project_id, update, room_id) matches Some(message) ==> {
            &&& Some(message.room_id) == room_id
            &&& message.project_id == project_id
            &&& message.variant == Some(update)
            &&& message.follower_ids == followers.filter(
                |f: Follower| project_id is None || f.project_id == project_id,
            ).map_values(|f: Follower| f.peer_id)
        },
{
    let told = recipients(followers, project_id);
    law_recipients_in_order(followers, project_id);
    if exists|i: int|
        0 <= i < followers.len() && (project_id is None || (#[trigger] followers[i]).project_id
            == project_id) {
        let i = choose|i: int|
            0 <= i < followers.len() && (project_id is None || (#[trigger] followers[i]).project_id
                == project_id);
        law_recipients(followers, project_id, followers[i].peer_id);
        assert(told.contains(followers[i].peer_id));
    }
    if told.len() > 0 {
        law_recipients(followers, project_id, told[0]);
        assert(told.contains(told[0]));
    }
}

proof fn lemma_target_of(targets: Seq<UpdateTarget>, window: u64, i: int)
    requires
        0 <= i <= targets.len(),
    ensures
        target_of(targets, window, i).window == window,
        forall|k: int|
            i <= k < targets.len() && (#[trigger] targets[k]).window == window && (forall|j: int|
                i <= j < k ==> (#[trigger] targets[j]).window != window) ==> target_of(
                targets,
                window,
                i,
            ) == targets[k],
        (forall|j: int| i <= j < targets.len() ==> (#[trigger] targets[j]).window != window)
            ==> !target_of(targets, window, i).open,
    decreases targets.len() - i,
{
    if i < targets.len() && targets[i].window != window {
        lemma_target_of(targets, window, i + 1);
        assert forall|k: int|
            i <= k < targets.len() && (#[trigger] targets[k]).window == window && (forall|j: int|
                i <= j < k ==> (#[trigger] targets[j]).window != window) implies target_of(
            targets,
            window,
            i,
        ) == targets[k] by {
            assert(k != i);
        }
    } else if i < targets.len() {
        assert forall|k: int|
            i <= k < targets.len() && (#[trigger] targets[k]).window == window && (forall|j: int|
                i <= j < k ==> (#[trigger] targets[j]).window != window) implies target_of(
            targets,
            window,
            i,
        ) == targets[k] by {
            assert(targets[i].window == window);
            assert(k == i);
        }
    }
}

/// What is known of a window is what the first target for it says, and a window without one is
/// closed; each window is looked up for itself.
pub proof fn law_targets(windows: Seq<u64>, targets: Seq<UpdateTarget>, window: u64, w: int)
    ensures
        target_of(targets, window, 0).window == window,
        forall|k: int|
            0 <= k < targets.len() && (#[trigger] targets[k]).window == window && (forall|j: int|
                0 <= j < k ==> (#[trigger] targets[j]).window != window) ==> target_of(
                targets,
                window,
                0,
            ) == targets[k],
        (forall|j: int| 0 <= j < targets.len() ==> (#[trigger] targets[j]).window != window)
            ==> !target_of(targets, window, 0).open,
        targets_of(windows, targets).len() == windows.len(),
        0 <= w < windows.len() ==> targets_of(windows, targets)[w] == target_of(
            targets,
            windows[w],
            0,
        ),
{
    lemma_target_of(targets, window, 0);
}

proof fn lemma_reached(targets: Seq<UpdateTarget>, i: nat)
    requires
        i <= targets.len(),
    ensures
        i <= reached(targets, i) <= targets.len(),
        forall|j: int| i <= j < reached(targets, i) ==> (#[trigger] targets[j]).open,
        reached(targets, i) < targets.len() ==> !targets[reached(targets, i) as int].open,
    decreases targets.len() - i,
{
    if i < targets.len() && targets[i as int].open {
        lemma_reached(targets, i + 1);
    }
}

/// An update is handed to the windows whose project it concerns, or to all where it names no
/// project, in their order, up to the first that turns out to be closed.
pub proof fn law_update_windows(targets: Seq<UpdateTarget>, project_id: Option<u64>, n: nat)
    requires
        n <= targets.len(),
    ensures
        update_windows(targets, project_id, n) == targets.take(n as int).filter(
            |t: UpdateTarget| project_id is None || t.remote_id == project_id,
        ).map_values(|t: UpdateTarget| t.window),
        reached(targets, 0) <= targets.len(),
        forall|j: int| 0 <= j < reached(targets, 0) ==> (#[trigger] targets[j]).open,
        reached(targets, 0) < targets.len() ==> !targets[reached(targets, 0) as int].open,
    decreases n,
{
    reveal(Seq::filter);
    lemma_reached(targets, 0);
    let concerned = |t: UpdateTarget| project_id is None || t.remote_id == project_id;
    let window = |t: UpdateTarget| t.window;
    let list = targets.take(n as int);
    if n > 0 {
        let init = targets.take(n - 1);
        law_update_windows(targets, project_id, (n - 1) as nat);
        assert(list.drop_last() =~= init);
        assert(list.last() == targets[n - 1]);
        assert(init.filter(concerned).push(list.last()).map_values(window) =~= init.filter(
            concerned,
        ).map_values(window).push(list.last().window));
    } else {
        assert(update_windows(targets, project_id, n) =~= list.filter(concerned).map_values(
            window,
        ));
    }
}

} // verus!
