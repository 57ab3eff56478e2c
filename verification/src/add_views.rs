//! Building the items that stand for the views of a leader.

use crate::context::index_view;
use crate::error::Error;
use crate::proto;
use crate::proto::PeerId;
use crate::view_id::{view_id_from_proto, ViewId};
use vstd::prelude::*;

verus! {

/// A task that builds an item for a view of a leader, in the pane whose turn it was.
#[derive(Clone, Copy, Debug, PartialEq, Eq, Structural)]
pub struct ViewTask {
    pub turn: usize,
    pub id: ViewId,
    pub task: u64,
}

/// The next thing to do when panes get items for the views of a leader.
#[derive(Clone, Copy, Debug, PartialEq, Eq, Structural)]
pub enum AddViewsAction {
    /// Let the builder at a place try to build an item for a view.
    Build { pane: u64, id: ViewId, variant: u64, builder: usize },
    /// Wait for the tasks of a pane, and give it the items.
    Join(u64),
    /// All panes have their items.
    Done,
    /// It could not be done.
    Fail(Error),
}

/// How far the building of items for the views of a leader has come: the pane, the view and
/// the builder that are next; the tasks that have been started; and how many turns are over of
/// those in which the panes get their items. Of a pane that is listed more than once the last
/// turn alone counts.
#[derive(Debug, PartialEq, Eq)]
pub struct AddViews {
    pub leader_id: PeerId,
    pub panes: Vec<u64>,
    pub views: Vec<proto::View>,
    pub builders: usize,
    pub pane: usize,
    pub view: usize,
    pub builder: usize,
    pub tasks: Vec<ViewTask>,
    pub joined: usize,
    pub failure: Option<Error>,
}

#[verifier::ext_equal]
pub struct AddViewsView {
    pub leader_id: PeerId,
    pub panes: Seq<u64>,
    pub views: Seq<proto::View>,
    pub builders: int,
    pub pane: int,
    pub view: int,
    pub builder: int,
    pub tasks: Seq<ViewTask>,
    pub joined: int,
    pub failure: Option<Error>,
}

impl vstd::view::View for AddViews {
    type V = AddViewsView;

    open spec fn view(&self) -> AddViewsView {
        AddViewsView {
            leader_id: self.leader_id,
            panes: self.panes@,
            views: self.views@,
            builders: self.builders as int,
            pane: self.pane as int,
            view: self.view as int,
            builder: self.builder as int,
            tasks: self.tasks@,
            joined: self.joined as int,
            failure: self.failure,
        }
    }
}

/// The id and the state of a view that has an id, if both are in order.
pub open spec fn view_parts(view: proto::View) -> Result<(ViewId, u64), Error> {
    match view.id {
        Some(id) => match (view_id_from_proto(id), view.variant) {
            (Ok(id), Some(variant)) => Ok((id, variant)),
            (Ok(_), None) => Err(Error::MissingViewVariant),
            (Err(error), _) => Err(error),
        },
        None => Err(Error::MissingCreator),
    }
}

/// The tasks of one turn, in order: for each the view it is for.
pub open spec fn tasks_of(tasks: Seq<ViewTask>, turn: int) -> Seq<(ViewId, u64)>
    decreases tasks.len(),
{
    if tasks.len() == 0 {
        Seq::empty()
    } else {
        let before = tasks_of(tasks.drop_last(), turn);
        if tasks.last().turn == turn {
            before.push((tasks.last().id, tasks.last().task))
        } else {
            before
        }
    }
}

/// The last turn of a pane, among the first `n`.
pub open spec fn last_turn(panes: Seq<u64>, pane: u64, n: int) -> Option<int>
    decreases n,
{
    if n <= 0 || n > panes.len() {
        None
    } else if panes[n - 1] == pane {
        Some(n - 1)
    } else {
        last_turn(panes, pane, n - 1)
    }
}

/// The first turn, from `turn` on, that is the last one of its pane.
pub open spec fn turn_to_join(panes: Seq<u64>, turn: int) -> int
    decreases panes.len() - turn,
{
    if turn < 0 || turn >= panes.len() {
        panes.len() as int
    } else if last_turn(panes, panes[turn], panes.len() as int) == Some(turn) {
        turn
    } else {
        turn_to_join(panes, turn + 1)
    }
}

impl AddViewsView {
    pub open spec fn well_formed(self) -> bool {
        &&& 0 <= self.pane <= self.panes.len()
        &&& 0 <= self.view <= self.views.len()
        &&& 0 <= self.builder <= self.builders
        &&& 0 <= self.joined <= self.panes.len()
    }

    /// The same with everything passed over that nothing is to be done about: views without an
    /// id, and views that every builder has declined.
    pub open spec fn settled(self) -> AddViewsView
        decreases self.panes.len() - self.pane, self.views.len() - self.view,
    {
        if self.pane < 0 || self.view < 0 || self.pane >= self.panes.len() {
            self
        } else if self.view >= self.views.len() {
            AddViewsView { pane: self.pane + 1, view: 0, builder: 0, ..self }.settled()
        } else if self.views[self.view].id is None || (view_parts(self.views[self.view]) is Ok
            && self.builder >= self.builders) {
            AddViewsView { view: self.view + 1, builder: 0, ..self }.settled()
        } else {
            self
        }
    }

    /// Nothing is to be passed over.
    pub open spec fn is_settled(self) -> bool {
        self.pane < self.panes.len() ==> {
            &&& self.view < self.views.len()
            &&& self.views[self.view].id is Some
            &&& view_parts(self.views[self.view]) is Ok ==> self.builder < self.builders
        }
    }

    /// The next thing to do, where nothing is to be passed over: the builders in turn for each
    /// view in each pane, up to a view that is not in order; then the panes, each in its last
    /// turn.
    pub open spec fn next(self) -> AddViewsAction {
        match self.failure {
            Some(error) => AddViewsAction::Fail(error),
            None => if self.pane < self.panes.len() {
                match view_parts(self.views[self.view]) {
                    Ok((id, variant)) => AddViewsAction::Build {
                        pane: self.panes[self.pane],
                        id,
                        variant,
                        builder: self.builder as usize,
                    },
                    Err(error) => AddViewsAction::Fail(error),
                }
            } else {
                let turn = turn_to_join(self.panes, self.joined);
                if turn < self.panes.len() {
                    AddViewsAction::Join(self.panes[turn])
                } else {
                    AddViewsAction::Done
                }
            },
        }
    }

    /// The tasks of a pane: those of its last turn.
    pub open spec fn tasks_for(self, pane: u64) -> Seq<(ViewId, u64)> {
        match last_turn(self.panes, pane, self.panes.len() as int) {
            Some(turn) => tasks_of(self.tasks, turn),
            None => Seq::empty(),
        }
    }

    /// A builder has started a task, or declined.
    pub open spec fn built(self, task: Option<u64>) -> AddViewsView {
        match task {
            Some(task) => AddViewsView {
                tasks: self.tasks.push(
                    ViewTask {
                        turn: self.pane as usize,
                        id: view_parts(self.views[self.view])->Ok_0.0,
                        task,
                    },
                ),
                view: self.view + 1,
                builder: 0,
                ..self
            }.settled(),
            None => AddViewsView { builder: self.builder + 1, ..self }.settled(),
        }
    }
}

proof fn lemma_settled(s: AddViewsView)
    requires
        s.well_formed(),
    ensures
        s.settled().well_formed(),
        s.settled().is_settled(),
        s.settled() == (AddViewsView {
            pane: s.settled().pane,
            view: s.settled().view,
            builder: s.settled().builder,
            ..s
        }),
        s.settled().pane >= s.pane,
        s.settled().pane == s.pane ==> s.settled().view >= s.view,
        s.settled().pane == s.pane && s.settled().view == s.view ==> s.settled().builder == s.builder,
    decreases s.panes.len() - s.pane, s.views.len() - s.view,
{
    if s.pane < s.panes.len() {
        if s.view >= s.views.len() {
            lemma_settled(AddViewsView { pane: s.pane + 1, view: 0, builder: 0, ..s });
        } else if s.views[s.view].id is None || (view_parts(s.views[s.view]) is Ok && s.builder
            >= s.builders) {
            lemma_settled(AddViewsView { view: s.view + 1, builder: 0, ..s });
        }
    }
}

fn parts_of_view(view: &proto::View) -> (parts: Result<(ViewId, u64), Error>)
    ensures
        parts == view_parts(*view),
{
    match view.id {
        Some(id) => match ViewId::from_proto(id) {
            Ok(id) => match view.variant {
                Some(variant) => Ok((id, variant)),
                None => Err(Error::MissingViewVariant),
            },
            Err(error) => Err(error),
        },
        None => Err(Error::MissingCreator),
    }
}

impl AddViews {
    /// Starts to build items for views of a leader in panes, with a number of builders.
    pub fn new(leader_id: PeerId, panes: Vec<u64>, views: Vec<proto::View>, builders: usize) -> (adding:
        AddViews)
        ensures
            adding@ == (AddViewsView {
                leader_id,
                panes: panes@,
                views: views@,
                builders: builders as int,
                pane: 0,
                view: 0,
                builder: 0,
                tasks: Seq::empty(),
                joined: 0,
                failure: None,
            }).settled(),
            adding@.well_formed(),
            adding@.is_settled(),
    {
        let mut adding = AddViews {
            leader_id,
            panes,
            views,
            builders,
            pane: 0,
            view: 0,
            builder: 0,
            tasks: Vec::new(),
            joined: 0,
            failure: None,
        };
        adding.settle();
        adding
    }

    fn settle(&mut self)
        requires
            old(self)@.well_formed(),
        ensures
            final(self)@ == old(self)@.settled(),
            final(self)@.well_formed(),
            final(self)@.is_settled(),
    {
        let ghost goal = self@.settled();
        proof {
            lemma_settled(self@);
        }
        while self.pane < self.panes.len()
            invariant
                self@.well_formed(),
                goal == old(self)@.settled(),
                self@.settled() == goal,
                goal.well_formed(),
                goal.is_settled(),
            decreases self.panes.len() - self.pane, self.views.len() - self.view,
        {
            if self.view >= self.views.len() {
                self.pane += 1;
                self.view = 0;
                self.builder = 0;
            } else {
                let pass = match self.views[self.view].id {
                    None => true,
                    Some(_) => match parts_of_view(&self.views[self.view]) {
                        Ok(_) => self.builder >= self.builders,
                        Err(_) => false,
                    },
                };
                if !pass {
                    return;
                }
                self.view += 1;
                self.builder = 0;
            }
        }
    }

    /// The next thing to do.
    pub fn next(&self) -> (action: AddViewsAction)
        requires
            self@.well_formed(),
            self@.is_settled(),
        ensures
            action == self@.next(),
    {
        if let Some(error) = self.failure {
            return AddViewsAction::Fail(error);
        }
        if self.pane < self.panes.len() {
            match parts_of_view(&self.views[self.view]) {
                Ok((id, variant)) => AddViewsAction::Build {
                    pane: self.panes[self.pane],
                    id,
                    variant,
                    builder: self.builder,
                },
                Err(error) => AddViewsAction::Fail(error),
            }
        } else {
            let turn = self.find_turn_to_join();
            if turn < self.panes.len() {
                AddViewsAction::Join(self.panes[turn])
            } else {
                AddViewsAction::Done
            }
        }
    }

    fn find_last_turn(&self, pane: u64) -> (turn: Option<usize>)
        ensures
            index_view(turn) == last_turn(self@.panes, pane, self@.panes.len() as int),
    {
        let mut n: usize = self.panes.len();
        while n > 0
            invariant
                n <= self.panes.len(),
                last_turn(self@.panes, pane, self@.panes.len() as int) == last_turn(
                    self@.panes,
                    pane,
                    n as int,
                ),
            decreases n,
        {
            if self.panes[n - 1] == pane {
                return Some(n - 1);
            }
            n -= 1;
        }
        None
    }

    fn find_turn_to_join(&self) -> (turn: usize)
        requires
            self@.joined <= self@.panes.len(),
        ensures
            turn == turn_to_join(self@.panes, self@.joined),
            turn <= self.panes.len(),
    {
        let mut turn: usize = self.joined;
        while turn < self.panes.len()
            invariant
                turn <= self.panes.len(),
                turn_to_join(self@.panes, self@.joined) == turn_to_join(self@.panes, turn as int),
            decreases self.panes.len() - turn,
        {
            if self.find_last_turn(self.panes[turn]) == Some(turn) {
                return turn;
            }
            turn += 1;
        }
        turn
    }

    /// A builder has started a task, or declined.
    pub fn built(&mut self, task: Option<u64>)
        requires
            old(self)@.well_formed(),
            old(self)@.is_settled(),
            old(self)@.next() is Build,
        ensures
            final(self)@ == old(self)@.built(task),
            final(self)@.well_formed(),
            final(self)@.is_settled(),
    {
        assert(self.view < self.views.len());
        match task {
            Some(task) => {
                if let Ok((id, _)) = parts_of_view(&self.views[self.view]) {
                    self.tasks.push(ViewTask { turn: self.pane, id, task });
                }
                self.view += 1;
                self.builder = 0;
            },
            None => {
                self.builder += 1;
            },
        }
        self.settle();
    }

    /// The tasks of a pane, those of its last turn, each with the view that it is for.
    pub fn tasks_for(&self, pane: u64) -> (tasks: Vec<(ViewId, u64)>)
        ensures
            tasks@ == self@.tasks_for(pane),
    {
        let mut tasks: Vec<(ViewId, u64)> = Vec::new();
        let turn = match self.find_last_turn(pane) {
            Some(turn) => turn,
            None => {
                return tasks;
            },
        };
        let mut i: usize = 0;
        while i < self.tasks.len()
            invariant
                i <= self.tasks.len(),
                tasks@ == tasks_of(self.tasks@.take(i as int), turn as int),
            decreases self.tasks.len() - i,
        {
            proof {
                assert(self.tasks@.take(i + 1).drop_last() =~= self.tasks@.take(i as int));
            }
            if self.tasks[i].turn == turn {
                tasks.push((self.tasks[i].id, self.tasks[i].task));
            }
            i += 1;
        }
        assert(self.tasks@.take(i as int) =~= self.tasks@);
        tasks
    }

    /// The pane whose turn it was has its items.
    pub fn pane_joined(&mut self)
        requires
            old(self)@.well_formed(),
            old(self)@.is_settled(),
            old(self)@.next() is Join,
        ensures
            final(self)@ == (AddViewsView {
                joined: turn_to_join(old(self)@.panes, old(self)@.joined) + 1,
                ..old(self)@
            }),
            final(self)@.well_formed(),
            final(self)@.is_settled(),
    {
        let turn = self.find_turn_to_join();
        self.joined = turn + 1;
    }

    /// An item could not be built, or the workspace is gone.
    pub fn fail(&mut self, error: Error)
        requires
            old(self)@.well_formed(),
            old(self)@.is_settled(),
        ensures
            final(self)@ == (AddViewsView { failure: Some(error), ..old(self)@ }),
            final(self)@.well_formed(),
            final(self)@.is_settled(),
    {
        self.failure = Some(error);
    }
}

/// The views that were built for, each with its item, as far as both lists go.
pub fn zip_items(tasks: &Vec<(ViewId, u64)>, items: &Vec<u64>) -> (pairs: Vec<(ViewId, u64)>)
    ensures
        pairs@ == Seq::new(
            if tasks.len() <= items.len() {
                tasks@.len()
            } else {
                items@.len()
            },
            |i: int| (tasks@[i].0, items@[i]),
        ),
{
    let mut pairs: Vec<(ViewId, u64)> = Vec::new();
    let mut i: usize = 0;
    while i < tasks.len() && i < items.len()
        invariant
            i <= tasks.len(),
            i <= items.len(),
            pairs@ =~= Seq::new(i as nat, |j: int| (tasks@[j].0, items@[j])),
        decreases tasks.len() - i,
    {
        pairs.push((tasks[i].0, items[i]));
        i += 1;
    }
    pairs
}

/// What a builder answers always leads on, so that building comes to an end.
pub proof fn law_building_ends(s: AddViewsView, task: Option<u64>)
    requires
        s.well_formed(),
        s.is_settled(),
        s.next() is Build,
    ensures
        ({
            let after = s.built(task);
            ||| after.pane > s.pane
            ||| after.pane == s.pane && after.view > s.view
            ||| after.pane == s.pane && after.view == s.view && after.builder > s.builder
        }),
{
    match task {
        Some(task) => {
            let added = AddViewsView {
                tasks: s.tasks.push(
                    ViewTask {
                        turn: s.pane as usize,
                        id: view_parts(s.views[s.view])->Ok_0.0,
                        task,
                    },
                ),
                view: s.view + 1,
                builder: 0,
                ..s
            };
            lemma_settled(added);
        },
        None => {
            lemma_settled(AddViewsView { builder: s.builder + 1, ..s });
        },
    }
}

/// No pane gets its items before every view was built for in every pane.
pub proof fn law_join_after_building(s: AddViewsView)
    requires
        s.well_formed(),
        s.is_settled(),
        s.next() is Join || s.next() is Done,
    ensures
        s.pane == s.panes.len(),
{
}

proof fn lemma_last_turn(panes: Seq<u64>, pane: u64, n: int)
    requires
        0 <= n <= panes.len(),
    ensures
        match last_turn(panes, pane, n) {
            Some(k) => 0 <= k < n && panes[k] == pane && forall|j: int|
                k < j < n ==> #[trigger] panes[j] != pane,
            None => forall|j: int| 0 <= j < n ==> #[trigger] panes[j] != pane,
        },
    decreases n,
{
    if n > 0 && panes[n - 1] != pane {
        lemma_last_turn(panes, pane, n - 1);
    }
}

proof fn lemma_turn_to_join(panes: Seq<u64>, turn: int)
    requires
        0 <= turn <= panes.len(),
    ensures
        turn <= turn_to_join(panes, turn) <= panes.len(),
        turn_to_join(panes, turn) < panes.len() ==> last_turn(
            panes,
            panes[turn_to_join(panes, turn)],
            panes.len() as int,
        ) == Some(turn_to_join(panes, turn)),
    decreases panes.len() - turn,
{
    if turn < panes.len() && last_turn(panes, panes[turn], panes.len() as int) != Some(turn) {
        lemma_turn_to_join(panes, turn + 1);
    }
}

/// A pane that gets its items is not listed again behind that turn, so that each pane gets
/// items once.
pub proof fn law_joined_once(s: AddViewsView, later: int)
    requires
        s.well_formed(),
        s.is_settled(),
        s.next() is Join,
        turn_to_join(s.panes, s.joined) < later < s.panes.len(),
    ensures
        s.next() != AddViewsAction::Join(s.panes[later]),
{
    let turn = turn_to_join(s.panes, s.joined);
    lemma_turn_to_join(s.panes, s.joined);
    lemma_last_turn(s.panes, s.panes[turn], s.panes.len() as int);
}

/// A view is in order if it has an id that names a creator, and a state. It is refused for want
/// of a creator, or else for want of a state.
pub proof fn law_view_parts(view: proto::View)
    ensures
        view.id matches Some(id) ==> {
            &&& id.creator is None ==> view_parts(view) == Err::<(ViewId, u64), Error>(
                Error::MissingCreator,
            )
            &&& id.creator is Some && view.variant is None ==> view_parts(view) == Err::<
                (ViewId, u64),
                Error,
            >(Error::MissingViewVariant)
            &&& id.creator is Some && view.variant is Some ==> view_parts(view) == Ok::<
                (ViewId, u64),
                Error,
            >((ViewId { creator: id.creator->0, id: id.id }, view.variant->0))
        },
{
}

/// The tasks of a turn are all that were started in it, in their order, each with its view; and
/// those of a pane are those of the last turn in which it is listed.
pub proof fn law_tasks_of(tasks: Seq<ViewTask>, turn: int)
    ensures
        tasks_of(tasks, turn) == tasks.filter(|t: ViewTask| t.turn == turn).map_values(
            |t: ViewTask| (t.id, t.task),
        ),
    decreases tasks.len(),
{
    reveal(Seq::filter);
    let own = |t: ViewTask| t.turn == turn;
    let pair = |t: ViewTask| (t.id, t.task);
    if tasks.len() > 0 {
        let init = tasks.drop_last();
        law_tasks_of(init, turn);
        assert(init.filter(own).push(tasks.last()).map_values(pair) =~= init.filter(
            own,
        ).map_values(pair).push(pair(tasks.last())));
    } else {
        assert(tasks_of(tasks, turn) =~= tasks.filter(own).map_values(pair));
    }
}

/// The tasks of a pane are those of the last turn in which it is listed; a pane that is not
/// listed has none.
pub proof fn law_tasks_for(s: AddViewsView, pane: u64, turn: int)
    ensures
        0 <= turn < s.panes.len() && s.panes[turn] == pane && (forall|j: int|
            turn < j < s.panes.len() ==> #[trigger] s.panes[j] != pane) ==> s.tasks_for(pane)
            == s.tasks.filter(|t: ViewTask| t.turn == turn).map_values(
            |t: ViewTask| (t.id, t.task),
        ),
        !s.panes.contains(pane) ==> s.tasks_for(pane).len() == 0,
{
    lemma_last_turn(s.panes, pane, s.panes.len() as int);
    law_tasks_of(s.tasks, turn);
    if let Some(k) = last_turn(s.panes, pane, s.panes.len() as int) {
        assert(s.panes[k] == pane);
    }
}

/// Whether a place comes before another: an earlier pane, or an earlier view of the same pane.
pub open spec fn place_before(pane: int, view: int, other_pane: int, other_view: int) -> bool {
    pane < other_pane || (pane == other_pane && view < other_view)
}

/// What is passed over is nothing but views without an id and views that every builder has
/// declined, the latter only where one was looked at or there are no builders. Nothing else
/// changes but the place, and the builders begin anew at another place.
pub proof fn law_passed_over(s: AddViewsView, pane: int, view: int)
    requires
        s.well_formed(),
        0 <= pane < s.panes.len(),
        0 <= view < s.views.len(),
        !place_before(pane, view, s.pane, s.view),
        place_before(pane, view, s.settled().pane, s.settled().view),
    ensures
        s.views[view].id is None || (view_parts(s.views[view]) is Ok && (s.builders == 0 || (pane
            == s.pane && view == s.view && s.builder == s.builders))),
    decreases s.panes.len() - s.pane, s.views.len() - s.view,
{
    if s.pane < s.panes.len() {
        if s.view >= s.views.len() {
            let next = AddViewsView { pane: s.pane + 1, view: 0, builder: 0, ..s };
            law_passed_over(next, pane, view);
        } else if s.views[s.view].id is None || (view_parts(s.views[s.view]) is Ok && s.builder
            >= s.builders) {
            let next = AddViewsView { view: s.view + 1, builder: 0, ..s };
            if !(pane == s.pane && view == s.view) {
                law_passed_over(next, pane, view);
            }
        }
    }
}

/// Passing over goes forward, changes nothing but the place, and begins anew with the builders
/// where it went on.
pub proof fn law_passing_over_keeps(s: AddViewsView)
    requires
        s.well_formed(),
    ensures
        ({
            let t = s.settled();
            &&& t == (AddViewsView { pane: t.pane, view: t.view, builder: t.builder, ..s })
            &&& t.pane == s.pane && t.view == s.view ==> t.builder == s.builder
            &&& t.pane == s.pane && t.view == s.view || place_before(
                s.pane,
                s.view,
                t.pane,
                t.view,
            )
            &&& place_before(s.pane, s.view, t.pane, t.view) ==> t.builder == 0
            &&& t.pane <= s.panes.len()
        }),
    decreases s.panes.len() - s.pane, s.views.len() - s.view,
{
    if s.pane < s.panes.len() {
        if s.view >= s.views.len() {
            law_passing_over_keeps(
                AddViewsView { pane: s.pane + 1, view: 0, builder: 0, ..s },
            );
        } else if s.views[s.view].id is None || (view_parts(s.views[s.view]) is Ok && s.builder
            >= s.builders) {
            law_passing_over_keeps(AddViewsView { view: s.view + 1, builder: 0, ..s });
        }
    }
}

/// A builder is asked about the view whose turn it is, in the pane whose turn it is. One that
/// declined is followed by the next builder for the same view; where one has started a task,
/// that is noted for the pane and the view, and the view is not offered again.
pub proof fn law_builders_in_turn(s: AddViewsView, task: u64)
    requires
        s.well_formed(),
        s.is_settled(),
        s.failure is None,
        s.pane < s.panes.len(),
        s.panes.len() <= usize::MAX,
        view_parts(s.views[s.view]) is Ok,
        s.builders <= usize::MAX,
    ensures
        ({
            let (id, variant) = view_parts(s.views[s.view])->Ok_0;
            &&& s.next() == (AddViewsAction::Build {
                pane: s.panes[s.pane],
                id,
                variant,
                builder: s.builder as usize,
            })
            &&& s.builder + 1 < s.builders ==> s.built(None) == (AddViewsView {
                builder: s.builder + 1,
                ..s
            })
            &&& s.built(None).tasks == s.tasks
            &&& s.built(Some(task)).tasks == s.tasks.push(
                ViewTask { turn: s.pane as usize, id, task },
            )
            &&& place_before(
                s.pane,
                s.view,
                s.built(Some(task)).pane,
                s.built(Some(task)).view,
            )
        }),
{
    let (id, variant) = view_parts(s.views[s.view])->Ok_0;
    let declined = AddViewsView { builder: s.builder + 1, ..s };
    let started = AddViewsView {
        tasks: s.tasks.push(ViewTask { turn: s.pane as usize, id, task }),
        view: s.view + 1,
        builder: 0,
        ..s
    };
    law_passing_over_keeps(declined);
    law_passing_over_keeps(started);
}

/// Nothing is built for a view that is not in order: the whole fails. Once all is built, the
/// panes get their items, each in its last turn and none before the others' turns are over; and
/// then all is done. A failure stands.
pub proof fn law_panes_joined(s: AddViewsView, error: Error, turn: int)
    requires
        s.well_formed(),
        s.is_settled(),
    ensures
        (AddViewsView { failure: Some(error), ..s }).next() == AddViewsAction::Fail(error),
        s.failure is None && s.pane < s.panes.len() && view_parts(s.views[s.view]) is Err
            ==> s.next() == AddViewsAction::Fail(view_parts(s.views[s.view])->Err_0),
        s.failure is None && s.pane == s.panes.len() ==> {
            &&& s.joined <= turn < s.panes.len() && (forall|j: int|
                turn < j < s.panes.len() ==> #[trigger] s.panes[j] != s.panes[turn]) && (forall|
                k: int,
            |
                s.joined <= k < turn ==> s.panes.skip(k + 1).contains(#[trigger] s.panes[k]))
                ==> s.next() == AddViewsAction::Join(s.panes[turn])
            &&& s.joined == s.panes.len() ==> s.next() == AddViewsAction::Done
            &&& s.joined < s.panes.len() ==> s.next() is Join
        },
{
    if s.failure is None && s.pane == s.panes.len() {
        if s.joined < s.panes.len() {
            let n = s.panes.len() - 1;
            lemma_last_turn(s.panes, s.panes[n], s.panes.len() as int);
            lemma_join_before(s.panes, s.joined, n);
        }
        if s.joined <= turn < s.panes.len() && (forall|j: int|
            turn < j < s.panes.len() ==> #[trigger] s.panes[j] != s.panes[turn]) && (forall|k: int|
            s.joined <= k < turn ==> s.panes.skip(k + 1).contains(#[trigger] s.panes[k])) {
            lemma_join_at(s.panes, s.joined, turn);
        }
    }
}

proof fn lemma_join_before(panes: Seq<u64>, from: int, turn: int)
    requires
        0 <= from <= turn < panes.len(),
        last_turn(panes, panes[turn], panes.len() as int) == Some(turn),
    ensures
        turn_to_join(panes, from) <= turn,
    decreases turn - from,
{
    if from < turn && last_turn(panes, panes[from], panes.len() as int) != Some(from) {
        lemma_join_before(panes, from + 1, turn);
    }
}

proof fn lemma_join_at(panes: Seq<u64>, from: int, turn: int)
    requires
        0 <= from <= turn < panes.len(),
        forall|j: int| turn < j < panes.len() ==> #[trigger] panes[j] != panes[turn],
        forall|k: int| from <= k < turn ==> panes.skip(k + 1).contains(#[trigger] panes[k]),
    ensures
        turn_to_join(panes, from) == turn,
    decreases turn - from,
{
    let n = panes.len() as int;
    lemma_last_turn(panes, panes[from], n);
    if from < turn {
        let rest = panes.skip(from + 1);
        assert(rest.contains(panes[from]));
        let j = rest.index_of(panes[from]);
        assert(panes[from + 1 + j] == panes[from]);
        lemma_join_at(panes, from + 1, turn);
    } else if let Some(k) = last_turn(panes, panes[from], n) {
        assert(panes[k] == panes[from]);
    }
}

} // verus!
