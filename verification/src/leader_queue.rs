//! Processing what leaders send, one update after the other.

use crate::context::{Context, Effect, EffectView};
use crate::error::Error;
use crate::following::LeaderUpdate;
use crate::proto;
use crate::proto::PeerId;
use crate::workspace::{state, State, Workspace, WorkspaceView};
use vstd::prelude::*;

verus! {

/// An update of a leader that waits for its turn.
#[derive(Clone, Copy, Debug, PartialEq, Eq, Structural)]
pub struct QueuedUpdate {
    pub leader_id: PeerId,
    pub variant: Option<proto::Variant>,
}

/// An update of a leader that has been started, and what has to be waited for.
#[derive(Clone, Copy, Debug, PartialEq, Eq, Structural)]
pub struct CurrentUpdate {
    pub leader_id: PeerId,
    pub step: LeaderUpdate,
}

impl State {
    /// An update of a leader is put behind those that came before it.
    pub open spec fn handle_update_followers(self, leader_id: PeerId, variant: Option<proto::Variant>) -> State {
        State {
            workspace: WorkspaceView {
                leader_updates: self.workspace.leader_updates.push(
                    QueuedUpdate { leader_id, variant },
                ),
                ..self.workspace
            },
            ..self
        }.emit(EffectView::WakeLeaderUpdates)
    }

    /// Whether an update waits and none is under way.
    pub open spec fn can_start_update(self) -> bool {
        self.workspace.current_update is None && self.workspace.leader_updates.len() > 0
    }

    pub open spec fn without_first_update(self) -> State {
        State {
            workspace: WorkspaceView {
                leader_updates: self.workspace.leader_updates.drop_first(),
                ..self.workspace
            },
            ..self
        }
    }

    pub open spec fn with_current_update(self, current_update: Option<CurrentUpdate>) -> State {
        State { workspace: WorkspaceView { current_update, ..self.workspace }, ..self }
    }

    /// What the update that is started leads to, or why it is refused; nothing if none can be
    /// started.
    pub open spec fn started_update(self) -> Option<Result<LeaderUpdate, Error>> {
        if self.can_start_update() {
            let update = self.workspace.leader_updates[0];
            Some(self.without_first_update().leader_update(update.leader_id, update.variant))
        } else {
            None
        }
    }

    /// The first update that waits is processed. One that is refused is over, and so is one
    /// that needs nothing to be waited for, once the panes show what the leader shows.
    pub open spec fn start_leader_update(self) -> State {
        if self.can_start_update() {
            let update = self.workspace.leader_updates[0];
            let processed = self.without_first_update().process_leader_update(
                update.leader_id,
                update.variant,
            );
            match self.started_update()->Some_0 {
                Err(_) => processed,
                Ok(LeaderUpdate::Finish) => processed.leader_updated(update.leader_id),
                Ok(step) => processed.with_current_update(
                    Some(CurrentUpdate { leader_id: update.leader_id, step }),
                ),
            }
        } else {
            self
        }
    }

    /// What had to be waited for has come to its end. The panes show what the leader shows,
    /// unless a view could not be added. The update is over in any case.
    pub open spec fn finish_leader_update(self, outcome: Result<(), Error>) -> State {
        match self.workspace.current_update {
            Some(current) => {
                let idle = self.with_current_update(None);
                if current.step is AddView && outcome is Err {
                    idle
                } else {
                    idle.leader_updated(current.leader_id)
                }
            },
            None => self,
        }
    }
}

impl Workspace {
    /// An update of a leader came in; it is processed after those that came before it.
    pub fn handle_update_followers(
        &mut self,
        leader_id: PeerId,
        message: &proto::UpdateFollowers,
        cx: &mut Context,
    )
        ensures
            state(*final(self), *final(cx)) == state(*old(self), *old(cx)).handle_update_followers(
                leader_id,
                message@.variant,
            ),
    {
        self.leader_updates.push(QueuedUpdate { leader_id, variant: message.variant });
        cx.emit(Effect::WakeLeaderUpdates);
    }

    /// Starts the first update that waits, unless another is under way, and processes it up to
    /// what has to be waited for.
    pub fn start_leader_update(&mut self, cx: &mut Context) -> (started: Option<
        Result<LeaderUpdate, Error>,
    >)
        ensures
            state(*final(self), *final(cx)) == state(*old(self), *old(cx)).start_leader_update(),
            started == state(*old(self), *old(cx)).started_update(),
    {
        if self.current_update.is_some() || self.leader_updates.len() == 0 {
            return None;
        }
        let update = self.leader_updates.remove(0);
        assert(self.leader_updates@ =~= old(self).leader_updates@.drop_first());
        assert(state(*self, *cx) == state(*old(self), *old(cx)).without_first_update());
        match self.process_leader_update(update.leader_id, update.variant, cx) {
            Err(error) => Some(Err(error)),
            Ok(step) => {
                match step {
                    LeaderUpdate::Finish => {
                        self.leader_updated(update.leader_id, cx);
                    },
                    _ => {
                        self.current_update =
                        Some(CurrentUpdate { leader_id: update.leader_id, step });
                    },
                }
                Some(Ok(step))
            },
        }
    }

    /// Ends the update that is under way, once what it waited for has come to its end.
    pub fn finish_leader_update(&mut self, outcome: Result<(), Error>, cx: &mut Context)
        ensures
            state(*final(self), *final(cx)) == state(*old(self), *old(cx)).finish_leader_update(
                outcome,
            ),
    {
        if let Some(current) = self.current_update {
            self.current_update = None;
            let failed = match (current.step, outcome) {
                (LeaderUpdate::AddView(_), Err(_)) => true,
                _ => false,
            };
            if !failed {
                self.leader_updated(current.leader_id, cx);
            }
        }
    }
}

/// What can happen to the updates of leaders: one comes in, the first that waits is started,
/// what is under way comes to its end, or something else happens to the workspace.
pub enum QueueEvent {
    Receive(QueuedUpdate),
    Start,
    Finish(Result<(), Error>),
    Other(State),
}

/// A workspace and the updates that have come in, have been started, and are over.
pub struct LeaderUpdates {
    pub s: State,
    pub received: Seq<QueuedUpdate>,
    pub started: Seq<QueuedUpdate>,
    pub finished: Seq<QueuedUpdate>,
}

impl LeaderUpdates {
    pub open spec fn begin(s: State) -> LeaderUpdates {
        LeaderUpdates {
            s,
            received: Seq::empty(),
            started: Seq::empty(),
            finished: Seq::empty(),
        }
    }

    /// Whatever else happens does not touch the updates.
    pub open spec fn possible(self, event: QueueEvent) -> bool {
        event matches QueueEvent::Other(s) ==> {
            &&& s.workspace.leader_updates == self.s.workspace.leader_updates
            &&& s.workspace.current_update == self.s.workspace.current_update
        }
    }

    pub open spec fn step(self, event: QueueEvent) -> LeaderUpdates {
        match event {
            QueueEvent::Receive(update) => LeaderUpdates {
                s: self.s.handle_update_followers(update.leader_id, update.variant),
                received: self.received.push(update),
                ..self
            },
            QueueEvent::Start => if self.s.can_start_update() {
                let update = self.s.workspace.leader_updates[0];
                let s = self.s.start_leader_update();
                LeaderUpdates {
                    s,
                    started: self.started.push(update),
                    finished: if s.workspace.current_update is None {
                        self.finished.push(update)
                    } else {
                        self.finished
                    },
                    ..self
                }
            } else {
                self
            },
            QueueEvent::Finish(outcome) => if self.s.workspace.current_update is Some {
                LeaderUpdates {
                    s: self.s.finish_leader_update(outcome),
                    finished: self.finished.push(self.started.last()),
                    ..self
                }
            } else {
                self
            },
            QueueEvent::Other(s) => LeaderUpdates { s, ..self },
        }
    }

    pub open spec fn run(self, events: Seq<QueueEvent>) -> LeaderUpdates
        decreases events.len(),
    {
        if events.len() == 0 {
            self
        } else {
            self.run(events.drop_last()).step(events.last())
        }
    }

    pub open spec fn can_run(self, events: Seq<QueueEvent>) -> bool
        decreases events.len(),
    {
        events.len() == 0 || {
            &&& self.can_run(events.drop_last())
            &&& self.run(events.drop_last()).possible(events.last())
        }
    }

    /// Every update that came in has been started or waits, in order and once; and all that
    /// were started are over, but for the last while one is under way.
    pub open spec fn in_order(self) -> bool {
        &&& self.received == self.started + self.s.workspace.leader_updates
        &&& match self.s.workspace.current_update {
            Some(current) => self.started.len() > 0 && self.finished == self.started.drop_last()
                && current.leader_id == self.started.last().leader_id,
            None => self.finished == self.started,
        }
    }
}

proof fn lemma_step_in_order(w: LeaderUpdates, event: QueueEvent)
    requires
        w.in_order(),
        w.possible(event),
    ensures
        w.step(event).in_order(),
{
    let next = w.step(event);
    match event {
        QueueEvent::Receive(update) => {
            assert(next.received =~= next.started + next.s.workspace.leader_updates);
        },
        QueueEvent::Start => {
            if w.s.can_start_update() {
                assert(next.s.workspace.leader_updates
                    == w.s.workspace.leader_updates.drop_first());
                assert(next.received =~= next.started + next.s.workspace.leader_updates);
                assert(next.started.drop_last() =~= w.started);
            }
        },
        QueueEvent::Finish(outcome) => {
            if w.s.workspace.current_update is Some {
                assert(next.finished =~= next.started);
            }
        },
        QueueEvent::Other(s) => {},
    }
}

/// Whatever comes in, and whatever happens in between: the updates of leaders are started in
/// the order in which they came, each once; and all that were started before are over when the
/// next is started, so that at most one is under way.
pub proof fn law_updates_one_at_a_time(s: State, events: Seq<QueueEvent>)
    requires
        s.workspace.leader_updates == Seq::<QueuedUpdate>::empty(),
        s.workspace.current_update is None,
        LeaderUpdates::begin(s).can_run(events),
    ensures
        ({
            let w = LeaderUpdates::begin(s).run(events);
            &&& w.in_order()
            &&& w.s.can_start_update() ==> w.finished == w.started && w.step(
                QueueEvent::Start,
            ).started == w.received.take(w.started.len() as int + 1)
        }),
    decreases events.len(),
{
    let begin = LeaderUpdates::begin(s);
    if events.len() > 0 {
        law_updates_one_at_a_time(s, events.drop_last());
        lemma_step_in_order(begin.run(events.drop_last()), events.last());
    } else {
        assert(begin.received =~= begin.started + s.workspace.leader_updates);
    }
    let w = begin.run(events);
    if w.s.can_start_update() {
        assert(w.step(QueueEvent::Start).started =~= w.received.take(w.started.len() as int + 1));
    }
}

/// Updates are started one after the other, and each comes to its end with the outcome given
/// for it, if there is anything to be waited for.
pub open spec fn drain(outcomes: Seq<Result<(), Error>>) -> Seq<QueueEvent>
    decreases outcomes.len(),
{
    if outcomes.len() == 0 {
        Seq::empty()
    } else {
        drain(outcomes.drop_last()).push(QueueEvent::Start).push(
            QueueEvent::Finish(outcomes.last()),
        )
    }
}

proof fn lemma_drain(w: LeaderUpdates, outcomes: Seq<Result<(), Error>>)
    requires
        w.in_order(),
        w.s.workspace.current_update is None,
    ensures
        ({
            let end = w.run(drain(outcomes));
            let waiting = w.s.workspace.leader_updates.len();
            &&& end.in_order()
            &&& end.s.workspace.current_update is None
            &&& end.received == w.received
            &&& end.s.workspace.leader_updates.len() == if outcomes.len() < waiting {
                waiting - outcomes.len()
            } else {
                0
            }
        }),
    decreases outcomes.len(),
{
    if outcomes.len() > 0 {
        let first = drain(outcomes.drop_last());
        let start = first.push(QueueEvent::Start);
        let all = start.push(QueueEvent::Finish(outcomes.last()));
        assert(start.drop_last() =~= first);
        assert(all.drop_last() =~= start);
        lemma_drain(w, outcomes.drop_last());
        let before = w.run(first);
        lemma_step_in_order(before, QueueEvent::Start);
        lemma_step_in_order(
            before.step(QueueEvent::Start),
            QueueEvent::Finish(outcomes.last()),
        );
        assert(w.run(start) == before.step(QueueEvent::Start));
    }
}

/// Every update that came in is processed, once, whatever comes of it and of those before it:
/// once what is under way has come to its end, and those that wait have been started one after
/// the other, all that came in are over, in the order in which they came.
pub proof fn law_every_update_is_processed(
    s: State,
    events: Seq<QueueEvent>,
    current: Result<(), Error>,
    outcomes: Seq<Result<(), Error>>,
)
    requires
        s.workspace.leader_updates == Seq::<QueuedUpdate>::empty(),
        s.workspace.current_update is None,
        LeaderUpdates::begin(s).can_run(events),
        outcomes.len() >= LeaderUpdates::begin(s).run(events).s.workspace.leader_updates.len(),
    ensures
        ({
            let w = LeaderUpdates::begin(s).run(events);
            let end = w.step(QueueEvent::Finish(current)).run(drain(outcomes));
            &&& end.started == w.received
            &&& end.finished == w.received
        }),
{
    law_updates_one_at_a_time(s, events);
    let w = LeaderUpdates::begin(s).run(events);
    let idle = w.step(QueueEvent::Finish(current));
    lemma_step_in_order(w, QueueEvent::Finish(current));
    lemma_drain(idle, outcomes);
    let end = idle.run(drain(outcomes));
    assert(end.started + end.s.workspace.leader_updates =~= end.started);
}

/// An update that is refused or fails does not stop those behind it: it is over, and the next
/// that waits can be started.
pub proof fn law_failed_update_is_over(s: State, outcome: Result<(), Error>)
    ensures
        s.started_update() matches Some(Err(_)) ==> {
            &&& s.start_leader_update() == s.without_first_update()
            &&& s.workspace.leader_updates.len() > 1
                ==> s.start_leader_update().can_start_update()
        },
        s.workspace.current_update is Some ==> {
            &&& s.finish_leader_update(outcome).workspace.current_update is None
            &&& s.finish_leader_update(outcome).workspace.leader_updates
                == s.workspace.leader_updates
        },
        s.workspace.current_update is Some && s.workspace.leader_updates.len() > 0
            ==> s.finish_leader_update(outcome).can_start_update(),
        s.workspace.current_update is Some ==> s.started_update() is None,
{
}

/// An update that needs nothing to be waited for, or whose items have been waited for, is shown
/// in the panes, also where an item could not apply it; one whose view could not be added is
/// not. An update that is started leaves those behind it as they were.
pub proof fn law_update_is_shown(s: State, outcome: Result<(), Error>)
    ensures
        s.can_start_update() <==> s.workspace.current_update is None
            && s.workspace.leader_updates.len() > 0,
        s.can_start_update() ==> {
            let update = s.workspace.leader_updates[0];
            let rest = State {
                workspace: WorkspaceView {
                    leader_updates: s.workspace.leader_updates.subrange(
                        1,
                        s.workspace.leader_updates.len() as int,
                    ),
                    ..s.workspace
                },
                ..s
            };
            let result = rest.leader_update(update.leader_id, update.variant);
            let processed = rest.process_leader_update(update.leader_id, update.variant);
            &&& s.started_update() == Some(result)
            &&& result is Err ==> s.start_leader_update() == processed
            &&& result == Ok::<LeaderUpdate, Error>(LeaderUpdate::Finish)
                ==> s.start_leader_update() == processed.leader_updated(update.leader_id)
            &&& result is Ok && result != Ok::<LeaderUpdate, Error>(LeaderUpdate::Finish)
                ==> s.start_leader_update().cx == processed.cx
                && s.start_leader_update().workspace.current_update == Some(
                CurrentUpdate { leader_id: update.leader_id, step: result->Ok_0 },
            )
        },
        s.workspace.current_update matches Some(current) ==> {
            let idle = State {
                workspace: WorkspaceView { current_update: None, ..s.workspace },
                ..s
            };
            &&& current.step is AwaitItems ==> s.finish_leader_update(outcome)
                == idle.leader_updated(current.leader_id)
            &&& current.step is AddView && outcome is Ok ==> s.finish_leader_update(outcome)
                == idle.leader_updated(current.leader_id)
            &&& current.step is AddView && outcome is Err ==> s.finish_leader_update(outcome)
                == idle
        },
{
    let updates = s.workspace.leader_updates;
    if updates.len() > 0 {
        assert(updates.drop_first() =~= updates.subrange(1, updates.len() as int));
    }
}

/// An update that comes in waits behind all others, and the task that processes them is woken.
pub proof fn law_update_waits(s: State, leader_id: PeerId, variant: Option<proto::Variant>)
    ensures
        s.handle_update_followers(leader_id, variant).workspace == (WorkspaceView {
            leader_updates: s.workspace.leader_updates.push(QueuedUpdate { leader_id, variant }),
            ..s.workspace
        }),
        s.handle_update_followers(leader_id, variant).cx.effects == s.cx.effects.push(
            EffectView::WakeLeaderUpdates,
        ),
{
}

} // verus!
