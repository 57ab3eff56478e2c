//! Doing something after a delay, unless it is asked for again before.

use vstd::prelude::*;

verus! {

/// What is to be done next time, and how to call it off. Tasks and channels are known by
/// their numbers.
#[derive(Clone, Copy, Debug, PartialEq, Eq, Structural)]
pub struct DelayedDebouncedEditAction {
    pub task: Option<u64>,
    pub cancel_channel: Option<u64>,
}

/// What to do with what was asked for before.
#[derive(Clone, Copy, Debug, PartialEq, Eq, Structural)]
pub struct Superseded {
    /// The channel on which the task before is called off.
    pub cancel: Option<u64>,
    /// The task before, which the new one waits for.
    pub wait_for: Option<u64>,
}

/// Whether a task that waits may run.
#[derive(Clone, Copy, Debug, PartialEq, Eq, Structural)]
pub enum Readiness {
    Wait,
    Stop,
    Run,
}

/// A task first waits for the one before it. If it was called off it stops then, even if its
/// time has come; else it runs when its time has come.
pub open spec fn task_readiness(previous_done: bool, cancelled: bool, elapsed: bool) -> Readiness {
    if !previous_done {
        Readiness::Wait
    } else if cancelled {
        Readiness::Stop
    } else if elapsed {
        Readiness::Run
    } else {
        Readiness::Wait
    }
}

/// How far a task has come.
#[derive(Clone, Copy, Debug, PartialEq, Eq, Structural)]
pub enum TaskPhase {
    Waiting,
    Running,
    Ran,
    Stopped,
}

/// A task that does something after a delay: the channel on which it can be called off, the
/// task that it waits for, whether it was called off, whether its time has come, and how far
/// it has come.
#[derive(Clone, Copy, Debug, PartialEq, Eq, Structural)]
pub struct DebouncedTask {
    pub channel: u64,
    pub wait_for: Option<u64>,
    pub cancelled: bool,
    pub elapsed: bool,
    pub phase: TaskPhase,
}

impl DebouncedTask {
    pub open spec fn spec_new(channel: u64, wait_for: Option<u64>) -> DebouncedTask {
        DebouncedTask {
            channel,
            wait_for,
            cancelled: false,
            elapsed: false,
            phase: TaskPhase::Waiting,
        }
    }

    pub open spec fn called_off(self) -> DebouncedTask {
        DebouncedTask { cancelled: true, ..self }
    }

    pub open spec fn timed_out(self) -> DebouncedTask {
        DebouncedTask { elapsed: true, ..self }
    }

    /// A task that has been waiting looks whether it may run; any other has nothing to look
    /// for.
    pub open spec fn spec_poll(self, previous_done: bool) -> Readiness {
        if self.phase == TaskPhase::Waiting {
            task_readiness(previous_done, self.cancelled, self.elapsed)
        } else {
            Readiness::Wait
        }
    }

    pub open spec fn polled(self, previous_done: bool) -> DebouncedTask {
        match self.spec_poll(previous_done) {
            Readiness::Wait => self,
            Readiness::Stop => DebouncedTask { phase: TaskPhase::Stopped, ..self },
            Readiness::Run => DebouncedTask { phase: TaskPhase::Running, ..self },
        }
    }

    pub open spec fn finished(self) -> DebouncedTask {
        if self.phase == TaskPhase::Running {
            DebouncedTask { phase: TaskPhase::Ran, ..self }
        } else {
            self
        }
    }

    pub open spec fn spec_is_over(self) -> bool {
        self.phase == TaskPhase::Ran || self.phase == TaskPhase::Stopped
    }

    /// A task that waits for its time and for the task before it.
    pub fn new(channel: u64, wait_for: Option<u64>) -> (task: DebouncedTask)
        ensures
            task == DebouncedTask::spec_new(channel, wait_for),
    {
        DebouncedTask {
            channel,
            wait_for,
            cancelled: false,
            elapsed: false,
            phase: TaskPhase::Waiting,
        }
    }

    /// Calls the task off.
    pub fn cancel(&mut self)
        ensures
            *final(self) == old(self).called_off(),
    {
        self.cancelled = true;
    }

    /// The time of the task has come.
    pub fn elapse(&mut self)
        ensures
            *final(self) == old(self).timed_out(),
    {
        self.elapsed = true;
    }

    /// Looks whether the task may run. If it may, it does what it is for.
    pub fn poll(&mut self, previous_done: bool) -> (ready: Readiness)
        ensures
            *final(self) == old(self).polled(previous_done),
            ready == old(self).spec_poll(previous_done),
    {
        if self.phase != TaskPhase::Waiting {
            return Readiness::Wait;
        }
        let ready = readiness(previous_done, self.cancelled, self.elapsed);
        match ready {
            Readiness::Wait => {},
            Readiness::Stop => {
                self.phase = TaskPhase::Stopped;
            },
            Readiness::Run => {
                self.phase = TaskPhase::Running;
            },
        }
        ready
    }

    /// What the task did has come to its end.
    pub fn finish(&mut self)
        ensures
            *final(self) == old(self).finished(),
    {
        if self.phase == TaskPhase::Running {
            self.phase = TaskPhase::Ran;
        }
    }

    /// Whether the task has nothing left to do.
    pub fn is_over(&self) -> (over: bool)
        ensures
            over == self.spec_is_over(),
    {
        match self.phase {
            TaskPhase::Ran => true,
            TaskPhase::Stopped => true,
            _ => false,
        }
    }
}

impl DelayedDebouncedEditAction {
    pub open spec fn spec_new() -> DelayedDebouncedEditAction {
        DelayedDebouncedEditAction { task: None, cancel_channel: None }
    }

    pub open spec fn fired(task: u64, cancel_channel: u64) -> DelayedDebouncedEditAction {
        DelayedDebouncedEditAction { task: Some(task), cancel_channel: Some(cancel_channel) }
    }

    pub open spec fn superseded(self) -> Superseded {
        Superseded { cancel: self.cancel_channel, wait_for: self.task }
    }

    /// Nothing is to be done.
    pub fn new() -> (action: DelayedDebouncedEditAction)
        ensures
            action == DelayedDebouncedEditAction::spec_new(),
    {
        DelayedDebouncedEditAction { task: None, cancel_channel: None }
    }

    /// Asks for something to be done by a new task, which can be called off on a channel. The
    /// task before is called off.
    pub fn fire_new(&mut self, task: u64, cancel_channel: u64) -> (superseded: Superseded)
        ensures
            *final(self) == DelayedDebouncedEditAction::fired(task, cancel_channel),
            superseded == old(self).superseded(),
    {
        let superseded = Superseded { cancel: self.cancel_channel, wait_for: self.task };
        self.cancel_channel = Some(cancel_channel);
        self.task = Some(task);
        superseded
    }
}

/// Whether a task that waits may run.
pub fn readiness(previous_done: bool, cancelled: bool, elapsed: bool) -> (readiness: Readiness)
    ensures
        readiness == task_readiness(previous_done, cancelled, elapsed),
{
    if !previous_done {
        Readiness::Wait
    } else if cancelled {
        Readiness::Stop
    } else if elapsed {
        Readiness::Run
    } else {
        Readiness::Wait
    }
}

/// What can happen to the tasks of an action, one thing after the other: another task is
/// asked for, the time of a task comes, a task looks whether it may run, what a task did comes
/// to its end.
pub enum DebounceEvent {
    Fire { task: u64, channel: u64 },
    Elapse(u64),
    Poll(u64),
    Finish(u64),
}

/// An action and all tasks that it was asked for, and which of them have begun to do what they
/// are for.
pub struct Debouncing {
    pub action: DelayedDebouncedEditAction,
    /// The tasks in the order in which they were asked for.
    pub order: Seq<u64>,
    pub tasks: Map<u64, DebouncedTask>,
    /// The tasks that were called, in order.
    pub calls: Seq<u64>,
}

/// A task as it is after a channel was sent to.
pub open spec fn told(task: DebouncedTask, channel: Option<u64>) -> DebouncedTask {
    if channel == Some(task.channel) {
        task.called_off()
    } else {
        task
    }
}

impl Debouncing {
    pub open spec fn start() -> Debouncing {
        Debouncing {
            action: DelayedDebouncedEditAction::spec_new(),
            order: Seq::empty(),
            tasks: Map::empty(),
            calls: Seq::empty(),
        }
    }

    pub open spec fn previous_done(self, task: u64) -> bool {
        match self.tasks[task].wait_for {
            Some(previous) => self.tasks[previous].spec_is_over(),
            None => true,
        }
    }

    /// A task that is asked for is a new one, with a channel of its own; the others are about
    /// tasks that were asked for.
    pub open spec fn possible(self, event: DebounceEvent) -> bool {
        match event {
            DebounceEvent::Fire { task, channel } => {
                &&& !self.tasks.contains_key(task)
                &&& forall|t: u64| #[trigger]
                    self.tasks.contains_key(t) ==> self.tasks[t].channel != channel
            },
            DebounceEvent::Elapse(task) => self.tasks.contains_key(task),
            DebounceEvent::Poll(task) => self.tasks.contains_key(task),
            DebounceEvent::Finish(task) => self.tasks.contains_key(task),
        }
    }

    pub open spec fn step(self, event: DebounceEvent) -> Debouncing {
        match event {
            DebounceEvent::Fire { task, channel } => {
                let superseded = self.action.superseded();
                Debouncing {
                    action: DelayedDebouncedEditAction::fired(task, channel),
                    order: self.order.push(task),
                    tasks: self.tasks.map_values(
                        |t: DebouncedTask| told(t, superseded.cancel),
                    ).insert(task, DebouncedTask::spec_new(channel, superseded.wait_for)),
                    calls: self.calls,
                }
            },
            DebounceEvent::Elapse(task) => Debouncing {
                tasks: self.tasks.insert(task, self.tasks[task].timed_out()),
                ..self
            },
            DebounceEvent::Poll(task) => {
                let done = self.previous_done(task);
                Debouncing {
                    tasks: self.tasks.insert(task, self.tasks[task].polled(done)),
                    calls: if self.tasks[task].spec_poll(done) == Readiness::Run {
                        self.calls.push(task)
                    } else {
                        self.calls
                    },
                    ..self
                }
            },
            DebounceEvent::Finish(task) => Debouncing {
                tasks: self.tasks.insert(task, self.tasks[task].finished()),
                ..self
            },
        }
    }

    pub open spec fn run(self, events: Seq<DebounceEvent>) -> Debouncing
        decreases events.len(),
    {
        if events.len() == 0 {
            self
        } else {
            self.run(events.drop_last()).step(events.last())
        }
    }

    pub open spec fn can_run(self, events: Seq<DebounceEvent>) -> bool
        decreases events.len(),
    {
        events.len() == 0 || {
            &&& self.can_run(events.drop_last())
            &&& self.run(events.drop_last()).possible(events.last())
        }
    }

    /// What holds of an action whatever has happened.
    pub open spec fn valid(self) -> bool {
        &&& self.action.task == (if self.order.len() == 0 {
            None
        } else {
            Some(self.order.last())
        })
        &&& self.action.cancel_channel == (match self.action.task {
            Some(task) => Some(self.tasks[task].channel),
            None => None,
        })
        &&& forall|t: u64| #[trigger]
            self.tasks.contains_key(t) <==> self.order.contains(t)
        &&& self.order.no_duplicates()
        &&& forall|i: int, j: int|
            0 <= i < j < self.order.len() ==> self.tasks[#[trigger] self.order[i]].channel
                != self.tasks[#[trigger] self.order[j]].channel
        &&& forall|i: int|
            0 <= i < self.order.len() ==> self.tasks[#[trigger] self.order[i]].cancelled == (i
                < self.order.len() - 1)
        &&& self.order.len() > 0 ==> self.tasks[self.order[0]].wait_for is None
        &&& forall|i: int, j: int|
            #![trigger self.order[i], self.order[j]]
            0 <= i && j == i + 1 && j < self.order.len() ==> self.tasks[self.order[j]].wait_for
                == Some(self.order[i])
        &&& forall|t: u64| #[trigger]
            self.tasks.contains_key(t) && self.tasks[t].phase == TaskPhase::Stopped
                ==> self.tasks[t].cancelled
        &&& forall|i: int, j: int|
            #![trigger self.order[i], self.order[j]]
            0 <= i < j < self.order.len() && self.tasks[self.order[j]].phase != TaskPhase::Waiting
                ==> self.tasks[self.order[i]].spec_is_over()
        &&& self.calls.no_duplicates()
        &&& forall|t: u64| #[trigger]
            self.calls.contains(t) ==> self.tasks.contains_key(t) && self.tasks[t].elapsed
        &&& forall|t: u64|
            self.tasks.contains_key(t) ==> (#[trigger] self.calls.contains(t) <==> (
            self.tasks[t].phase == TaskPhase::Running || self.tasks[t].phase == TaskPhase::Ran))
    }
}

proof fn lemma_fire_valid(w: Debouncing, task: u64, channel: u64)
    requires
        w.valid(),
        w.possible(DebounceEvent::Fire { task, channel }),
    ensures
        w.step(DebounceEvent::Fire { task, channel }).valid(),
{
    let event = DebounceEvent::Fire { task, channel };
    let next = w.step(event);
    let n = w.order.len() as int;
    assert(!w.order.contains(task));
    assert forall|i: int| 0 <= i < n implies #[trigger] w.order[i] == next.order[i]
        && w.tasks.contains_key(w.order[i]) && w.order[i] != task && next.tasks[w.order[i]]
        == told(w.tasks[w.order[i]], w.action.cancel_channel) by {
        assert(w.order.contains(w.order[i]));
    }
    assert(next.order[n] == task);
    assert forall|t: u64| #[trigger]
        next.tasks.contains_key(t) <==> next.order.contains(t) by {
        if w.order.contains(t) {
            let i = choose|i: int| 0 <= i < n && w.order[i] == t;
            assert(next.order[i] == t);
        }
        if next.order.contains(t) && t != task {
            let i = choose|i: int| 0 <= i < next.order.len() && next.order[i] == t;
            assert(w.order[i] == t);
        }
    }
}

proof fn lemma_other_valid(w: Debouncing, event: DebounceEvent)
    requires
        w.valid(),
        w.possible(event),
        !(event is Fire),
    ensures
        w.step(event).valid(),
{
    let next = w.step(event);
    let task = match event {
        DebounceEvent::Fire { task, channel } => task,
        DebounceEvent::Elapse(task) => task,
        DebounceEvent::Poll(task) => task,
        DebounceEvent::Finish(task) => task,
    };
    assert forall|t: u64| #[trigger] next.calls.contains(t) <==> w.calls.contains(t) || (
    next.calls.len() > w.calls.len() && t == task) by {
        if next.calls.len() > w.calls.len() {
            assert(next.calls == w.calls.push(task));
            if w.calls.contains(t) {
                let i = choose|i: int| 0 <= i < w.calls.len() && w.calls[i] == t;
                assert(next.calls[i] == t);
            }
            assert(next.calls.last() == task);
        }
    }
    assert forall|i: int, j: int|
        #![trigger next.order[i], next.order[j]]
        0 <= i < j < next.order.len() && next.tasks[next.order[j]].phase
            != TaskPhase::Waiting implies next.tasks[next.order[i]].spec_is_over() by {
        assert(w.order[i] == next.order[i] && w.order[j] == next.order[j]);
        assert(w.order[j - 1] == next.order[j - 1]);
        assert(w.order[i] != w.order[j]);
        if w.tasks[w.order[j]].phase == TaskPhase::Waiting {
            assert(w.previous_done(task));
        }
        assert(w.tasks[w.order[i]].spec_is_over());
    }
    assert(next.calls.no_duplicates()) by {
        assert forall|i: int| 0 <= i < w.calls.len() implies #[trigger] w.calls[i] == next.calls[i]
            && (next.calls.len() > w.calls.len() ==> w.calls[i] != task) by {
            assert(w.calls.contains(w.calls[i]));
        }
    }
    assert forall|t: u64| #[trigger]
        next.tasks.contains_key(t) <==> next.order.contains(t) by {
        assert(w.tasks.contains_key(t) <==> w.order.contains(t));
    }
}

proof fn lemma_run_valid(w: Debouncing, events: Seq<DebounceEvent>)
    requires
        w.valid(),
        w.can_run(events),
    ensures
        w.run(events).valid(),
    decreases events.len(),
{
    if events.len() > 0 {
        lemma_run_valid(w, events.drop_last());
        let before = w.run(events.drop_last());
        match events.last() {
            DebounceEvent::Fire { task, channel } => lemma_fire_valid(before, task, channel),
            event => lemma_other_valid(before, event),
        }
    }
}

/// Whatever has happened, a task was called at most once, and none was called before its time
/// had come.
pub proof fn law_called_at_most_once(events: Seq<DebounceEvent>)
    requires
        Debouncing::start().can_run(events),
    ensures
        Debouncing::start().run(events).calls.no_duplicates(),
        forall|t: u64| #[trigger]
            Debouncing::start().run(events).calls.contains(t) ==> Debouncing::start().run(
                events,
            ).tasks[t].elapsed,
{
    lemma_run_valid(Debouncing::start(), events);
}

/// No two tasks run at the same time.
pub proof fn law_one_at_a_time(events: Seq<DebounceEvent>, a: u64, b: u64)
    requires
        Debouncing::start().can_run(events),
        Debouncing::start().run(events).tasks.contains_key(a),
        Debouncing::start().run(events).tasks.contains_key(b),
        Debouncing::start().run(events).tasks[a].phase == TaskPhase::Running,
        Debouncing::start().run(events).tasks[b].phase == TaskPhase::Running,
    ensures
        a == b,
{
    lemma_run_valid(Debouncing::start(), events);
    let w = Debouncing::start().run(events);
    assert(w.order.contains(a));
    assert(w.order.contains(b));
    let i = choose|i: int| 0 <= i < w.order.len() && w.order[i] == a;
    let j = choose|j: int| 0 <= j < w.order.len() && w.order[j] == b;
    assert(i <= j);
    assert(j <= i);
}

/// Whether a task was called off before it was called.
pub open spec fn is_called_off(w: Debouncing, task: u64) -> bool {
    &&& w.tasks.contains_key(task)
    &&& w.tasks[task].cancelled
    &&& w.tasks[task].phase != TaskPhase::Running
    &&& w.tasks[task].phase != TaskPhase::Ran
    &&& !w.calls.contains(task)
}

proof fn lemma_stays_called_off(
    w: Debouncing,
    before: Seq<DebounceEvent>,
    after: Seq<DebounceEvent>,
    task: u64,
)
    requires
        w.can_run(before + after),
        is_called_off(w.run(before), task),
    ensures
        is_called_off(w.run(before + after), task),
    decreases after.len(),
{
    if after.len() == 0 {
        assert(before + after =~= before);
    } else {
        let events = before + after;
        assert(events.drop_last() =~= before + after.drop_last());
        assert(events.last() == after.last());
        lemma_stays_called_off(w, before, after.drop_last(), task);
        let last = w.run(events.drop_last());
        let next = last.step(events.last());
        assert forall|i: int| 0 <= i < next.calls.len() implies next.calls[i] != task by {
            if i < last.calls.len() {
                assert(last.calls.contains(last.calls[i]));
            }
        }
    }
}

/// A task that has not been called when another is asked for is never called, whatever happens
/// then and even if its time has come.
pub proof fn law_superseded_never_called(
    before: Seq<DebounceEvent>,
    task: u64,
    channel: u64,
    after: Seq<DebounceEvent>,
    superseded: u64,
)
    requires
        Debouncing::start().can_run(before.push(DebounceEvent::Fire { task, channel }) + after),
        Debouncing::start().run(before).tasks.contains_key(superseded),
        !Debouncing::start().run(before).calls.contains(superseded),
    ensures
        !Debouncing::start().run(
            before.push(DebounceEvent::Fire { task, channel }) + after,
        ).calls.contains(superseded),
{
    let start = Debouncing::start();
    let fire = before.push(DebounceEvent::Fire { task, channel });
    lemma_run_concat(start, fire, after);
    assert(fire.drop_last() =~= before);
    lemma_run_valid(start, before);
    lemma_run_valid(start, fire);
    let w = start.run(before);
    let next = start.run(fire);
    assert(w.order.contains(superseded));
    let i = choose|i: int| 0 <= i < w.order.len() && w.order[i] == superseded;
    assert(next.order[i] == superseded);
    lemma_stays_called_off(start, fire, after, superseded);
}

proof fn lemma_run_concat(w: Debouncing, before: Seq<DebounceEvent>, after: Seq<DebounceEvent>)
    ensures
        w.run(before + after) == w.run(before).run(after),
        w.can_run(before + after) <==> w.can_run(before) && w.run(before).can_run(after),
    decreases after.len(),
{
    if after.len() == 0 {
        assert(before + after =~= before);
    } else {
        assert((before + after).drop_last() =~= before + after.drop_last());
        assert((before + after).last() == after.last());
        lemma_run_concat(w, before, after.drop_last());
    }
}

/// Each task in turn looks whether it may run, and what it does comes to its end.
pub open spec fn sweep(order: Seq<u64>) -> Seq<DebounceEvent>
    decreases order.len(),
{
    if order.len() == 0 {
        Seq::empty()
    } else {
        sweep(order.drop_last()).push(DebounceEvent::Poll(order.last())).push(
            DebounceEvent::Finish(order.last()),
        )
    }
}

proof fn lemma_sweep(w: Debouncing, k: int)
    requires
        w.valid(),
        0 <= k <= w.order.len(),
    ensures
        w.can_run(sweep(w.order.take(k))),
        w.run(sweep(w.order.take(k))).valid(),
        w.run(sweep(w.order.take(k))).order == w.order,
        forall|i: int|
            0 <= i < w.order.len() ==> w.run(sweep(w.order.take(k))).tasks[#[trigger] w.order[i]].elapsed
                == w.tasks[w.order[i]].elapsed,
        forall|i: int|
            0 <= i < k && (i < w.order.len() - 1 || w.tasks[w.order[i]].elapsed) ==> w.run(
                sweep(w.order.take(k)),
            ).tasks[#[trigger] w.order[i]].spec_is_over(),
    decreases k,
{
    let order = w.order.take(k);
    if k > 0 {
        assert(order.drop_last() =~= w.order.take(k - 1));
        lemma_sweep(w, k - 1);
        let task = w.order[k - 1];
        assert(order.last() == task);
        let first = sweep(w.order.take(k - 1));
        let poll = first.push(DebounceEvent::Poll(task));
        let all = poll.push(DebounceEvent::Finish(task));
        assert(poll.drop_last() =~= first);
        assert(all.drop_last() =~= poll);
        let before = w.run(first);
        assert(before.order.contains(task));
        assert(before.order[k - 1] == task);
        if k > 1 {
            assert(before.order[k - 2] == w.order[k - 2]);
        }
        assert(before.previous_done(task));
        assert(before.tasks.contains_key(task));
        assert(w.can_run(poll));
        assert(w.run(poll) == before.step(DebounceEvent::Poll(task)));
        assert(w.run(poll).tasks.contains_key(task));
        assert(w.can_run(all));
        lemma_run_valid(w, all);
    }
}

/// Where the time of the task that was asked for last has come, and each task in turn looks
/// whether it may run, the last one has been called, once. Where its time has not come it has
/// not been called.
pub proof fn law_last_is_called_once(events: Seq<DebounceEvent>)
    requires
        Debouncing::start().can_run(events),
        Debouncing::start().run(events).order.len() > 0,
    ensures
        ({
            let w = Debouncing::start().run(events);
            let last = w.order.last();
            let end = w.run(sweep(w.order));
            &&& w.can_run(sweep(w.order))
            &&& w.action.task == Some(last)
            &&& end.calls.contains(last) <==> w.tasks[last].elapsed
            &&& end.calls.no_duplicates()
        }),
{
    lemma_run_valid(Debouncing::start(), events);
    let w = Debouncing::start().run(events);
    let last = w.order.last();
    let end = w.run(sweep(w.order));
    assert(w.order.take(w.order.len() as int) =~= w.order);
    lemma_sweep(w, w.order.len() as int);
    assert(last == w.order[w.order.len() - 1]);
    assert(end.order.contains(last));
    assert(end.order[w.order.len() - 1] == last);
    assert(end.tasks.contains_key(last));
}

/// Whether no further task is asked for.
pub open spec fn no_fire(events: Seq<DebounceEvent>) -> bool {
    forall|i: int| 0 <= i < events.len() ==> !(#[trigger] events[i] is Fire)
}

proof fn lemma_no_fire_keeps_order(w: Debouncing, events: Seq<DebounceEvent>)
    requires
        no_fire(events),
    ensures
        w.run(events).order == w.order,
    decreases events.len(),
{
    if events.len() > 0 {
        assert(!(events[events.len() - 1] is Fire));
        assert forall|i: int| 0 <= i < events.drop_last().len() implies !(
        #[trigger] events.drop_last()[i] is Fire) by {
            assert(!(events[i] is Fire));
        }
        lemma_no_fire_keeps_order(w, events.drop_last());
    }
}

/// Of tasks that are asked for one after the other before they are called only the last acts.
/// Where no further task is asked for, the time of the last comes, and each task in turn looks
/// whether it may run, the last has been called, once; those that had not been called when it
/// was asked for have not been called.
pub proof fn law_only_the_last_acts(
    before: Seq<DebounceEvent>,
    task: u64,
    channel: u64,
    after: Seq<DebounceEvent>,
)
    requires
        Debouncing::start().can_run(before.push(DebounceEvent::Fire { task, channel }) + after),
        no_fire(after),
        Debouncing::start().run(
            before.push(DebounceEvent::Fire { task, channel }) + after,
        ).tasks[task].elapsed,
    ensures
        ({
            let first = Debouncing::start().run(before);
            let w = Debouncing::start().run(
                before.push(DebounceEvent::Fire { task, channel }) + after,
            );
            let end = w.run(sweep(w.order));
            &&& w.can_run(sweep(w.order))
            &&& end.calls.contains(task)
            &&& end.calls.no_duplicates()
            &&& forall|t: u64| #[trigger]
                first.tasks.contains_key(t) && !first.calls.contains(t) ==> !end.calls.contains(t)
        }),
{
    let start = Debouncing::start();
    let fire = before.push(DebounceEvent::Fire { task, channel });
    let events = fire + after;
    let first = start.run(before);
    let w = start.run(events);
    let end = w.run(sweep(w.order));
    assert(fire.drop_last() =~= before);
    lemma_run_concat(start, fire, after);
    lemma_no_fire_keeps_order(start.run(fire), after);
    assert(w.order.last() == task);
    law_last_is_called_once(events);
    lemma_run_concat(start, events, sweep(w.order));
    assert(events + sweep(w.order) =~= fire + (after + sweep(w.order)));
    assert forall|t: u64| #[trigger] first.tasks.contains_key(t) && !first.calls.contains(
        t,
    ) implies !end.calls.contains(t) by {
        law_superseded_never_called(before, task, channel, after + sweep(w.order), t);
    }
}

} // verus!
