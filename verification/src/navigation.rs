//! Walking the history of a pane, and what was visited of late.

use crate::context::{index_view, Context, ContextView};
use crate::error::Error;
use crate::path::{ComponentView, PathBuf, ProjectPath, ProjectPathView};
use crate::workspace::Workspace;
use itertools::Itertools;
use vstd::prelude::*;

verus! {

/// How the history of a pane takes notice of what is opened.
#[derive(Clone, Copy, Debug, PartialEq, Eq, Structural)]
pub enum NavigationMode {
    Normal,
    GoingBack,
    GoingForward,
    ReopeningClosedItem,
}

/// A step of the history of a pane: the item, and where in it to go. If the item is still in
/// the pane, its place there; and which item of the pane is active.
#[derive(Clone, Copy, Debug, PartialEq, Eq, Structural)]
pub struct Popped {
    pub item: u64,
    pub data: Option<u64>,
    pub index: Option<usize>,
    pub active_item_index: usize,
}

/// The next thing to do on the way through the history of a pane.
#[derive(Clone, Copy, Debug, PartialEq, Eq, Structural)]
pub enum NavigationAction {
    /// See whether the pane is still there.
    CheckPane,
    /// Take the next step from the history.
    Pop(NavigationMode),
    /// Set how the history takes notice of what is opened.
    SetMode(NavigationMode),
    /// Activate the item at a place in the pane, and focus it.
    ActivateItem(usize),
    /// Go to a place inside an item.
    Navigate { item: u64, data: u64 },
    /// Find the path of an item that is no longer in the pane.
    FindPath(u64),
    /// Load the path that was found.
    LoadPath,
    /// Open the item that was loaded, and focus it.
    OpenItem,
    /// The walk is over.
    Done,
    /// The walk is over, as the pane or the workspace is gone.
    Fail(Error),
}

/// What came of the last action.
#[derive(Clone, Copy, Debug, PartialEq, Eq, Structural)]
pub enum NavigationEvent {
    Pane { exists: bool },
    Popped(Option<Popped>),
    ModeSet { active_item: Option<u64> },
    Activated { active_item_index: usize, active_item: Option<u64> },
    Navigated(bool),
    PathFound(bool),
    Loaded(bool),
    Opened(u64),
    PaneDropped,
    WorkspaceDropped,
}

/// How far a walk has come.
#[derive(Clone, Copy, Debug, PartialEq, Eq, Structural)]
pub enum NavigationPhase {
    CheckPane,
    Pop,
    BeforeActivation { popped: Popped, index: usize },
    Activation { popped: Popped, index: usize },
    AfterActivation { popped: Popped, active_item_index: usize, active_item: Option<u64> },
    InItem { item: u64, data: u64, navigated: bool },
    FindPath(Popped),
    LoadPath(Popped),
    BeforeOpening(Popped),
    Opening { popped: Popped, previous: Option<u64> },
    AfterOpening { popped: Popped, item: u64, navigated: bool },
    InOpenedItem { item: u64, data: u64, navigated: bool },
    Done,
    Failed(Error),
}

/// A walk through the history of a pane, which goes on until something else is shown than
/// before or the history ends.
#[derive(Clone, Copy, Debug, PartialEq, Eq, Structural)]
pub struct Navigation {
    pub pane: u64,
    pub mode: NavigationMode,
    pub history_mode: NavigationMode,
    pub phase: NavigationPhase,
}

/// Where a walk goes from an item that was shown: on, unless that was a change.
pub open spec fn after_showing(navigated: bool, again: NavigationPhase) -> NavigationPhase {
    if navigated {
        NavigationPhase::Done
    } else {
        again
    }
}

impl Navigation {
    pub open spec fn spec_action(self) -> NavigationAction {
        match self.phase {
            NavigationPhase::CheckPane => NavigationAction::CheckPane,
            NavigationPhase::Pop => NavigationAction::Pop(self.mode),
            NavigationPhase::BeforeActivation { .. } => NavigationAction::SetMode(self.mode),
            NavigationPhase::Activation { index, .. } => NavigationAction::ActivateItem(index),
            NavigationPhase::AfterActivation { .. } => NavigationAction::SetMode(
                NavigationMode::Normal,
            ),
            NavigationPhase::InItem { item, data, .. } => NavigationAction::Navigate { item, data },
            NavigationPhase::FindPath(popped) => NavigationAction::FindPath(popped.item),
            NavigationPhase::LoadPath(_) => NavigationAction::LoadPath,
            NavigationPhase::BeforeOpening(_) => NavigationAction::SetMode(self.mode),
            NavigationPhase::Opening { .. } => NavigationAction::OpenItem,
            NavigationPhase::AfterOpening { .. } => NavigationAction::SetMode(
                NavigationMode::Normal,
            ),
            NavigationPhase::InOpenedItem { item, data, .. } => NavigationAction::Navigate {
                item,
                data,
            },
            NavigationPhase::Done => NavigationAction::Done,
            NavigationPhase::Failed(error) => NavigationAction::Fail(error),
        }
    }

    /// Where the walk is after an event. An event that does not answer the last action
    /// changes nothing.
    pub open spec fn next_phase(self, event: NavigationEvent) -> NavigationPhase {
        match (self.phase, event) {
            (NavigationPhase::Done, _) => self.phase,
            (NavigationPhase::Failed(_), _) => self.phase,
            (_, NavigationEvent::PaneDropped) => NavigationPhase::Failed(Error::PaneDropped),
            (_, NavigationEvent::WorkspaceDropped) => NavigationPhase::Failed(
                Error::WorkspaceDropped,
            ),
            (NavigationPhase::CheckPane, NavigationEvent::Pane { exists }) => if exists {
                NavigationPhase::Pop
            } else {
                NavigationPhase::Done
            },
            (NavigationPhase::Pop, NavigationEvent::Popped(None)) => NavigationPhase::Done,
            (NavigationPhase::Pop, NavigationEvent::Popped(Some(popped))) => match popped.index {
                Some(index) => NavigationPhase::BeforeActivation { popped, index },
                None => NavigationPhase::FindPath(popped),
            },
            (
                NavigationPhase::BeforeActivation { popped, index },
                NavigationEvent::ModeSet { .. },
            ) => NavigationPhase::Activation { popped, index },
            (
                NavigationPhase::Activation { popped, .. },
                NavigationEvent::Activated { active_item_index, active_item },
            ) => NavigationPhase::AfterActivation { popped, active_item_index, active_item },
            (
                NavigationPhase::AfterActivation { popped, active_item_index, active_item },
                NavigationEvent::ModeSet { .. },
            ) => {
                let navigated = popped.active_item_index != active_item_index;
                match (popped.data, active_item) {
                    (Some(data), Some(item)) => NavigationPhase::InItem { item, data, navigated },
                    (Some(_), None) => NavigationPhase::Done,
                    (None, _) => after_showing(navigated, NavigationPhase::Pop),
                }
            },
            (NavigationPhase::InItem { navigated, .. }, NavigationEvent::Navigated(moved)) =>
                after_showing(navigated || moved, NavigationPhase::Pop),
            (NavigationPhase::FindPath(popped), NavigationEvent::PathFound(found)) => if found {
                NavigationPhase::LoadPath(popped)
            } else {
                NavigationPhase::Done
            },
            (NavigationPhase::LoadPath(popped), NavigationEvent::Loaded(loaded)) => if loaded {
                NavigationPhase::BeforeOpening(popped)
            } else {
                NavigationPhase::CheckPane
            },
            (NavigationPhase::BeforeOpening(popped), NavigationEvent::ModeSet { active_item }) =>
                NavigationPhase::Opening { popped, previous: active_item },
            (NavigationPhase::Opening { popped, previous }, NavigationEvent::Opened(item)) =>
                NavigationPhase::AfterOpening { popped, item, navigated: previous != Some(item) },
            (
                NavigationPhase::AfterOpening { popped, item, navigated },
                NavigationEvent::ModeSet { .. },
            ) => match popped.data {
                Some(data) => NavigationPhase::InOpenedItem { item, data, navigated },
                None => after_showing(navigated, NavigationPhase::CheckPane),
            },
            (NavigationPhase::InOpenedItem { navigated, .. }, NavigationEvent::Navigated(moved)) =>
                after_showing(navigated || moved, NavigationPhase::CheckPane),
            _ => self.phase,
        }
    }

    pub open spec fn after(self, event: NavigationEvent) -> Navigation {
        Navigation {
            history_mode: match (self.spec_action(), event) {
                (NavigationAction::SetMode(mode), NavigationEvent::ModeSet { .. }) => mode,
                _ => self.history_mode,
            },
            phase: self.next_phase(event),
            ..self
        }
    }

    /// The history takes notice as usual, but while an item is shown on the way.
    pub open spec fn well_formed(self) -> bool {
        match self.phase {
            NavigationPhase::Activation { .. } => self.history_mode == self.mode,
            NavigationPhase::AfterActivation { .. } => self.history_mode == self.mode,
            NavigationPhase::Opening { .. } => self.history_mode == self.mode,
            NavigationPhase::AfterOpening { .. } => self.history_mode == self.mode,
            NavigationPhase::Failed(_) => true,
            _ => self.history_mode == NavigationMode::Normal,
        }
    }

    /// The next thing to do.
    pub fn action(&self) -> (action: NavigationAction)
        ensures
            action == self.spec_action(),
    {
        match self.phase {
            NavigationPhase::CheckPane => NavigationAction::CheckPane,
            NavigationPhase::Pop => NavigationAction::Pop(self.mode),
            NavigationPhase::BeforeActivation { .. } => NavigationAction::SetMode(self.mode),
            NavigationPhase::Activation { index, .. } => NavigationAction::ActivateItem(index),
            NavigationPhase::AfterActivation { .. } => NavigationAction::SetMode(
                NavigationMode::Normal,
            ),
            NavigationPhase::InItem { item, data, .. } => NavigationAction::Navigate { item, data },
            NavigationPhase::FindPath(popped) => NavigationAction::FindPath(popped.item),
            NavigationPhase::LoadPath(_) => NavigationAction::LoadPath,
            NavigationPhase::BeforeOpening(_) => NavigationAction::SetMode(self.mode),
            NavigationPhase::Opening { .. } => NavigationAction::OpenItem,
            NavigationPhase::AfterOpening { .. } => NavigationAction::SetMode(
                NavigationMode::Normal,
            ),
            NavigationPhase::InOpenedItem { item, data, .. } => NavigationAction::Navigate {
                item,
                data,
            },
            NavigationPhase::Done => NavigationAction::Done,
            NavigationPhase::Failed(error) => NavigationAction::Fail(error),
        }
    }

    /// Goes on with what came of the last action.
    pub fn advance(&mut self, event: NavigationEvent)
        ensures
            *final(self) == old(self).after(event),
            old(self).well_formed() ==> final(self).well_formed(),
    {
        if let NavigationAction::SetMode(mode) = self.action() {
            if let NavigationEvent::ModeSet { .. } = event {
                self.history_mode = mode;
            }
        }
        self.phase = self.phase_after(event);
    }

    fn phase_after(&self, event: NavigationEvent) -> (phase: NavigationPhase)
        ensures
            phase == self.next_phase(event),
    {
        let again = match self.phase {
            NavigationPhase::InItem { .. } => NavigationPhase::Pop,
            NavigationPhase::AfterActivation { .. } => NavigationPhase::Pop,
            _ => NavigationPhase::CheckPane,
        };
        match (self.phase, event) {
            (NavigationPhase::Done, _) => self.phase,
            (NavigationPhase::Failed(_), _) => self.phase,
            (_, NavigationEvent::PaneDropped) => NavigationPhase::Failed(Error::PaneDropped),
            (_, NavigationEvent::WorkspaceDropped) => NavigationPhase::Failed(
                Error::WorkspaceDropped,
            ),
            (NavigationPhase::CheckPane, NavigationEvent::Pane { exists }) => {
                if exists {
                    NavigationPhase::Pop
                } else {
                    NavigationPhase::Done
                }
            },
            (NavigationPhase::Pop, NavigationEvent::Popped(popped)) => match popped {
                Some(popped) => match popped.index {
                    Some(index) => NavigationPhase::BeforeActivation { popped, index },
                    None => NavigationPhase::FindPath(popped),
                },
                None => NavigationPhase::Done,
            },
            (
                NavigationPhase::BeforeActivation { popped, index },
                NavigationEvent::ModeSet { .. },
            ) => NavigationPhase::Activation { popped, index },
            (
                NavigationPhase::Activation { popped, .. },
                NavigationEvent::Activated { active_item_index, active_item },
            ) => NavigationPhase::AfterActivation { popped, active_item_index, active_item },
            (
                NavigationPhase::AfterActivation { popped, active_item_index, active_item },
                NavigationEvent::ModeSet { .. },
            ) => {
                let navigated = popped.active_item_index != active_item_index;
                match popped.data {
                    Some(data) => match active_item {
                        Some(item) => NavigationPhase::InItem { item, data, navigated },
                        None => NavigationPhase::Done,
                    },
                    None => Self::phase_after_showing(navigated, again),
                }
            },
            (NavigationPhase::InItem { navigated, .. }, NavigationEvent::Navigated(moved)) =>
                Self::phase_after_showing(navigated || moved, again),
            (NavigationPhase::FindPath(popped), NavigationEvent::PathFound(found)) => {
                if found {
                    NavigationPhase::LoadPath(popped)
                } else {
                    NavigationPhase::Done
                }
            },
            (NavigationPhase::LoadPath(popped), NavigationEvent::Loaded(loaded)) => {
                if loaded {
                    NavigationPhase::BeforeOpening(popped)
                } else {
                    NavigationPhase::CheckPane
                }
            },
            (NavigationPhase::BeforeOpening(popped), NavigationEvent::ModeSet { active_item }) =>
                NavigationPhase::Opening { popped, previous: active_item },
            (NavigationPhase::Opening { popped, previous }, NavigationEvent::Opened(item)) =>
                NavigationPhase::AfterOpening { popped, item, navigated: previous != Some(item) },
            (
                NavigationPhase::AfterOpening { popped, item, navigated },
                NavigationEvent::ModeSet { .. },
            ) => match popped.data {
                Some(data) => NavigationPhase::InOpenedItem { item, data, navigated },
                None => Self::phase_after_showing(navigated, again),
            },
            (NavigationPhase::InOpenedItem { navigated, .. }, NavigationEvent::Navigated(moved)) =>
                Self::phase_after_showing(navigated || moved, again),
            _ => self.phase,
        }
    }

    fn phase_after_showing(navigated: bool, again: NavigationPhase) -> (phase: NavigationPhase)
        ensures
            phase == after_showing(navigated, again),
    {
        if navigated {
            NavigationPhase::Done
        } else {
            again
        }
    }
}

/// When a walk is over and the pane is still there, its history takes notice as usual.
pub proof fn law_mode_restored(walk: Navigation, event: NavigationEvent)
    requires
        walk.well_formed(),
        walk.after(event).phase is Done,
    ensures
        walk.after(event).history_mode == NavigationMode::Normal,
{
}

/// A walk that is over stays over.
pub proof fn law_done_stays_done(walk: Navigation, event: NavigationEvent)
    requires
        walk.spec_action() is Done || walk.spec_action() is Fail,
    ensures
        walk.after(event) == walk,
{
}

/// Going to a place that shows something else ends a walk.
pub proof fn law_navigated_ends_walk(walk: Navigation)
    requires
        walk.phase is InItem || walk.phase is InOpenedItem,
    ensures
        walk.after(NavigationEvent::Navigated(true)).phase is Done,
{
}

/// A walk looks for the pane and then takes a step from its history. It is over if the pane is
/// gone or the history has no further step.
pub proof fn law_walk_starts(pane: u64, mode: NavigationMode)
    ensures
        ({
            let walk = start_of_walk(pane, mode);
            let found = walk.after(NavigationEvent::Pane { exists: true });
            &&& walk.pane == pane
            &&& walk.spec_action() == NavigationAction::CheckPane
            &&& walk.after(NavigationEvent::Pane { exists: false }).spec_action()
                == NavigationAction::Done
            &&& found.spec_action() == NavigationAction::Pop(mode)
            &&& found.pane == pane
            &&& found.after(NavigationEvent::Popped(None)).spec_action()
                == NavigationAction::Done
        }),
{
}

/// A step to an item that is still in the pane: that item is activated, in the mode of the walk.
/// The walk is then over if another place of the pane is active than before the step, or if the
/// step has data and the item that is active then moved to it. Else, and only then, the next
/// step is taken.
pub proof fn law_step_in_pane(
    walk: Navigation,
    popped: Popped,
    index: usize,
    before: Option<u64>,
    active_item_index: usize,
    active_item: Option<u64>,
    after: Option<u64>,
)
    requires
        walk.spec_action() == NavigationAction::Pop(walk.mode),
        popped.index == Some(index),
    ensures
        ({
            let first = walk.after(NavigationEvent::Popped(Some(popped)));
            let second = first.after(NavigationEvent::ModeSet { active_item: before });
            let third = second.after(NavigationEvent::Activated { active_item_index, active_item });
            let fourth = third.after(NavigationEvent::ModeSet { active_item: after });
            &&& first.spec_action() == NavigationAction::SetMode(walk.mode)
            &&& second.spec_action() == NavigationAction::ActivateItem(index)
            &&& third.spec_action() == NavigationAction::SetMode(NavigationMode::Normal)
            &&& popped.data is None && popped.active_item_index != active_item_index
                ==> fourth.spec_action() == NavigationAction::Done
            &&& popped.data is None && popped.active_item_index == active_item_index
                ==> fourth.spec_action() == NavigationAction::Pop(walk.mode)
            &&& popped.data is Some && active_item is None ==> fourth.spec_action()
                == NavigationAction::Done
            &&& popped.data matches Some(data) ==> (active_item matches Some(item) ==> {
                &&& fourth.spec_action() == NavigationAction::Navigate { item, data }
                &&& forall|moved: bool| #[trigger]
                    fourth.after(NavigationEvent::Navigated(moved)).spec_action() == (if moved
                        || popped.active_item_index != active_item_index {
                        NavigationAction::Done
                    } else {
                        NavigationAction::Pop(walk.mode)
                    })
            })
        }),
{
}

/// A step to an item that is no longer in the pane: its path is looked for, loaded, and opened
/// in the mode of the walk. The walk is over where no path is known, and where the item that
/// was opened is another than the active one before or moved to the data of the step. Where the
/// path could not be loaded, or nothing else is shown, the walk goes on from the start.
pub proof fn law_step_out_of_pane(
    walk: Navigation,
    popped: Popped,
    before: Option<u64>,
    item: u64,
    after: Option<u64>,
)
    requires
        walk.spec_action() == NavigationAction::Pop(walk.mode),
        popped.index is None,
    ensures
        ({
            let first = walk.after(NavigationEvent::Popped(Some(popped)));
            let found = first.after(NavigationEvent::PathFound(true));
            let loaded = found.after(NavigationEvent::Loaded(true));
            let opening = loaded.after(NavigationEvent::ModeSet { active_item: before });
            let opened = opening.after(NavigationEvent::Opened(item));
            let shown = opened.after(NavigationEvent::ModeSet { active_item: after });
            &&& first.spec_action() == NavigationAction::FindPath(popped.item)
            &&& first.after(NavigationEvent::PathFound(false)).spec_action()
                == NavigationAction::Done
            &&& found.spec_action() == NavigationAction::LoadPath
            &&& found.after(NavigationEvent::Loaded(false)).spec_action()
                == NavigationAction::CheckPane
            &&& loaded.spec_action() == NavigationAction::SetMode(walk.mode)
            &&& opening.spec_action() == NavigationAction::OpenItem
            &&& opened.spec_action() == NavigationAction::SetMode(NavigationMode::Normal)
            &&& popped.data is None ==> shown.spec_action() == (if before == Some(item) {
                NavigationAction::CheckPane
            } else {
                NavigationAction::Done
            })
            &&& popped.data matches Some(data) ==> {
                &&& shown.spec_action() == NavigationAction::Navigate { item, data }
                &&& forall|moved: bool| #[trigger]
                    shown.after(NavigationEvent::Navigated(moved)).spec_action() == (if moved
                        || before != Some(item) {
                        NavigationAction::Done
                    } else {
                        NavigationAction::CheckPane
                    })
            }
        }),
{
}

/// A walk keeps its pane and its mode, and fails where the pane or the workspace goes away.
pub proof fn law_walk_keeps(walk: Navigation, event: NavigationEvent)
    ensures
        walk.after(event).pane == walk.pane,
        walk.after(event).mode == walk.mode,
        !(walk.spec_action() is Done) && !(walk.spec_action() is Fail) ==> walk.after(
            NavigationEvent::PaneDropped,
        ).spec_action() == NavigationAction::Fail(Error::PaneDropped) && walk.after(
            NavigationEvent::WorkspaceDropped,
        ).spec_action() == NavigationAction::Fail(Error::WorkspaceDropped),
{
}

/// The start of a walk.
pub open spec fn start_of_walk(pane: u64, mode: NavigationMode) -> Navigation {
    Navigation {
        pane,
        mode,
        history_mode: NavigationMode::Normal,
        phase: NavigationPhase::CheckPane,
    }
}

/// A step of some history: a path in the project, where that lies, and when it was visited.
#[derive(Debug, PartialEq, Eq)]
pub struct HistoryEntry {
    pub project_path: ProjectPath,
    pub fs_path: Option<PathBuf>,
    pub timestamp: usize,
}

#[verifier::ext_equal]
pub struct HistoryEntryView {
    pub project_path: ProjectPathView,
    pub fs_path: Option<Seq<ComponentView>>,
    pub timestamp: usize,
}

pub open spec fn path_view(path: Option<PathBuf>) -> Option<Seq<ComponentView>> {
    match path {
        Some(path) => Some(path@),
        None => None,
    }
}

impl View for HistoryEntry {
    type V = HistoryEntryView;

    open spec fn view(&self) -> HistoryEntryView {
        HistoryEntryView {
            project_path: self.project_path@,
            fs_path: path_view(self.fs_path),
            timestamp: self.timestamp,
        }
    }
}

/// The views of a list of steps.
pub open spec fn entry_views(entries: Seq<HistoryEntry>) -> Seq<HistoryEntryView> {
    entries.map_values(|e: HistoryEntry| e@)
}

/// The place of the step to a path, from `i` on.
pub open spec fn entry_place(entries: Seq<HistoryEntryView>, path: ProjectPathView, i: int) -> Option<int>
    decreases entries.len() - i,
{
    if i < 0 || i >= entries.len() {
        None
    } else if entries[i].project_path == path {
        Some(i)
    } else {
        entry_place(entries, path, i + 1)
    }
}

/// The list with one more step, if it is the first or the latest to its path.
pub open spec fn with_entry(latest: Seq<HistoryEntryView>, entry: HistoryEntryView) -> Seq<HistoryEntryView> {
    match entry_place(latest, entry.project_path, 0) {
        Some(k) => if entry.timestamp > latest[k].timestamp {
            latest.update(k, entry)
        } else {
            latest
        },
        None => latest.push(entry),
    }
}

/// For each path that was visited the latest step to it, the paths in the order in which they
/// come up.
pub open spec fn latest_entries(entries: Seq<HistoryEntryView>) -> Seq<HistoryEntryView>
    decreases entries.len(),
{
    if entries.len() == 0 {
        Seq::empty()
    } else {
        with_entry(latest_entries(entries.drop_last()), entries.last())
    }
}

/// Of the paths in the project that lie at the given place, the one in the newest worktree;
/// of several there, the last that comes up.
pub open spec fn newest_path(entries: Seq<HistoryEntryView>, fs_path: Seq<ComponentView>) -> Option<
    ProjectPathView,
>
    decreases entries.len(),
{
    if entries.len() == 0 {
        None
    } else {
        let before = newest_path(entries.drop_last(), fs_path);
        let last = entries.last();
        let newer = match before {
            Some(path) => path.worktree_id <= last.project_path.worktree_id,
            None => true,
        };
        if last.fs_path == Some(fs_path) && newer {
            Some(last.project_path)
        } else {
            before
        }
    }
}

/// Whether a step is told of: not if its place was visited in a newer worktree.
pub open spec fn is_current(entries: Seq<HistoryEntryView>, entry: HistoryEntryView) -> bool {
    match entry.fs_path {
        Some(fs_path) => match newest_path(entries, fs_path) {
            Some(path) => path == entry.project_path,
            None => true,
        },
        None => true,
    }
}

/// The steps of a list that are told of.
pub open spec fn current_entries(entries: Seq<HistoryEntryView>, list: Seq<HistoryEntryView>) -> Seq<
    HistoryEntryView,
>
    decreases list.len(),
{
    if list.len() == 0 {
        Seq::empty()
    } else {
        let before = current_entries(entries, list.drop_last());
        if is_current(entries, list.last()) {
            before.push(list.last())
        } else {
            before
        }
    }
}

/// The keys by which a list of latest steps is ordered: their times, each with its place.
pub open spec fn order_keys(latest: Seq<HistoryEntryView>) -> Seq<(usize, usize)> {
    Seq::new(latest.len(), |i: int| (latest[i].timestamp, i as usize))
}

/// The pairs with the given first component.
pub open spec fn with_first(keys: Seq<(usize, usize)>, k: usize) -> Seq<(usize, usize)> {
    keys.filter(|key: (usize, usize)| key.0 == k)
}

/// The second list is the first in the order of the first components, and keeps the order of
/// those that are equal in it.
pub open spec fn sorted_stably(keys: Seq<(usize, usize)>, ordered: Seq<(usize, usize)>) -> bool {
    &&& ordered.to_multiset() == keys.to_multiset()
    &&& forall|i: int, j: int|
        0 <= i < j < ordered.len() ==> (#[trigger] ordered[i]).0 <= (#[trigger] ordered[j]).0
    &&& forall|k: usize| #[trigger] with_first(ordered, k) == with_first(keys, k)
}

/// The latest steps that are told of, the newest first, for an order of the latest steps.
pub open spec fn recent_entries(entries: Seq<HistoryEntryView>, ordered: Seq<(usize, usize)>) -> Seq<
    HistoryEntryView,
> {
    let latest = latest_entries(entries);
    current_entries(
        entries,
        Seq::new(ordered.len(), |i: int| latest[ordered[ordered.len() - 1 - i].1 as int]),
    )
}

/// At most `limit` entries of a list, from its start.
pub open spec fn limited(list: Seq<HistoryEntryView>, limit: Option<usize>) -> Seq<HistoryEntryView> {
    match limit {
        Some(limit) if limit < list.len() => list.take(limit as int),
        _ => list,
    }
}

/// A path that was visited, and where it lies.
pub open spec fn visited(entry: HistoryEntryView) -> (ProjectPathView, Option<Seq<ComponentView>>) {
    (entry.project_path, entry.fs_path)
}

pub open spec fn visited_views(paths: Seq<(ProjectPath, Option<PathBuf>)>) -> Seq<
    (ProjectPathView, Option<Seq<ComponentView>>),
> {
    paths.map_values(|p: (ProjectPath, Option<PathBuf>)| (p.0@, path_view(p.1)))
}

/// The paths are those that were visited of late, for the stable order of the latest steps.
pub open spec fn are_recent(
    entries: Seq<HistoryEntryView>,
    limit: Option<usize>,
    recent: Seq<(ProjectPath, Option<PathBuf>)>,
) -> bool {
    exists|ordered: Seq<(usize, usize)>| #[trigger]
        sorted_stably(order_keys(latest_entries(entries)), ordered) && visited_views(recent)
            == limited(recent_entries(entries, ordered), limit).map_values(
            |e: HistoryEntryView| visited(e),
        )
}

/// The steps of the histories of some panes, pane by pane.
pub open spec fn history_of(cx: ContextView, panes: Seq<u64>) -> Seq<HistoryEntryView>
    decreases panes.len(),
{
    if panes.len() == 0 {
        Seq::empty()
    } else {
        history_of(cx, panes.drop_last()) + match cx.pane(panes.last()) {
            Some(pane) => pane.history,
            None => Seq::empty(),
        }
    }
}

/// Calls `Itertools::sorted_by_key` with the first component as the key. The result holds the
/// same pairs, in the order of their first components; pairs that are equal in those keep
/// their order.
#[verifier::external_body]
fn sorted_by_timestamp(keys: Vec<(usize, usize)>) -> (ordered: Vec<(usize, usize)>)
    ensures
        sorted_stably(keys@, ordered@),
{
    keys.into_iter().sorted_by_key(|key| key.0).collect()
}

fn copy_path(path: &Option<PathBuf>) -> (copy: Option<PathBuf>)
    ensures
        path_view(copy) == path_view(*path),
{
    match path {
        Some(path) => Some(path.clone()),
        None => None,
    }
}

fn copy_entry(entry: &HistoryEntry) -> (copy: HistoryEntry)
    ensures
        copy@ == entry@,
{
    HistoryEntry {
        project_path: entry.project_path.clone(),
        fs_path: copy_path(&entry.fs_path),
        timestamp: entry.timestamp,
    }
}

fn find_entry(entries: &Vec<HistoryEntry>, path: &ProjectPath) -> (place: Option<usize>)
    ensures
        entry_place(entry_views(entries@), path@, 0) == index_view(place),
        place matches Some(place) ==> place < entries.len(),
{
    let mut i: usize = 0;
    while i < entries.len()
        invariant
            i <= entries.len(),
            entry_place(entry_views(entries@), path@, 0) == entry_place(
                entry_views(entries@),
                path@,
                i as int,
            ),
        decreases entries.len() - i,
    {
        assert(entry_views(entries@)[i as int] == entries@[i as int]@);
        if entries[i].project_path.same(path) {
            return Some(i);
        }
        i += 1;
    }
    None
}

fn find_latest(entries: &Vec<HistoryEntry>) -> (latest: Vec<HistoryEntry>)
    ensures
        entry_views(latest@) == latest_entries(entry_views(entries@)),
{
    let ghost all = entry_views(entries@);
    let mut latest: Vec<HistoryEntry> = Vec::new();
    let mut i: usize = 0;
    proof {
        assert(entry_views(latest@) =~= latest_entries(all.take(0)));
    }
    while i < entries.len()
        invariant
            i <= entries.len(),
            all == entry_views(entries@),
            entry_views(latest@) == latest_entries(all.take(i as int)),
        decreases entries.len() - i,
    {
        proof {
            assert(all.take(i + 1).drop_last() =~= all.take(i as int));
            assert(all[i as int] == entries@[i as int]@);
        }
        let ghost before = latest@;
        match find_entry(&latest, &entries[i].project_path) {
            Some(k) => {
                if entries[i].timestamp > latest[k].timestamp {
                    let entry = copy_entry(&entries[i]);
                    latest[k] = entry;
                    assert(entry_views(latest@) =~= entry_views(before).update(
                        k as int,
                        all[i as int],
                    ));
                }
            },
            None => {
                let entry = copy_entry(&entries[i]);
                latest.push(entry);
                assert(entry_views(latest@) =~= entry_views(before).push(all[i as int]));
            },
        }
        i += 1;
    }
    assert(all.take(i as int) =~= all);
    latest
}

fn find_newest_path<'a>(entries: &'a Vec<HistoryEntry>, fs_path: &PathBuf) -> (path: Option<&'a ProjectPath>)
    ensures
        newest_path(entry_views(entries@), fs_path@) == (match path {
            Some(path) => Some(path@),
            None => None,
        }),
{
    let ghost all = entry_views(entries@);
    let mut found: Option<&ProjectPath> = None;
    let mut i: usize = 0;
    while i < entries.len()
        invariant
            i <= entries.len(),
            all == entry_views(entries@),
            newest_path(all.take(i as int), fs_path@) == (match found {
                Some(path) => Some(path@),
                None => None,
            }),
        decreases entries.len() - i,
    {
        proof {
            assert(all.take(i + 1).drop_last() =~= all.take(i as int));
            assert(all[i as int] == entries@[i as int]@);
        }
        let here = match &entries[i].fs_path {
            Some(path) => path.same(fs_path),
            None => false,
        };
        if here {
            let newer = match found {
                Some(path) => path.worktree_id <= entries[i].project_path.worktree_id,
                None => true,
            };
            if newer {
                found = Some(&entries[i].project_path);
            }
        }
        i += 1;
    }
    assert(all.take(i as int) =~= all);
    found
}

fn entry_is_current(entries: &Vec<HistoryEntry>, entry: &HistoryEntry) -> (current: bool)
    ensures
        current == is_current(entry_views(entries@), entry@),
{
    match &entry.fs_path {
        Some(fs_path) => match find_newest_path(entries, fs_path) {
            Some(path) => path.same(&entry.project_path),
            None => true,
        },
        None => true,
    }
}

proof fn lemma_current_grows(entries: Seq<HistoryEntryView>, list: Seq<HistoryEntryView>, n: int)
    requires
        0 <= n <= list.len(),
    ensures
        current_entries(entries, list.take(n)).is_prefix_of(current_entries(entries, list)),
    decreases list.len() - n,
{
    if n == list.len() {
        assert(list.take(n) =~= list);
    } else {
        assert(list.take(n + 1).drop_last() =~= list.take(n));
        lemma_current_grows(entries, list, n + 1);
        let a = current_entries(entries, list.take(n));
        let b = current_entries(entries, list.take(n + 1));
        let c = current_entries(entries, list);
        assert forall|i: int| 0 <= i < a.len() implies a[i] == c[i] by {
            assert(a[i] == b[i]);
            assert(b[i] == c[i]);
        }
    }
}

/// In every order of the keys each place of the list comes up.
proof fn lemma_ordered_places(latest: Seq<HistoryEntryView>, ordered: Seq<(usize, usize)>, i: int)
    requires
        latest.len() <= usize::MAX,
        ordered.to_multiset() == order_keys(latest).to_multiset(),
        0 <= i < ordered.len(),
    ensures
        ordered[i].1 < latest.len(),
        ordered[i].0 == latest[ordered[i].1 as int].timestamp,
{
    broadcast use vstd::seq_lib::group_to_multiset_ensures;

    let keys = order_keys(latest);
    assert(ordered.contains(ordered[i]));
    assert(ordered.to_multiset().count(ordered[i]) > 0);
    assert(keys.contains(ordered[i]));
    let k = keys.index_of(ordered[i]);
    assert(keys[k] == ordered[i]);
}

/// The paths that were visited of late, the newest first, and where they lie. A place
/// that was visited in several worktrees is told of in the newest one only.
pub fn recent_paths(entries: &Vec<HistoryEntry>, limit: Option<usize>) -> (recent:
    Vec<(ProjectPath, Option<PathBuf>)>)
    ensures
        are_recent(entry_views(entries@), limit, recent@),
{
    let ghost all = entry_views(entries@);
    let latest = find_latest(entries);
    let ghost latest_views = entry_views(latest@);
    let mut keys: Vec<(usize, usize)> = Vec::new();
    let mut i: usize = 0;
    while i < latest.len()
        invariant
            i <= latest.len(),
            latest_views == entry_views(latest@),
            keys@ =~= order_keys(latest_views).take(i as int),
        decreases latest.len() - i,
    {
        assert(latest_views[i as int] == latest@[i as int]@);
        keys.push((latest[i].timestamp, i));
        i += 1;
    }
    assert(keys@ =~= order_keys(latest_views));
    let ordered = sorted_by_timestamp(keys);
    let ghost newest_first = Seq::new(
        ordered@.len(),
        |i: int| latest_views[ordered@[ordered@.len() - 1 - i].1 as int],
    );
    let mut recent: Vec<(ProjectPath, Option<PathBuf>)> = Vec::new();
    let ghost mut told: Seq<HistoryEntryView> = Seq::empty();
    let mut n: usize = ordered.len();
    let mut full = match limit {
        Some(limit) => limit == 0,
        None => false,
    };
    proof {
        assert(newest_first.take(0) =~= Seq::empty());
        assert(visited_views(recent@) =~= told.map_values(|e: HistoryEntryView| visited(e)));
    }
    while n > 0 && !full
        invariant
            n <= ordered.len(),
            all == entry_views(entries@),
            latest_views == entry_views(latest@),
            sorted_stably(order_keys(latest_views), ordered@),
            newest_first == Seq::new(
                ordered@.len(),
                |i: int| latest_views[ordered@[ordered@.len() - 1 - i].1 as int],
            ),
            told == current_entries(all, newest_first.take(ordered.len() - n)),
            visited_views(recent@) == told.map_values(|e: HistoryEntryView| visited(e)),
            full == (limit == Some(recent.len())),
            limit matches Some(limit) ==> recent.len() <= limit,
        decreases n,
    {
        let ghost done = ordered.len() - n;
        n -= 1;
        proof {
            assert(latest_views.len() == latest.len());
            lemma_ordered_places(latest_views, ordered@, n as int);
            assert(newest_first.take(done + 1).drop_last() =~= newest_first.take(done));
            assert(newest_first[done] == latest_views[ordered@[n as int].1 as int]);
        }
        let place = ordered[n].1;
        let entry = &latest[place];
        assert(latest_views[place as int] == entry@);
        if entry_is_current(entries, entry) {
            let path = (entry.project_path.clone(), copy_path(&entry.fs_path));
            let ghost before = recent@;
            recent.push(path);
            proof {
                assert(visited_views(recent@) =~= visited_views(before).push(visited(entry@)));
                assert(told.push(entry@).map_values(|e: HistoryEntryView| visited(e))
                    =~= told.map_values(|e: HistoryEntryView| visited(e)).push(
                    visited(entry@),
                ));
                told = told.push(entry@);
            }
            full = match limit {
                Some(limit) => limit == recent.len(),
                None => false,
            };
        }
    }
    proof {
        let done = ordered.len() - n;
        lemma_current_grows(all, newest_first, done);
        let whole = current_entries(all, newest_first);
        assert(recent_entries(all, ordered@) == whole);
        assert(visited_views(recent@).len() == told.len());
        if full {
            assert(told =~= whole.take(told.len() as int));
            assert(limited(whole, limit) =~= told);
        } else {
            assert(newest_first.take(done) =~= newest_first);
            assert(limited(whole, limit) =~= told);
        }
    }
    recent
}

impl Workspace {
    /// The paths that were visited of late in any pane, the newest first, and where they lie.
    /// A place that was visited in several worktrees is told of in the newest one only.
    pub fn recent_navigation_history(&self, limit: Option<usize>, cx: &Context) -> (recent: Vec<
        (ProjectPath, Option<PathBuf>),
    >)
        ensures
            are_recent(history_of(cx@, self@.panes), limit, recent@),
    {
        let mut entries: Vec<HistoryEntry> = Vec::new();
        let mut i: usize = 0;
        proof {
            assert(entry_views(entries@) =~= history_of(cx@, self.panes@.take(0)));
        }
        while i < self.panes.len()
            invariant
                i <= self.panes.len(),
                entry_views(entries@) == history_of(cx@, self.panes@.take(i as int)),
            decreases self.panes.len() - i,
        {
            proof {
                assert(self.panes@.take(i + 1).drop_last() =~= self.panes@.take(i as int));
            }
            if let Some(pane) = cx.pane(self.panes[i]) {
                let ghost before = entries@;
                let mut j: usize = 0;
                proof {
                    assert(entry_views(entries@) =~= entry_views(before) + entry_views(
                        pane.history@.take(0),
                    ));
                }
                while j < pane.history.len()
                    invariant
                        j <= pane.history.len(),
                        entry_views(entries@) == entry_views(before) + entry_views(
                            pane.history@.take(j as int),
                        ),
                    decreases pane.history.len() - j,
                {
                    let entry = copy_entry(&pane.history[j]);
                    proof {
                        assert(entry_views(pane.history@.take(j + 1)) =~= entry_views(
                            pane.history@.take(j as int),
                        ).push(entry@));
                        assert(entry_views(entries@.push(entry)) =~= entry_views(entries@).push(
                            entry@,
                        ));
                    }
                    entries.push(entry);
                    j += 1;
                }
                assert(pane.history@.take(j as int) =~= pane.history@);
            } else {
                assert(entry_views(entries@) + Seq::<HistoryEntryView>::empty() =~= entry_views(
                    entries@,
                ));
            }
            i += 1;
        }
        assert(self.panes@.take(i as int) =~= self.panes@);
        recent_paths(&entries, limit)
    }

    /// Starts a walk through the history of a pane.
    pub fn navigate_history(&self, pane: u64, mode: NavigationMode) -> (walk: Navigation)
        ensures
            walk == start_of_walk(pane, mode),
            walk.well_formed(),
    {
        Navigation {
            pane,
            mode,
            history_mode: NavigationMode::Normal,
            phase: NavigationPhase::CheckPane,
        }
    }

    pub fn go_back(&self, pane: u64) -> (walk: Navigation)
        ensures
            walk == start_of_walk(pane, NavigationMode::GoingBack),
            walk.well_formed(),
    {
        self.navigate_history(pane, NavigationMode::GoingBack)
    }

    pub fn go_forward(&self, pane: u64) -> (walk: Navigation)
        ensures
            walk == start_of_walk(pane, NavigationMode::GoingForward),
            walk.well_formed(),
    {
        self.navigate_history(pane, NavigationMode::GoingForward)
    }

    /// Starts to open again what was closed last in the active pane.
    pub fn reopen_closed_item(&self) -> (walk: Navigation)
        ensures
            walk == start_of_walk(self@.active_pane, NavigationMode::ReopeningClosedItem),
            walk.well_formed(),
    {
        self.navigate_history(self.active_pane, NavigationMode::ReopeningClosedItem)
    }
}

/// The times of a list never grow.
pub open spec fn newest_first(list: Seq<HistoryEntryView>) -> bool {
    forall|i: int, j: int|
        0 <= i < j < list.len() ==> (#[trigger] list[i]).timestamp >= (#[trigger] list[j]).timestamp
}

/// No path comes up twice in a list.
pub open spec fn distinct_paths(list: Seq<HistoryEntryView>) -> bool {
    forall|i: int, j: int|
        0 <= i < j < list.len() ==> (#[trigger] list[i]).project_path != (
        #[trigger] list[j]).project_path
}

proof fn lemma_entry_place(entries: Seq<HistoryEntryView>, path: ProjectPathView, i: int)
    requires
        0 <= i <= entries.len(),
    ensures
        match entry_place(entries, path, i) {
            Some(k) => i <= k < entries.len() && entries[k].project_path == path,
            None => forall|j: int|
                i <= j < entries.len() ==> (#[trigger] entries[j]).project_path != path,
        },
    decreases entries.len() - i,
{
    if i < entries.len() && entries[i].project_path != path {
        lemma_entry_place(entries, path, i + 1);
    }
}

/// Whether a list of latest steps has one to the path that is no older than `timestamp`.
pub open spec fn has_later(latest: Seq<HistoryEntryView>, path: ProjectPathView, timestamp: usize) -> bool {
    exists|k: int|
        0 <= k < latest.len() && (#[trigger] latest[k]).project_path == path && latest[k].timestamp
            >= timestamp
}

proof fn lemma_with_entry(latest: Seq<HistoryEntryView>, entry: HistoryEntryView)
    requires
        distinct_paths(latest),
    ensures
        distinct_paths(with_entry(latest, entry)),
        latest.len() <= with_entry(latest, entry).len() <= latest.len() + 1,
        forall|k: int|
            0 <= k < latest.len() ==> {
                &&& (#[trigger] with_entry(latest, entry)[k]).project_path == latest[k].project_path
                &&& with_entry(latest, entry)[k].timestamp >= latest[k].timestamp
                &&& with_entry(latest, entry)[k] == latest[k] || with_entry(latest, entry)[k]
                    == entry
            },
        forall|k: int|
            latest.len() <= k < with_entry(latest, entry).len() ==> #[trigger] with_entry(
                latest,
                entry,
            )[k] == entry,
        has_later(with_entry(latest, entry), entry.project_path, entry.timestamp),
{
    let after = with_entry(latest, entry);
    lemma_entry_place(latest, entry.project_path, 0);
    match entry_place(latest, entry.project_path, 0) {
        Some(k) => {
            assert(after[k].project_path == entry.project_path);
        },
        None => {
            assert(after[latest.len() as int] == entry);
        },
    }
}

proof fn lemma_later_kept(latest: Seq<HistoryEntryView>, entry: HistoryEntryView, path: ProjectPathView, timestamp: usize)
    requires
        distinct_paths(latest),
        has_later(latest, path, timestamp),
    ensures
        has_later(with_entry(latest, entry), path, timestamp),
{
    lemma_with_entry(latest, entry);
    let k = choose|k: int|
        0 <= k < latest.len() && (#[trigger] latest[k]).project_path == path && latest[k].timestamp
            >= timestamp;
    assert(with_entry(latest, entry)[k].project_path == path);
}

/// A path that was visited comes up once among the latest steps, with a step to it that was
/// taken, and none to it was taken later.
pub proof fn law_latest_entries(entries: Seq<HistoryEntryView>)
    ensures
        latest_entries(entries).len() <= entries.len(),
        distinct_paths(latest_entries(entries)),
        forall|k: int|
            0 <= k < latest_entries(entries).len() ==> entries.contains(
                #[trigger] latest_entries(entries)[k],
            ),
        forall|i: int|
            0 <= i < entries.len() ==> has_later(
                latest_entries(entries),
                (#[trigger] entries[i]).project_path,
                entries[i].timestamp,
            ),
    decreases entries.len(),
{
    if entries.len() > 0 {
        let init = entries.drop_last();
        let last = entries.last();
        let before = latest_entries(init);
        let after = latest_entries(entries);
        law_latest_entries(init);
        lemma_with_entry(before, last);
        assert forall|k: int| 0 <= k < after.len() implies entries.contains(#[trigger] after[k]) by {
            if k < before.len() && after[k] == before[k] {
                assert(init.contains(before[k]));
                let j = init.index_of(before[k]);
                assert(entries[j] == after[k]);
            } else {
                assert(entries[entries.len() - 1] == after[k]);
            }
        }
        assert forall|i: int| 0 <= i < entries.len() implies has_later(
            after,
            (#[trigger] entries[i]).project_path,
            entries[i].timestamp,
        ) by {
            if i < init.len() {
                assert(init[i] == entries[i]);
                lemma_later_kept(before, last, init[i].project_path, init[i].timestamp);
            }
        }
    }
}

/// What is told of is part of a list, in its order.
proof fn lemma_current_entries(entries: Seq<HistoryEntryView>, list: Seq<HistoryEntryView>)
    ensures
        forall|i: int|
            0 <= i < current_entries(entries, list).len() ==> list.contains(
                #[trigger] current_entries(entries, list)[i],
            ),
        newest_first(list) ==> newest_first(current_entries(entries, list)),
        distinct_paths(list) ==> distinct_paths(current_entries(entries, list)),
    decreases list.len(),
{
    if list.len() > 0 {
        let init = list.drop_last();
        let before = current_entries(entries, init);
        let after = current_entries(entries, list);
        lemma_current_entries(entries, init);
        assert forall|i: int| 0 <= i < after.len() implies list.contains(#[trigger] after[i]) by {
            if i < before.len() {
                assert(init.contains(before[i]));
                let j = init.index_of(before[i]);
                assert(list[j] == after[i]);
            } else {
                assert(list[list.len() - 1] == after[i]);
            }
        }
        if newest_first(list) {
            assert(newest_first(init)) by {
                assert forall|i: int, j: int| 0 <= i < j < init.len() implies (
                #[trigger] init[i]).timestamp >= (#[trigger] init[j]).timestamp by {
                    assert(init[i] == list[i] && init[j] == list[j]);
                }
            }
            assert forall|i: int, j: int| 0 <= i < j < after.len() implies (
            #[trigger] after[i]).timestamp >= (#[trigger] after[j]).timestamp by {
                if j == before.len() {
                    assert(init.contains(before[i]));
                    let k = init.index_of(before[i]);
                    assert(list[k] == after[i]);
                    assert(list[list.len() - 1] == after[j]);
                } else {
                    assert(after[i] == before[i] && after[j] == before[j]);
                }
            }
        }
        if distinct_paths(list) {
            assert(distinct_paths(init)) by {
                assert forall|i: int, j: int| 0 <= i < j < init.len() implies (
                #[trigger] init[i]).project_path != (#[trigger] init[j]).project_path by {
                    assert(init[i] == list[i] && init[j] == list[j]);
                }
            }
            assert forall|i: int, j: int| 0 <= i < j < after.len() implies (
            #[trigger] after[i]).project_path != (#[trigger] after[j]).project_path by {
                if j == before.len() {
                    assert(init.contains(before[i]));
                    let k = init.index_of(before[i]);
                    assert(list[k] == after[i]);
                    assert(list[list.len() - 1] == after[j]);
                } else {
                    assert(after[i] == before[i] && after[j] == before[j]);
                }
            }
        }
    }
}

/// What was visited of late is told of from the newest on, and no path is told of twice.
pub proof fn law_recent_entries(entries: Seq<HistoryEntryView>, ordered: Seq<(usize, usize)>)
    requires
        entries.len() <= usize::MAX,
        sorted_stably(order_keys(latest_entries(entries)), ordered),
    ensures
        newest_first(recent_entries(entries, ordered)),
        distinct_paths(recent_entries(entries, ordered)),
{
    let latest = latest_entries(entries);
    let keys = order_keys(latest);
    let list = Seq::new(
        ordered.len(),
        |i: int| latest[ordered[ordered.len() - 1 - i].1 as int],
    );
    law_latest_entries(entries);
    assert(keys.no_duplicates());
    keys.lemma_multiset_has_no_duplicates();
    ordered.lemma_multiset_has_no_duplicates_conv();
    assert forall|i: int, j: int| 0 <= i < j < list.len() implies (#[trigger] list[i]).timestamp
        >= (#[trigger] list[j]).timestamp && list[i].project_path != list[j].project_path by {
        let p = ordered.len() - 1 - i;
        let q = ordered.len() - 1 - j;
        lemma_ordered_places(latest, ordered, p);
        lemma_ordered_places(latest, ordered, q);
        assert(ordered[q].0 <= ordered[p].0);
        assert(ordered[p] != ordered[q]);
        assert(ordered[p].1 != ordered[q].1);
    }
    lemma_current_entries(entries, list);
}

proof fn lemma_with_first(keys: Seq<(usize, usize)>, k: usize)
    ensures
        keys.len() > 0 ==> with_first(keys, k) == (if keys.last().0 == k {
            with_first(keys.drop_last(), k).push(keys.last())
        } else {
            with_first(keys.drop_last(), k)
        }),
        with_first(keys, k).len() > 0 ==> exists|i: int|
            0 <= i < keys.len() && (#[trigger] keys[i]).0 == k,
    decreases keys.len(),
{
    reveal(Seq::filter);
    if keys.len() > 0 {
        lemma_with_first(keys.drop_last(), k);
        if with_first(keys, k).len() > 0 {
            if keys.last().0 == k {
                assert(keys[keys.len() - 1].0 == k);
            } else {
                let i = choose|i: int|
                    0 <= i < keys.drop_last().len() && (#[trigger] keys.drop_last()[i]).0 == k;
                assert(keys[i].0 == k);
            }
        }
    }
}

proof fn lemma_same_order(a: Seq<(usize, usize)>, b: Seq<(usize, usize)>)
    requires
        a.len() == b.len(),
        forall|i: int, j: int| 0 <= i < j < a.len() ==> (#[trigger] a[i]).0 <= (#[trigger] a[j]).0,
        forall|i: int, j: int| 0 <= i < j < b.len() ==> (#[trigger] b[i]).0 <= (#[trigger] b[j]).0,
        forall|k: usize| #[trigger] with_first(a, k) == with_first(b, k),
    ensures
        a == b,
    decreases a.len(),
{
    if a.len() > 0 {
        let x = a.last();
        let y = b.last();
        lemma_with_first(a, x.0);
        lemma_with_first(b, x.0);
        lemma_with_first(a, y.0);
        lemma_with_first(b, y.0);
        assert(with_first(a, x.0) == with_first(b, x.0));
        assert(with_first(a, y.0) == with_first(b, y.0));
        assert(with_first(a, x.0).last() == x);
        assert(with_first(b, y.0).last() == y);
        let i = choose|i: int| 0 <= i < b.len() && (#[trigger] b[i]).0 == x.0;
        let j = choose|j: int| 0 <= j < a.len() && (#[trigger] a[j]).0 == y.0;
        assert(b[i].0 <= b[b.len() - 1].0);
        assert(a[j].0 <= a[a.len() - 1].0);
        assert(x == y);
        let c = a.drop_last();
        let d = b.drop_last();
        assert forall|k: usize| #[trigger] with_first(c, k) == with_first(d, k) by {
            lemma_with_first(a, k);
            lemma_with_first(b, k);
            assert(with_first(a, k) == with_first(b, k));
            if x.0 == k {
                assert(with_first(c, k) =~= with_first(a, k).drop_last());
                assert(with_first(d, k) =~= with_first(b, k).drop_last());
            }
        }
        assert forall|i: int, j: int| 0 <= i < j < c.len() implies (#[trigger] c[i]).0 <= (
        #[trigger] c[j]).0 by {
            assert(a[i].0 <= a[j].0);
        }
        assert forall|i: int, j: int| 0 <= i < j < d.len() implies (#[trigger] d[i]).0 <= (
        #[trigger] d[j]).0 by {
            assert(b[i].0 <= b[j].0);
        }
        lemma_same_order(c, d);
        assert(a =~= c.push(x));
        assert(b =~= d.push(y));
    } else {
        assert(a =~= b);
    }
}

/// There is one stable order only, so what was visited of late is told of in one way only.
pub proof fn law_one_stable_order(
    keys: Seq<(usize, usize)>,
    a: Seq<(usize, usize)>,
    b: Seq<(usize, usize)>,
)
    requires
        sorted_stably(keys, a),
        sorted_stably(keys, b),
    ensures
        a == b,
{
    broadcast use vstd::seq_lib::group_to_multiset_ensures;

    assert(a.to_multiset().len() == b.to_multiset().len());
    assert(a.len() == b.len());
    assert forall|k: usize| #[trigger] with_first(a, k) == with_first(b, k) by {
        assert(with_first(a, k) == with_first(keys, k));
        assert(with_first(b, k) == with_first(keys, k));
    }
    lemma_same_order(a, b);
}

/// Whether a step is the latest to its path: those before it are older, and those behind it
/// are no newer.
pub open spec fn is_latest_step(entries: Seq<HistoryEntryView>, k: int) -> bool {
    &&& 0 <= k < entries.len()
    &&& forall|j: int|
        0 <= j < k && (#[trigger] entries[j]).project_path == entries[k].project_path
            ==> entries[j].timestamp < entries[k].timestamp
    &&& forall|j: int|
        k < j < entries.len() && (#[trigger] entries[j]).project_path == entries[k].project_path
            ==> entries[j].timestamp <= entries[k].timestamp
}

/// Whether a step is among some as the latest to its path.
pub open spec fn is_latest_entry(entries: Seq<HistoryEntryView>, entry: HistoryEntryView) -> bool {
    exists|k: int| #[trigger] is_latest_step(entries, k) && entries[k] == entry
}

proof fn lemma_latest_kept(entries: Seq<HistoryEntryView>, entry: HistoryEntryView)
    requires
        entries.len() > 0,
        is_latest_entry(entries.drop_last(), entry),
        entries.last().project_path == entry.project_path ==> entries.last().timestamp
            <= entry.timestamp,
    ensures
        is_latest_entry(entries, entry),
{
    let init = entries.drop_last();
    let k = choose|k: int| #[trigger] is_latest_step(init, k) && init[k] == entry;
    assert(entries[k] == entry);
    assert forall|j: int|
        0 <= j < k && (#[trigger] entries[j]).project_path
            == entries[k].project_path implies entries[j].timestamp < entries[k].timestamp by {
        assert(init[j] == entries[j]);
    }
    assert forall|j: int|
        k < j < entries.len() && (#[trigger] entries[j]).project_path
            == entries[k].project_path implies entries[j].timestamp <= entries[k].timestamp by {
        if j < init.len() {
            assert(init[j] == entries[j]);
        }
    }
    assert(is_latest_step(entries, k));
}

proof fn lemma_latest_new(entries: Seq<HistoryEntryView>)
    requires
        entries.len() > 0,
        forall|j: int|
            0 <= j < entries.len() - 1 && (#[trigger] entries[j]).project_path
                == entries.last().project_path ==> entries[j].timestamp < entries.last().timestamp,
    ensures
        is_latest_entry(entries, entries.last()),
{
    assert(is_latest_step(entries, entries.len() - 1));
}

proof fn lemma_latest_place(latest: Seq<HistoryEntryView>, path: ProjectPathView, i: int)
    requires
        distinct_paths(latest),
        0 <= i < latest.len(),
        latest[i].project_path == path,
    ensures
        entry_place(latest, path, 0) == Some(i),
{
    lemma_entry_place(latest, path, 0);
    let p = entry_place(latest, path, 0)->0;
    assert(latest[p].project_path == latest[i].project_path);
}

proof fn lemma_latest_steps(entries: Seq<HistoryEntryView>, i: int)
    requires
        0 <= i < latest_entries(entries).len(),
    ensures
        is_latest_entry(entries, latest_entries(entries)[i]),
    decreases entries.len(),
{
    let init = entries.drop_last();
    let last = entries.last();
    let before = latest_entries(init);
    let after = latest_entries(entries);
    law_latest_entries(init);
    lemma_with_entry(before, last);
    if i < before.len() {
        lemma_latest_steps(init, i);
    }
    if i < before.len() && before[i].project_path == last.project_path {
        lemma_latest_place(before, last.project_path, i);
    }
    if i < before.len() && (before[i].project_path != last.project_path || last.timestamp
        <= before[i].timestamp) {
        assert(after[i] == before[i]) by {
            lemma_entry_place(before, last.project_path, 0);
        }
        lemma_latest_kept(entries, before[i]);
    } else {
        assert(after[i] == last);
        assert forall|j: int|
            0 <= j < entries.len() - 1 && (#[trigger] entries[j]).project_path
                == last.project_path implies entries[j].timestamp < last.timestamp by {
            assert(init[j] == entries[j]);
            assert(has_later(before, init[j].project_path, init[j].timestamp));
            let q = choose|q: int|
                0 <= q < before.len() && (#[trigger] before[q]).project_path == last.project_path
                    && before[q].timestamp >= init[j].timestamp;
            lemma_latest_place(before, last.project_path, q);
            assert(q == i);
        }
        lemma_latest_new(entries);
    }
}

proof fn lemma_newest_path(entries: Seq<HistoryEntryView>, fs_path: Seq<ComponentView>)
    ensures
        match newest_path(entries, fs_path) {
            Some(path) => {
                &&& exists|k: int|
                    0 <= k < entries.len() && (#[trigger] entries[k]).fs_path == Some(fs_path)
                        && entries[k].project_path == path
                &&& forall|j: int|
                    0 <= j < entries.len() && (#[trigger] entries[j]).fs_path == Some(fs_path)
                        ==> entries[j].project_path.worktree_id <= path.worktree_id
            },
            None => forall|j: int|
                0 <= j < entries.len() ==> (#[trigger] entries[j]).fs_path != Some(fs_path),
        },
    decreases entries.len(),
{
    if entries.len() > 0 {
        let init = entries.drop_last();
        let n = entries.len() - 1;
        lemma_newest_path(init, fs_path);
        assert(entries[n] == entries.last());
        assert forall|j: int| 0 <= j < n implies #[trigger] entries[j] == init[j] by {}
        if newest_path(entries, fs_path) == newest_path(init, fs_path) {
            if let Some(path) = newest_path(init, fs_path) {
                let k = choose|k: int|
                    0 <= k < init.len() && (#[trigger] init[k]).fs_path == Some(fs_path)
                        && init[k].project_path == path;
                assert(entries[k] == init[k]);
            }
        }
    }
}

proof fn lemma_current_complete(entries: Seq<HistoryEntryView>, list: Seq<HistoryEntryView>)
    ensures
        forall|i: int|
            0 <= i < list.len() && is_current(entries, #[trigger] list[i]) ==> current_entries(
                entries,
                list,
            ).contains(list[i]),
        forall|i: int|
            0 <= i < current_entries(entries, list).len() ==> is_current(
                entries,
                #[trigger] current_entries(entries, list)[i],
            ),
    decreases list.len(),
{
    if list.len() > 0 {
        let init = list.drop_last();
        let before = current_entries(entries, init);
        let after = current_entries(entries, list);
        lemma_current_complete(entries, init);
        assert forall|i: int|
            0 <= i < list.len() && is_current(entries, #[trigger] list[i]) implies after.contains(
            list[i],
        ) by {
            if i < init.len() {
                assert(init[i] == list[i]);
                assert(before.contains(init[i]));
                let j = before.index_of(init[i]);
                assert(after[j] == list[i]);
            } else {
                assert(after[before.len() as int] == list[i]);
            }
        }
        assert forall|i: int| 0 <= i < after.len() implies is_current(
            entries,
            #[trigger] after[i],
        ) by {
            if i < before.len() {
                assert(after[i] == before[i]);
            }
        }
    }
}

/// Every latest step comes up in each order of their keys.
proof fn lemma_ordered_complete(latest: Seq<HistoryEntryView>, ordered: Seq<(usize, usize)>, k: int)
    requires
        latest.len() <= usize::MAX,
        ordered.to_multiset() == order_keys(latest).to_multiset(),
        0 <= k < latest.len(),
    ensures
        exists|i: int| 0 <= i < ordered.len() && (#[trigger] ordered[i]).1 == k,
{
    broadcast use vstd::seq_lib::group_to_multiset_ensures;

    let keys = order_keys(latest);
    let key = keys[k];
    assert(keys.contains(key));
    assert(keys.to_multiset().count(key) > 0);
    assert(ordered.contains(key));
    let i = ordered.index_of(key);
    assert(ordered[i].1 == k);
}

/// Whether a path was visited, and its latest step has the given place.
pub open spec fn visited_at(
    entries: Seq<HistoryEntryView>,
    path: ProjectPathView,
    fs_path: Option<Seq<ComponentView>>,
) -> bool {
    exists|k: int| #[trigger]
        is_latest_step(entries, k) && entries[k].project_path == path && entries[k].fs_path
            == fs_path
}

/// The steps that are told of, as `law_recent_paths` says.
proof fn lemma_recent_entries(entries: Seq<HistoryEntryView>, ordered: Seq<(usize, usize)>)
    requires
        entries.len() <= usize::MAX,
        sorted_stably(order_keys(latest_entries(entries)), ordered),
    ensures
        forall|i: int|
            0 <= i < recent_entries(entries, ordered).len() ==> {
                let entry = #[trigger] recent_entries(entries, ordered)[i];
                &&& is_current(entries, entry)
                &&& is_latest_entry(entries, entry)
            },
        forall|k: int| #[trigger]
            is_latest_step(entries, k) && is_current(entries, entries[k]) ==> recent_entries(
                entries,
                ordered,
            ).contains(entries[k]),
{
    let latest = latest_entries(entries);
    let list = Seq::new(
        ordered.len(),
        |i: int| latest[ordered[ordered.len() - 1 - i].1 as int],
    );
    let recent = recent_entries(entries, ordered);
    law_latest_entries(entries);
    lemma_current_entries(entries, list);
    lemma_current_complete(entries, list);
    assert forall|i: int| 0 <= i < recent.len() implies ({
        let entry = #[trigger] recent[i];
        &&& is_current(entries, entry)
        &&& is_latest_entry(entries, entry)
    }) by {
        assert(list.contains(recent[i]));
        let p = list.index_of(recent[i]);
        lemma_ordered_places(latest, ordered, ordered.len() - 1 - p);
        let q = ordered[ordered.len() - 1 - p].1 as int;
        assert(latest[q] == recent[i]);
        lemma_latest_steps(entries, q);
    }
    assert forall|k: int| #[trigger]
        is_latest_step(entries, k) && is_current(entries, entries[k]) implies recent.contains(
        entries[k],
    ) by {
        assert(has_later(latest, entries[k].project_path, entries[k].timestamp));
        let q = choose|q: int|
            0 <= q < latest.len() && (#[trigger] latest[q]).project_path == entries[k].project_path
                && latest[q].timestamp >= entries[k].timestamp;
        lemma_latest_steps(entries, q);
        let m = choose|m: int| #[trigger] is_latest_step(entries, m) && entries[m] == latest[q];
        assert(entries[m].project_path == entries[k].project_path);
        assert(m == k);
        lemma_ordered_complete(latest, ordered, q);
        let i = choose|i: int| 0 <= i < ordered.len() && (#[trigger] ordered[i]).1 == q;
        assert(list[ordered.len() - 1 - i] == latest[q]);
    }
}

/// What is told of the paths that were visited of late:
///
/// - Each was visited, and is told of with the place of the latest step to it.
/// - None is told of twice, and one before another was visited last no earlier than it.
/// - The place of none was visited in a newer worktree.
/// - There are at most as many as the limit says. Where there are fewer, every path is told of
///   whose latest step has no place, and every one whose place was visited in no other path of
///   a worktree that is as new.
pub proof fn law_recent_paths(
    entries: Seq<HistoryEntryView>,
    limit: Option<usize>,
    recent: Seq<(ProjectPath, Option<PathBuf>)>,
)
    requires
        entries.len() <= usize::MAX,
        are_recent(entries, limit, recent),
    ensures
        forall|i: int|
            0 <= i < recent.len() ==> visited_at(
                entries,
                (#[trigger] recent[i]).0@,
                path_view(recent[i].1),
            ),
        forall|i: int, j: int|
            0 <= i < j < recent.len() ==> (#[trigger] recent[i]).0@ != (#[trigger] recent[j]).0@,
        forall|i: int, j: int, a: int, b: int|
            0 <= i < j < recent.len() && is_latest_step(entries, a) && is_latest_step(entries, b)
                && (#[trigger] entries[a]).project_path == (#[trigger] recent[i]).0@ && (
            #[trigger] entries[b]).project_path == (#[trigger] recent[j]).0@
                ==> entries[a].timestamp >= entries[b].timestamp,
        forall|i: int, k: int|
            0 <= i < recent.len() && 0 <= k < entries.len() && (#[trigger] entries[k]).fs_path is Some
                && entries[k].fs_path == path_view((#[trigger] recent[i]).1)
                ==> entries[k].project_path.worktree_id <= recent[i].0@.worktree_id,
        limit matches Some(limit) ==> recent.len() <= limit,
        limit != Some(recent.len() as usize) ==> forall|k: int| #[trigger]
            is_latest_step(entries, k) && (entries[k].fs_path is None || forall|j: int|
                0 <= j < entries.len() && (#[trigger] entries[j]).fs_path == entries[k].fs_path
                    ==> entries[j].project_path == entries[k].project_path
                    || entries[j].project_path.worktree_id < entries[k].project_path.worktree_id)
                ==> exists|i: int|
                0 <= i < recent.len() && (#[trigger] recent[i]).0@ == entries[k].project_path
                    && path_view(recent[i].1) == entries[k].fs_path,
{
    let ordered = choose|ordered: Seq<(usize, usize)>| #[trigger]
        sorted_stably(order_keys(latest_entries(entries)), ordered) && visited_views(recent)
            == limited(recent_entries(entries, ordered), limit).map_values(
            |e: HistoryEntryView| visited(e),
        );
    let whole = recent_entries(entries, ordered);
    let list = limited(whole, limit);
    law_recent_entries(entries, ordered);
    lemma_recent_entries(entries, ordered);
    assert(visited_views(recent).len() == recent.len());
    assert forall|i: int| 0 <= i < recent.len() implies (#[trigger] recent[i]).0@
        == list[i].project_path && path_view(recent[i].1) == list[i].fs_path && list[i]
        == whole[i] by {
        assert(visited_views(recent)[i] == visited(list[i]));
    }
    assert forall|i: int| 0 <= i < recent.len() implies visited_at(
        entries,
        (#[trigger] recent[i]).0@,
        path_view(recent[i].1),
    ) by {
        let k = choose|k: int| #[trigger] is_latest_step(entries, k) && entries[k] == whole[i];
        assert(is_latest_step(entries, k));
    }
    assert forall|i: int, j: int, a: int, b: int|
        0 <= i < j < recent.len() && is_latest_step(entries, a) && is_latest_step(entries, b) && (
        #[trigger] entries[a]).project_path == (#[trigger] recent[i]).0@ && (
        #[trigger] entries[b]).project_path == (
        #[trigger] recent[j]).0@ implies entries[a].timestamp >= entries[b].timestamp by {
        let k = choose|k: int| #[trigger] is_latest_step(entries, k) && entries[k] == whole[i];
        let m = choose|m: int| #[trigger] is_latest_step(entries, m) && entries[m] == whole[j];
        assert(entries[k].project_path == entries[a].project_path);
        assert(k == a);
        assert(entries[m].project_path == entries[b].project_path);
        assert(m == b);
    }
    assert forall|i: int, k: int|
        0 <= i < recent.len() && 0 <= k < entries.len() && (#[trigger] entries[k]).fs_path is Some
            && entries[k].fs_path == path_view(
            (#[trigger] recent[i]).1,
        ) implies entries[k].project_path.worktree_id <= recent[i].0@.worktree_id by {
        lemma_newest_path(entries, entries[k].fs_path->0);
        assert(is_current(entries, whole[i]));
    }
    if limit != Some(recent.len() as usize) {
        assert(list == whole);
        assert forall|k: int| #[trigger]
            is_latest_step(entries, k) && (entries[k].fs_path is None || forall|j: int|
                0 <= j < entries.len() && (#[trigger] entries[j]).fs_path == entries[k].fs_path
                    ==> entries[j].project_path == entries[k].project_path
                    || entries[j].project_path.worktree_id
                    < entries[k].project_path.worktree_id) implies exists|i: int|
            0 <= i < recent.len() && (#[trigger] recent[i]).0@ == entries[k].project_path
                && path_view(recent[i].1) == entries[k].fs_path by {
            if let Some(fs_path) = entries[k].fs_path {
                lemma_newest_path(entries, fs_path);
            }
            assert(is_current(entries, entries[k]));
            assert(whole.contains(entries[k]));
            let i = whole.index_of(entries[k]);
            assert(recent[i].0@ == whole[i].project_path);
        }
    }
}

/// A limit only cuts the list short: what is told of with a limit is the start of what is told
/// of without one.
pub proof fn law_limit_cuts_short(
    entries: Seq<HistoryEntryView>,
    limit: usize,
    recent: Seq<(ProjectPath, Option<PathBuf>)>,
    all: Seq<(ProjectPath, Option<PathBuf>)>,
)
    requires
        are_recent(entries, Some(limit), recent),
        are_recent(entries, None, all),
    ensures
        recent.len() == (if limit < all.len() {
            limit as nat
        } else {
            all.len()
        }),
        forall|i: int|
            0 <= i < recent.len() ==> (#[trigger] recent[i]).0@ == all[i].0@ && path_view(
                recent[i].1,
            ) == path_view(all[i].1),
{
    let keys = order_keys(latest_entries(entries));
    let f = |e: HistoryEntryView| visited(e);
    let a = choose|ordered: Seq<(usize, usize)>| #[trigger]
        sorted_stably(keys, ordered) && visited_views(recent) == limited(
            recent_entries(entries, ordered),
            Some(limit),
        ).map_values(f);
    let b = choose|ordered: Seq<(usize, usize)>| #[trigger]
        sorted_stably(keys, ordered) && visited_views(all) == limited(
            recent_entries(entries, ordered),
            None,
        ).map_values(f);
    law_one_stable_order(keys, a, b);
    assert(visited_views(recent).len() == recent.len());
    assert(visited_views(all).len() == all.len());
    assert forall|i: int| 0 <= i < recent.len() implies (#[trigger] recent[i]).0@ == all[i].0@
        && path_view(recent[i].1) == path_view(all[i].1) by {
        assert(visited_views(recent)[i] == visited_views(all)[i]);
    }
}

proof fn lemma_history_of(cx: ContextView, panes: Seq<u64>, entry: HistoryEntryView)
    ensures
        history_of(cx, panes).contains(entry) <==> exists|i: int|
            0 <= i < panes.len() && (cx.pane(#[trigger] panes[i]) matches Some(pane)
                && pane.history.contains(entry)),
    decreases panes.len(),
{
    if panes.len() > 0 {
        let init = panes.drop_last();
        let before = history_of(cx, init);
        let n = panes.len() - 1;
        lemma_history_of(cx, init, entry);
        let own = match cx.pane(panes.last()) {
            Some(pane) => pane.history,
            None => Seq::empty(),
        };
        let whole = history_of(cx, panes);
        assert(whole == before + own);
        if whole.contains(entry) {
            let k = whole.index_of(entry);
            if k < before.len() {
                assert(before[k] == entry);
                let i = choose|i: int|
                    0 <= i < init.len() && (cx.pane(#[trigger] init[i]) matches Some(pane)
                        && pane.history.contains(entry));
                assert(panes[i] == init[i]);
            } else {
                assert(own[k - before.len()] == entry);
                assert(panes[n] == panes.last());
            }
        }
        if exists|i: int|
            0 <= i < panes.len() && (cx.pane(#[trigger] panes[i]) matches Some(pane)
                && pane.history.contains(entry)) {
            let i = choose|i: int|
                0 <= i < panes.len() && (cx.pane(#[trigger] panes[i]) matches Some(pane)
                    && pane.history.contains(entry));
            if i < n {
                assert(init[i] == panes[i]);
                assert(before.contains(entry));
                let k = before.index_of(entry);
                assert(whole[k] == entry);
            } else {
                let k = own.index_of(entry);
                assert(whole[before.len() + k] == entry);
            }
        }
    } else {
        assert(!history_of(cx, panes).contains(entry));
    }
}

/// The steps that are looked at are those of the histories of all panes of the workspace.
pub proof fn law_history_of_all_panes(cx: ContextView, panes: Seq<u64>, entry: HistoryEntryView)
    ensures
        history_of(cx, panes).contains(entry) <==> exists|i: int|
            0 <= i < panes.len() && (cx.pane(#[trigger] panes[i]) matches Some(pane)
                && pane.history.contains(entry)),
{
    lemma_history_of(cx, panes, entry);
}

} // verus!
