//! Looking for a window that shows a certain project.

use crate::error::Error;
use vstd::prelude::*;

verus! {

/// A window of the application, and whether it shows a workspace.
#[derive(Clone, Copy, Debug, PartialEq, Eq, Structural)]
pub struct SearchedWindow {
    pub window: u64,
    pub is_workspace: bool,
}

/// What the search does next.
#[derive(Clone, Copy, Debug, PartialEq, Eq, Structural)]
pub enum SearchAction {
    /// Asks whether the project of the window is the one that is looked for.
    Ask(u64),
    /// Brings the window to the front. It is the one that is looked for, and the search is over.
    Activate(u64),
    /// No window is the one that is looked for, and the search is over.
    NotFound,
}

/// A search among windows. Those before `place` are not looked at any more; if the search has
/// found a window it is the one at `place`.
#[derive(Debug)]
pub struct WorkspaceSearch {
    windows: Vec<SearchedWindow>,
    place: usize,
    found: bool,
}

pub struct WorkspaceSearchView {
    pub windows: Seq<SearchedWindow>,
    pub place: int,
    pub found: bool,
}

/// The first place, from `i` on, of a window that shows a workspace.
pub open spec fn workspace_from(windows: Seq<SearchedWindow>, i: int) -> int
    decreases windows.len() - i,
{
    if i < 0 || i >= windows.len() {
        windows.len() as int
    } else if windows[i].is_workspace {
        i
    } else {
        workspace_from(windows, i + 1)
    }
}

impl WorkspaceSearchView {
    pub open spec fn well_formed(self) -> bool {
        &&& 0 <= self.place <= self.windows.len()
        &&& self.found ==> self.place < self.windows.len()
    }

    pub open spec fn next(self) -> SearchAction {
        if self.found {
            SearchAction::Activate(self.windows[self.place].window)
        } else {
            let place = workspace_from(self.windows, self.place);
            if place < self.windows.len() {
                SearchAction::Ask(self.windows[place].window)
            } else {
                SearchAction::NotFound
            }
        }
    }

    /// The window that was asked about is the one, or the search goes on behind it. One that
    /// gave no answer is not the one.
    pub open spec fn answered(self, answer: Result<bool, Error>) -> WorkspaceSearchView {
        let place = workspace_from(self.windows, self.place);
        if answer == Ok::<bool, Error>(true) {
            WorkspaceSearchView { place, found: true, ..self }
        } else {
            WorkspaceSearchView { place: place + 1, ..self }
        }
    }
}

pub open spec fn start_of_search(windows: Seq<SearchedWindow>) -> WorkspaceSearchView {
    WorkspaceSearchView { windows, place: 0, found: false }
}

impl View for WorkspaceSearch {
    type V = WorkspaceSearchView;

    closed spec fn view(&self) -> WorkspaceSearchView {
        WorkspaceSearchView {
            windows: self.windows@,
            place: self.place as int,
            found: self.found,
        }
    }
}

/// Starts to look for the window whose project is the one that is looked for.
pub fn activate_workspace_for_project(windows: Vec<SearchedWindow>) -> (search: WorkspaceSearch)
    ensures
        search@ == start_of_search(windows@),
        search@.well_formed(),
{
    WorkspaceSearch { windows, place: 0, found: false }
}

impl WorkspaceSearch {
    fn find_workspace(&self) -> (place: usize)
        requires
            self@.well_formed(),
        ensures
            place == workspace_from(self@.windows, self@.place),
            place <= self.windows.len(),
    {
        let mut place: usize = self.place;
        while place < self.windows.len()
            invariant
                place <= self.windows@.len(),
                workspace_from(self@.windows, self@.place) == workspace_from(
                    self@.windows,
                    place as int,
                ),
            decreases self.windows.len() - place,
        {
            if self.windows[place].is_workspace {
                return place;
            }
            place += 1;
        }
        place
    }

    /// What the search does next. A window that shows no workspace is not asked about, nor is
    /// any behind the one that is found.
    pub fn next(&self) -> (action: SearchAction)
        requires
            self@.well_formed(),
        ensures
            action == self@.next(),
    {
        if self.found {
            SearchAction::Activate(self.windows[self.place].window)
        } else {
            let place = self.find_workspace();
            if place < self.windows.len() {
                SearchAction::Ask(self.windows[place].window)
            } else {
                SearchAction::NotFound
            }
        }
    }

    /// Takes the answer of the window that was asked about.
    pub fn answered(&mut self, answer: Result<bool, Error>)
        requires
            old(self)@.well_formed(),
            old(self)@.next() is Ask,
        ensures
            final(self)@ == old(self)@.answered(answer),
            final(self)@.well_formed(),
    {
        let place = self.find_workspace();
        match answer {
            Ok(matches) if matches => {
                self.place = place;
                self.found = true;
            },
            _ => {
                self.place = place + 1;
            },
        }
    }
}

/// The places at which windows are asked about from here on, and where the search ends, if the
/// window at each place gives the answer for that place.
pub open spec fn search_run(
    s: WorkspaceSearchView,
    answers: spec_fn(int) -> Result<bool, Error>,
) -> (Seq<int>, WorkspaceSearchView)
    decreases
            if s.found {
                0
            } else {
                1 + s.windows.len() - s.place
            },
{
    let place = workspace_from(s.windows, s.place);
    if !s.well_formed() || s.found || place < s.place || place >= s.windows.len() {
        (Seq::empty(), s)
    } else {
        let (asked, end) = search_run(s.answered(answers(place)), answers);
        (seq![place] + asked, end)
    }
}

/// The places, from `i` on and before `end`, of the windows that show a workspace.
pub open spec fn workspaces_between(windows: Seq<SearchedWindow>, i: int, end: int) -> Seq<int>
    decreases end - i,
{
    if i >= end {
        Seq::empty()
    } else if windows[i].is_workspace {
        seq![i] + workspaces_between(windows, i + 1, end)
    } else {
        workspaces_between(windows, i + 1, end)
    }
}

/// The first place, from `i` on, of a window that shows a workspace and answers that it is the
/// one.
pub open spec fn first_match(
    windows: Seq<SearchedWindow>,
    answers: spec_fn(int) -> Result<bool, Error>,
    i: int,
) -> Option<int>
    decreases windows.len() - i,
{
    if i < 0 || i >= windows.len() {
        None
    } else if windows[i].is_workspace && answers(i) == Ok::<bool, Error>(true) {
        Some(i)
    } else {
        first_match(windows, answers, i + 1)
    }
}

proof fn lemma_search_run(s: WorkspaceSearchView, answers: spec_fn(int) -> Result<bool, Error>)
    requires
        s.well_formed(),
        !s.found,
    ensures
        match first_match(s.windows, answers, s.place) {
            Some(i) => {
                &&& s.place <= i < s.windows.len()
                &&& search_run(s, answers).1.next() == SearchAction::Activate(s.windows[i].window)
                &&& search_run(s, answers).0 == workspaces_between(s.windows, s.place, i + 1)
            },
            None => {
                &&& search_run(s, answers).1.next() == SearchAction::NotFound
                &&& search_run(s, answers).0 == workspaces_between(
                    s.windows,
                    s.place,
                    s.windows.len() as int,
                )
            },
        },
    decreases s.windows.len() - s.place,
{
    if s.place < s.windows.len() {
        let windows = s.windows;
        let behind = WorkspaceSearchView { place: s.place + 1, ..s };
        lemma_search_run(behind, answers);
        if windows[s.place].is_workspace {
            if answers(s.place) == Ok::<bool, Error>(true) {
                reveal_with_fuel(workspaces_between, 2);
                reveal_with_fuel(search_run, 2);
                assert(search_run(s, answers).0 =~= seq![s.place]);
                assert(workspaces_between(windows, s.place, s.place + 1) =~= seq![s.place]);
            }
        } else {
            lemma_workspace_from(windows, s.place + 1);
            let place = workspace_from(windows, s.place);
            if place < windows.len() {
                assert(s.answered(answers(place)) == behind.answered(answers(place)));
            }
        }
    }
}

proof fn lemma_workspace_from(windows: Seq<SearchedWindow>, i: int)
    requires
        0 <= i <= windows.len(),
    ensures
        i <= workspace_from(windows, i) <= windows.len(),
    decreases windows.len() - i,
{
    if i < windows.len() {
        lemma_workspace_from(windows, i + 1);
    }
}

/// The search ends with the first window that shows a workspace and answers that it is the
/// one, or finds none if none does. The windows that are asked are those that show a workspace,
/// in order and each once, up to and with the one that is found: none behind it is asked.
pub proof fn law_search_stops_at_the_first(
    windows: Seq<SearchedWindow>,
    answers: spec_fn(int) -> Result<bool, Error>,
)
    ensures
        match first_match(windows, answers, 0) {
            Some(i) => {
                &&& search_run(start_of_search(windows), answers).1.next()
                    == SearchAction::Activate(windows[i].window)
                &&& search_run(start_of_search(windows), answers).0 == workspaces_between(
                    windows,
                    0,
                    i + 1,
                )
            },
            None => {
                &&& search_run(start_of_search(windows), answers).1.next()
                    == SearchAction::NotFound
                &&& search_run(start_of_search(windows), answers).0 == workspaces_between(
                    windows,
                    0,
                    windows.len() as int,
                )
            },
        },
{
    lemma_search_run(start_of_search(windows), answers);
}

} // verus!
