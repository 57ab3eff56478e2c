//! Opening paths, in a window that is there or in a new one.

use crate::context::{index_view, Context, ContextView, Effect, EffectView};
use crate::error::Error;
use crate::load::{optional_paths, path_of_item};
use crate::path::{
    copy_project_path, path_views, project_path_view, sort_paths, sorted, ComponentView, PathBuf,
    ProjectPath, ProjectPathView,
};
use crate::serialized::{WindowBounds, WorkspaceId};
use crate::workspace::{state, Workspace};
use vstd::prelude::*;

verus! {

/// What became of a path: nothing was opened for it, or an item was, or could not be.
pub type OpenedItem = Option<Result<u64, Error>>;

/// A path to open, and where it lies in the project, if it does.
#[derive(Debug, PartialEq, Eq)]
pub struct PathToOpen {
    pub abs_path: PathBuf,
    pub project_path: Option<ProjectPath>,
}

#[verifier::ext_equal]
pub struct PathToOpenView {
    pub abs_path: Seq<ComponentView>,
    pub project_path: Option<ProjectPathView>,
}

impl View for PathToOpen {
    type V = PathToOpenView;

    open spec fn view(&self) -> PathToOpenView {
        PathToOpenView {
            abs_path: self.abs_path@,
            project_path: project_path_view(self.project_path),
        }
    }
}

/// The views of a list of paths to open.
pub open spec fn to_open_views(paths: Seq<PathToOpen>) -> Seq<PathToOpenView> {
    paths.map_values(|p: PathToOpen| p@)
}

/// Whether one of the restored items shows the path.
pub open spec fn restored_at(cx: ContextView, restored: Seq<Option<u64>>, path: ProjectPathView) -> bool {
    exists|i: int|
        0 <= i < restored.len() && #[trigger] restored[i] is Some && path_of_item(
            cx,
            restored[i]->0,
        ) == Some(path)
}

/// The path without its place in the project, if an item was restored for that.
pub open spec fn still_to_open(cx: ContextView, restored: Seq<Option<u64>>, path: PathToOpenView) -> PathToOpenView {
    match path.project_path {
        Some(project_path) if restored_at(cx, restored, project_path) => PathToOpenView {
            project_path: None,
            ..path
        },
        _ => path,
    }
}

/// What is opened at first: the items that were restored.
pub open spec fn opened_at_first(restored: Option<Seq<Option<u64>>>, n: nat) -> Seq<OpenedItem> {
    match restored {
        Some(restored) => restored.map_values(
            |item: Option<u64>|
                match item {
                    Some(item) => Some(Ok(item)),
                    None => None,
                },
        ),
        None => Seq::new(n, |i: int| None),
    }
}

/// What is opened in the end: for each path what came of opening it, else what was there.
pub open spec fn opened_at_last(opened: Seq<OpenedItem>, results: Seq<OpenedItem>) -> Seq<OpenedItem> {
    Seq::new(
        opened.len(),
        |i: int|
            if results[i] is Some {
                results[i]
            } else {
                opened[i]
            },
    )
}

pub open spec fn restored_view(restored: Option<Vec<Option<u64>>>) -> Option<Seq<Option<u64>>> {
    match restored {
        Some(restored) => Some(restored@),
        None => None,
    }
}

/// What to do about a path.
#[derive(Debug, PartialEq, Eq)]
pub enum OpenTarget {
    /// Nothing.
    Nothing,
    /// Open the file.
    File(ProjectPath),
    /// Show the root of the worktree as the active entry.
    RootEntry,
    /// Show the entry at a path below the root of the worktree as the active entry.
    EntryAt(PathBuf),
}

#[verifier::ext_equal]
pub enum OpenTargetView {
    Nothing,
    File(ProjectPathView),
    RootEntry,
    EntryAt(Seq<ComponentView>),
}

impl View for OpenTarget {
    type V = OpenTargetView;

    open spec fn view(&self) -> OpenTargetView {
        match *self {
            OpenTarget::Nothing => OpenTargetView::Nothing,
            OpenTarget::File(path) => OpenTargetView::File(path@),
            OpenTarget::RootEntry => OpenTargetView::RootEntry,
            OpenTarget::EntryAt(path) => OpenTargetView::EntryAt(path@),
        }
    }
}

/// What to do about a path that may lie in a worktree: a file is opened, and a directory
/// becomes the active entry.
pub open spec fn open_target(
    abs_path: Seq<ComponentView>,
    project_path: Option<ProjectPathView>,
    worktree_abs_path: Seq<ComponentView>,
    is_file: bool,
) -> OpenTargetView {
    match project_path {
        None => OpenTargetView::Nothing,
        Some(path) => if is_file {
            OpenTargetView::File(path)
        } else if abs_path == worktree_abs_path {
            OpenTargetView::RootEntry
        } else if worktree_abs_path.is_prefix_of(abs_path) {
            OpenTargetView::EntryAt(abs_path.skip(worktree_abs_path.len() as int))
        } else {
            OpenTargetView::Nothing
        },
    }
}

/// Decides what to do about a path.
pub fn choose_open_target(
    abs_path: &PathBuf,
    project_path: Option<ProjectPath>,
    worktree_abs_path: &PathBuf,
    is_file: bool,
) -> (target: OpenTarget)
    ensures
        target@ == open_target(
            abs_path@,
            project_path_view(project_path),
            worktree_abs_path@,
            is_file,
        ),
{
    match project_path {
        None => OpenTarget::Nothing,
        Some(path) => {
            if is_file {
                OpenTarget::File(path)
            } else if abs_path.same(worktree_abs_path) {
                OpenTarget::RootEntry
            } else {
                match abs_path.strip_prefix(worktree_abs_path) {
                    Some(relative_path) => OpenTarget::EntryAt(relative_path),
                    None => OpenTarget::Nothing,
                }
            }
        },
    }
}

/// Where a path was found: its place in the project, and the root of the worktree there.
pub struct FoundPath {
    pub project_path: ProjectPath,
    pub worktree_abs_path: PathBuf,
}

#[verifier::ext_equal]
pub struct FoundPathView {
    pub project_path: ProjectPathView,
    pub worktree_abs_path: Seq<ComponentView>,
}

impl View for FoundPath {
    type V = FoundPathView;

    open spec fn view(&self) -> FoundPathView {
        FoundPathView {
            project_path: self.project_path@,
            worktree_abs_path: self.worktree_abs_path@,
        }
    }
}

/// The next thing to do about a path that is opened.
pub enum OpeningAction {
    /// Find or create a worktree for the path.
    FindPath,
    /// See whether the path is that of a file.
    CheckFile,
    /// Do about the path what it is there for.
    Open(OpenTarget),
    /// This became of the path.
    Done(OpenedItem),
}

#[verifier::ext_equal]
pub enum OpeningActionView {
    FindPath,
    CheckFile,
    Open(OpenTargetView),
    Done(OpenedItem),
}

impl View for OpeningAction {
    type V = OpeningActionView;

    open spec fn view(&self) -> OpeningActionView {
        match *self {
            OpeningAction::FindPath => OpeningActionView::FindPath,
            OpeningAction::CheckFile => OpeningActionView::CheckFile,
            OpeningAction::Open(target) => OpeningActionView::Open(target@),
            OpeningAction::Done(item) => OpeningActionView::Done(item),
        }
    }
}

/// How far the opening of a path has come: where it was found, once it was looked for, whether
/// it is a file, and what became of it.
pub struct OpeningPath {
    pub abs_path: PathBuf,
    pub found: Option<Option<FoundPath>>,
    pub is_file: Option<bool>,
    pub opened: Option<OpenedItem>,
}

#[verifier::ext_equal]
pub struct OpeningPathView {
    pub abs_path: Seq<ComponentView>,
    pub found: Option<Option<FoundPathView>>,
    pub is_file: Option<bool>,
    pub opened: Option<OpenedItem>,
}

pub open spec fn found_view(found: Option<FoundPath>) -> Option<FoundPathView> {
    match found {
        Some(found) => Some(found@),
        None => None,
    }
}

impl View for OpeningPath {
    type V = OpeningPathView;

    open spec fn view(&self) -> OpeningPathView {
        OpeningPathView {
            abs_path: self.abs_path@,
            found: match self.found {
                Some(found) => Some(found_view(found)),
                None => None,
            },
            is_file: self.is_file,
            opened: self.opened,
        }
    }
}

impl OpeningPathView {
    /// The next thing to do: find the path, see whether it is a file, and then what it is
    /// there for. Nothing becomes of a path that is not found.
    pub open spec fn next(self) -> OpeningActionView {
        match (self.opened, self.found, self.is_file) {
            (Some(item), _, _) => OpeningActionView::Done(item),
            (None, None, _) => OpeningActionView::FindPath,
            (None, Some(None), _) => OpeningActionView::Done(None),
            (None, Some(Some(_)), None) => OpeningActionView::CheckFile,
            (None, Some(Some(found)), Some(is_file)) => {
                let target = open_target(
                    self.abs_path,
                    Some(found.project_path),
                    found.worktree_abs_path,
                    is_file,
                );
                if target is Nothing {
                    OpeningActionView::Done(None)
                } else {
                    OpeningActionView::Open(target)
                }
            },
        }
    }
}

impl OpeningPath {
    /// Starts to open a path.
    pub fn new(abs_path: PathBuf) -> (opening: OpeningPath)
        ensures
            opening@ == (OpeningPathView {
                abs_path: abs_path@,
                found: None,
                is_file: None,
                opened: None,
            }),
    {
        OpeningPath { abs_path, found: None, is_file: None, opened: None }
    }

    /// The next thing to do.
    pub fn next(&self) -> (action: OpeningAction)
        ensures
            action@ == self@.next(),
    {
        if let Some(item) = self.opened {
            return OpeningAction::Done(item);
        }
        match &self.found {
            None => OpeningAction::FindPath,
            Some(None) => OpeningAction::Done(None),
            Some(Some(found)) => match self.is_file {
                None => OpeningAction::CheckFile,
                Some(is_file) => {
                    let target = choose_open_target(
                        &self.abs_path,
                        Some(found.project_path.clone()),
                        &found.worktree_abs_path,
                        is_file,
                    );
                    match target {
                        OpenTarget::Nothing => OpeningAction::Done(None),
                        target => OpeningAction::Open(target),
                    }
                },
            },
        }
    }

    /// The path was looked for.
    pub fn looked_for(&mut self, found: Option<FoundPath>)
        ensures
            final(self)@ == (OpeningPathView { found: Some(found_view(found)), ..old(self)@ }),
    {
        self.found = Some(found);
    }

    /// It was seen whether the path is that of a file.
    pub fn file_checked(&mut self, is_file: bool)
        ensures
            final(self)@ == (OpeningPathView { is_file: Some(is_file), ..old(self)@ }),
    {
        self.is_file = Some(is_file);
    }

    /// What the path is there for was done. If it was opened, this came of it.
    pub fn done(&mut self, opened: OpenedItem)
        ensures
            final(self)@ == (OpeningPathView { opened: Some(opened), ..old(self)@ }),
    {
        self.opened = Some(opened);
    }
}

/// Only a file that was found in the project is opened, and no directory.
pub proof fn law_only_files_are_opened(opening: OpeningPathView)
    requires
        opening.next() matches OpeningActionView::Open(target) && target is File,
    ensures
        opening.is_file == Some(true),
        opening.found matches Some(Some(found)) && opening.next() == OpeningActionView::Open(
            OpenTargetView::File(found.project_path),
        ),
{
}

/// A directory becomes the active entry of its worktree: the entry is the one at its path.
pub proof fn law_entry_is_at_the_path(opening: OpeningPathView)
    requires
        opening.next() matches OpeningActionView::Open(target) && target is EntryAt,
    ensures
        opening.found matches Some(Some(found)) && opening.next() matches OpeningActionView::Open(
            OpenTargetView::EntryAt(below),
        ) && found.worktree_abs_path + below == opening.abs_path,
{
    let found = opening.found->0->0;
    let root = found.worktree_abs_path;
    assert(root + opening.abs_path.skip(root.len() as int) =~= opening.abs_path);
}

/// The path in the project of a path that a worktree was found or created for.
pub fn project_path_for_path(found: Result<(u64, PathBuf), Error>) -> (path: Result<ProjectPath, Error>)
    ensures
        match (found, path) {
            (Ok((worktree_id, below)), Ok(path)) => path@ == (ProjectPathView {
                worktree_id,
                path: below@,
            }),
            (Err(found), Err(error)) => found == error,
            _ => false,
        },
{
    match found {
        Ok((worktree_id, path)) => Ok(ProjectPath { worktree_id, path }),
        Err(error) => Err(error),
    }
}

/// The places in the project of the paths to open.
pub fn project_paths(paths: &Vec<PathToOpen>) -> (project_paths: Vec<Option<ProjectPath>>)
    ensures
        optional_paths(project_paths@) == to_open_views(paths@).map_values(
            |p: PathToOpenView| p.project_path,
        ),
{
    let mut project_paths: Vec<Option<ProjectPath>> = Vec::new();
    let ghost expected = to_open_views(paths@).map_values(|p: PathToOpenView| p.project_path);
    let mut i: usize = 0;
    while i < paths.len()
        invariant
            i <= paths.len(),
            expected == to_open_views(paths@).map_values(|p: PathToOpenView| p.project_path),
            optional_paths(project_paths@) =~= expected.take(i as int),
        decreases paths.len() - i,
    {
        let path = copy_project_path(&paths[i].project_path);
        proof {
            assert(project_path_view(path) == expected[i as int]);
            assert(optional_paths(project_paths@.push(path)) =~= optional_paths(
                project_paths@,
            ).push(project_path_view(path)));
        }
        project_paths.push(path);
        i += 1;
    }
    project_paths
}

fn is_restored_at(restored: &Vec<Option<u64>>, path: &ProjectPath, cx: &Context) -> (found: bool)
    ensures
        found == restored_at(cx@, restored@, path@),
{
    let mut i: usize = 0;
    while i < restored.len()
        invariant
            i <= restored.len(),
            forall|j: int|
                0 <= j < i ==> !(#[trigger] restored@[j] is Some && path_of_item(
                    cx@,
                    restored@[j]->0,
                ) == Some(path@)),
        decreases restored.len() - i,
    {
        if let Some(id) = restored[i] {
            if let Some(item) = cx.item(id) {
                if let Some(item_path) = &item.project_path {
                    if item_path.same(path) {
                        assert(restored@[i as int] is Some);
                        return true;
                    }
                }
            }
        }
        i += 1;
    }
    false
}

/// What is opened at first when paths are opened: the items that were restored, if any were.
fn start_opening(restored: &Option<Vec<Option<u64>>>, paths: usize) -> (opened: Vec<OpenedItem>)
    requires
        restored matches Some(restored) ==> restored.len() == paths,
    ensures
        opened@ == opened_at_first(restored_view(*restored), paths as nat),
        opened.len() == paths,
{
    let mut opened: Vec<OpenedItem> = Vec::new();
    let mut i: usize = 0;
    let ghost expected = opened_at_first(restored_view(*restored), paths as nat);
    while i < paths
        invariant
            i <= paths,
            restored matches Some(restored) ==> restored.len() == paths,
            expected == opened_at_first(restored_view(*restored), paths as nat),
            expected.len() == paths,
            opened@ =~= expected.take(i as int),
        decreases paths - i,
    {
        let item: OpenedItem = match restored {
            Some(restored) => match restored[i] {
                Some(item) => Some(Ok(item)),
                None => None,
            },
            None => None,
        };
        proof {
            assert(item == expected[i as int]);
        }
        opened.push(item);
        i += 1;
    }
    opened
}

/// Leaves out what was restored from the paths to open.
fn skip_restored(paths: Vec<PathToOpen>, restored: &Option<Vec<Option<u64>>>, cx: &Context) -> (left: Vec<
    PathToOpen,
>)
    ensures
        to_open_views(left@) == (match restored_view(*restored) {
            Some(restored) => to_open_views(paths@).map_values(
                |p: PathToOpenView| still_to_open(cx@, restored, p),
            ),
            None => to_open_views(paths@),
        }),
{
    let restored = match restored {
        Some(restored) => restored,
        None => {
            return paths;
        },
    };
    let ghost expected = to_open_views(paths@).map_values(
        |p: PathToOpenView| still_to_open(cx@, restored@, p),
    );
    let ghost before = paths@;
    let mut paths = paths;
    let mut i: usize = 0;
    while i < paths.len()
        invariant
            i <= paths.len(),
            paths.len() == before.len(),
            expected == to_open_views(before).map_values(
                |p: PathToOpenView| still_to_open(cx@, restored@, p),
            ),
            forall|j: int| 0 <= j < i ==> (#[trigger] paths@[j])@ == expected[j],
            forall|j: int| i <= j < paths.len() ==> #[trigger] paths@[j] == before[j],
        decreases paths.len() - i,
    {
        proof {
            assert(to_open_views(before)[i as int] == before[i as int]@);
        }
        let found = match &paths[i].project_path {
            Some(path) => is_restored_at(restored, path, cx),
            None => false,
        };
        if found {
            paths[i].project_path = None;
        }
        i += 1;
    }
    assert(to_open_views(paths@) =~= expected);
    paths
}

/// Starts to open paths in a workspace that may have been restored: what is open at first, and
/// the paths that are still to be opened.
pub fn open_items(restored: &Option<Vec<Option<u64>>>, paths: Vec<PathToOpen>, cx: &Context) -> (start: (
    Vec<OpenedItem>,
    Vec<PathToOpen>,
))
    requires
        restored matches Some(restored) ==> restored.len() == paths.len(),
    ensures
        start.0@ == opened_at_first(restored_view(*restored), paths@.len()),
        start.0.len() == paths.len(),
        to_open_views(start.1@) == (match restored_view(*restored) {
            Some(restored) => to_open_views(paths@).map_values(
                |p: PathToOpenView| still_to_open(cx@, restored, p),
            ),
            None => to_open_views(paths@),
        }),
{
    let opened = start_opening(restored, paths.len());
    let left = skip_restored(paths, restored, cx);
    (opened, left)
}

/// The place in the project that a path is opened at: only a file is.
pub fn file_to_open(path: &PathToOpen, is_file: bool) -> (project_path: Option<ProjectPath>)
    ensures
        project_path_view(project_path) == (if is_file {
            path@.project_path
        } else {
            None
        }),
{
    if is_file {
        copy_project_path(&path.project_path)
    } else {
        None
    }
}

/// Notes what came of opening each path.
pub fn finish_opening(opened: Vec<OpenedItem>, results: &Vec<OpenedItem>) -> (all: Vec<OpenedItem>)
    requires
        results.len() == opened.len(),
    ensures
        all@ == opened_at_last(opened@, results@),
{
    let ghost before = opened@;
    let ghost expected = opened_at_last(before, results@);
    let mut opened = opened;
    let mut i: usize = 0;
    while i < opened.len()
        invariant
            i <= opened.len(),
            opened.len() == before.len(),
            results.len() == opened.len(),
            expected == opened_at_last(before, results@),
            forall|j: int| 0 <= j < i ==> #[trigger] opened@[j] == expected[j],
            forall|j: int| i <= j < opened.len() ==> #[trigger] opened@[j] == before[j],
        decreases opened.len() - i,
    {
        if results[i].is_some() {
            opened[i] = results[i];
        }
        i += 1;
    }
    assert(opened@ =~= expected);
    opened
}

/// Where a window is opened: with which bounds and on which display. Bounds that were stored
/// relative to a display are moved by the origin of the screen at the given place.
#[derive(Clone, Copy, Debug, PartialEq, Eq, Structural)]
pub struct Placement {
    pub bounds: Option<WindowBounds>,
    pub display: Option<u128>,
    pub screen: Option<usize>,
}

/// The place of a display in the list of screens, from `i` on.
pub open spec fn screen_place(screens: Seq<Option<u128>>, display: u128, i: int) -> Option<int>
    decreases screens.len() - i,
{
    if i < 0 || i >= screens.len() {
        None
    } else if screens[i] == Some(display) {
        Some(i)
    } else {
        screen_place(screens, display, i + 1)
    }
}

/// The place that was stored, as far as there is one and its screen is there.
pub open spec fn stored_placement(
    bounds: Option<WindowBounds>,
    display: Option<u128>,
    screens: Seq<Option<u128>>,
) -> Option<(WindowBounds, u128, Option<int>)> {
    match (bounds, display) {
        (Some(bounds), Some(display)) => if bounds is Fixed {
            match screen_place(screens, display, 0) {
                Some(screen) => Some((bounds, display, Some(screen))),
                None => None,
            }
        } else {
            Some((bounds, display, None))
        },
        _ => None,
    }
}

fn find_screen(screens: &Vec<Option<u128>>, display: u128) -> (screen: Option<usize>)
    ensures
        screen_place(screens@, display, 0) == index_view(screen),
{
    let mut i: usize = 0;
    while i < screens.len()
        invariant
            i <= screens.len(),
            screen_place(screens@, display, 0) == screen_place(screens@, display, i as int),
        decreases screens.len() - i,
    {
        if screens[i] == Some(display) {
            return Some(i);
        }
        i += 1;
    }
    None
}

/// Where a window is opened: at the given bounds if there are any, else where it was stored.
pub fn window_placement(
    window_bounds_override: Option<WindowBounds>,
    stored_bounds: Option<WindowBounds>,
    stored_display: Option<u128>,
    screens: &Vec<Option<u128>>,
) -> (placement: Placement)
    ensures
        match window_bounds_override {
            Some(bounds) => placement == (Placement {
                bounds: Some(bounds),
                display: None,
                screen: None,
            }),
            None => match stored_placement(stored_bounds, stored_display, screens@) {
                Some((bounds, display, screen)) => {
                    &&& placement.bounds == Some(bounds)
                    &&& placement.display == Some(display)
                    &&& index_view(placement.screen) == screen
                },
                None => placement == (Placement { bounds: None, display: None, screen: None }),
            },
        },
{
    let nowhere = Placement { bounds: None, display: None, screen: None };
    if window_bounds_override.is_some() {
        return Placement { bounds: window_bounds_override, ..nowhere };
    }
    let (bounds, display) = match (stored_bounds, stored_display) {
        (Some(bounds), Some(display)) => (bounds, display),
        _ => {
            return nowhere;
        },
    };
    match bounds {
        WindowBounds::Fixed { .. } => match find_screen(screens, display) {
            Some(screen) => Placement {
                bounds: Some(bounds),
                display: Some(display),
                screen: Some(screen),
            },
            None => nowhere,
        },
        _ => Placement { bounds: Some(bounds), display: Some(display), screen: None },
    }
}

/// The next thing to do when a workspace is opened in a new window.
#[derive(Clone, Copy, Debug, PartialEq, Eq, Structural)]
pub enum NewLocalAction {
    /// Find or create a worktree for the path at a place.
    FindPath(usize),
    /// Ask the store for a number that is free.
    NextId,
    /// Open a window with a workspace of this number.
    OpenWindow(WorkspaceId),
    /// Initialize the workspace.
    Initialize { window: u64, restoring: bool },
    /// Bring the window to the front.
    ActivateWindow(u64),
    /// Tell if the store could not be read.
    NotifyIfDatabaseFailed(u64),
    /// Open the paths that were found.
    OpenItems(u64),
    /// All is done in this window.
    Done(u64),
    /// It could not be done.
    Fail(Error),
}

/// How far the opening of a workspace in a new window has come.
pub struct NewLocal {
    pub paths: Vec<PathBuf>,
    pub stored_id: Option<WorkspaceId>,
    pub project_paths: Vec<PathToOpen>,
    pub workspace_id: Option<WorkspaceId>,
    pub window: Option<u64>,
    pub initialized: bool,
    pub activated: bool,
    pub database_checked: bool,
    pub opened_items: Option<Vec<OpenedItem>>,
    pub failure: Option<Error>,
}

#[verifier::ext_equal]
pub struct NewLocalView {
    pub paths: Seq<Seq<ComponentView>>,
    pub stored_id: Option<WorkspaceId>,
    pub project_paths: Seq<PathToOpenView>,
    pub workspace_id: Option<WorkspaceId>,
    pub window: Option<u64>,
    pub initialized: bool,
    pub activated: bool,
    pub database_checked: bool,
    pub opened_items: Option<Seq<OpenedItem>>,
    pub failure: Option<Error>,
}

pub open spec fn opened_view(opened: Option<Vec<OpenedItem>>) -> Option<Seq<OpenedItem>> {
    match opened {
        Some(opened) => Some(opened@),
        None => None,
    }
}

impl View for NewLocal {
    type V = NewLocalView;

    open spec fn view(&self) -> NewLocalView {
        NewLocalView {
            paths: path_views(self.paths@),
            stored_id: self.stored_id,
            project_paths: to_open_views(self.project_paths@),
            workspace_id: self.workspace_id,
            window: self.window,
            initialized: self.initialized,
            activated: self.activated,
            database_checked: self.database_checked,
            opened_items: opened_view(self.opened_items),
            failure: self.failure,
        }
    }
}

impl NewLocalView {
    /// No more paths have been found than were asked for, and each is the one asked for.
    pub open spec fn well_formed(self) -> bool {
        &&& self.project_paths.len() <= self.paths.len()
        &&& forall|i: int|
            0 <= i < self.project_paths.len() ==> (#[trigger] self.project_paths[i]).abs_path
                == self.paths[i]
    }

    pub open spec fn id(self) -> Option<WorkspaceId> {
        match self.stored_id {
            Some(id) => Some(id),
            None => self.workspace_id,
        }
    }

    /// The next thing to do: the paths in order, then the number, the window, and what
    /// happens in it.
    pub open spec fn next(self) -> NewLocalAction {
        match (self.failure, self.id(), self.window) {
            (Some(error), _, _) => NewLocalAction::Fail(error),
            _ if self.project_paths.len() < self.paths.len() => NewLocalAction::FindPath(
                self.project_paths.len() as usize,
            ),
            (_, None, _) => NewLocalAction::NextId,
            (_, Some(id), None) => NewLocalAction::OpenWindow(id),
            (_, _, Some(window)) => if !self.initialized {
                NewLocalAction::Initialize { window, restoring: self.stored_id is Some }
            } else if !self.activated {
                NewLocalAction::ActivateWindow(window)
            } else if !self.database_checked {
                NewLocalAction::NotifyIfDatabaseFailed(window)
            } else if self.opened_items is None {
                NewLocalAction::OpenItems(window)
            } else {
                NewLocalAction::Done(window)
            },
        }
    }
}

impl NewLocal {
    /// Starts to open paths in a new window, as the given stored workspace if there is one.
    pub fn new(abs_paths: Vec<PathBuf>, stored_id: Option<WorkspaceId>) -> (opening: NewLocal)
        ensures
            opening@ == (NewLocalView {
                paths: path_views(abs_paths@),
                stored_id,
                project_paths: Seq::empty(),
                workspace_id: None,
                window: None,
                initialized: false,
                activated: false,
                database_checked: false,
                opened_items: None,
                failure: None,
            }),
            opening@.well_formed(),
    {
        let opening = NewLocal {
            paths: abs_paths,
            stored_id,
            project_paths: Vec::new(),
            workspace_id: None,
            window: None,
            initialized: false,
            activated: false,
            database_checked: false,
            opened_items: None,
            failure: None,
        };
        assert(to_open_views(opening.project_paths@) =~= Seq::empty());
        opening
    }

    /// The next thing to do.
    pub fn next(&self) -> (action: NewLocalAction)
        ensures
            action == self@.next(),
    {
        if let Some(error) = self.failure {
            return NewLocalAction::Fail(error);
        }
        if self.project_paths.len() < self.paths.len() {
            return NewLocalAction::FindPath(self.project_paths.len());
        }
        let id = match self.stored_id {
            Some(id) => id,
            None => match self.workspace_id {
                Some(id) => id,
                None => {
                    return NewLocalAction::NextId;
                },
            },
        };
        let window = match self.window {
            Some(window) => window,
            None => {
                return NewLocalAction::OpenWindow(id);
            },
        };
        if !self.initialized {
            NewLocalAction::Initialize { window, restoring: self.stored_id.is_some() }
        } else if !self.activated {
            NewLocalAction::ActivateWindow(window)
        } else if !self.database_checked {
            NewLocalAction::NotifyIfDatabaseFailed(window)
        } else if self.opened_items.is_none() {
            NewLocalAction::OpenItems(window)
        } else {
            NewLocalAction::Done(window)
        }
    }

    /// A path was found in the project, or could not be. One that could not is kept, without
    /// a place in the project.
    pub fn path_found(&mut self, found: Result<ProjectPath, Error>)
        requires
            old(self)@.next() is FindPath,
        ensures
            final(self)@ == (NewLocalView {
                project_paths: old(self)@.project_paths.push(
                    PathToOpenView {
                        abs_path: old(self)@.paths[old(self)@.project_paths.len() as int],
                        project_path: match found {
                            Ok(path) => Some(path@),
                            Err(_) => None,
                        },
                    },
                ),
                ..old(self)@
            }),
            old(self)@.well_formed() ==> final(self)@.well_formed(),
    {
        let n: usize = self.project_paths.len();
        let abs_path = self.paths[n].clone();
        let project_path = match found {
            Ok(path) => Some(path),
            Err(_) => None,
        };
        let path = PathToOpen { abs_path, project_path };
        proof {
            assert(to_open_views(self.project_paths@.push(path)) =~= to_open_views(
                self.project_paths@,
            ).push(path@));
        }
        self.project_paths.push(path);
    }

    /// The store gave a number, or could not; then the workspace has the number zero.
    pub fn id_found(&mut self, next_id: Result<WorkspaceId, Error>)
        ensures
            final(self)@ == (NewLocalView {
                workspace_id: Some(
                    match next_id {
                        Ok(id) => id,
                        Err(_) => 0,
                    },
                ),
                ..old(self)@
            }),
            old(self)@.well_formed() ==> final(self)@.well_formed(),
    {
        let id: WorkspaceId = match next_id {
            Ok(id) => id,
            Err(_) => 0,
        };
        self.workspace_id = Some(id);
    }

    /// The window was opened, or could not be; then nothing more is done.
    pub fn window_opened(&mut self, window: Result<u64, Error>)
        ensures
            final(self)@ == (match window {
                Ok(window) => NewLocalView { window: Some(window), ..old(self)@ },
                Err(error) => NewLocalView { failure: Some(error), ..old(self)@ },
            }),
            old(self)@.well_formed() ==> final(self)@.well_formed(),
    {
        match window {
            Ok(window) => {
                self.window = Some(window);
            },
            Err(error) => {
                self.failure = Some(error);
            },
        }
    }

    /// The workspace is initialized, as far as it could be.
    pub fn initialized(&mut self)
        ensures
            final(self)@ == (NewLocalView { initialized: true, ..old(self)@ }),
            old(self)@.well_formed() ==> final(self)@.well_formed(),
    {
        self.initialized = true;
    }

    /// The window is in front, if it could be brought there.
    pub fn activated(&mut self)
        ensures
            final(self)@ == (NewLocalView { activated: true, ..old(self)@ }),
            old(self)@.well_formed() ==> final(self)@.well_formed(),
    {
        self.activated = true;
    }

    /// It was told whether the store could be read.
    pub fn database_checked(&mut self)
        ensures
            final(self)@ == (NewLocalView { database_checked: true, ..old(self)@ }),
            old(self)@.well_formed() ==> final(self)@.well_formed(),
    {
        self.database_checked = true;
    }

    /// The paths were opened, or could not be; then nothing is open.
    pub fn items_opened(&mut self, opened: Result<Vec<OpenedItem>, Error>)
        ensures
            final(self)@ == (NewLocalView {
                opened_items: Some(
                    match opened {
                        Ok(opened) => opened@,
                        Err(_) => Seq::empty(),
                    },
                ),
                ..old(self)@
            }),
            old(self)@.well_formed() ==> final(self)@.well_formed(),
    {
        self.opened_items = Some(
            match opened {
                Ok(opened) => opened,
                Err(_) => Vec::new(),
            },
        );
    }

    /// The window went away, or something else that cannot be done without.
    pub fn fail(&mut self, error: Error)
        ensures
            final(self)@ == (NewLocalView { failure: Some(error), ..old(self)@ }),
            old(self)@.well_formed() ==> final(self)@.well_formed(),
    {
        self.failure = Some(error);
    }
}

/// No window is opened before every path was looked for; then each path is to be opened in
/// its turn.
pub proof fn law_window_after_paths(opening: NewLocalView)
    requires
        opening.well_formed(),
        !(opening.next() is FindPath) && !(opening.next() is Fail),
    ensures
        opening.project_paths.map_values(|p: PathToOpenView| p.abs_path) == opening.paths,
{
    assert(opening.project_paths.map_values(|p: PathToOpenView| p.abs_path) =~= opening.paths);
}

/// What was opened has a place for each path, whatever was restored and whatever came of
/// opening the rest.
pub proof fn law_a_place_for_each_path(
    restored: Option<Seq<Option<u64>>>,
    results: Seq<OpenedItem>,
    n: nat,
)
    requires
        restored matches Some(restored) ==> restored.len() == n,
        results.len() == n,
    ensures
        opened_at_last(opened_at_first(restored, n), results).len() == n,
{
}

/// A path whose item was restored is not opened a second time.
pub proof fn law_restored_not_reopened(
    cx: ContextView,
    restored: Seq<Option<u64>>,
    i: int,
    path: PathToOpenView,
)
    requires
        0 <= i < restored.len(),
        restored[i] matches Some(item) && path_of_item(cx, item) is Some && path_of_item(cx, item)
            == path.project_path,
    ensures
        still_to_open(cx, restored, path).project_path is None,
{
    assert(restored[i] is Some);
}

/// Where paths are opened.
#[derive(Clone, Copy, Debug, PartialEq, Eq, Structural)]
pub enum OpenPaths {
    /// In a window that shows their project already.
    InWindow(u64),
    /// In a new window.
    InNewWindow,
}

/// Decides where paths are opened: in the window that was found to have them, if one was.
pub fn open_paths(existing: Option<u64>) -> (plan: OpenPaths)
    ensures
        plan == (match existing {
            Some(window) => OpenPaths::InWindow(window),
            None => OpenPaths::InNewWindow,
        }),
{
    match existing {
        Some(window) => OpenPaths::InWindow(window),
        None => OpenPaths::InNewWindow,
    }
}

/// Whether a new workspace is filled with something to begin with: it could be opened, and
/// nothing is open in it.
pub fn open_new(opened: &Result<Vec<OpenedItem>, Error>) -> (fill: bool)
    ensures
        fill == (match *opened {
            Ok(opened) => opened@.len() == 0,
            Err(_) => false,
        }),
{
    match opened {
        Ok(opened) => opened.len() == 0,
        Err(_) => false,
    }
}

impl Workspace {
    /// The order in which paths are opened: parents before what lies in them.
    pub fn open_paths(&self, abs_paths: Vec<PathBuf>) -> (ordered: Vec<PathBuf>)
        ensures
            sorted(path_views(ordered@)),
            path_views(ordered@).to_multiset() == path_views(abs_paths@).to_multiset(),
    {
        sort_paths(abs_paths)
    }

    /// Tells, once, if the store could not be read.
    pub fn notify_if_database_failed(&mut self, failed: bool, cx: &mut Context)
        ensures
            state(*final(self), *final(cx)) == (if failed {
                state(*old(self), *old(cx)).emit(database_notification())
            } else {
                state(*old(self), *old(cx))
            }),
    {
        if failed {
            cx.emit(
                Effect::ShowNotificationOnce {
                    id: 0,
                    message: "Failed to load the database file.".to_owned(),
                    click_message: "Click to let us know about this error".to_owned(),
                    url: "https://github.com/zed-industries/community/issues/new?assignees=&labels=defect%2Ctriage&template=2_bug_report.yml".to_owned(),
                },
            );
        }
    }
}

/// The notification that the store could not be read.
pub open spec fn database_notification() -> EffectView {
    EffectView::ShowNotificationOnce {
        id: 0,
        message: "Failed to load the database file."@,
        click_message: "Click to let us know about this error"@,
        url: "https://github.com/zed-industries/community/issues/new?assignees=&labels=defect%2Ctriage&template=2_bug_report.yml"@,
    }
}

/// What is done about a path: nothing if it does not lie in the project; a file is opened where
/// it lies; the root of its worktree and what lies below that become the active entry; and
/// nothing is done about a directory elsewhere.
pub proof fn law_open_target(
    abs_path: Seq<ComponentView>,
    path: ProjectPathView,
    root: Seq<ComponentView>,
    below: Seq<ComponentView>,
    is_file: bool,
)
    ensures
        open_target(abs_path, None, root, is_file) is Nothing,
        open_target(abs_path, Some(path), root, true) == OpenTargetView::File(path),
        open_target(root, Some(path), root, false) is RootEntry,
        below.len() > 0 ==> open_target(root + below, Some(path), root, false)
            == OpenTargetView::EntryAt(below),
        (forall|rest: Seq<ComponentView>| abs_path != #[trigger] (root + rest)) ==> open_target(
            abs_path,
            Some(path),
            root,
            false,
        ) is Nothing,
{
    let all = root + below;
    assert(all.skip(root.len() as int) =~= below);
    assert(root.is_prefix_of(all)) by {
        assert(all.take(root.len() as int) =~= root);
    }
    if below.len() > 0 {
        assert(all.len() != root.len());
    }
    if forall|rest: Seq<ComponentView>| abs_path != #[trigger] (root + rest) {
        assert(root + Seq::<ComponentView>::empty() =~= root);
        if root.is_prefix_of(abs_path) {
            assert(root + abs_path.skip(root.len() as int) =~= abs_path);
        }
    }
}

/// A path that is opened is first looked for, then it is seen whether it is a file, and then is
/// done about it what there is to be done. What came of that stands; nothing comes of a path
/// that is not found.
pub proof fn law_opening_order(opening: OpeningPathView, found: FoundPathView, is_file: bool, item: OpenedItem)
    requires
        opening.found is None,
        opening.is_file is None,
        opening.opened is None,
    ensures
        ({
            let lost = OpeningPathView { found: Some(None), ..opening };
            let here = OpeningPathView { found: Some(Some(found)), ..opening };
            let checked = OpeningPathView { is_file: Some(is_file), ..here };
            let done = OpeningPathView { opened: Some(item), ..checked };
            let target = open_target(
                opening.abs_path,
                Some(found.project_path),
                found.worktree_abs_path,
                is_file,
            );
            &&& opening.next() is FindPath
            &&& lost.next() == OpeningActionView::Done(None)
            &&& here.next() is CheckFile
            &&& !(target is Nothing) ==> checked.next() == OpeningActionView::Open(target)
            &&& target is Nothing ==> checked.next() == OpeningActionView::Done(None)
            &&& done.next() == OpeningActionView::Done(item)
        }),
{
}

/// At first each path has the item that was restored for it, or nothing. In the end it has what
/// came of opening it, or where it was not opened what it had at first.
pub proof fn law_what_is_opened(
    restored: Option<Seq<Option<u64>>>,
    results: Seq<OpenedItem>,
    n: nat,
    i: int,
)
    requires
        restored matches Some(restored) ==> restored.len() == n,
        results.len() == n,
        0 <= i < n,
    ensures
        ({
            let first = opened_at_first(restored, n);
            let last = opened_at_last(first, results);
            &&& match restored {
                Some(restored) => match restored[i] {
                    Some(item) => first[i] == Some(Ok::<u64, Error>(item)),
                    None => first[i] is None,
                },
                None => first[i] is None,
            }
            &&& results[i] is Some ==> last[i] == results[i]
            &&& results[i] is None ==> last[i] == first[i]
        }),
{
}

/// A path keeps its place in the project, and so is opened, exactly if no restored item shows
/// it; and it stays the same path.
pub proof fn law_still_to_open(cx: ContextView, restored: Seq<Option<u64>>, path: PathToOpenView)
    ensures
        still_to_open(cx, restored, path).abs_path == path.abs_path,
        (forall|i: int|
            0 <= i < restored.len() ==> ((#[trigger] restored[i]) matches Some(item)
                ==> path_of_item(cx, item) is None || path_of_item(cx, item) != path.project_path))
            ==> still_to_open(cx, restored, path) == path,
        (exists|i: int|
            0 <= i < restored.len() && ((#[trigger] restored[i]) matches Some(item)
                && path_of_item(cx, item) is Some && path_of_item(cx, item) == path.project_path))
            ==> still_to_open(cx, restored, path).project_path is None,
{
    if path.project_path is Some && restored_at(cx, restored, path.project_path->0) {
        let k = choose|k: int|
            0 <= k < restored.len() && #[trigger] restored[k] is Some && path_of_item(
                cx,
                restored[k]->0,
            ) == path.project_path;
        assert(restored[k] is Some);
    }
    if exists|i: int|
        0 <= i < restored.len() && ((#[trigger] restored[i]) matches Some(item) && path_of_item(
            cx,
            item,
        ) is Some && path_of_item(cx, item) == path.project_path) {
        let i = choose|i: int|
            0 <= i < restored.len() && ((#[trigger] restored[i]) matches Some(item)
                && path_of_item(cx, item) is Some && path_of_item(cx, item) == path.project_path);
        assert(restored[i] is Some);
    }
}

proof fn lemma_screen_place(screens: Seq<Option<u128>>, display: u128, i: int)
    requires
        0 <= i <= screens.len(),
    ensures
        match screen_place(screens, display, i) {
            Some(k) => i <= k < screens.len() && screens[k] == Some(display) && forall|j: int|
                i <= j < k ==> #[trigger] screens[j] != Some(display),
            None => forall|j: int| i <= j < screens.len() ==> #[trigger] screens[j] != Some(display),
        },
    decreases screens.len() - i,
{
    if i < screens.len() && screens[i] != Some(display) {
        lemma_screen_place(screens, display, i + 1);
    }
}

/// A window goes where it was stored if its bounds and its display are known. Fixed bounds need
/// the first screen that is that display; without it, or without bounds or display, the window
/// goes nowhere in particular. Other bounds need no screen.
pub proof fn law_stored_placement(
    bounds: Option<WindowBounds>,
    display: Option<u128>,
    screens: Seq<Option<u128>>,
)
    ensures
        bounds is None || display is None ==> stored_placement(bounds, display, screens) is None,
        bounds is Some && display is Some && !(bounds->0 is Fixed) ==> stored_placement(
            bounds,
            display,
            screens,
        ) == Some((bounds->0, display->0, None::<int>)),
        bounds is Some && display is Some && bounds->0 is Fixed ==> match stored_placement(
            bounds,
            display,
            screens,
        ) {
            Some((b, d, screen)) => b == bounds->0 && d == display->0 && screen is Some && 0
                <= screen->0 < screens.len() && screens[screen->0] == display && forall|j: int|
                0 <= j < screen->0 ==> #[trigger] screens[j] != display,
            None => forall|j: int| 0 <= j < screens.len() ==> #[trigger] screens[j] != display,
        },
{
    if display is Some {
        lemma_screen_place(screens, display->0, 0);
    }
}

/// The order in which a workspace is opened in a new window: all paths are looked for, one after
/// the other; a number is asked for unless one was stored; then the window is opened under that
/// number, initialized, brought to the front, told of a store that failed, and filled. A failure
/// ends it.
pub proof fn law_new_local_order(opening: NewLocalView, error: Error)
    requires
        opening.well_formed(),
        opening.paths.len() <= usize::MAX,
    ensures
        (NewLocalView { failure: Some(error), ..opening }).next() == NewLocalAction::Fail(error),
        opening.failure is None ==> {
            let found = opening.project_paths.len();
            let number = if opening.stored_id is Some {
                opening.stored_id
            } else {
                opening.workspace_id
            };
            &&& found < opening.paths.len() ==> opening.next() == NewLocalAction::FindPath(
                found as usize,
            )
            &&& found == opening.paths.len() ==> {
                &&& number is None ==> opening.next() == NewLocalAction::NextId
                &&& number is Some && opening.window is None ==> opening.next()
                    == NewLocalAction::OpenWindow(number->0)
                &&& number is Some && opening.window is Some ==> {
                    let window = opening.window->0;
                    &&& !opening.initialized ==> opening.next() == (NewLocalAction::Initialize {
                        window,
                        restoring: opening.stored_id is Some,
                    })
                    &&& opening.initialized && !opening.activated ==> opening.next()
                        == NewLocalAction::ActivateWindow(window)
                    &&& opening.initialized && opening.activated && !opening.database_checked
                        ==> opening.next() == NewLocalAction::NotifyIfDatabaseFailed(window)
                    &&& opening.initialized && opening.activated && opening.database_checked
                        && opening.opened_items is None ==> opening.next()
                        == NewLocalAction::OpenItems(window)
                    &&& opening.initialized && opening.activated && opening.database_checked
                        && opening.opened_items is Some ==> opening.next() == NewLocalAction::Done(
                        window,
                    )
                }
            }
        },
{
}

/// A store that could not be read is told once, with a place to report it.
pub proof fn law_database_notification()
    ensures
        database_notification() matches EffectView::ShowNotificationOnce {
            id,
            message,
            click_message,
            url,
        } && id == 0 && message == "Failed to load the database file."@ && click_message
            == "Click to let us know about this error"@ && url
            == "https://github.com/zed-industries/community/issues/new?assignees=&labels=defect%2Ctriage&template=2_bug_report.yml"@,
{
}

} // verus!
