use workspace::context::{AutosaveSetting, Context, Effect, Item, Project};
use workspace::debounce::{
    readiness, DebouncedTask, DelayedDebouncedEditAction, Readiness, Superseded, TaskPhase,
};
use workspace::dock::{Dock, DockPosition};
use workspace::error::Error;
use workspace::events::last_opened_workspace_paths;
use workspace::load::match_opened_items;
use workspace::navigation::{
    recent_paths, HistoryEntry, NavigationAction, NavigationEvent, NavigationMode, Popped,
};
use workspace::open::{
    choose_open_target, file_to_open, finish_opening, open_items, open_new, open_paths,
    project_path_for_path, project_paths, window_placement, FoundPath, OpeningAction, OpeningPath, NewLocal, NewLocalAction, OpenPaths, OpenTarget, PathToOpen,
    Placement,
};
use workspace::path::{rank_paths, sort_paths, Component, PathBuf, ProjectPath, Rank};
use workspace::pixels::{
    parse_number, parse_pixel_position_env_var, parse_pixel_size_env_var, window_bounds_override,
};
use workspace::registry::{
    load_path, register_deserializable_item, register_followable_item, register_project_item,
    Registry,
};
use workspace::serialized::WindowBounds;
use workspace::store::WorkspaceStore;
use workspace::title::{
    build_title, build_window_title, titlebar_click_zooms, titlebar_is_inset,
};
use workspace::toast::Toast;
use workspace::window_search::{activate_workspace_for_project, SearchAction, SearchedWindow};
use workspace::workspace::Workspace;

fn path(names: &[&str]) -> PathBuf {
    let mut components = vec![Component::RootDir];
    for name in names {
        components.push(Component::Normal(name.as_bytes().to_vec()));
    }
    PathBuf { components }
}

fn below(names: &[&str]) -> PathBuf {
    PathBuf {
        components: names
            .iter()
            .map(|name| Component::Normal(name.as_bytes().to_vec()))
            .collect(),
    }
}

fn project_path(worktree_id: u64, names: &[&str]) -> ProjectPath {
    ProjectPath { worktree_id, path: below(names) }
}

fn context(items: Vec<(u64, Option<ProjectPath>)>) -> Context {
    Context {
        panes: vec![],
        items: items
            .into_iter()
            .map(|(id, project_path)| Item {
                id,
                serialized_item_kind: None,
                project_path,
                is_dirty: false,
                has_conflict: false,
                followable: None,
            })
            .collect(),
        left_dock: Dock::new(DockPosition::Left),
        bottom_dock: Dock::new(DockPosition::Bottom),
        right_dock: Dock::new(DockPosition::Right),
        project: Project {
            is_local: true,
            is_remote: false,
            is_shared: false,
            is_read_only: false,
            remote_id: None,
            worktrees: vec![],
            worktree_root_names: vec![],
        },
        active_call: None,
        store: WorkspaceStore::new(),
        window_active: true,
        autosave: AutosaveSetting::AfterDelay { milliseconds: 500 },
        next_entity_id: 100,
        effects: vec![],
    }
}

#[test]
fn parents_are_opened_before_what_lies_in_them() {
    let mut cx = context(vec![]);
    let workspace = Workspace::new(7, 1, 2, &mut cx);
    let ordered = workspace.open_paths(vec![
        path(&["b", "c"]),
        path(&["a.txt"]),
        path(&["b"]),
        path(&["a", "z"]),
        path(&["a"]),
    ]);
    assert_eq!(
        ordered,
        vec![
            path(&["a"]),
            path(&["a", "z"]),
            path(&["a.txt"]),
            path(&["b"]),
            path(&["b", "c"]),
        ]
    );
    assert_eq!(sort_paths(vec![]), vec![]);
}

#[test]
fn paths_are_ordered_as_the_standard_library_orders_them() {
    let texts = ["/a", "/a/b", "/a.b", "/", "a", "../a", "/a/../b", "/b", "/aa", "/A"];
    let convert = |text: &str| PathBuf {
        components: std::path::Path::new(text)
            .components()
            .map(|c| match c {
                std::path::Component::RootDir => Component::RootDir,
                std::path::Component::CurDir => Component::CurDir,
                std::path::Component::ParentDir => Component::ParentDir,
                other => Component::Normal(other.as_os_str().to_str().unwrap().as_bytes().to_vec()),
            })
            .collect(),
    };
    for a in texts {
        for b in texts {
            let expected = std::path::Path::new(a).cmp(std::path::Path::new(b));
            let rank = rank_paths(&convert(a), &convert(b));
            match expected {
                std::cmp::Ordering::Less => assert_eq!(rank, Rank::Before),
                std::cmp::Ordering::Equal => assert_eq!(rank, Rank::Same),
                std::cmp::Ordering::Greater => assert_eq!(rank, Rank::After),
            }
        }
    }
}

#[test]
fn a_path_is_opened_as_what_it_is() {
    let root = path(&["root"]);
    let file = path(&["root", "src", "a.rs"]);
    let there = project_path(1, &["src", "a.rs"]);
    assert_eq!(choose_open_target(&file, None, &root, true), OpenTarget::Nothing);
    assert_eq!(
        choose_open_target(&file, Some(there.clone()), &root, true),
        OpenTarget::File(there.clone())
    );
    assert_eq!(
        choose_open_target(&file, Some(there.clone()), &root, false),
        OpenTarget::EntryAt(below(&["src", "a.rs"]))
    );
    assert_eq!(
        choose_open_target(&root, Some(there.clone()), &root, false),
        OpenTarget::RootEntry
    );
    assert_eq!(
        choose_open_target(&path(&["other"]), Some(there), &root, false),
        OpenTarget::Nothing
    );
}

#[test]
fn a_path_is_opened_step_by_step() {
    let found = || FoundPath {
        project_path: project_path(1, &["a.rs"]),
        worktree_abs_path: path(&["root"]),
    };
    let mut opening = OpeningPath::new(path(&["root", "a.rs"]));
    assert!(matches!(opening.next(), OpeningAction::FindPath));
    opening.looked_for(Some(found()));
    assert!(matches!(opening.next(), OpeningAction::CheckFile));
    opening.file_checked(true);
    match opening.next() {
        OpeningAction::Open(target) => {
            assert_eq!(target, OpenTarget::File(project_path(1, &["a.rs"])))
        }
        _ => panic!("a file is opened"),
    }
    opening.done(Some(Ok(5)));
    assert!(matches!(opening.next(), OpeningAction::Done(Some(Ok(5)))));
    let mut opening = OpeningPath::new(path(&["elsewhere"]));
    opening.looked_for(None);
    assert!(matches!(opening.next(), OpeningAction::Done(None)));
    let mut opening = OpeningPath::new(path(&["elsewhere"]));
    opening.looked_for(Some(found()));
    opening.file_checked(false);
    assert!(matches!(opening.next(), OpeningAction::Done(None)));
}

#[test]
fn a_found_path_belongs_to_its_worktree() {
    assert_eq!(
        project_path_for_path(Ok((4, below(&["a"])))),
        Ok(project_path(4, &["a"]))
    );
    assert_eq!(project_path_for_path(Err(Error::Failed(3))), Err(Error::Failed(3)));
}

#[test]
fn restored_items_are_matched_with_paths() {
    let cx = context(vec![
        (10, Some(project_path(1, &["a"]))),
        (11, Some(project_path(1, &["b"]))),
        (12, Some(project_path(1, &["a"]))),
        (13, None),
    ]);
    let items = vec![Some(10), None, Some(11), Some(12), Some(13)];
    let paths = vec![
        None,
        Some(project_path(1, &["a"])),
        Some(project_path(1, &["a"])),
        Some(project_path(2, &["b"])),
        Some(project_path(1, &["b"])),
    ];
    assert_eq!(
        match_opened_items(&items, &paths, &cx),
        vec![None, Some(12), None, None, Some(11)]
    );
}

#[test]
fn restored_paths_are_not_opened_again() {
    let cx = context(vec![(10, Some(project_path(1, &["a"])))]);
    let to_open = || {
        vec![
            PathToOpen { abs_path: path(&["a"]), project_path: Some(project_path(1, &["a"])) },
            PathToOpen { abs_path: path(&["b"]), project_path: Some(project_path(1, &["b"])) },
            PathToOpen { abs_path: path(&["c"]), project_path: None },
        ]
    };
    assert_eq!(
        project_paths(&to_open()),
        vec![Some(project_path(1, &["a"])), Some(project_path(1, &["b"])), None]
    );
    let restored = Some(vec![Some(10), None, None]);
    let (opened, left) = open_items(&restored, to_open(), &cx);
    assert_eq!(opened, vec![Some(Ok(10)), None, None]);
    assert_eq!(left[0].project_path, None);
    assert_eq!(left[1].project_path, Some(project_path(1, &["b"])));
    assert_eq!(file_to_open(&left[1], true), Some(project_path(1, &["b"])));
    assert_eq!(file_to_open(&left[1], false), None);
    let all = finish_opening(opened, &vec![None, Some(Err(Error::Failed(1))), None]);
    assert_eq!(all, vec![Some(Ok(10)), Some(Err(Error::Failed(1))), None]);
    let (opened, left) = open_items(&None, to_open(), &cx);
    assert_eq!(opened, vec![None, None, None]);
    assert_eq!(left, to_open());
}

#[test]
fn a_window_is_placed_where_it_was() {
    let fixed = WindowBounds::Fixed { x: 1, y: 2, width: 3, height: 4 };
    let screens = vec![None, Some(5), Some(6)];
    let nowhere = Placement { bounds: None, display: None, screen: None };
    assert_eq!(
        window_placement(Some(fixed), Some(WindowBounds::Maximized), Some(6), &screens),
        Placement { bounds: Some(fixed), ..nowhere }
    );
    assert_eq!(
        window_placement(None, Some(fixed), Some(6), &screens),
        Placement { bounds: Some(fixed), display: Some(6), screen: Some(2) }
    );
    assert_eq!(window_placement(None, Some(fixed), Some(7), &screens), nowhere);
    assert_eq!(
        window_placement(None, Some(WindowBounds::Maximized), Some(7), &screens),
        Placement { bounds: Some(WindowBounds::Maximized), display: Some(7), screen: None }
    );
    assert_eq!(window_placement(None, None, Some(6), &screens), nowhere);
    assert_eq!(window_placement(None, Some(fixed), None, &screens), nowhere);
}

#[test]
fn a_new_window_is_opened_step_by_step() {
    let mut opening = NewLocal::new(vec![path(&["a"]), path(&["b"])], None);
    assert_eq!(opening.next(), NewLocalAction::FindPath(0));
    opening.path_found(Ok(project_path(1, &[])));
    assert_eq!(opening.next(), NewLocalAction::FindPath(1));
    opening.path_found(Err(Error::Failed(2)));
    assert_eq!(opening.next(), NewLocalAction::NextId);
    opening.id_found(Err(Error::Failed(3)));
    assert_eq!(opening.next(), NewLocalAction::OpenWindow(0));
    opening.window_opened(Ok(60));
    assert_eq!(opening.next(), NewLocalAction::Initialize { window: 60, restoring: false });
    opening.initialized();
    assert_eq!(opening.next(), NewLocalAction::ActivateWindow(60));
    opening.activated();
    assert_eq!(opening.next(), NewLocalAction::NotifyIfDatabaseFailed(60));
    opening.database_checked();
    assert_eq!(opening.next(), NewLocalAction::OpenItems(60));
    assert_eq!(opening.project_paths[0].project_path, Some(project_path(1, &[])));
    assert_eq!(opening.project_paths[1].abs_path, path(&["b"]));
    assert_eq!(opening.project_paths[1].project_path, None);
    opening.items_opened(Err(Error::Failed(4)));
    assert_eq!(opening.next(), NewLocalAction::Done(60));
    assert_eq!(opening.opened_items, Some(vec![]));
}

#[test]
fn a_new_window_can_fail_to_open() {
    let mut opening = NewLocal::new(vec![], Some(9));
    assert_eq!(opening.next(), NewLocalAction::OpenWindow(9));
    opening.window_opened(Err(Error::Failed(1)));
    assert_eq!(opening.next(), NewLocalAction::Fail(Error::Failed(1)));
    let mut opening = NewLocal::new(vec![], Some(9));
    opening.window_opened(Ok(60));
    assert_eq!(opening.next(), NewLocalAction::Initialize { window: 60, restoring: true });
    opening.fail(Error::WorkspaceDropped);
    assert_eq!(opening.next(), NewLocalAction::Fail(Error::WorkspaceDropped));
}

#[test]
fn paths_are_opened_in_a_window_that_has_them() {
    assert_eq!(open_paths(Some(4)), OpenPaths::InWindow(4));
    assert_eq!(open_paths(None), OpenPaths::InNewWindow);
}

#[test]
fn windows_are_asked_until_one_is_found() {
    let window = |window, is_workspace| SearchedWindow { window, is_workspace };
    let windows = vec![
        window(1, false),
        window(2, true),
        window(3, true),
        window(4, true),
        window(5, true),
    ];
    let mut search = activate_workspace_for_project(windows.clone());
    assert_eq!(search.next(), SearchAction::Ask(2));
    search.answered(Ok(false));
    assert_eq!(search.next(), SearchAction::Ask(3));
    search.answered(Err(Error::WorkspaceDropped));
    assert_eq!(search.next(), SearchAction::Ask(4));
    search.answered(Ok(true));
    assert_eq!(search.next(), SearchAction::Activate(4));

    let mut search = activate_workspace_for_project(windows[..2].to_vec());
    assert_eq!(search.next(), SearchAction::Ask(2));
    search.answered(Ok(false));
    assert_eq!(search.next(), SearchAction::NotFound);
    assert_eq!(activate_workspace_for_project(vec![]).next(), SearchAction::NotFound);
}

#[test]
fn a_new_workspace_is_filled_when_it_is_empty() {
    assert!(open_new(&Ok(vec![])));
    assert!(!open_new(&Ok(vec![None])));
    assert!(!open_new(&Err(Error::Failed(1))));
    assert_eq!(last_opened_workspace_paths(Err(Error::Failed(1))), None);
    assert_eq!(last_opened_workspace_paths(Ok(None)), None);
    assert_eq!(
        last_opened_workspace_paths(Ok(Some(vec![path(&["a"])]))),
        Some(vec![path(&["a"])])
    );
}

#[test]
fn a_store_that_cannot_be_read_is_told_of() {
    let mut cx = context(vec![]);
    let mut workspace = Workspace::new(7, 1, 2, &mut cx);
    cx.effects.clear();
    workspace.notify_if_database_failed(false, &mut cx);
    assert_eq!(cx.effects, vec![]);
    workspace.notify_if_database_failed(true, &mut cx);
    assert_eq!(
        cx.effects,
        vec![Effect::ShowNotificationOnce {
            id: 0,
            message: "Failed to load the database file.".to_string(),
            click_message: "Click to let us know about this error".to_string(),
            url: "https://github.com/zed-industries/community/issues/new?assignees=&labels=defect%2Ctriage&template=2_bug_report.yml".to_string(),
        }]
    );
}

#[test]
fn titles() {
    let names = |list: &[&str]| list.iter().map(|n| n.to_string()).collect::<Vec<_>>();
    assert_eq!(build_title(None, &names(&[]), false, false), "empty project");
    assert_eq!(build_title(None, &names(&["a", "b", "c"]), false, false), "a, b, c");
    assert_eq!(
        build_title(Some("x.rs".to_string()), &names(&["a"]), true, true),
        "x.rs — a ↙"
    );
    assert_eq!(build_title(Some("x.rs".to_string()), &names(&[]), false, true), "x.rs —  ↗");
    assert_eq!(build_title(None, &names(&[]), true, false), "empty project ↙");
    assert!(!titlebar_is_inset(WindowBounds::Fullscreen));
    assert!(titlebar_is_inset(WindowBounds::Maximized));
    assert!(titlebar_click_zooms(2));
    assert!(!titlebar_click_zooms(1));
}

#[test]
fn file_names_that_are_no_text_are_shown_as_far_as_possible() {
    let cx = context(vec![]);
    let named = |bytes: &[u8]| {
        Some(ProjectPath {
            worktree_id: 1,
            path: PathBuf { components: vec![Component::Normal(bytes.to_vec())] },
        })
    };
    assert_eq!(build_window_title(&cx, &named("grün.rs".as_bytes())), "grün.rs — ");
    assert_eq!(build_window_title(&cx, &named(&[b'a', 0xff, b'b'])), "a\u{fffd}b — ");
    let root = Some(ProjectPath { worktree_id: 1, path: PathBuf { components: vec![] } });
    assert_eq!(build_window_title(&cx, &root), "empty project");
}

#[test]
fn numbers_in_the_environment() {
    assert_eq!(parse_pixel_position_env_var("10,20"), Some((10, 20)));
    assert_eq!(parse_pixel_position_env_var("10,20,30"), Some((10, 20)));
    assert_eq!(parse_pixel_position_env_var("10,20,x"), Some((10, 20)));
    assert_eq!(parse_pixel_position_env_var("10"), None);
    assert_eq!(parse_pixel_position_env_var(""), None);
    assert_eq!(parse_pixel_position_env_var("10, 20"), None);
    assert_eq!(parse_pixel_size_env_var("+640,0480"), Some((640, 480)));
    assert_eq!(parse_pixel_size_env_var("640,-1"), None);
    assert_eq!(parse_pixel_size_env_var(",480"), None);
    for text in ["", "+", "-", "0", "007", "+5", "++5", "5 ", "1_0", "٣", "x1", "1x", "-0"] {
        assert_eq!(parse_number(text), text.parse::<usize>().ok());
    }
    let largest = format!("{}", usize::MAX);
    assert_eq!(parse_number(&largest), Some(usize::MAX));
    assert_eq!(parse_number(&format!("{}0", largest)), None);
    assert_eq!(parse_number(&format!("{}", usize::MAX as u128 + 1)), None);
    assert_eq!(
        window_bounds_override(true, Some((1, 2)), Some((3, 4))),
        Some(((1, 2), (3, 4)))
    );
    assert_eq!(window_bounds_override(false, Some((1, 2)), Some((3, 4))), None);
    assert_eq!(window_bounds_override(true, None, Some((3, 4))), None);
    assert_eq!(window_bounds_override(true, Some((1, 2)), None), None);
}

#[test]
fn toasts() {
    let plain = Toast::new(1, "saved".to_string());
    let click = Toast::new(1, "saved".to_string()).on_click("undo".to_string(), 9);
    let other = Toast::new(1, "saved".to_string()).on_click("redo".to_string(), 8);
    assert!(plain == plain.clone());
    assert!(plain != click);
    assert!(click == other);
    assert!(plain != Toast::new(2, "saved".to_string()));
    assert!(plain != Toast::new(1, "lost".to_string()));
    assert_eq!(click.clone().on_click, Some(("undo".to_string(), 9)));
}

#[test]
fn a_new_request_supersedes_the_one_before() {
    let mut action = DelayedDebouncedEditAction::new();
    assert_eq!(action.fire_new(1, 11), Superseded { cancel: None, wait_for: None });
    assert_eq!(action.fire_new(2, 12), Superseded { cancel: Some(11), wait_for: Some(1) });
    assert_eq!(action.task, Some(2));
    assert_eq!(readiness(false, true, true), Readiness::Wait);
    assert_eq!(readiness(true, true, true), Readiness::Stop);
    assert_eq!(readiness(true, false, true), Readiness::Run);
    assert_eq!(readiness(true, false, false), Readiness::Wait);
}

#[test]
fn only_the_last_request_is_carried_out() {
    let mut action = DelayedDebouncedEditAction::new();
    let superseded = action.fire_new(1, 11);
    let mut first = DebouncedTask::new(11, superseded.wait_for);
    assert_eq!(first.poll(true), Readiness::Wait);
    first.elapse();
    let superseded = action.fire_new(2, 12);
    assert_eq!(superseded.cancel, Some(first.channel));
    first.cancel();
    let mut second = DebouncedTask::new(12, superseded.wait_for);
    assert_eq!(second.wait_for, Some(1));
    assert_eq!(second.poll(first.is_over()), Readiness::Wait);
    assert_eq!(first.poll(true), Readiness::Stop);
    assert_eq!(first.phase, TaskPhase::Stopped);
    assert!(first.is_over());
    assert_eq!(second.poll(first.is_over()), Readiness::Wait);
    second.elapse();
    assert_eq!(second.poll(first.is_over()), Readiness::Run);
    assert_eq!(second.poll(first.is_over()), Readiness::Wait);
    assert_eq!(first.poll(true), Readiness::Wait);
    assert!(!second.is_over());
    second.finish();
    assert_eq!(second.phase, TaskPhase::Ran);
    assert!(second.is_over());
    first.finish();
    assert_eq!(first.phase, TaskPhase::Stopped);
}

#[test]
fn a_request_waits_for_the_one_that_is_under_way() {
    let mut action = DelayedDebouncedEditAction::new();
    let mut first = DebouncedTask::new(11, action.fire_new(1, 11).wait_for);
    first.elapse();
    assert_eq!(first.poll(true), Readiness::Run);
    let mut second = DebouncedTask::new(12, action.fire_new(2, 12).wait_for);
    first.cancel();
    second.elapse();
    assert_eq!(first.poll(true), Readiness::Wait);
    assert_eq!(second.poll(first.is_over()), Readiness::Wait);
    first.finish();
    assert_eq!(first.phase, TaskPhase::Ran);
    assert_eq!(second.poll(first.is_over()), Readiness::Run);
}

#[test]
fn what_is_made_known_is_known() {
    let mut registry = Registry::new();
    register_project_item(&mut registry, 1, 10);
    register_project_item(&mut registry, 1, 11);
    assert_eq!(load_path(&registry, Ok((5, 1))), Ok((5, 11)));
    assert_eq!(load_path(&registry, Ok((5, 2))), Err(Error::NoItemBuilder));
    assert_eq!(load_path(&registry, Err(Error::Failed(4))), Err(Error::Failed(4)));
    register_followable_item(&mut registry, 1, 20);
    register_followable_item(&mut registry, 2, 21);
    register_followable_item(&mut registry, 1, 22);
    assert_eq!(registry.followable_builders(), vec![22, 21]);
    register_deserializable_item(&mut registry, None, 30);
    register_deserializable_item(&mut registry, Some("Editor".to_string()), 31);
    register_deserializable_item(&mut registry, Some("Editor".to_string()), 32);
    assert_eq!(registry.deserializer(&"Editor".to_string()), Some(32));
    assert_eq!(registry.deserializer(&"Terminal".to_string()), None);
    assert_eq!(registry.item_deserializers.len(), 1);
}

fn step(
    worktree_id: u64,
    names: &[&str],
    fs_path: Option<&[&str]>,
    timestamp: usize,
) -> HistoryEntry {
    HistoryEntry {
        project_path: project_path(worktree_id, names),
        fs_path: fs_path.map(path),
        timestamp,
    }
}

#[test]
fn the_newest_visits_come_first() {
    let entries = vec![
        step(1, &["a"], None, 3),
        step(1, &["b"], None, 5),
        step(1, &["a"], None, 9),
        step(1, &["c"], None, 5),
        step(1, &["a"], None, 4),
    ];
    let paths = |limit| {
        recent_paths(&entries, limit).into_iter().map(|(p, _)| p).collect::<Vec<_>>()
    };
    let all = vec![project_path(1, &["a"]), project_path(1, &["c"]), project_path(1, &["b"])];
    assert_eq!(paths(None), all);
    assert_eq!(paths(Some(9)), all);
    assert_eq!(paths(Some(2)), all[..2].to_vec());
    assert_eq!(paths(Some(0)), vec![]);
}

#[test]
fn a_place_is_told_of_in_its_newest_worktree() {
    let here: &[&str] = &["x", "a"];
    let entries = vec![
        step(1, &["x", "a"], Some(here), 9),
        step(2, &["a"], Some(here), 3),
        step(1, &["b"], None, 1),
    ];
    assert_eq!(
        recent_paths(&entries, None),
        vec![
            (project_path(2, &["a"]), Some(path(&["x", "a"]))),
            (project_path(1, &["b"]), None),
        ]
    );
}

#[test]
fn the_history_of_all_panes_counts() {
    let mut cx = context(vec![]);
    let mut workspace = Workspace::new(7, 1, 2, &mut cx);
    let other = workspace.add_pane(&mut cx);
    cx.panes[0].history = vec![step(1, &["a"], None, 1)];
    cx.panes[1].history = vec![step(1, &["b"], None, 2)];
    assert_eq!(cx.panes[1].id, other);
    assert_eq!(
        workspace.recent_navigation_history(None, &cx),
        vec![(project_path(1, &["b"]), None), (project_path(1, &["a"]), None)]
    );
}

#[test]
fn a_walk_goes_on_until_something_else_is_shown() {
    let mut cx = context(vec![]);
    let workspace = Workspace::new(7, 1, 2, &mut cx);
    let mut walk = workspace.go_back(100);
    let back = NavigationMode::GoingBack;
    assert_eq!(walk.action(), NavigationAction::CheckPane);
    walk.advance(NavigationEvent::Pane { exists: true });
    assert_eq!(walk.action(), NavigationAction::Pop(back));
    let popped = Popped { item: 5, data: None, index: Some(0), active_item_index: 0 };
    walk.advance(NavigationEvent::Popped(Some(popped)));
    assert_eq!(walk.action(), NavigationAction::SetMode(back));
    walk.advance(NavigationEvent::ModeSet { active_item: None });
    assert_eq!(walk.action(), NavigationAction::ActivateItem(0));
    assert_eq!(walk.history_mode, back);
    walk.advance(NavigationEvent::Activated { active_item_index: 0, active_item: Some(5) });
    assert_eq!(walk.action(), NavigationAction::SetMode(NavigationMode::Normal));
    walk.advance(NavigationEvent::ModeSet { active_item: None });
    assert_eq!(walk.action(), NavigationAction::Pop(back));
    let popped = Popped { item: 6, data: Some(44), index: Some(1), active_item_index: 1 };
    walk.advance(NavigationEvent::Popped(Some(popped)));
    walk.advance(NavigationEvent::ModeSet { active_item: None });
    walk.advance(NavigationEvent::Activated { active_item_index: 1, active_item: Some(6) });
    walk.advance(NavigationEvent::ModeSet { active_item: None });
    assert_eq!(walk.action(), NavigationAction::Navigate { item: 6, data: 44 });
    walk.advance(NavigationEvent::Navigated(true));
    assert_eq!(walk.action(), NavigationAction::Done);
    assert_eq!(walk.history_mode, NavigationMode::Normal);
    walk.advance(NavigationEvent::PaneDropped);
    assert_eq!(walk.action(), NavigationAction::Done);
}

#[test]
fn a_walk_opens_what_was_closed() {
    let mut cx = context(vec![]);
    let workspace = Workspace::new(7, 1, 2, &mut cx);
    let mut walk = workspace.reopen_closed_item();
    assert_eq!(walk.pane, workspace.active_pane());
    walk.advance(NavigationEvent::Pane { exists: true });
    let popped = Popped { item: 5, data: Some(3), index: None, active_item_index: 0 };
    walk.advance(NavigationEvent::Popped(Some(popped)));
    assert_eq!(walk.action(), NavigationAction::FindPath(5));
    walk.advance(NavigationEvent::PathFound(true));
    assert_eq!(walk.action(), NavigationAction::LoadPath);
    walk.advance(NavigationEvent::Loaded(true));
    assert_eq!(
        walk.action(),
        NavigationAction::SetMode(NavigationMode::ReopeningClosedItem)
    );
    walk.advance(NavigationEvent::ModeSet { active_item: Some(8) });
    assert_eq!(walk.action(), NavigationAction::OpenItem);
    walk.advance(NavigationEvent::Opened(8));
    walk.advance(NavigationEvent::ModeSet { active_item: Some(8) });
    assert_eq!(walk.action(), NavigationAction::Navigate { item: 8, data: 3 });
    walk.advance(NavigationEvent::Navigated(false));
    assert_eq!(walk.action(), NavigationAction::CheckPane);
    walk.advance(NavigationEvent::Pane { exists: false });
    assert_eq!(walk.action(), NavigationAction::Done);
}

#[test]
fn a_walk_ends_with_the_history_or_the_pane() {
    let mut cx = context(vec![]);
    let workspace = Workspace::new(7, 1, 2, &mut cx);
    let mut walk = workspace.go_forward(100);
    walk.advance(NavigationEvent::Pane { exists: true });
    walk.advance(NavigationEvent::Popped(None));
    assert_eq!(walk.action(), NavigationAction::Done);
    let mut walk = workspace.go_forward(100);
    walk.advance(NavigationEvent::WorkspaceDropped);
    assert_eq!(walk.action(), NavigationAction::Fail(Error::WorkspaceDropped));
    let mut walk = workspace.go_forward(100);
    walk.advance(NavigationEvent::Pane { exists: true });
    let popped = Popped { item: 5, data: None, index: None, active_item_index: 0 };
    walk.advance(NavigationEvent::Popped(Some(popped)));
    walk.advance(NavigationEvent::PathFound(true));
    walk.advance(NavigationEvent::Loaded(false));
    assert_eq!(walk.action(), NavigationAction::CheckPane);
    walk.advance(NavigationEvent::PaneDropped);
    assert_eq!(walk.action(), NavigationAction::Fail(Error::PaneDropped));
}

#[test]
fn errors_say_what_is_wrong() {
    assert_eq!(Error::InvalidUpdate.message(), "invalid update");
    assert_eq!(Error::MissingUpdateViewVariant.message(), "missing update view variant");
    assert_eq!(Error::MissingUpdateViewId.message(), "missing update view id");
    assert_eq!(Error::MissingViewVariant.message(), "missing view variant");
    assert_eq!(Error::MissingCreator.message(), "creator is missing");
    assert_eq!(Error::NoItemBuilder.message(), "no item builder for project item");
    assert_eq!(Error::WorkspaceDropped.message(), "workspace dropped");
}
