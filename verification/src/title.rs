//! The title of the window.

use crate::context::{find_worktree, text_views, Context, ContextView};
use crate::dock::text_view;
use crate::path::{file_name, project_path_view, ProjectPath, ProjectPathView};
use crate::serialized::WindowBounds;
use vstd::prelude::*;

verus! {

/// What `String::from_utf8_lossy` makes of bytes.
pub uninterp spec fn lossy_text(bytes: Seq<u8>) -> Seq<char>;

/// Calls `String::from_utf8_lossy`. The text depends on the bytes alone, and bytes that are
/// UTF-8 are decoded. Where other bytes give way to replacement characters is left unsaid.
#[verifier::external_body]
fn text_from_bytes(bytes: &Vec<u8>) -> (text: String)
    ensures
        text@ == lossy_text(bytes@),
        vstd::utf8::valid_utf8(bytes@) ==> text@ == vstd::utf8::decode_utf8(bytes@),
{
    String::from_utf8_lossy(bytes).into_owned()
}

/// Names one after the other, with commas between them.
pub open spec fn joined(names: Seq<Seq<char>>) -> Seq<char>
    decreases names.len(),
{
    if names.len() == 0 {
        Seq::empty()
    } else if names.len() == 1 {
        names[0]
    } else {
        joined(names.drop_last()) + ", "@ + names.last()
    }
}

/// What a title names: the file and a dash if there is a file, and the roots of the project.
pub open spec fn title_subject(file: Option<Seq<char>>, roots: Seq<Seq<char>>) -> Seq<char> {
    match file {
        Some(file) => file + " — "@ + joined(roots),
        None => joined(roots),
    }
}

/// A title: what it names, or that the project is empty where that is nothing, and an arrow
/// for a project that someone else shares or that we share.
pub open spec fn title(
    file: Option<Seq<char>>,
    roots: Seq<Seq<char>>,
    is_remote: bool,
    is_shared: bool,
) -> Seq<char> {
    let subject = title_subject(file, roots);
    let base = if subject.len() == 0 {
        "empty project"@
    } else {
        subject
    };
    if is_remote {
        base + " ↙"@
    } else if is_shared {
        base + " ↗"@
    } else {
        base
    }
}

/// The name that stands for a path in a title: its last part, or for the root of a worktree
/// the name of that root.
pub open spec fn title_name(cx: ContextView, path: ProjectPathView) -> Option<Seq<char>> {
    match file_name(path.path) {
        Some(name) => Some(lossy_text(name)),
        None => match find_worktree(cx.project.worktrees, path.worktree_id, 0) {
            Some(worktree) => Some(worktree.root_name),
            None => None,
        },
    }
}

/// The title of a window in which the given path is active.
pub open spec fn window_title(cx: ContextView, path: Option<ProjectPathView>) -> Seq<char> {
    title(
        match path {
            Some(path) => title_name(cx, path),
            None => None,
        },
        cx.project.worktree_root_names,
        cx.project.is_remote,
        cx.project.is_shared,
    )
}

/// Whether a text is the title that shows the last part of a path decoded, where that part is
/// UTF-8.
pub open spec fn shows_decoded_name(
    text: Seq<char>,
    cx: ContextView,
    path: Option<ProjectPathView>,
) -> bool {
    path matches Some(path) ==> (file_name(path.path) matches Some(name) ==> (
    vstd::utf8::valid_utf8(name) ==> text == title(
        Some(vstd::utf8::decode_utf8(name)),
        cx.project.worktree_root_names,
        cx.project.is_remote,
        cx.project.is_shared,
    )))
}

/// Writes a title out.
pub fn build_title(file: Option<String>, roots: &Vec<String>, is_remote: bool, is_shared: bool) -> (text:
    String)
    ensures
        text@ == title(text_view(file), text_views(roots@), is_remote, is_shared),
{
    let mut text = String::new();
    let ghost mut head: Seq<char> = Seq::empty();
    if let Some(file) = &file {
        text.append(file.as_str());
        text.append(" — ");
        proof {
            head = file@ + " — "@;
            assert(text@ =~= head);
        }
    }
    let ghost names = text_views(roots@);
    let mut i: usize = 0;
    while i < roots.len()
        invariant
            i <= roots.len(),
            names == text_views(roots@),
            text@ =~= head + joined(names.take(i as int)),
        decreases roots.len() - i,
    {
        proof {
            assert(names.take(i + 1).drop_last() =~= names.take(i as int));
            assert(names.take(i + 1).last() == roots@[i as int]@);
            assert(i == 0 ==> names.take(i as int) =~= Seq::empty());
        }
        if i > 0 {
            text.append(", ");
        }
        text.append(roots[i].as_str());
        i += 1;
    }
    proof {
        assert(names.take(i as int) =~= names);
        assert(text@ =~= title_subject(text_view(file), names));
    }
    if text.as_str().is_empty() {
        text = "empty project".to_owned();
    }
    if is_remote {
        text.append(" ↙");
    } else if is_shared {
        text.append(" ↗");
    }
    text
}

/// The title of a window in which the given path is active. A last part that is UTF-8 is shown
/// as it is.
pub fn build_window_title(cx: &Context, path: &Option<ProjectPath>) -> (text: String)
    ensures
        text@ == window_title(cx@, project_path_view(*path)),
        shows_decoded_name(text@, cx@, project_path_view(*path)),
{
    let mut file: Option<String> = None;
    if let Some(path) = path {
        match path.path.file_name() {
            Some(name) => {
                file = Some(text_from_bytes(name));
            },
            None => {
                if let Some(worktree) = cx.worktree(path.worktree_id) {
                    file = Some(worktree.root_name.clone());
                }
            },
        }
    }
    build_title(
        file,
        &cx.project.worktree_root_names,
        cx.project.is_remote,
        cx.project.is_shared,
    )
}

/// A window never has an empty title.
pub proof fn law_title_not_empty(
    file: Option<Seq<char>>,
    roots: Seq<Seq<char>>,
    is_remote: bool,
    is_shared: bool,
)
    ensures
        title(file, roots, is_remote, is_shared).len() > 0,
{
    reveal_strlit("empty project");
    reveal_strlit(" ↙");
    reveal_strlit(" ↗");
}

/// Whether the title bar leaves room on its left, as it does unless the window fills the
/// screen.
pub fn titlebar_is_inset(bounds: WindowBounds) -> (inset: bool)
    ensures
        inset == (bounds != WindowBounds::Fullscreen),
{
    match bounds {
        WindowBounds::Fullscreen => false,
        _ => true,
    }
}

/// Whether a click on the title bar zooms the window: a double click does.
pub fn titlebar_click_zooms(click_count: usize) -> (zooms: bool)
    ensures
        zooms == (click_count == 2),
{
    click_count == 2
}

/// Names are joined with a comma and a space between each two, and nothing else.
pub proof fn law_joined(names: Seq<Seq<char>>, name: Seq<char>)
    ensures
        joined(Seq::empty()).len() == 0,
        joined(seq![name]) == name,
        names.len() > 0 ==> joined(names.push(name)) == joined(names) + ", "@ + name,
{
    assert(names.push(name).drop_last() =~= names);
}

/// The title starts with the file and a dash where there is a file, goes on with the roots, and
/// ends with an arrow down for a project that someone else shares, or else with an arrow up for
/// one that we share. A project without file and roots is called empty.
pub proof fn law_title(
    file: Seq<char>,
    roots: Seq<Seq<char>>,
    is_remote: bool,
    is_shared: bool,
)
    ensures
        ({
            let arrow = if is_remote {
                " ↙"@
            } else if is_shared {
                " ↗"@
            } else {
                Seq::empty()
            };
            &&& title(Some(file), roots, is_remote, is_shared) == file + " — "@ + joined(roots)
                + arrow
            &&& joined(roots).len() > 0 ==> title(None, roots, is_remote, is_shared) == joined(
                roots,
            ) + arrow
            &&& joined(roots).len() == 0 ==> title(None, roots, is_remote, is_shared)
                == "empty project"@ + arrow
        }),
{
    reveal_strlit(" — ");
    let subject = file + " — "@ + joined(roots);
    assert(subject.len() > 0);
    assert(subject + Seq::<char>::empty() =~= subject);
    assert(joined(roots) + Seq::<char>::empty() =~= joined(roots));
    assert("empty project"@ + Seq::<char>::empty() =~= "empty project"@);
}

/// A path is called by its last part; the root of a worktree by the name of that root, and one
/// in a worktree that is gone not at all. The title speaks of the project as it is.
pub proof fn law_window_title(cx: ContextView, path: ProjectPathView)
    ensures
        file_name(path.path) matches Some(name) ==> title_name(cx, path) == Some(lossy_text(name)),
        file_name(path.path) is None ==> match find_worktree(
            cx.project.worktrees,
            path.worktree_id,
            0,
        ) {
            Some(worktree) => title_name(cx, path) == Some(worktree.root_name),
            None => title_name(cx, path) is None,
        },
        window_title(cx, Some(path)) == title(
            title_name(cx, path),
            cx.project.worktree_root_names,
            cx.project.is_remote,
            cx.project.is_shared,
        ),
        window_title(cx, None) == title(
            None,
            cx.project.worktree_root_names,
            cx.project.is_remote,
            cx.project.is_shared,
        ),
{
}

} // verus!
