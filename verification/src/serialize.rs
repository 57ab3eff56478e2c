//! Putting what is shown into the form in which it is stored.

use crate::context::{Context, ContextView, Pane, WorktreeView};
use crate::dock::{DockStructure, DockStructureView};
use crate::pane_group::{leaves_of, lemma_member_view, member_views, Member, MemberView};
use crate::path::{path_views, ComponentView, PathBuf};
use crate::serialized::{
    group_views, lemma_group_view, SerializedItem, SerializedItemView, SerializedPane,
    SerializedPaneGroup, SerializedPaneGroupView, SerializedPaneView,
};
use vstd::prelude::*;

verus! {

/// The items of a pane that can be stored, in order.
pub open spec fn serialized_items(cx: ContextView, items: Seq<u64>, active: Option<u64>) -> Seq<
    SerializedItemView,
>
    decreases items.len(),
{
    if items.len() == 0 {
        Seq::empty()
    } else {
        let before = serialized_items(cx, items.drop_last(), active);
        match cx.item(items.last()) {
            Some(item) => match item.serialized_item_kind {
                Some(kind) => before.push(
                    SerializedItemView {
                        kind,
                        item_id: items.last(),
                        active: active == Some(items.last()),
                    },
                ),
                None => before,
            },
            None => before,
        }
    }
}

/// A pane in stored form: the items that can be stored, the active one marked, and whether
/// the pane has the focus.
pub open spec fn serialized_pane(cx: ContextView, pane: u64) -> SerializedPaneView {
    match cx.pane(pane) {
        Some(pane) => SerializedPaneView {
            children: serialized_items(cx, pane.items, pane.active_item()),
            active: pane.has_focus,
        },
        None => SerializedPaneView { children: Seq::empty(), active: false },
    }
}

/// A tree of splits in stored form, of the same shape.
pub open spec fn serialized_group(cx: ContextView, group: MemberView) -> SerializedPaneGroupView
    decreases group,
{
    match group {
        MemberView::Axis { axis, members, flexes } => SerializedPaneGroupView::Group {
            axis,
            flexes: Some(flexes),
            children: Seq::new(
                members.len(),
                |i: int|
                    if 0 <= i < members.len() {
                        serialized_group(cx, members[i])
                    } else {
                        arbitrary()
                    },
            ),
        },
        MemberView::Pane(pane) => SerializedPaneGroupView::Pane(serialized_pane(cx, pane)),
    }
}

/// The docks in stored form.
pub open spec fn serialized_docks(cx: ContextView) -> DockStructureView {
    DockStructureView {
        left: cx.left_dock.data(),
        right: cx.right_dock.data(),
        bottom: cx.bottom_dock.data(),
    }
}

/// The paths of the worktrees that are visible, in order.
pub open spec fn visible_paths(worktrees: Seq<WorktreeView>) -> Seq<Seq<ComponentView>>
    decreases worktrees.len(),
{
    if worktrees.len() == 0 {
        Seq::empty()
    } else {
        let before = visible_paths(worktrees.drop_last());
        if worktrees.last().visible {
            before.push(worktrees.last().abs_path)
        } else {
            before
        }
    }
}

fn serialize_items(cx: &Context, pane: &Pane) -> (children: Vec<SerializedItem>)
    ensures
        children@.map_values(|i: SerializedItem| i@) == serialized_items(
            cx@,
            pane@.items,
            pane@.active_item(),
        ),
{
    let active_item_id = pane.active_item();
    let mut children: Vec<SerializedItem> = Vec::new();
    let mut i: usize = 0;
    while i < pane.items.len()
        invariant
            i <= pane.items.len(),
            active_item_id == pane@.active_item(),
            children@.map_values(|i: SerializedItem| i@) =~= serialized_items(
                cx@,
                pane@.items.take(i as int),
                active_item_id,
            ),
        decreases pane.items.len() - i,
    {
        let id = pane.items[i];
        proof {
            assert(pane@.items.take(i + 1).drop_last() =~= pane@.items.take(i as int));
        }
        if let Some(item) = cx.item(id) {
            if let Some(kind) = &item.serialized_item_kind {
                children.push(
                    SerializedItem { kind: kind.clone(), item_id: id, active: Some(id) == active_item_id },
                );
            }
        }
        i += 1;
    }
    assert(pane@.items.take(i as int) =~= pane@.items);
    children
}

/// A pane in stored form.
pub fn serialize_pane_handle(pane: u64, cx: &Context) -> (serialized: SerializedPane)
    ensures
        serialized@ == serialized_pane(cx@, pane),
{
    match cx.pane(pane) {
        Some(pane) => {
            let children = serialize_items(cx, pane);
            SerializedPane { children, active: pane.has_focus }
        },
        None => {
            let children: Vec<SerializedItem> = Vec::new();
            assert(children@.map_values(|i: SerializedItem| i@) =~= Seq::empty());
            SerializedPane { children, active: false }
        },
    }
}

/// A tree of splits in stored form.
pub fn build_serialized_pane_group(group: &Member, cx: &Context) -> (serialized: SerializedPaneGroup)
    ensures
        serialized@ == serialized_group(cx@, group@),
    decreases group@,
{
    proof {
        lemma_member_view(*group);
    }
    match group {
        Member::Axis(axis) => {
            let mut children: Vec<SerializedPaneGroup> = Vec::new();
            let mut i: usize = 0;
            while i < axis.members.len()
                invariant
                    i <= axis.members.len(),
                    *group == Member::Axis(*axis),
                    children.len() == i,
                    forall|j: int|
                        0 <= j < i ==> (#[trigger] children@[j])@ == serialized_group(
                            cx@,
                            axis.members@[j]@,
                        ),
                decreases axis.members.len() - i,
            {
                proof {
                    lemma_member_view(*group);
                    assert(group@->members[i as int] == axis.members@[i as int]@);
                    assert(decreases_to!(group@ => group@->members[i as int]));
                }
                let child = build_serialized_pane_group(&axis.members[i], cx);
                children.push(child);
                i += 1;
            }
            let flexes = axis.flexes.clone();
            assert(flexes@ =~= axis.flexes@);
            let serialized = SerializedPaneGroup::Group {
                axis: axis.axis,
                flexes: Some(flexes),
                children,
            };
            proof {
                lemma_group_view(serialized);
                let whole = serialized_group(cx@, group@);
                assert forall|j: int| 0 <= j < i implies group_views(children@)[j]
                    == #[trigger] whole->children[j] by {
                    assert(children@[j]@ == serialized_group(cx@, axis.members@[j]@));
                    assert(member_views(axis.members@)[j] == axis.members@[j]@);
                }
                assert(group_views(children@) =~= whole->children);
            }
            serialized
        },
        Member::Pane(pane) => {
            let serialized = SerializedPaneGroup::Pane(serialize_pane_handle(*pane, cx));
            proof {
                lemma_group_view(serialized);
            }
            serialized
        },
    }
}

/// The docks in stored form.
pub fn build_serialized_docks(cx: &Context) -> (docks: DockStructure)
    ensures
        docks@ == serialized_docks(cx@),
{
    DockStructure {
        left: cx.left_dock.data(),
        right: cx.right_dock.data(),
        bottom: cx.bottom_dock.data(),
    }
}

/// Where the project lies: the paths of its visible worktrees, if it is local.
pub fn location(cx: &Context) -> (paths: Option<Vec<PathBuf>>)
    ensures
        match paths {
            Some(paths) => cx@.project.is_local && path_views(paths@) == visible_paths(
                cx@.project.worktrees,
            ),
            None => !cx@.project.is_local,
        },
{
    if !cx.project.is_local {
        return None;
    }
    let mut paths: Vec<PathBuf> = Vec::new();
    let mut i: usize = 0;
    let ghost worktrees = cx@.project.worktrees;
    while i < cx.project.worktrees.len()
        invariant
            i <= cx.project.worktrees.len(),
            worktrees == cx@.project.worktrees,
            path_views(paths@) =~= visible_paths(worktrees.take(i as int)),
        decreases cx.project.worktrees.len() - i,
    {
        proof {
            assert(worktrees[i as int] == cx.project.worktrees@[i as int]@);
            assert(worktrees.take(i + 1).drop_last() =~= worktrees.take(i as int));
        }
        if cx.project.worktrees[i].visible {
            let path = cx.project.worktrees[i].abs_path.clone();
            paths.push(path);
        }
        i += 1;
    }
    assert(worktrees.take(i as int) =~= worktrees);
    Some(paths)
}

/// The panes of a stored tree, in order.
pub open spec fn stored_panes_of(groups: Seq<SerializedPaneGroupView>) -> Seq<SerializedPaneView>
    decreases groups,
{
    if groups.len() == 0 {
        Seq::empty()
    } else {
        stored_panes(groups[0]) + stored_panes_of(groups.drop_first())
    }
}

pub open spec fn stored_panes(group: SerializedPaneGroupView) -> Seq<SerializedPaneView>
    decreases group,
{
    match group {
        SerializedPaneGroupView::Group { children, .. } => stored_panes_of(children),
        SerializedPaneGroupView::Pane(pane) => seq![pane],
    }
}

proof fn lemma_stored_panes_of(cx: ContextView, members: Seq<MemberView>, groups: Seq<SerializedPaneGroupView>)
    requires
        groups.len() == members.len(),
        forall|i: int| 0 <= i < members.len() ==> groups[i] == serialized_group(cx, #[trigger] members[i]),
    ensures
        stored_panes_of(groups) == leaves_of(members).map_values(
            |p: u64| serialized_pane(cx, p),
        ),
    decreases members,
{
    let f = |p: u64| serialized_pane(cx, p);
    if members.len() > 0 {
        law_every_pane_is_stored(cx, members[0]);
        assert(groups[0] == serialized_group(cx, members[0]));
        assert forall|i: int| 0 <= i < members.drop_first().len() implies groups.drop_first()[i]
            == serialized_group(cx, #[trigger] members.drop_first()[i]) by {
            assert(members.drop_first()[i] == members[i + 1]);
        }
        lemma_stored_panes_of(cx, members.drop_first(), groups.drop_first());
        assert(stored_panes_of(groups) =~= leaves_of(members).map_values(f));
    } else {
        assert(stored_panes_of(groups) =~= leaves_of(members).map_values(f));
    }
}

/// A tree is stored with all its panes, in their order, and no others.
pub proof fn law_every_pane_is_stored(cx: ContextView, group: MemberView)
    ensures
        stored_panes(serialized_group(cx, group)) == group.leaves().map_values(
            |p: u64| serialized_pane(cx, p),
        ),
    decreases group,
{
    let f = |p: u64| serialized_pane(cx, p);
    match group {
        MemberView::Axis { axis, members, flexes } => {
            let stored = serialized_group(cx, group);
            assert forall|i: int| 0 <= i < members.len() implies stored->children[i]
                == serialized_group(cx, #[trigger] members[i]) by {}
            lemma_stored_panes_of(cx, members, stored->children);
        },
        MemberView::Pane(pane) => {
            assert(stored_panes(serialized_group(cx, group)) =~= group.leaves().map_values(f));
        },
    }
}

proof fn lemma_visible_paths(worktrees: Seq<WorktreeView>)
    ensures
        visible_paths(worktrees) == worktrees.filter(|w: WorktreeView| w.visible).map_values(
            |w: WorktreeView| w.abs_path,
        ),
    decreases worktrees.len(),
{
    reveal(Seq::filter);
    let path = |w: WorktreeView| w.abs_path;
    let visible = |w: WorktreeView| w.visible;
    if worktrees.len() > 0 {
        let init = worktrees.drop_last();
        lemma_visible_paths(init);
        assert(init.filter(visible).push(worktrees.last()).map_values(path) =~= init.filter(
            visible,
        ).map_values(path).push(worktrees.last().abs_path));
    } else {
        assert(visible_paths(worktrees) =~= worktrees.filter(visible).map_values(path));
    }
}

/// The stored location is the paths of all visible worktrees, in their order.
pub proof fn law_location(worktrees: Seq<WorktreeView>)
    ensures
        visible_paths(worktrees) == worktrees.filter(|w: WorktreeView| w.visible).map_values(
            |w: WorktreeView| w.abs_path,
        ),
        forall|i: int|
            0 <= i < worktrees.len() && (#[trigger] worktrees[i]).visible ==> visible_paths(
                worktrees,
            ).contains(worktrees[i].abs_path),
{
    lemma_visible_paths(worktrees);
    assert forall|i: int|
        0 <= i < worktrees.len() && (#[trigger] worktrees[i]).visible implies visible_paths(
        worktrees,
    ).contains(worktrees[i].abs_path) by {
        let visible = worktrees.filter(|w: WorktreeView| w.visible);
        worktrees.lemma_filter_contains(|w: WorktreeView| w.visible, i);
        assert(visible.contains(worktrees[i]));
        let k = visible.index_of(worktrees[i]);
        assert(visible_paths(worktrees)[k] == worktrees[i].abs_path);
    }
}

/// Whether an item can be stored.
pub open spec fn can_be_stored(cx: ContextView, item: u64) -> bool {
    cx.item(item) matches Some(item) && item.serialized_item_kind is Some
}

/// The items of a pane that are stored are all those that can be, in their order and each with
/// its kind; the active one is marked, and no other.
pub proof fn law_stored_items(cx: ContextView, items: Seq<u64>, active: Option<u64>)
    ensures
        serialized_items(cx, items, active) == items.filter(
            |item: u64| can_be_stored(cx, item),
        ).map_values(
            |item: u64|
                SerializedItemView {
                    kind: cx.item(item)->Some_0.serialized_item_kind->Some_0,
                    item_id: item,
                    active: active == Some(item),
                },
        ),
    decreases items.len(),
{
    reveal(Seq::filter);
    let stored = |item: u64| can_be_stored(cx, item);
    let form = |item: u64|
        SerializedItemView {
            kind: cx.item(item)->Some_0.serialized_item_kind->Some_0,
            item_id: item,
            active: active == Some(item),
        };
    if items.len() > 0 {
        let init = items.drop_last();
        law_stored_items(cx, init, active);
        assert(init.filter(stored).push(items.last()).map_values(form) =~= init.filter(
            stored,
        ).map_values(form).push(form(items.last())));
    } else {
        assert(serialized_items(cx, items, active) =~= items.filter(stored).map_values(form));
    }
}

/// A pane is stored with the items that can be, with the item at its active place marked, and
/// as active exactly if it has the focus.
pub proof fn law_stored_pane(cx: ContextView, pane: u64)
    ensures
        cx.pane(pane) matches Some(found) ==> {
            &&& serialized_pane(cx, pane).active == found.has_focus
            &&& serialized_pane(cx, pane).children == serialized_items(
                cx,
                found.items,
                if 0 <= found.active_item_index < found.items.len() {
                    Some(found.items[found.active_item_index as int])
                } else {
                    None
                },
            )
        },
{
}

/// A tree is stored in its shape: an axis as an axis in the same direction with the same
/// flexes and as many members, each stored in its place; and a pane as a pane.
pub proof fn law_stored_shape(cx: ContextView, group: MemberView)
    ensures
        match group {
            MemberView::Axis { axis, members, flexes } => {
                &&& serialized_group(cx, group) matches SerializedPaneGroupView::Group {
                    axis: stored_axis,
                    flexes: stored_flexes,
                    children,
                }
                &&& stored_axis == axis
                &&& stored_flexes == Some(flexes)
                &&& children.len() == members.len()
                &&& forall|i: int|
                    0 <= i < members.len() ==> #[trigger] children[i] == serialized_group(
                        cx,
                        members[i],
                    )
            },
            MemberView::Pane(pane) => serialized_group(cx, group)
                == SerializedPaneGroupView::Pane(serialized_pane(cx, pane)),
        },
{
}

/// Each dock is stored on its side.
pub proof fn law_stored_docks(cx: ContextView)
    ensures
        serialized_docks(cx).left == cx.left_dock.data(),
        serialized_docks(cx).right == cx.right_dock.data(),
        serialized_docks(cx).bottom == cx.bottom_dock.data(),
        serialized_docks(cx).left.visible == cx.left_dock.is_open,
        serialized_docks(cx).right.visible == cx.right_dock.is_open,
        serialized_docks(cx).bottom.visible == cx.bottom_dock.is_open,
{
}

} // verus!
