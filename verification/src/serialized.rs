//! What is stored of a workspace.

use crate::dock::{DockStructure, DockStructureView};
use crate::pane_group::Axis;
use crate::path::{path_views, ComponentView, PathBuf};
use vstd::prelude::*;

verus! {

/// The number under which a workspace is stored.
pub type WorkspaceId = i64;

/// The bounds of a window. The coordinates of fixed bounds are the bits of floating-point
/// numbers.
#[derive(Clone, Copy, Debug, PartialEq, Eq, Structural)]
pub enum WindowBounds {
    Fullscreen,
    Maximized,
    Fixed { x: u64, y: u64, width: u64, height: u64 },
}

/// An item as it is stored.
#[derive(Debug, PartialEq, Eq)]
pub struct SerializedItem {
    pub kind: String,
    pub item_id: u64,
    pub active: bool,
}

#[verifier::ext_equal]
pub struct SerializedItemView {
    pub kind: Seq<char>,
    pub item_id: u64,
    pub active: bool,
}

impl View for SerializedItem {
    type V = SerializedItemView;

    open spec fn view(&self) -> SerializedItemView {
        SerializedItemView { kind: self.kind@, item_id: self.item_id, active: self.active }
    }
}

/// A pane as it is stored.
#[derive(Debug, PartialEq, Eq)]
pub struct SerializedPane {
    pub children: Vec<SerializedItem>,
    pub active: bool,
}

#[verifier::ext_equal]
pub struct SerializedPaneView {
    pub children: Seq<SerializedItemView>,
    pub active: bool,
}

impl View for SerializedPane {
    type V = SerializedPaneView;

    open spec fn view(&self) -> SerializedPaneView {
        SerializedPaneView {
            children: self.children@.map_values(|i: SerializedItem| i@),
            active: self.active,
        }
    }
}

/// The tree of splits as it is stored.
#[derive(Debug, PartialEq, Eq)]
pub enum SerializedPaneGroup {
    Group { axis: Axis, flexes: Option<Vec<u32>>, children: Vec<SerializedPaneGroup> },
    Pane(SerializedPane),
}

#[verifier::ext_equal]
pub enum SerializedPaneGroupView {
    Group { axis: Axis, flexes: Option<Seq<u32>>, children: Seq<SerializedPaneGroupView> },
    Pane(SerializedPaneView),
}

pub open spec fn flexes_view(flexes: Option<Vec<u32>>) -> Option<Seq<u32>> {
    match flexes {
        Some(flexes) => Some(flexes@),
        None => None,
    }
}

/// The views of a list of stored groups.
pub open spec fn group_views(groups: Seq<SerializedPaneGroup>) -> Seq<SerializedPaneGroupView> {
    Seq::new(groups.len(), |i: int| groups[i]@)
}

impl SerializedPaneGroup {
    pub open spec fn view(&self) -> SerializedPaneGroupView
        decreases self,
    {
        match self {
            SerializedPaneGroup::Group { axis, flexes, children } => SerializedPaneGroupView::Group {
                axis: *axis,
                flexes: flexes_view(*flexes),
                children: Seq::new(
                    children@.len(),
                    |i: int|
                        if 0 <= i < children@.len() {
                            children@[i].view()
                        } else {
                            arbitrary()
                        },
                ),
            },
            SerializedPaneGroup::Pane(pane) => SerializedPaneGroupView::Pane(pane@),
        }
    }
}

pub proof fn lemma_group_view(group: SerializedPaneGroup)
    ensures
        group@ == (match group {
            SerializedPaneGroup::Group { axis, flexes, children } => SerializedPaneGroupView::Group {
                axis,
                flexes: flexes_view(flexes),
                children: group_views(children@),
            },
            SerializedPaneGroup::Pane(pane) => SerializedPaneGroupView::Pane(pane@),
        }),
{
    if let SerializedPaneGroup::Group { axis, flexes, children } = group {
        assert(group@->children =~= group_views(children@));
    }
}

/// A workspace as it is stored: where its project lies, its panes and its docks. The bounds
/// of its window and the display that shows it are stored apart.
#[derive(Debug, PartialEq, Eq)]
pub struct SerializedWorkspace {
    pub id: WorkspaceId,
    pub location: Vec<PathBuf>,
    pub center_group: SerializedPaneGroup,
    pub bounds: Option<WindowBounds>,
    pub display: Option<u128>,
    pub docks: DockStructure,
}

#[verifier::ext_equal]
pub struct SerializedWorkspaceView {
    pub id: WorkspaceId,
    pub location: Seq<Seq<ComponentView>>,
    pub center_group: SerializedPaneGroupView,
    pub bounds: Option<WindowBounds>,
    pub display: Option<u128>,
    pub docks: DockStructureView,
}

impl View for SerializedWorkspace {
    type V = SerializedWorkspaceView;

    open spec fn view(&self) -> SerializedWorkspaceView {
        SerializedWorkspaceView {
            id: self.id,
            location: path_views(self.location@),
            center_group: self.center_group@,
            bounds: self.bounds,
            display: self.display,
            docks: self.docks@,
        }
    }
}

} // verus!
