//! The docks at the sides of a workspace, and the panels in them.

use vstd::prelude::*;

verus! {

#[derive(Clone, Copy, Debug, PartialEq, Eq, Structural)]
pub enum DockPosition {
    Left,
    Bottom,
    Right,
}

/// A panel, as far as the workspace looks at it.
#[derive(Debug, PartialEq, Eq)]
pub struct Panel {
    pub id: u64,
    pub persistent_name: String,
    pub ui_name: String,
    pub zoomed: bool,
    pub has_focus: bool,
}

#[verifier::ext_equal]
pub struct PanelView {
    pub id: u64,
    pub persistent_name: Seq<char>,
    pub ui_name: Seq<char>,
    pub zoomed: bool,
    pub has_focus: bool,
}

impl View for Panel {
    type V = PanelView;

    open spec fn view(&self) -> PanelView {
        PanelView {
            id: self.id,
            persistent_name: self.persistent_name@,
            ui_name: self.ui_name@,
            zoomed: self.zoomed,
            has_focus: self.has_focus,
        }
    }
}

/// A dock: its panels, which of them is active, and whether the dock is open.
#[derive(Debug, PartialEq, Eq)]
pub struct Dock {
    pub position: DockPosition,
    pub is_open: bool,
    pub panels: Vec<Panel>,
    pub active_panel_index: usize,
}

#[verifier::ext_equal]
pub struct DockView {
    pub position: DockPosition,
    pub is_open: bool,
    pub panels: Seq<PanelView>,
    pub active_panel_index: int,
}

impl View for Dock {
    type V = DockView;

    open spec fn view(&self) -> DockView {
        DockView {
            position: self.position,
            is_open: self.is_open,
            panels: self.panels@.map_values(|p: Panel| p@),
            active_panel_index: self.active_panel_index as int,
        }
    }
}

/// The place of the first panel with the given name, from `i` on.
pub open spec fn panel_place(panels: Seq<PanelView>, ui_name: Seq<char>, i: int) -> Option<int>
    decreases panels.len() - i,
{
    if i < 0 || i >= panels.len() {
        None
    } else if panels[i].ui_name == ui_name {
        Some(i)
    } else {
        panel_place(panels, ui_name, i + 1)
    }
}

impl DockView {
    pub open spec fn active_panel(self) -> Option<PanelView> {
        if 0 <= self.active_panel_index < self.panels.len() {
            Some(self.panels[self.active_panel_index])
        } else {
            None
        }
    }

    pub open spec fn visible_panel(self) -> Option<PanelView> {
        if self.is_open {
            self.active_panel()
        } else {
            None
        }
    }

    pub open spec fn set_open(self, open: bool) -> DockView {
        DockView { is_open: open, ..self }
    }

    pub open spec fn zoom_out(self) -> DockView {
        DockView {
            panels: self.panels.map_values(|p: PanelView| PanelView { zoomed: false, ..p }),
            ..self
        }
    }

    /// The dock in which no panel has the focus.
    pub open spec fn blur(self) -> DockView {
        DockView {
            panels: self.panels.map_values(|p: PanelView| PanelView { has_focus: false, ..p }),
            ..self
        }
    }

    pub open spec fn activate_panel(self, index: int) -> DockView {
        DockView { active_panel_index: index, ..self }
    }

    /// The dock with the zoom of its active panel set, if it has one.
    pub open spec fn set_active_panel_zoomed(self, zoomed: bool) -> DockView {
        if 0 <= self.active_panel_index < self.panels.len() {
            DockView {
                panels: self.panels.update(
                    self.active_panel_index,
                    PanelView { zoomed, ..self.panels[self.active_panel_index] },
                ),
                ..self
            }
        } else {
            self
        }
    }

    /// What is stored of the dock.
    pub open spec fn data(self) -> DockDataView {
        DockDataView {
            visible: self.is_open,
            active_panel: match self.visible_panel() {
                Some(panel) => Some(panel.persistent_name),
                None => None,
            },
            zoom: match self.visible_panel() {
                Some(panel) => panel.zoomed,
                None => false,
            },
        }
    }

    /// The dock as stored data has it: open or not, with the named panel active where the
    /// dock has it, and that panel zoomed or not.
    pub open spec fn restore(self, data: DockDataView) -> DockView {
        let opened = self.set_open(data.visible);
        let chosen = match data.active_panel {
            Some(name) => match panel_place(opened.panels, name, 0) {
                Some(index) => opened.activate_panel(index),
                None => opened,
            },
            None => opened,
        };
        chosen.set_active_panel_zoomed(data.zoom)
    }
}

/// What is stored of a dock.
#[derive(Debug, PartialEq, Eq)]
pub struct DockData {
    pub visible: bool,
    pub active_panel: Option<String>,
    pub zoom: bool,
}

#[verifier::ext_equal]
pub struct DockDataView {
    pub visible: bool,
    pub active_panel: Option<Seq<char>>,
    pub zoom: bool,
}

/// The view of an optional string.
pub open spec fn text_view(text: Option<String>) -> Option<Seq<char>> {
    match text {
        Some(text) => Some(text@),
        None => None,
    }
}

impl View for DockData {
    type V = DockDataView;

    open spec fn view(&self) -> DockDataView {
        DockDataView {
            visible: self.visible,
            active_panel: text_view(self.active_panel),
            zoom: self.zoom,
        }
    }
}

/// What is stored of all docks.
#[derive(Debug, PartialEq, Eq)]
pub struct DockStructure {
    pub left: DockData,
    pub right: DockData,
    pub bottom: DockData,
}

#[verifier::ext_equal]
pub struct DockStructureView {
    pub left: DockDataView,
    pub right: DockDataView,
    pub bottom: DockDataView,
}

impl View for DockStructure {
    type V = DockStructureView;

    open spec fn view(&self) -> DockStructureView {
        DockStructureView { left: self.left@, right: self.right@, bottom: self.bottom@ }
    }
}

impl Dock {
    /// A closed dock without panels.
    pub fn new(position: DockPosition) -> (dock: Dock)
        ensures
            dock@ == (DockView {
                position,
                is_open: false,
                panels: Seq::empty(),
                active_panel_index: 0,
            }),
    {
        let dock = Dock { position, is_open: false, panels: Vec::new(), active_panel_index: 0 };
        assert(dock@.panels =~= Seq::empty());
        dock
    }

    /// The panel that is active, whether or not the dock is open.
    pub fn active_panel(&self) -> (panel: Option<&Panel>)
        ensures
            match panel {
                Some(panel) => self@.active_panel() == Some(panel@),
                None => self@.active_panel() is None,
            },
    {
        if self.active_panel_index < self.panels.len() {
            Some(&self.panels[self.active_panel_index])
        } else {
            None
        }
    }

    /// The active panel of an open dock.
    pub fn visible_panel(&self) -> (panel: Option<&Panel>)
        ensures
            match panel {
                Some(panel) => self@.visible_panel() == Some(panel@),
                None => self@.visible_panel() is None,
            },
    {
        if self.is_open {
            self.active_panel()
        } else {
            None
        }
    }

    pub fn set_open(&mut self, open: bool)
        ensures
            final(self)@ == old(self)@.set_open(open),
    {
        self.is_open = open;
    }

    /// Takes the zoom from every panel.
    pub fn zoom_out(&mut self)
        ensures
            final(self)@ == old(self)@.zoom_out(),
    {
        let ghost before = self@;
        let mut i: usize = 0;
        while i < self.panels.len()
            invariant
                i <= self.panels.len(),
                before == old(self)@,
                self.position == before.position,
                self.is_open == before.is_open,
                self.active_panel_index == before.active_panel_index,
                self.panels.len() == before.panels.len(),
                forall|j: int|
                    0 <= j < i ==> (#[trigger] self.panels@[j])@ == before.zoom_out().panels[j],
                forall|j: int|
                    i <= j < self.panels.len() ==> (#[trigger] self.panels@[j])@ == before.panels[j],
            decreases self.panels.len() - i,
        {
            assert(self.panels@[i as int]@ == before.panels[i as int]);
            self.panels[i].zoomed = false;
            i += 1;
        }
        assert(self@.panels =~= before.zoom_out().panels);
    }

    /// Takes the focus from every panel.
    pub fn blur(&mut self)
        ensures
            final(self)@ == old(self)@.blur(),
    {
        let ghost before = self@;
        let mut i: usize = 0;
        while i < self.panels.len()
            invariant
                i <= self.panels.len(),
                before == old(self)@,
                self.position == before.position,
                self.is_open == before.is_open,
                self.active_panel_index == before.active_panel_index,
                self.panels.len() == before.panels.len(),
                forall|j: int|
                    0 <= j < i ==> (#[trigger] self.panels@[j])@ == before.blur().panels[j],
                forall|j: int|
                    i <= j < self.panels.len() ==> (#[trigger] self.panels@[j])@ == before.panels[j],
            decreases self.panels.len() - i,
        {
            assert(self.panels@[i as int]@ == before.panels[i as int]);
            self.panels[i].has_focus = false;
            i += 1;
        }
        assert(self@.panels =~= before.blur().panels);
    }

    pub fn activate_panel(&mut self, index: usize)
        ensures
            final(self)@ == old(self)@.activate_panel(index as int),
    {
        self.active_panel_index = index;
    }

    /// The place of the first panel with the given name.
    pub fn panel_index_for_ui_name(&self, ui_name: &String) -> (index: Option<usize>)
        ensures
            panel_place(self@.panels, ui_name@, 0) == (match index {
                Some(index) => Some(index as int),
                None => None,
            }),
    {
        let mut i: usize = 0;
        while i < self.panels.len()
            invariant
                i <= self.panels.len(),
                panel_place(self@.panels, ui_name@, 0) == panel_place(self@.panels, ui_name@, i as int),
            decreases self.panels.len() - i,
        {
            if self.panels[i].ui_name == *ui_name {
                return Some(i);
            }
            i += 1;
        }
        None
    }

    /// Sets the zoom of the active panel, if there is one.
    pub fn set_active_panel_zoomed(&mut self, zoomed: bool)
        ensures
            final(self)@ == old(self)@.set_active_panel_zoomed(zoomed),
    {
        let i = self.active_panel_index;
        if i < self.panels.len() {
            let ghost before = self@;
            self.panels[i].zoomed = zoomed;
            assert(self@.panels =~= before.set_active_panel_zoomed(zoomed).panels);
        }
    }

    /// What is stored of the dock.
    pub fn data(&self) -> (data: DockData)
        ensures
            data@ == self@.data(),
    {
        match self.visible_panel() {
            Some(panel) => DockData {
                visible: self.is_open,
                active_panel: Some(panel.persistent_name.clone()),
                zoom: panel.zoomed,
            },
            None => DockData { visible: self.is_open, active_panel: None, zoom: false },
        }
    }

    /// Opens or closes the dock, chooses the active panel and sets its zoom, as stored
    /// data says.
    pub fn restore(&mut self, data: &DockData)
        ensures
            final(self)@ == old(self)@.restore(data@),
    {
        self.set_open(data.visible);
        match &data.active_panel {
            Some(name) => {
                match self.panel_index_for_ui_name(name) {
                    Some(index) => {
                        self.activate_panel(index);
                    },
                    None => {},
                }
            },
            None => {},
        }
        self.set_active_panel_zoomed(data.zoom);
    }
}

proof fn lemma_panel_place(panels: Seq<PanelView>, ui_name: Seq<char>, i: int, k: int)
    requires
        0 <= i <= k < panels.len(),
        panels[k].ui_name == ui_name,
    ensures
        panel_place(panels, ui_name, i) matches Some(p) && i <= p <= k && panels[p].ui_name == ui_name,
    decreases k - i,
{
    if panels[i].ui_name != ui_name {
        lemma_panel_place(panels, ui_name, i + 1, k);
    }
}

/// A dock is restored as it was stored: what is stored of `saved`, read back into a dock
/// with the same panels, is stored again as the same data.
pub proof fn law_dock_round_trip(saved: DockView, target: DockView)
    requires
        saved.panels.len() == target.panels.len(),
        saved.panels.len() > 0 ==> 0 <= saved.active_panel_index < saved.panels.len(),
        forall|i: int|
            0 <= i < saved.panels.len() ==> (#[trigger] saved.panels[i]).persistent_name
                == target.panels[i].persistent_name,
        forall|i: int|
            0 <= i < target.panels.len() ==> (#[trigger] target.panels[i]).ui_name
                == target.panels[i].persistent_name,
    ensures
        target.restore(saved.data()).data() == saved.data(),
{
    if saved.is_open && saved.panels.len() > 0 {
        let k = saved.active_panel_index;
        let name = saved.panels[k].persistent_name;
        assert(target.panels[k].ui_name == name);
        lemma_panel_place(target.panels, name, 0, k);
        let p = panel_place(target.panels, name, 0)->0;
        assert(target.panels[p].persistent_name == name);
    }
}

/// What is stored of a dock: whether it is open, and where a panel is shown its name and
/// whether it is zoomed.
pub proof fn law_dock_data(dock: DockView)
    ensures
        dock.data().visible == dock.is_open,
        dock.is_open && 0 <= dock.active_panel_index < dock.panels.len() ==> {
            let panel = dock.panels[dock.active_panel_index];
            &&& dock.data().active_panel == Some(panel.persistent_name)
            &&& dock.data().zoom == panel.zoomed
        },
        !dock.is_open || dock.active_panel_index >= dock.panels.len() || dock.active_panel_index
            < 0 ==> dock.data().active_panel is None && !dock.data().zoom,
{
}

proof fn lemma_panel_place_none(panels: Seq<PanelView>, ui_name: Seq<char>, i: int)
    requires
        0 <= i <= panels.len(),
        forall|k: int| i <= k < panels.len() ==> (#[trigger] panels[k]).ui_name != ui_name,
    ensures
        panel_place(panels, ui_name, i) is None,
    decreases panels.len() - i,
{
    if i < panels.len() {
        lemma_panel_place_none(panels, ui_name, i + 1);
    }
}

proof fn lemma_panel_place_first(panels: Seq<PanelView>, ui_name: Seq<char>, i: int, k: int)
    requires
        0 <= i <= k < panels.len(),
        panels[k].ui_name == ui_name,
        forall|j: int| i <= j < k ==> (#[trigger] panels[j]).ui_name != ui_name,
    ensures
        panel_place(panels, ui_name, i) == Some(k),
    decreases k - i,
{
    if i < k {
        lemma_panel_place_first(panels, ui_name, i + 1, k);
    }
}

/// A dock into which data is read is open exactly if the data says so. The first panel with the
/// stored name is active; where there is none, or no name is stored, the same panel as before.
/// The active panel is zoomed as the data says, and the others are left as they were.
pub proof fn law_dock_restore(dock: DockView, data: DockDataView, k: int)
    ensures
        ({
            let after = dock.restore(data);
            &&& after.is_open == data.visible
            &&& after.position == dock.position
            &&& after.panels.len() == dock.panels.len()
            &&& data.active_panel matches Some(name) ==> (0 <= k < dock.panels.len()
                && dock.panels[k].ui_name == name && (forall|j: int|
                0 <= j < k ==> (#[trigger] dock.panels[j]).ui_name != name)
                ==> after.active_panel_index == k)
            &&& (match data.active_panel {
                Some(name) => forall|j: int|
                    0 <= j < dock.panels.len() ==> (#[trigger] dock.panels[j]).ui_name != name,
                None => true,
            }) ==> after.active_panel_index == dock.active_panel_index
            &&& 0 <= k < dock.panels.len() ==> after.panels[k] == (PanelView {
                zoomed: if k == after.active_panel_index {
                    data.zoom
                } else {
                    dock.panels[k].zoomed
                },
                ..dock.panels[k]
            })
        }),
{
    if let Some(name) = data.active_panel {
        if 0 <= k < dock.panels.len() && dock.panels[k].ui_name == name && (forall|j: int|
            0 <= j < k ==> (#[trigger] dock.panels[j]).ui_name != name) {
            lemma_panel_place_first(dock.panels, name, 0, k);
        }
        if forall|j: int|
            0 <= j < dock.panels.len() ==> (#[trigger] dock.panels[j]).ui_name != name {
            lemma_panel_place_none(dock.panels, name, 0);
        }
    }
}

/// Zooming out and taking the focus reach every panel of a dock, and change nothing else of it.
pub proof fn law_dock_panels(dock: DockView, i: int)
    requires
        0 <= i < dock.panels.len(),
    ensures
        dock.zoom_out().panels.len() == dock.panels.len(),
        dock.zoom_out().panels[i] == (PanelView { zoomed: false, ..dock.panels[i] }),
        dock.zoom_out().is_open == dock.is_open,
        dock.zoom_out().active_panel_index == dock.active_panel_index,
        dock.blur().panels.len() == dock.panels.len(),
        dock.blur().panels[i] == (PanelView { has_focus: false, ..dock.panels[i] }),
        dock.blur().is_open == dock.is_open,
        dock.blur().active_panel_index == dock.active_panel_index,
        dock.active_panel() == Some(dock.panels[i]) || dock.active_panel_index != i,
        dock.is_open && dock.active_panel_index == i ==> dock.visible_panel() == Some(
            dock.panels[i],
        ),
        !dock.is_open ==> dock.visible_panel() is None,
{
}

} // verus!
