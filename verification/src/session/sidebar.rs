//! Sidebar visibility: shown automatically once two or more sessions exist,
//! unless the user toggled it by hand.
use vstd::prelude::*;

verus! {

/// The sidebar's state, independent of any GUI.
#[derive(Debug)]
pub struct SidebarState {
    /// Width in cells.
    pub width_cells: usize,
    /// The sidebar is shown.
    pub visible: bool,
    /// The user toggled it; automatic updates leave it alone.
    pub manual_override: bool,
}

impl SidebarState {
    /// The user's toggle is in force.
    pub open spec fn overridden(&self) -> bool {
        self.manual_override
    }

    /// A hidden sidebar of 20 cells, not overridden.
    pub fn new() -> (r: Self)
        ensures
            r.width_cells == 20,
            !r.visible,
            !r.overridden(),
    {
        SidebarState { width_cells: 20, visible: false, manual_override: false }
    }

    /// Follows the session count: one session or none hides the sidebar and
    /// ends any manual override; more show it unless overridden.
    pub fn auto_update(&mut self, session_count: usize)
        ensures
            final(self).width_cells == old(self).width_cells,
            session_count <= 1 ==> !final(self).visible && !final(self).overridden(),
            session_count > 1 ==> final(self).overridden() == old(self).overridden() && final(self).visible == (
            if old(self).overridden() { old(self).visible } else { true }),
    {
        if session_count <= 1 {
            self.visible = false;
            self.manual_override = false;
        } else if !self.manual_override {
            self.visible = true;
        }
    }

    /// Flips the visibility by hand.
    pub fn toggle(&mut self)
        ensures
            final(self).width_cells == old(self).width_cells,
            final(self).visible == !old(self).visible,
            final(self).overridden(),
    {
        self.visible = !self.visible;
        self.manual_override = true;
    }

    /// Whether the user's toggle is in force.
    pub fn manual_override(&self) -> (r: bool)
        ensures
            r == self.overridden(),
    {
        self.manual_override
    }
}

impl Default for SidebarState {
    fn default() -> (r: Self)
        ensures
            r.width_cells == 20,
            !r.visible,
            !r.overridden(),
    {
        SidebarState::new()
    }
}

} // verus!
