//! Plain values that describe windows, workspaces and outputs, and the actions
//! that a plan is made of.

use vstd::prelude::*;

verus! {

/// What the planner reads of a compositor window.
#[derive(Debug)]
pub struct Window {
    pub id: u64,
    pub app_id: Option<String>,
    pub pid: Option<i32>,
    pub workspace_id: Option<u64>,
    pub is_focused: bool,
    pub is_floating: bool,
    /// Column and row of a tiled window, both counted from one.
    pub pos_in_scrolling_layout: Option<(usize, usize)>,
    /// Width and height of the tile, rounded to whole pixels.
    pub tile_size: (i32, i32),
}

/// What the planner reads of a workspace.
#[derive(Debug)]
pub struct Workspace {
    pub id: u64,
    pub name: Option<String>,
    pub output: Option<String>,
    pub is_focused: bool,
    pub is_active: bool,
    pub active_window_id: Option<u64>,
}

/// The size of an output in the compositor's coordinate space, and its scale as
/// the bits of a double.
#[derive(Clone, Copy, Debug)]
pub struct LogicalSize {
    pub width: u32,
    pub height: u32,
    pub scale: u64,
}

/// An output by name. `logical` is absent while the output is disabled.
#[derive(Debug)]
pub struct Output {
    pub name: String,
    pub logical: Option<LogicalSize>,
}

/// A tiled window of one workspace: where it stands and how large its tile is.
#[derive(Clone, Copy, Debug, PartialEq, Eq, Structural)]
pub struct Tile {
    pub id: u64,
    pub column: usize,
    pub row: usize,
    pub width: i32,
    pub height: i32,
}

/// A new extent for a window.
#[derive(Clone, Copy, Debug, PartialEq, Eq, Structural)]
pub enum SizeChange {
    /// Logical pixels.
    SetFixed(i32),
    /// Percent of the working area.
    SetProportion(u32),
}

/// One request to the compositor.
#[derive(Clone, Copy, Debug, PartialEq, Eq, Structural)]
pub enum Action {
    SetWindowWidth { id: u64, change: SizeChange },
    SetWindowHeight { id: u64, change: SizeChange },
    ResetWindowHeight { id: u64 },
    ConsumeOrExpelWindowLeft { id: u64 },
    ConsumeOrExpelWindowRight { id: u64 },
    FocusWindow { id: u64 },
    CenterVisibleColumns,
}

impl Action {
    /// The window that the action names, if it names one.
    pub open spec fn target(self) -> Option<u64> {
        match self {
            Action::SetWindowWidth { id, .. } => Some(id),
            Action::SetWindowHeight { id, .. } => Some(id),
            Action::ResetWindowHeight { id } => Some(id),
            Action::ConsumeOrExpelWindowLeft { id } => Some(id),
            Action::ConsumeOrExpelWindowRight { id } => Some(id),
            Action::FocusWindow { id } => Some(id),
            Action::CenterVisibleColumns => None,
        }
    }
}

/// Which workspace a window belongs to, and whether it floats there.
pub type Membership = (Option<u64>, bool);

/// The membership of `window`.
pub fn membership(window: &Window) -> (m: Membership)
    ensures
        m == (window.workspace_id, window.is_floating),
{
    (window.workspace_id, window.is_floating)
}

} // verus!
