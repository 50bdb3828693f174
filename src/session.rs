//! Editor session records: cursor and selection positions, open tabs, panel
//! layout and window geometry.
use vstd::prelude::*;

verus! {

#[derive(PartialEq, Eq, Structural, Clone, Copy, Debug)]
pub struct CursorPosition {
    pub line: u32,
    pub column: u32,
}

#[derive(PartialEq, Eq, Structural, Clone, Copy, Debug)]
pub struct Selection {
    pub start_line: u32,
    pub start_column: u32,
    pub end_line: u32,
    pub end_column: u32,
}

#[derive(PartialEq, Eq, Structural, Clone, Copy, Debug)]
pub struct FoldedRegion {
    pub start_line: u32,
    pub end_line: u32,
}

pub struct OpenTab {
    pub path: String,
    pub is_pinned: bool,
    pub is_preview: bool,
}

#[derive(PartialEq, Eq, Structural, Clone, Copy, Debug)]
pub struct PanelState {
    pub visible: bool,
    pub width: Option<u32>,
    pub height: Option<u32>,
}

pub struct PanelsState {
    pub sidebar: PanelState,
    pub terminal: PanelState,
    pub ai_panel: PanelState,
    pub bottom_panel_tab: String,
}

pub struct RecentWorkspace {
    pub path: String,
    pub name: String,
    pub last_opened: i64,
}

#[derive(PartialEq, Eq, Structural, Clone, Copy, Debug)]
pub struct WindowState {
    pub x: Option<i32>,
    pub y: Option<i32>,
    pub width: u32,
    pub height: u32,
    pub maximized: bool,
}

#[derive(PartialEq, Eq, Structural, Clone, Copy, Debug)]
pub enum SessionEventType {
    WorkspaceOpened,
    WorkspaceClosed,
    TabOpened,
    TabClosed,
    ActiveFileChanged,
    EditorStateChanged,
    PanelStateChanged,
    SessionRestored,
    SessionSaved,
}

/// The layout of a fresh workspace: a 256-wide sidebar shown, a 300-high
/// terminal and a 400-wide assistant panel hidden, the problems tab selected.
pub fn default_panels_state() -> (r: PanelsState)
    ensures
        r.sidebar == (PanelState { visible: true, width: Some(256u32), height: None }),
        r.terminal == (PanelState { visible: false, width: None, height: Some(300u32) }),
        r.ai_panel == (PanelState { visible: false, width: Some(400u32), height: None }),
        r.bottom_panel_tab@ == "problems"@,
{
    PanelsState {
        sidebar: PanelState { visible: true, width: Some(256), height: None },
        terminal: PanelState { visible: false, width: None, height: Some(300) },
        ai_panel: PanelState { visible: false, width: Some(400), height: None },
        bottom_panel_tab: String::from_str("problems"),
    }
}

impl Default for PanelState {
    /// A visible panel of no fixed size.
    fn default() -> (r: PanelState)
        ensures
            r == (PanelState { visible: true, width: None, height: None }),
    {
        PanelState { visible: true, width: None, height: None }
    }
}

impl Default for PanelsState {
    fn default() -> (r: PanelsState)
        ensures
            r.sidebar == (PanelState { visible: true, width: Some(256u32), height: None }),
            r.terminal == (PanelState { visible: false, width: None, height: Some(300u32) }),
            r.ai_panel == (PanelState { visible: false, width: Some(400u32), height: None }),
            r.bottom_panel_tab@ == "problems"@,
    {
        default_panels_state()
    }
}

impl Default for WindowState {
    /// A 1280 by 720 window, not maximized, placed by the system.
    fn default() -> (r: WindowState)
        ensures
            r == (WindowState { x: None, y: None, width: 1280u32, height: 720u32, maximized: false }),
    {
        WindowState { x: None, y: None, width: 1280, height: 720, maximized: false }
    }
}

} // verus!
