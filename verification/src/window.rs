//! Identifiers and state for the windows and workspaces a compositor reports.

use vstd::prelude::*;

verus! {

/// Opaque identifier of one toplevel window known to the compositor session.
///
/// Equality is by protocol object identity, modelled as an integer id. A
/// handle is minted when a window appears and must not be reused for a new
/// window after the window closes.
#[derive(Clone, Copy, Debug, PartialEq, Eq, Hash, Structural)]
pub struct WindowHandle {
    pub id: u64,
}

/// Opaque identifier of one workspace known to the compositor session.
#[derive(Clone, Copy, Debug, PartialEq, Eq, Hash, Structural)]
pub struct WorkspaceHandle {
    pub id: u64,
}

/// Everything the UI is told about one window. Replaced wholesale on every
/// update event; fields are never merged one by one.
#[derive(Clone, Debug)]
pub struct WindowInfo {
    pub title: String,
    pub app_id: String,
    pub minimized: bool,
    pub fullscreen: bool,
    pub activated: bool,
    pub workspace: Option<WorkspaceHandle>,
}

/// One workspace together with whether the compositor reports it active.
#[derive(Clone, Copy, Debug, PartialEq, Eq, Structural)]
pub struct Workspace {
    pub handle: WorkspaceHandle,
    pub active: bool,
}

/// One workspace group, as the compositor enumerates them.
#[derive(Clone, Debug)]
pub struct WorkspaceGroup {
    pub workspaces: Vec<Workspace>,
}

} // verus!
