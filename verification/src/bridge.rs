//! The values that cross between the worker, the UI, and the event loop.
//!
//! `WaylandRequest` values travel from the UI to the worker; `WaylandUpdate`
//! values travel back and are the only thing the UI ever observes. `Action`
//! values name the one-shot protocol calls the worker has decided on, for the
//! surrounding event loop to perform against the compositor.

use vstd::prelude::*;

use crate::buffer::CaptureImage;
use crate::capture::CaptureFilter;
use crate::window::{WindowHandle, WindowInfo, WorkspaceHandle};

verus! {

/// What the worker tells the UI.
#[derive(Clone, Debug)]
pub enum WaylandUpdate {
    /// The worker is done: its command channel closed and it will emit
    /// nothing further.
    Finished,
    Toplevel(ToplevelUpdate),
    Workspace(WorkspaceUpdate),
    /// The answer to a token request. `token` is `None` when the compositor
    /// offers no activation-token support, so the UI is never left waiting.
    ActivationToken { token: Option<String>, exec_cmd: String, gpu_idx: Option<usize> },
    /// A freshly captured frame for one window.
    ToplevelCapture(WindowHandle, CaptureImage),
}

/// Window lifecycle news: the info value always replaces the old one whole.
#[derive(Clone, Debug)]
pub enum ToplevelUpdate {
    Add(WindowHandle, WindowInfo),
    Update(WindowHandle, WindowInfo),
    Remove(WindowHandle),
}

/// Workspace news.
#[derive(Clone, Copy, Debug, PartialEq, Eq, Structural)]
pub enum WorkspaceUpdate {
    Enter(WorkspaceHandle),
}

/// What the UI asks the worker to do.
#[derive(Clone, Debug)]
pub enum WaylandRequest {
    Toplevel(ToplevelRequest),
    TokenRequest { app_id: String, exec_cmd: String, gpu_idx: Option<usize> },
    CaptureFilter(CaptureFilter),
}

/// One-shot window-management commands.
#[derive(Debug, Clone, Copy, PartialEq, Eq, Structural)]
pub enum ToplevelRequest {
    Activate(WindowHandle),
    Minimize(WindowHandle),
    Quit(WindowHandle),
}

/// A protocol call the worker has decided to make. The event loop performs
/// each action against the compositor in order; no local state depends on
/// when it completes.
#[derive(Clone, Debug)]
pub enum Action {
    Activate(WindowHandle),
    Minimize(WindowHandle),
    Quit(WindowHandle),
    RequestToken { app_id: String, exec_cmd: String, gpu_idx: Option<usize> },
    CreateSession(WindowHandle),
    DestroySession(WindowHandle),
}

/// The data a pending activation-token request carries: who asked, what will
/// be executed with the token, and on which GPU.
#[derive(Clone, Debug)]
pub struct ExecRequestData {
    pub app_id: Option<String>,
    pub exec_cmd: String,
    pub gpu_idx: Option<usize>,
}

impl ExecRequestData {
    pub fn app_id(&self) -> (r: &Option<String>)
        ensures
            r == &self.app_id,
    {
        &self.app_id
    }
}

} // verus!
