//! Capture and protocol-bridging core for a desktop-shell applet.
//!
//! The library models the worker that sits between a compositor session and a
//! single-threaded UI: it tracks the set of open windows, reconciles that set
//! against the filter of windows the UI wants live thumbnails for, drives one
//! screen-capture state machine per filtered window, recycles the pixel
//! buffers frames are written into, and turns everything the UI must learn
//! about into an ordered stream of update values.
//!
//! All decisions are made here, on plain values, and verified; the event loop
//! that feeds compositor events in and carries updates and protocol actions
//! out is ordinary unverified glue around this crate.

mod bridge;
mod buffer;
mod capture;
mod order;
mod registry;
mod session;
mod window;
mod worker;

pub use bridge::{
    Action, ExecRequestData, ToplevelRequest, ToplevelUpdate, WaylandRequest, WaylandUpdate,
    WorkspaceUpdate,
};
pub use buffer::{
    find_match, lemma_acquire_preserves_absent, lemma_release_preserves_absent,
    lemma_spec_acquire_in_free_or_fresh, lemma_spec_acquire_sound, lemma_spec_release_wf,
    spec_acquire, spec_release, Buffer, BufferKind, BufferPool, CaptureImage, FormatOffer,
    PoolModel,
};
pub use capture::{
    capture_started, lemma_at_most_one_session, release_session, Capture, CaptureFilter,
    CaptureModel,
};
pub use order::{
    frames_ordered, is_add, is_capture, is_remove, lemma_add_precedes_capture,
    lemma_frames_ordered_push, lemma_no_capture_after_remove, lemma_open_has_add,
    lemma_open_in_push, open_in,
};
pub use registry::{
    distinct_buffers, find_source, holds_id, lemma_filter_session_invariant, lemma_find_source_props, lemma_reconcile_no_churn,
    reconcile_actions, reconcile_capture, reconcile_delta, reconcile_pool, registry_after_added,
    registry_after_removed, some_session_holds, CaptureRegistry, RegistryModel,
};
pub use session::{
    choose_offer, first_of_kind, lemma_frame_matches_negotiated_size, session_after_arm,
    session_after_failure, session_after_frame, session_after_offer, session_after_offers_done,
    session_after_resize, CaptureSession, SessionModel,
};
pub use window::{WindowHandle, WindowInfo, Workspace, WorkspaceGroup, WorkspaceHandle};
pub use worker::{
    first_active, first_active_in, lemma_acquire_never_aliases, toplevel_request_actions, AppData,
    WorkerModel,
};
