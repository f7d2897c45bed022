use capture_core::{
    Action, AppData, BufferPool, Capture, CaptureFilter, CaptureSession, ToplevelUpdate,
    WaylandRequest, WaylandUpdate, WindowHandle, WindowInfo, WorkspaceHandle,
};

fn handle(id: u64) -> WindowHandle {
    WindowHandle { id }
}

fn info(title: &str) -> WindowInfo {
    WindowInfo {
        title: title.to_string(),
        app_id: "com.example.app".to_string(),
        minimized: false,
        fullscreen: false,
        activated: false,
        workspace: Some(WorkspaceHandle { id: 1 }),
    }
}

fn filter_of(ids: &[u64]) -> CaptureFilter {
    CaptureFilter {
        toplevels: ids.iter().map(|id| WindowHandle { id: *id }).collect(),
    }
}

fn worker() -> AppData {
    AppData::new(8, false, true, true)
}

fn session_of(d: &AppData, id: u64) -> Option<&CaptureSession> {
    Capture::for_session(&d.registry, handle(id)).and_then(|c| c.session.as_ref())
}

#[test]
fn start_is_idempotent() {
    let mut c = Capture::new(handle(1));
    assert!(c.session.is_none());
    let first = c.start();
    assert!(first);
    assert!(matches!(c.session, Some(CaptureSession::Negotiating { .. })));
    let second = c.start();
    assert!(!second);
    assert!(matches!(c.session, Some(CaptureSession::Negotiating { .. })));
}

#[test]
fn stop_is_idempotent() {
    let mut pool = BufferPool::new(4, false);
    let mut c = Capture::new(handle(1));
    let stopped_fresh = c.stop(&mut pool);
    assert!(!stopped_fresh);
    c.start();
    let stopped = c.stop(&mut pool);
    assert!(stopped);
    assert!(c.session.is_none());
    let stopped_again = c.stop(&mut pool);
    assert!(!stopped_again);
}

#[test]
fn capture_holds_at_most_one_session() {
    let mut c = Capture::new(handle(7));
    c.start();
    c.start();
    c.start();
    // The session slot is a single option: there is one session, never two.
    let mut live: u32 = 0;
    if c.session.is_some() {
        live += 1;
    }
    assert_eq!(live, 1);
}

#[test]
fn session_follows_filter_membership() {
    let mut d = worker();
    d.new_toplevel(handle(1), info("one"));
    d.new_toplevel(handle(2), info("two"));
    // Nothing filtered yet: no sessions.
    assert!(session_of(&d, 1).is_none());
    assert!(session_of(&d, 2).is_none());

    d.handle_request(WaylandRequest::CaptureFilter(filter_of(&[1])));
    assert!(session_of(&d, 1).is_some());
    assert!(session_of(&d, 2).is_none());

    // A window that appears while already in the filter starts at once.
    d.handle_request(WaylandRequest::CaptureFilter(filter_of(&[1, 3])));
    d.new_toplevel(handle(3), info("three"));
    assert!(session_of(&d, 3).is_some());

    // Emptying the filter stops everything.
    d.handle_request(WaylandRequest::CaptureFilter(filter_of(&[])));
    assert!(session_of(&d, 1).is_none());
    assert!(session_of(&d, 3).is_none());
}

#[test]
fn unchanged_membership_is_not_churned() {
    let mut d = worker();
    d.new_toplevel(handle(1), info("one"));
    d.new_toplevel(handle(2), info("two"));
    d.handle_request(WaylandRequest::CaptureFilter(filter_of(&[1])));
    let _ = d.take_actions();

    // Same membership again: no create, no destroy.
    d.handle_request(WaylandRequest::CaptureFilter(filter_of(&[1])));
    let actions = d.take_actions();
    assert!(actions.is_empty());

    // Swapping window 2 in and window 1 out churns exactly those two.
    d.handle_request(WaylandRequest::CaptureFilter(filter_of(&[2])));
    let actions = d.take_actions();
    assert_eq!(actions.len(), 2);
    assert!(actions.iter().any(|a| matches!(a, Action::DestroySession(w) if w.id == 1)));
    assert!(actions.iter().any(|a| matches!(a, Action::CreateSession(w) if w.id == 2)));
}

#[test]
fn double_removal_is_safe() {
    let mut d = worker();
    d.new_toplevel(handle(1), info("one"));
    d.handle_request(WaylandRequest::CaptureFilter(filter_of(&[1])));
    d.toplevel_closed(handle(1));
    d.toplevel_closed(handle(1));
    assert!(d.registry.captures.is_empty());
    let updates = d.take_updates();
    let removes = updates
        .iter()
        .filter(|u| {
            matches!(
                u,
                WaylandUpdate::Toplevel(ToplevelUpdate::Remove(w)) if w.id == 1
            )
        })
        .count();
    assert_eq!(removes, 2);
}

#[test]
fn known_window_is_added_once() {
    let mut d = worker();
    d.new_toplevel(handle(5), info("five"));
    d.new_toplevel(handle(5), info("five again"));
    assert_eq!(d.registry.captures.len(), 1);
}

#[test]
fn matches_capture_filter_reports_membership() {
    let mut d = worker();
    d.handle_request(WaylandRequest::CaptureFilter(filter_of(&[4, 9])));
    assert!(d.matches_capture_filter(handle(4)));
    assert!(d.matches_capture_filter(handle(9)));
    assert!(!d.matches_capture_filter(handle(5)));
}

#[test]
fn for_session_resolves_through_registry() {
    let mut d = worker();
    d.new_toplevel(handle(3), info("three"));
    let found = Capture::for_session(&d.registry, handle(3));
    assert!(found.is_some());
    assert_eq!(found.unwrap().source.id, 3);
    assert!(Capture::for_session(&d.registry, handle(4)).is_none());
}
