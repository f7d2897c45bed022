use capture_core::{
    Action, AppData, BufferKind, CaptureFilter, FormatOffer, ToplevelRequest, ToplevelUpdate,
    WaylandRequest, WaylandUpdate, WindowHandle, WindowInfo, Workspace, WorkspaceGroup,
    WorkspaceHandle, ExecRequestData,
};

fn handle(id: u64) -> WindowHandle {
    WindowHandle { id }
}

fn info(title: &str) -> WindowInfo {
    WindowInfo {
        title: title.to_string(),
        app_id: "com.example.app".to_string(),
        minimized: false,
        fullscreen: false,
        activated: false,
        workspace: None,
    }
}

fn token_request() -> WaylandRequest {
    WaylandRequest::TokenRequest {
        app_id: "com.example.app".to_string(),
        exec_cmd: "example --flag".to_string(),
        gpu_idx: Some(1),
    }
}

#[test]
fn token_request_without_support_answers_at_once() {
    let mut d = AppData::new(4, false, false, true);
    d.handle_request(token_request());
    let updates = d.take_updates();
    // Exactly one answer, in the same dispatch step, with an empty token.
    assert_eq!(updates.len(), 1);
    match &updates[0] {
        WaylandUpdate::ActivationToken { token, exec_cmd, gpu_idx } => {
            assert!(token.is_none());
            assert_eq!(exec_cmd, "example --flag");
            assert_eq!(*gpu_idx, Some(1));
        }
        other => panic!("expected a token answer, got {:?}", other),
    }
    assert!(d.take_actions().is_empty());
}

#[test]
fn token_request_with_support_goes_to_the_compositor() {
    let mut d = AppData::new(4, false, true, true);
    d.handle_request(token_request());
    assert!(d.take_updates().is_empty());
    let actions = d.take_actions();
    assert_eq!(actions.len(), 1);
    assert!(matches!(&actions[0], Action::RequestToken { .. }));
}

#[test]
fn minted_token_is_forwarded() {
    let mut d = AppData::new(4, false, true, true);
    let data = ExecRequestData {
        app_id: Some("com.example.app".to_string()),
        exec_cmd: "example".to_string(),
        gpu_idx: None,
    };
    assert_eq!(data.app_id().as_deref(), Some("com.example.app"));
    d.new_token("tok-123".to_string(), &data);
    let updates = d.take_updates();
    assert_eq!(updates.len(), 1);
    match &updates[0] {
        WaylandUpdate::ActivationToken { token, exec_cmd, gpu_idx } => {
            assert_eq!(token.as_deref(), Some("tok-123"));
            assert_eq!(exec_cmd, "example");
            assert!(gpu_idx.is_none());
        }
        other => panic!("expected a token answer, got {:?}", other),
    }
}

#[test]
fn activation_needs_a_seat() {
    let mut seatless = AppData::new(4, false, true, false);
    seatless.handle_request(WaylandRequest::Toplevel(ToplevelRequest::Activate(handle(1))));
    assert!(seatless.take_actions().is_empty());

    let mut seated = AppData::new(4, false, true, true);
    seated.handle_request(WaylandRequest::Toplevel(ToplevelRequest::Activate(handle(1))));
    let actions = seated.take_actions();
    assert_eq!(actions.len(), 1);
    assert!(matches!(&actions[0], Action::Activate(w) if w.id == 1));
}

#[test]
fn minimize_and_close_are_one_shot_calls() {
    let mut d = AppData::new(4, false, true, true);
    d.handle_request(WaylandRequest::Toplevel(ToplevelRequest::Minimize(handle(2))));
    d.handle_request(WaylandRequest::Toplevel(ToplevelRequest::Quit(handle(3))));
    let actions = d.take_actions();
    assert_eq!(actions.len(), 2);
    assert!(matches!(&actions[0], Action::Minimize(w) if w.id == 2));
    assert!(matches!(&actions[1], Action::Quit(w) if w.id == 3));
    // No local state changed: the compositor's answer arrives as an event.
    assert!(d.take_updates().is_empty());
    assert!(d.registry.captures.is_empty());
}

#[test]
fn done_announces_the_first_active_workspace() {
    let mut d = AppData::new(4, false, true, true);
    d.set_workspaces(vec![
        WorkspaceGroup {
            workspaces: vec![Workspace { handle: WorkspaceHandle { id: 10 }, active: false }],
        },
        WorkspaceGroup {
            workspaces: vec![
                Workspace { handle: WorkspaceHandle { id: 20 }, active: true },
                Workspace { handle: WorkspaceHandle { id: 21 }, active: true },
            ],
        },
    ]);
    d.done();
    let updates = d.take_updates();
    assert_eq!(updates.len(), 1);
    match &updates[0] {
        WaylandUpdate::Workspace(capture_core::WorkspaceUpdate::Enter(h)) => {
            assert_eq!(h.id, 20)
        }
        other => panic!("expected a workspace update, got {:?}", other),
    }
}

#[test]
fn done_is_silent_without_an_active_workspace() {
    let mut d = AppData::new(4, false, true, true);
    d.set_workspaces(vec![WorkspaceGroup {
        workspaces: vec![Workspace { handle: WorkspaceHandle { id: 10 }, active: false }],
    }]);
    d.done();
    assert!(d.take_updates().is_empty());
}

#[test]
fn channel_closure_is_a_clean_shutdown() {
    let mut d = AppData::new(4, false, true, true);
    assert!(!d.exit);
    d.on_channel_closed();
    assert!(d.exit);
    let updates = d.take_updates();
    assert_eq!(updates.len(), 1);
    assert!(matches!(&updates[0], WaylandUpdate::Finished));
}

#[test]
fn frame_follows_add_and_stops_after_filter_clears() {
    let mut d = AppData::new(8, false, true, true);
    d.handle_request(WaylandRequest::CaptureFilter(CaptureFilter {
        toplevels: vec![handle(1)],
    }));
    d.new_toplevel(handle(1), info("one"));
    d.on_format_offer(handle(1), FormatOffer { kind: BufferKind::Shm, width: 40, height: 30 });
    d.on_offers_done(handle(1));
    d.on_frame_ready(handle(1));

    let updates = d.take_updates();
    let add_at = updates
        .iter()
        .position(|u| matches!(u, WaylandUpdate::Toplevel(ToplevelUpdate::Add(w, _)) if w.id == 1))
        .expect("an add update");
    let frame_at = updates
        .iter()
        .position(|u| matches!(u, WaylandUpdate::ToplevelCapture(w, _) if w.id == 1))
        .expect("a frame update");
    // For a single window the add always precedes its frames.
    assert!(add_at < frame_at);

    // Filter cleared: the session stops, and no further frame is emitted.
    d.handle_request(WaylandRequest::CaptureFilter(CaptureFilter { toplevels: vec![] }));
    d.on_frame_ready(handle(1));
    assert!(d
        .take_updates()
        .iter()
        .all(|u| !matches!(u, WaylandUpdate::ToplevelCapture(..))));

    // The window closes; a second close event is harmless.
    d.toplevel_closed(handle(1));
    d.toplevel_closed(handle(1));
    let updates = d.take_updates();
    assert!(updates
        .iter()
        .any(|u| matches!(u, WaylandUpdate::Toplevel(ToplevelUpdate::Remove(w)) if w.id == 1)));
}

#[test]
fn info_updates_replace_wholesale() {
    let mut d = AppData::new(4, false, true, true);
    d.new_toplevel(handle(1), info("before"));
    d.update_toplevel(handle(1), info("after"));
    let updates = d.take_updates();
    match &updates[1] {
        WaylandUpdate::Toplevel(ToplevelUpdate::Update(w, i)) => {
            assert_eq!(w.id, 1);
            assert_eq!(i.title, "after");
        }
        other => panic!("expected an info update, got {:?}", other),
    }
}

#[test]
fn send_event_reaches_the_outbox_in_order() {
    let mut d = AppData::new(4, false, true, true);
    d.send_event(WaylandUpdate::ActivationToken {
        token: None,
        exec_cmd: "a".to_string(),
        gpu_idx: None,
    });
    d.send_event(WaylandUpdate::Finished);
    let updates = d.take_updates();
    assert_eq!(updates.len(), 2);
    assert!(matches!(&updates[0], WaylandUpdate::ActivationToken { .. }));
    assert!(matches!(&updates[1], WaylandUpdate::Finished));
    assert!(d.take_updates().is_empty());
}
