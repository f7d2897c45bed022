use capture_core::{
    AppData, BufferKind, BufferPool, Capture, CaptureFilter, CaptureSession, FormatOffer,
    WaylandRequest, WaylandUpdate, WindowHandle, WindowInfo,
};

fn handle(id: u64) -> WindowHandle {
    WindowHandle { id }
}

fn info(title: &str) -> WindowInfo {
    WindowInfo {
        title: title.to_string(),
        app_id: "com.example.app".to_string(),
        minimized: false,
        fullscreen: false,
        activated: false,
        workspace: None,
    }
}

fn offer(kind: BufferKind, width: u32, height: u32) -> FormatOffer {
    FormatOffer { kind, width, height }
}

fn filtered_worker(limit: u64, gpu: bool) -> AppData {
    let mut d = AppData::new(limit, gpu, false, true);
    d.handle_request(WaylandRequest::CaptureFilter(CaptureFilter {
        toplevels: vec![handle(1)],
    }));
    d.new_toplevel(handle(1), info("one"));
    d
}

fn session_of(d: &AppData, id: u64) -> Option<&CaptureSession> {
    Capture::for_session(&d.registry, handle(id)).and_then(|c| c.session.as_ref())
}

fn last_image_size(d: &mut AppData) -> Option<(u32, u32, u64)> {
    let updates = d.take_updates();
    updates.iter().rev().find_map(|u| match u {
        WaylandUpdate::ToplevelCapture(_, img) => Some((img.width, img.height, img.buffer.id)),
        _ => None,
    })
}

#[test]
fn negotiation_then_continuous_frames() {
    let mut d = filtered_worker(8, false);
    assert!(matches!(
        session_of(&d, 1),
        Some(CaptureSession::Negotiating { .. })
    ));
    d.on_format_offer(handle(1), offer(BufferKind::Shm, 100, 50));
    d.on_offers_done(handle(1));
    match session_of(&d, 1) {
        Some(CaptureSession::Capturing { buffer }) => {
            assert_eq!(buffer.width, 100);
            assert_eq!(buffer.height, 50);
            assert!(matches!(buffer.kind, BufferKind::Shm));
        }
        other => panic!("expected an armed session, got {:?}", other),
    }
    d.on_frame_ready(handle(1));
    let (w, h, first_id) = last_image_size(&mut d).expect("a frame update");
    assert_eq!((w, h), (100, 50));
    // The loop re-armed with a fresh, never-aliased buffer.
    match session_of(&d, 1) {
        Some(CaptureSession::Capturing { buffer }) => assert_ne!(buffer.id, first_id),
        other => panic!("expected a re-armed session, got {:?}", other),
    }
}

#[test]
fn resize_renegotiates_and_later_frames_have_new_size() {
    let mut d = filtered_worker(8, false);
    d.on_format_offer(handle(1), offer(BufferKind::Shm, 100, 50));
    d.on_offers_done(handle(1));
    d.on_frame_ready(handle(1));
    assert_eq!(last_image_size(&mut d).map(|(w, h, _)| (w, h)), Some((100, 50)));

    // The compositor resized the window while a capture was outstanding.
    d.on_session_resized(handle(1));
    assert!(matches!(
        session_of(&d, 1),
        Some(CaptureSession::Negotiating { .. })
    ));
    d.on_format_offer(handle(1), offer(BufferKind::Shm, 200, 80));
    d.on_offers_done(handle(1));
    d.on_frame_ready(handle(1));
    // The frame after the resize carries the new size, never the stale one.
    assert_eq!(last_image_size(&mut d).map(|(w, h, _)| (w, h)), Some((200, 80)));
}

#[test]
fn gpu_offer_preferred_when_device_available() {
    let mut d = filtered_worker(8, true);
    d.on_format_offer(handle(1), offer(BufferKind::Shm, 64, 64));
    d.on_format_offer(handle(1), offer(BufferKind::Gpu, 64, 64));
    d.on_offers_done(handle(1));
    match session_of(&d, 1) {
        Some(CaptureSession::Capturing { buffer }) => {
            assert!(matches!(buffer.kind, BufferKind::Gpu))
        }
        other => panic!("expected an armed session, got {:?}", other),
    }
}

#[test]
fn shm_is_the_portable_fallback() {
    let mut d = filtered_worker(8, false);
    d.on_format_offer(handle(1), offer(BufferKind::Gpu, 64, 64));
    d.on_format_offer(handle(1), offer(BufferKind::Shm, 64, 64));
    d.on_offers_done(handle(1));
    match session_of(&d, 1) {
        Some(CaptureSession::Capturing { buffer }) => {
            assert!(matches!(buffer.kind, BufferKind::Shm))
        }
        other => panic!("expected an armed session, got {:?}", other),
    }
}

#[test]
fn no_satisfiable_offer_fails_the_session() {
    let mut d = filtered_worker(8, false);
    d.on_format_offer(handle(1), offer(BufferKind::Gpu, 64, 64));
    d.on_offers_done(handle(1));
    assert!(matches!(session_of(&d, 1), Some(CaptureSession::Failed)));
    // A failed session stays down: no frame ever comes.
    d.on_frame_ready(handle(1));
    assert!(d
        .take_updates()
        .iter()
        .all(|u| !matches!(u, WaylandUpdate::ToplevelCapture(..))));
}

#[test]
fn allocation_failure_fails_the_session() {
    let mut d = filtered_worker(0, false);
    d.on_format_offer(handle(1), offer(BufferKind::Shm, 32, 32));
    d.on_offers_done(handle(1));
    assert!(matches!(session_of(&d, 1), Some(CaptureSession::Failed)));
}

#[test]
fn frame_failure_releases_the_buffer_for_reuse() {
    let mut d = filtered_worker(1, false);
    d.on_format_offer(handle(1), offer(BufferKind::Shm, 32, 32));
    d.on_offers_done(handle(1));
    d.on_frame_failed(handle(1));
    assert!(matches!(session_of(&d, 1), Some(CaptureSession::Failed)));
    // The one budgeted buffer came back: a restarted capture can use it.
    d.handle_request(WaylandRequest::CaptureFilter(CaptureFilter { toplevels: vec![] }));
    d.handle_request(WaylandRequest::CaptureFilter(CaptureFilter {
        toplevels: vec![handle(1)],
    }));
    d.on_format_offer(handle(1), offer(BufferKind::Shm, 32, 32));
    d.on_offers_done(handle(1));
    assert!(matches!(
        session_of(&d, 1),
        Some(CaptureSession::Capturing { .. })
    ));
}

#[test]
fn consumed_frame_buffer_returns_and_is_reused() {
    let mut d = filtered_worker(2, false);
    d.on_format_offer(handle(1), offer(BufferKind::Shm, 32, 32));
    d.on_offers_done(handle(1));
    d.on_frame_ready(handle(1));
    let updates = d.take_updates();
    let img = updates
        .iter()
        .find_map(|u| match u {
            WaylandUpdate::ToplevelCapture(_, img) => Some(*img),
            _ => None,
        })
        .expect("a frame update");
    // The UI consumed the frame; its buffer goes back to the pool.
    assert!(d.on_buffer_released(img.buffer));
    // Returning the same buffer twice is refused.
    assert!(!d.on_buffer_released(img.buffer));
    // The next cycle reuses the returned buffer instead of minting.
    d.on_frame_ready(handle(1));
    match session_of(&d, 1) {
        Some(CaptureSession::Capturing { buffer }) => assert_eq!(buffer.id, img.buffer.id),
        other => panic!("expected a re-armed session, got {:?}", other),
    }
}

#[test]
fn pool_never_hands_out_an_owned_buffer() {
    let mut pool = BufferPool::new(4, false);
    let a = pool.acquire(BufferKind::Shm, 10, 10).unwrap();
    let b = pool.acquire(BufferKind::Shm, 10, 10).unwrap();
    assert_ne!(a.id, b.id);
    assert!(pool.release(a));
    let c = pool.acquire(BufferKind::Shm, 10, 10).unwrap();
    // Matching geometry reuses the released buffer rather than minting.
    assert_eq!(c.id, a.id);
    // A buffer the pool never minted, or one already free, is refused.
    assert!(pool.release(b));
    assert!(!pool.release(b));
    let stranger = capture_core::Buffer {
        id: 99,
        kind: BufferKind::Shm,
        width: 10,
        height: 10,
    };
    assert!(!pool.release(stranger));
}

#[test]
fn pool_respects_its_budget() {
    let mut pool = BufferPool::new(1, false);
    let a = pool.acquire(BufferKind::Shm, 10, 10).unwrap();
    assert!(pool.acquire(BufferKind::Shm, 10, 10).is_none());
    assert!(pool.release(a));
    assert!(pool.acquire(BufferKind::Shm, 10, 10).is_some());
}

#[test]
fn gpu_without_device_is_unsatisfiable() {
    let mut pool = BufferPool::new(4, false);
    assert!(pool.acquire(BufferKind::Gpu, 10, 10).is_none());
    let mut gpu_pool = BufferPool::new(4, true);
    assert!(gpu_pool.acquire(BufferKind::Gpu, 10, 10).is_some());
}
