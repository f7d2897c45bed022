//! One window's capture handle and the filter of windows the UI wants.

use vstd::prelude::*;

use crate::buffer::{spec_release, Buffer, BufferPool, PoolModel};
use crate::session::{CaptureSession, SessionModel};
use crate::window::WindowHandle;

verus! {

/// The ordered set of windows the UI currently wants captured.
#[derive(Clone, Debug)]
pub struct CaptureFilter {
    pub toplevels: Vec<WindowHandle>,
}

impl CaptureFilter {
    /// Membership, the only thing reconciliation asks of a filter.
    pub open spec fn spec_contains(self, w: WindowHandle) -> bool {
        self.toplevels@.contains(w)
    }

    pub fn contains(&self, w: WindowHandle) -> (r: bool)
        ensures
            r == self.spec_contains(w),
    {
        let mut i: usize = 0;
        while i < self.toplevels.len()
            invariant
                i <= self.toplevels@.len(),
                forall|j: int| 0 <= j < i ==> self.toplevels@[j] != w,
            decreases self.toplevels@.len() - i,
        {
            if self.toplevels[i] == w {
                return true;
            }
            i += 1;
        }
        false
    }
}

impl Default for CaptureFilter {
    /// The empty filter: nothing is captured.
    fn default() -> (f: Self)
        ensures
            f.toplevels@ == Seq::<WindowHandle>::empty(),
    {
        let f = CaptureFilter { toplevels: Vec::new() };
        proof {
            assert(f.toplevels@ =~= Seq::<WindowHandle>::empty());
        }
        f
    }
}

/// One window's capture: the handle it targets, immutable for its lifetime,
/// and at most one live session. Mutual exclusion of sessions is structural:
/// the slot is an `Option`, so two live sessions cannot coexist.
#[derive(Clone, Debug)]
pub struct Capture {
    pub source: WindowHandle,
    pub session: Option<CaptureSession>,
}

/// The mathematical state of a [`Capture`].
pub ghost struct CaptureModel {
    pub source: WindowHandle,
    pub session: Option<SessionModel>,
}

impl View for Capture {
    type V = CaptureModel;

    open spec fn view(&self) -> CaptureModel {
        CaptureModel {
            source: self.source,
            session: match self.session {
                Some(s) => Some(s@),
                None => None,
            },
        }
    }
}

impl CaptureModel {
    /// The buffer this capture's session currently owns, if any.
    pub open spec fn held_buffer(self) -> Option<Buffer> {
        match self.session {
            Some(s) => s.held_buffer(),
            None => None,
        }
    }

    /// The session's buffer, when it has one, is really out of the pool.
    pub open spec fn buffer_ok(self, p: PoolModel) -> bool {
        match self.held_buffer() {
            Some(b) => b.id < p.next_id && !p.free_has_id(b.id),
            None => true,
        }
    }

    /// How many live sessions this capture holds: never more than one.
    pub open spec fn live_session_count(self) -> nat {
        if self.session is Some {
            1
        } else {
            0
        }
    }
}

/// What `Capture::start` leaves behind: a capture without a session gets a
/// fresh negotiating one; a capture that already has a session is untouched.
pub open spec fn capture_started(c: CaptureModel) -> CaptureModel {
    if c.session is None {
        CaptureModel { source: c.source, session: Some(SessionModel::Negotiating(Seq::empty())) }
    } else {
        c
    }
}

/// The pool after a session, if any, gives its buffer back.
pub open spec fn release_session(s: Option<SessionModel>, p: PoolModel) -> PoolModel {
    match s {
        Some(session) => match session.held_buffer() {
            Some(b) => spec_release(p, b).1,
            None => p,
        },
        None => p,
    }
}

impl Capture {
    /// A capture for one window, with no session yet.
    pub fn new(source: WindowHandle) -> (c: Self)
        ensures
            c@ == (CaptureModel { source, session: None }),
    {
        Capture { source, session: None }
    }

    /// Start capturing frames. Idempotent: a capture that already has a
    /// session is left exactly as it is, and `started` reports whether a
    /// create-session protocol call is owed at all.
    pub fn start(&mut self) -> (started: bool)
        ensures
            started == (old(self)@.session is None),
            final(self)@ == capture_started(old(self)@),
            !started ==> *final(self) == *old(self),
    {
        if self.session.is_none() {
            self.session = Some(CaptureSession::new());
            true
        } else {
            false
        }
    }

    /// Stop capturing, releasing the session and any buffer it owns back to
    /// the pool. Can be started again with `start`. Idempotent: stopping a
    /// capture without a session changes nothing and owes no protocol call.
    pub fn stop(&mut self, pool: &mut BufferPool) -> (stopped: bool)
        requires
            old(pool)@.wf(),
        ensures
            final(pool)@.wf(),
            stopped == (old(self)@.session is Some),
            final(self)@ == (CaptureModel { source: old(self)@.source, session: None }),
            final(pool)@ == release_session(old(self)@.session, old(pool)@),
            !stopped ==> *final(self) == *old(self) && final(pool)@ == old(pool)@,
    {
        let s = self.session.take();
        match s {
            None => false,
            Some(session) => {
                match session {
                    CaptureSession::BufferReady { buffer } => {
                        let _ = pool.release(buffer);
                    },
                    CaptureSession::Capturing { buffer } => {
                        let _ = pool.release(buffer);
                    },
                    _ => {},
                }
                true
            },
        }
    }
}

/// A capture never holds two simultaneously live sessions: the session slot
/// is a single option, so its count is at most one.
pub proof fn lemma_at_most_one_session(c: Capture)
    ensures
        c@.live_session_count() <= 1,
{
}

} // verus!
