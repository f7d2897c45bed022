//! The per-window screen-capture state machine.
//!
//! One session drives one continuous capture negotiation: format offers
//! accumulate while negotiating, a buffer is acquired once the offer set is
//! complete, a frame request is armed, and each delivered frame re-arms the
//! loop with a fresh buffer. A failure is terminal for the session instance;
//! the owning capture must be stopped and started again to resume.

use vstd::prelude::*;

use crate::buffer::{
    spec_acquire, spec_release, Buffer, BufferKind, BufferPool, CaptureImage, FormatOffer,
    PoolModel,
};

verus! {

/// One continuous capture exchange with the compositor for a single window.
///
/// `Negotiating` accumulates the compositor's format offers until the offer
/// set is complete. `BufferReady` holds the buffer the next frame will be
/// written into. `Capturing` means a frame request is outstanding for that
/// buffer. Frame delivery emits the finished image and re-arms in the same
/// step, so a delivered frame never lingers inside the session. `Failed` is
/// terminal for this session instance.
#[derive(Clone, Debug)]
pub enum CaptureSession {
    Negotiating { offers: Vec<FormatOffer> },
    BufferReady { buffer: Buffer },
    Capturing { buffer: Buffer },
    Failed,
}

/// The mathematical state of a [`CaptureSession`].
pub ghost enum SessionModel {
    Negotiating(Seq<FormatOffer>),
    BufferReady(Buffer),
    Capturing(Buffer),
    Failed,
}

impl View for CaptureSession {
    type V = SessionModel;

    open spec fn view(&self) -> SessionModel {
        match self {
            CaptureSession::Negotiating { offers } => SessionModel::Negotiating(offers@),
            CaptureSession::BufferReady { buffer } => SessionModel::BufferReady(*buffer),
            CaptureSession::Capturing { buffer } => SessionModel::Capturing(*buffer),
            CaptureSession::Failed => SessionModel::Failed,
        }
    }
}

impl SessionModel {
    /// The buffer this session currently owns, if any.
    pub open spec fn held_buffer(self) -> Option<Buffer> {
        match self {
            SessionModel::BufferReady(b) => Some(b),
            SessionModel::Capturing(b) => Some(b),
            _ => None,
        }
    }

    /// The session's buffer, when it has one, is really out of the pool:
    /// minted by it and absent from its free list. The worker maintains this
    /// for every session, which is what makes a released buffer always
    /// welcome back and an acquired buffer never aliased.
    pub open spec fn buffer_ok(self, p: PoolModel) -> bool {
        match self.held_buffer() {
            Some(b) => b.id < p.next_id && !p.free_has_id(b.id),
            None => true,
        }
    }
}

/// The first offer of the given memory kind, in arrival order.
pub open spec fn first_of_kind(offers: Seq<FormatOffer>, kind: BufferKind) -> Option<FormatOffer>
    decreases offers.len(),
{
    if offers.len() == 0 {
        None
    } else if offers[0].kind == kind {
        Some(offers[0])
    } else {
        first_of_kind(offers.drop_first(), kind)
    }
}

/// Which offer a completed negotiation settles on: the first GPU-importable
/// offer when the pool has a GPU device, else the first shared-memory offer
/// as the portable fallback; `None` when no offer can be satisfied.
pub open spec fn choose_offer(offers: Seq<FormatOffer>, gpu_available: bool) -> Option<FormatOffer> {
    if gpu_available && first_of_kind(offers, BufferKind::Gpu) is Some {
        first_of_kind(offers, BufferKind::Gpu)
    } else {
        first_of_kind(offers, BufferKind::Shm)
    }
}

/// A format offer received while negotiating joins the accumulator; in any
/// other state it is stale and ignored.
pub open spec fn session_after_offer(s: SessionModel, offer: FormatOffer) -> SessionModel {
    match s {
        SessionModel::Negotiating(offers) => SessionModel::Negotiating(offers.push(offer)),
        _ => s,
    }
}

/// The offer set is complete: settle on an offer and acquire its buffer.
/// No satisfiable offer, or an allocation failure, ends the session.
pub open spec fn session_after_offers_done(s: SessionModel, p: PoolModel) -> (SessionModel, PoolModel) {
    match s {
        SessionModel::Negotiating(offers) => match choose_offer(offers, p.gpu_available) {
            None => (SessionModel::Failed, p),
            Some(o) => {
                let (r, p2) = spec_acquire(p, o.kind, o.width, o.height);
                match r {
                    Some(b) => (SessionModel::BufferReady(b), p2),
                    None => (SessionModel::Failed, p2),
                }
            },
        },
        _ => (s, p),
    }
}

/// Submitting the frame request for the buffer that stands ready.
pub open spec fn session_after_arm(s: SessionModel) -> SessionModel {
    match s {
        SessionModel::BufferReady(b) => SessionModel::Capturing(b),
        _ => s,
    }
}

/// A frame was delivered into the outstanding buffer: the finished image
/// leaves the session, and a fresh buffer of the same format re-arms the
/// loop — or, when none can be had, the session ends.
pub open spec fn session_after_frame(
    s: SessionModel,
    p: PoolModel,
) -> (Option<CaptureImage>, SessionModel, PoolModel) {
    match s {
        SessionModel::Capturing(b) => {
            let img = CaptureImage { width: b.width, height: b.height, buffer: b };
            let (r, p2) = spec_acquire(p, b.kind, b.width, b.height);
            match r {
                Some(nb) => (Some(img), SessionModel::BufferReady(nb), p2),
                None => (Some(img), SessionModel::Failed, p2),
            }
        },
        _ => (None, s, p),
    }
}

/// A frame failure (output occluded, session destroyed remotely) ends the
/// session and gives any owned buffer back to the pool.
pub open spec fn session_after_failure(s: SessionModel, p: PoolModel) -> (SessionModel, PoolModel) {
    match s.held_buffer() {
        Some(b) => (SessionModel::Failed, spec_release(p, b).1),
        None => (SessionModel::Failed, p),
    }
}

/// The compositor signalled a resize: the current buffer is discarded, never
/// patched in place, and negotiation starts over for the new geometry. A
/// session that already failed stays failed.
pub open spec fn session_after_resize(s: SessionModel, p: PoolModel) -> (SessionModel, PoolModel) {
    match s {
        SessionModel::Failed => (SessionModel::Failed, p),
        _ => match s.held_buffer() {
            Some(b) => (SessionModel::Negotiating(Seq::empty()), spec_release(p, b).1),
            None => (SessionModel::Negotiating(Seq::empty()), p),
        },
    }
}

impl CaptureSession {
    /// A fresh session, waiting for the compositor's format offers.
    pub fn new() -> (s: Self)
        ensures
            s@ == SessionModel::Negotiating(Seq::<FormatOffer>::empty()),
    {
        let s = CaptureSession::Negotiating { offers: Vec::new() };
        proof {
            assert(s@->Negotiating_0 =~= Seq::<FormatOffer>::empty());
        }
        s
    }

    /// Accumulate one format offer, per [`session_after_offer`].
    pub fn on_format_offer(&mut self, offer: FormatOffer)
        ensures
            final(self)@ == session_after_offer(old(self)@, offer),
    {
        match self {
            CaptureSession::Negotiating { offers } => {
                offers.push(offer);
            },
            _ => {},
        }
    }

    /// The offer set is complete: settle and acquire, per
    /// [`session_after_offers_done`].
    pub fn on_offers_done(&mut self, pool: &mut BufferPool)
        requires
            old(pool)@.wf(),
        ensures
            final(pool)@.wf(),
            (final(self)@, final(pool)@) == session_after_offers_done(old(self)@, old(pool)@),
    {
        let chosen: Option<FormatOffer> = match &*self {
            // can_satisfy(Gpu) holds exactly when a GPU device is available
            CaptureSession::Negotiating { offers } => choose_offer_exec(offers, pool.can_satisfy(BufferKind::Gpu)),
            _ => {
                return;
            },
        };
        match chosen {
            None => {
                *self = CaptureSession::Failed;
            },
            Some(o) => match pool.acquire(o.kind, o.width, o.height) {
                Some(b) => {
                    *self = CaptureSession::BufferReady { buffer: b };
                },
                None => {
                    *self = CaptureSession::Failed;
                },
            },
        }
    }

    /// Submit the frame request, per [`session_after_arm`].
    pub fn arm(&mut self)
        ensures
            final(self)@ == session_after_arm(old(self)@),
    {
        match &*self {
            CaptureSession::BufferReady { buffer } => {
                let b = *buffer;
                *self = CaptureSession::Capturing { buffer: b };
            },
            _ => {},
        }
    }

    /// A frame was delivered, per [`session_after_frame`].
    pub fn on_frame_ready(&mut self, pool: &mut BufferPool) -> (img: Option<CaptureImage>)
        requires
            old(pool)@.wf(),
        ensures
            final(pool)@.wf(),
            (img, final(self)@, final(pool)@) == session_after_frame(old(self)@, old(pool)@),
    {
        let b: Buffer = match &*self {
            CaptureSession::Capturing { buffer } => *buffer,
            _ => {
                return None;
            },
        };
        let img = CaptureImage { width: b.width, height: b.height, buffer: b };
        match pool.acquire(b.kind, b.width, b.height) {
            Some(nb) => {
                *self = CaptureSession::BufferReady { buffer: nb };
            },
            None => {
                *self = CaptureSession::Failed;
            },
        }
        Some(img)
    }

    /// A frame failure ends the session, per [`session_after_failure`].
    pub fn on_frame_failed(&mut self, pool: &mut BufferPool)
        requires
            old(pool)@.wf(),
        ensures
            final(pool)@.wf(),
            (final(self)@, final(pool)@) == session_after_failure(old(self)@, old(pool)@),
    {
        let held: Option<Buffer> = match &*self {
            CaptureSession::BufferReady { buffer } => Some(*buffer),
            CaptureSession::Capturing { buffer } => Some(*buffer),
            _ => None,
        };
        if let Some(b) = held {
            let _ = pool.release(b);
        }
        *self = CaptureSession::Failed;
    }

    /// A resize discards the buffer and renegotiates, per
    /// [`session_after_resize`].
    pub fn on_resize(&mut self, pool: &mut BufferPool)
        requires
            old(pool)@.wf(),
        ensures
            final(pool)@.wf(),
            (final(self)@, final(pool)@) == session_after_resize(old(self)@, old(pool)@),
    {
        match &*self {
            CaptureSession::Failed => {
                return;
            },
            CaptureSession::BufferReady { buffer } => {
                let b = *buffer;
                let _ = pool.release(b);
            },
            CaptureSession::Capturing { buffer } => {
                let b = *buffer;
                let _ = pool.release(b);
            },
            CaptureSession::Negotiating { .. } => {},
        }
        *self = CaptureSession::Negotiating { offers: Vec::new() };
        proof {
            assert(self@->Negotiating_0 =~= Seq::<FormatOffer>::empty());
        }
    }
}

/// A delivered frame's dimensions are exactly the dimensions of the buffer
/// the session negotiated: a frame only leaves a capturing session, and the
/// image it leaves in carries that session's buffer unchanged. A resize
/// discards the session's buffer and forces renegotiation before any
/// further frame, so no frame after a resize can carry the stale size.
pub proof fn lemma_frame_matches_negotiated_size(s: SessionModel, p: PoolModel)
    ensures
        session_after_frame(s, p).0 matches Some(img) ==> (s matches SessionModel::Capturing(b)
            && img.width == b.width && img.height == b.height && img.buffer == b),
        s is Negotiating ==> session_after_frame(s, p).0 is None,
{
}

/// First offer of `kind`, by scan; matches [`first_of_kind`].
fn find_first_of_kind(offers: &Vec<FormatOffer>, kind: BufferKind) -> (r: Option<FormatOffer>)
    ensures
        r == first_of_kind(offers@, kind),
{
    let mut i: usize = 0;
    while i < offers.len()
        invariant
            i <= offers@.len(),
            forall|j: int| 0 <= j < i ==> offers@[j].kind != kind,
        decreases offers@.len() - i,
    {
        let o = offers[i];
        if o.kind == kind {
            proof {
                lemma_first_of_kind_first(offers@, kind, i as int);
            }
            return Some(o);
        }
        i += 1;
    }
    proof {
        lemma_first_of_kind_none(offers@, kind);
    }
    None
}

/// Which offer a completed negotiation settles on; matches [`choose_offer`].
fn choose_offer_exec(offers: &Vec<FormatOffer>, gpu_available: bool) -> (r: Option<FormatOffer>)
    ensures
        r == choose_offer(offers@, gpu_available),
{
    if gpu_available {
        match find_first_of_kind(offers, BufferKind::Gpu) {
            Some(o) => Some(o),
            None => find_first_of_kind(offers, BufferKind::Shm),
        }
    } else {
        find_first_of_kind(offers, BufferKind::Shm)
    }
}

proof fn lemma_first_of_kind_first(offers: Seq<FormatOffer>, kind: BufferKind, i: int)
    requires
        0 <= i < offers.len(),
        offers[i].kind == kind,
        forall|j: int| 0 <= j < i ==> offers[j].kind != kind,
    ensures
        first_of_kind(offers, kind) == Some(offers[i]),
    decreases offers.len(),
{
    if i == 0 {
    } else {
        assert(offers.drop_first()[i - 1] == offers[i]);
        assert(forall|j: int| 0 <= j < i - 1 ==> offers.drop_first()[j] == offers[j + 1]);
        lemma_first_of_kind_first(offers.drop_first(), kind, i - 1);
    }
}

proof fn lemma_first_of_kind_none(offers: Seq<FormatOffer>, kind: BufferKind)
    requires
        forall|j: int| 0 <= j < offers.len() ==> offers[j].kind != kind,
    ensures
        first_of_kind(offers, kind) is None,
    decreases offers.len(),
{
    if offers.len() == 0 {
    } else {
        assert(forall|j: int| 0 <= j < offers.len() - 1 ==> offers.drop_first()[j] == offers[j + 1]);
        lemma_first_of_kind_none(offers.drop_first(), kind);
    }
}

} // verus!
